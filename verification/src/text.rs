//! Text on character sequences: the views of `str` and `String` are `Seq<char>`,
//! and everything here is stated over those views.
use vstd::prelude::*;

verus! {

/// Appends one character to a string (`String::push`).
/// Trusted: the new view is the old view with `c` at the end.
#[verifier::external_body]
pub(crate) fn push_char(s: &mut String, c: char)
    ensures
        final(s)@ == old(s)@.push(c),
{
    s.push(c);
}

/// The characters of a string slice, in order.
pub fn chars_of(s: &str) -> (r: Vec<char>)
    ensures
        r@ == s@,
{
    let mut out: Vec<char> = Vec::new();
    for c in it: s.chars()
        invariant
            it.seq() == s@,
            out@ == it.seq().subrange(0, it.index() as int),
    {
        out.push(c);
        assert(out@ =~= it.seq().subrange(0, it.index() + 1));
    }
    assert(out@ =~= s@);
    out
}

/// A string holding exactly the given characters.
pub fn string_of(cs: &Vec<char>) -> (r: String)
    ensures
        r@ == cs@,
{
    let mut out = String::new();
    let mut i: usize = 0;
    while i < cs.len()
        invariant
            i <= cs.len(),
            out@ == cs@.subrange(0, i as int),
        decreases cs.len() - i,
    {
        push_char(&mut out, cs[i]);
        i = i + 1;
        assert(out@ =~= cs@.subrange(0, i as int));
    }
    assert(cs@.subrange(0, cs.len() as int) =~= cs@);
    out
}

} // verus!

verus! {

/// Unicode `White_Space`, the set that `char::is_whitespace` and `str::trim` use.
pub open spec fn is_space(c: char) -> bool {
    let u = c as u32;
    ||| 0x9 <= u <= 0xd
    ||| u == 0x20
    ||| u == 0x85
    ||| u == 0xa0
    ||| u == 0x1680
    ||| 0x2000 <= u <= 0x200a
    ||| u == 0x2028
    ||| u == 0x2029
    ||| u == 0x202f
    ||| u == 0x205f
    ||| u == 0x3000
}

pub fn char_is_space(c: char) -> (r: bool)
    ensures
        r == is_space(c),
{
    let u = c as u32;
    (0x9 <= u && u <= 0xd) || u == 0x20 || u == 0x85 || u == 0xa0 || u == 0x1680 || (0x2000 <= u
        && u <= 0x200a) || u == 0x2028 || u == 0x2029 || u == 0x202f || u == 0x205f || u == 0x3000
}

/// `s` with leading characters removed while `p` holds of them.
pub open spec fn trim_start_by(s: Seq<char>, p: spec_fn(char) -> bool) -> Seq<char>
    decreases s.len(),
{
    if s.len() > 0 && p(s[0]) {
        trim_start_by(s.drop_first(), p)
    } else {
        s
    }
}

/// `s` with trailing characters removed while `p` holds of them.
pub open spec fn trim_end_by(s: Seq<char>, p: spec_fn(char) -> bool) -> Seq<char>
    decreases s.len(),
{
    if s.len() > 0 && p(s.last()) {
        trim_end_by(s.drop_last(), p)
    } else {
        s
    }
}

pub open spec fn space_pred() -> spec_fn(char) -> bool {
    |c: char| is_space(c)
}

pub open spec fn char_pred(x: char) -> spec_fn(char) -> bool {
    |c: char| c == x
}

/// `str::trim`: whitespace removed at both ends.
pub open spec fn trim(s: Seq<char>) -> Seq<char> {
    trim_end_by(trim_start_by(s, space_pred()), space_pred())
}

/// `str::trim_matches(x)` for one character `x`.
pub open spec fn trim_char(s: Seq<char>, x: char) -> Seq<char> {
    trim_end_by(trim_start_by(s, char_pred(x)), char_pred(x))
}

proof fn lemma_trim_start_step(s: Seq<char>, i: int, p: spec_fn(char) -> bool)
    requires
        0 <= i < s.len(),
        p(s[i]),
    ensures
        trim_start_by(s.subrange(i, s.len() as int), p) == trim_start_by(
            s.subrange(i + 1, s.len() as int),
            p,
        ),
{
    assert(s.subrange(i, s.len() as int).drop_first() =~= s.subrange(i + 1, s.len() as int));
}

proof fn lemma_trim_end_step(s: Seq<char>, j: int, p: spec_fn(char) -> bool)
    requires
        0 < j <= s.len(),
        p(s[j - 1]),
    ensures
        trim_end_by(s.subrange(0, j), p) == trim_end_by(s.subrange(0, j - 1), p),
{
    assert(s.subrange(0, j).drop_last() =~= s.subrange(0, j - 1));
}

/// The bounds `[a, b)` of `trim(v)` inside `v`.
pub fn trim_bounds(v: &Vec<char>) -> (r: (usize, usize))
    ensures
        r.0 <= r.1 <= v.len(),
        v@.subrange(r.0 as int, r.1 as int) == trim(v@),
{
    let n = v.len();
    let mut a: usize = 0;
    assert(v@.subrange(0, n as int) =~= v@);
    while a < n && char_is_space(v[a])
        invariant
            a <= n == v.len(),
            trim_start_by(v@, space_pred()) == trim_start_by(v@.subrange(a as int, n as int), space_pred()),
        decreases n - a,
    {
        proof {
            lemma_trim_start_step(v@, a as int, space_pred());
        }
        a = a + 1;
    }
    let ghost t = v@.subrange(a as int, n as int);
    assert(trim_start_by(t, space_pred()) == t);
    let mut b: usize = n;
    assert(t.subrange(0, (n - a) as int) =~= t);
    while b > a && char_is_space(v[b - 1])
        invariant
            a <= b <= n == v.len(),
            t == v@.subrange(a as int, n as int),
            trim_end_by(t, space_pred()) == trim_end_by(t.subrange(0, (b - a) as int), space_pred()),
        decreases b,
    {
        proof {
            lemma_trim_end_step(t, (b - a) as int, space_pred());
        }
        b = b - 1;
    }
    assert(t.subrange(0, (b - a) as int) =~= v@.subrange(a as int, b as int));
    (a, b)
}

/// The characters `v[a..b]`.
pub fn slice_chars(v: &Vec<char>, a: usize, b: usize) -> (r: Vec<char>)
    requires
        a <= b <= v.len(),
    ensures
        r@ == v@.subrange(a as int, b as int),
{
    let mut out: Vec<char> = Vec::new();
    let mut i = a;
    while i < b
        invariant
            a <= i <= b <= v.len(),
            out@ == v@.subrange(a as int, i as int),
        decreases b - i,
    {
        out.push(v[i]);
        i = i + 1;
        assert(out@ =~= v@.subrange(a as int, i as int));
    }
    out
}

pub fn trim_vec(v: &Vec<char>) -> (r: Vec<char>)
    ensures
        r@ == trim(v@),
{
    let (a, b) = trim_bounds(v);
    slice_chars(v, a, b)
}

/// `str::trim_matches(x)` for one character.
pub fn trim_char_vec(v: &Vec<char>, x: char) -> (r: Vec<char>)
    ensures
        r@ == trim_char(v@, x),
{
    let n = v.len();
    let mut a: usize = 0;
    assert(v@.subrange(0, n as int) =~= v@);
    while a < n && v[a] == x
        invariant
            a <= n == v.len(),
            trim_start_by(v@, char_pred(x)) == trim_start_by(v@.subrange(a as int, n as int), char_pred(x)),
        decreases n - a,
    {
        proof {
            lemma_trim_start_step(v@, a as int, char_pred(x));
        }
        a = a + 1;
    }
    let ghost t = v@.subrange(a as int, n as int);
    assert(trim_start_by(t, char_pred(x)) == t);
    let mut b: usize = n;
    assert(t.subrange(0, (n - a) as int) =~= t);
    while b > a && v[b - 1] == x
        invariant
            a <= b <= n == v.len(),
            t == v@.subrange(a as int, n as int),
            trim_end_by(t, char_pred(x)) == trim_end_by(t.subrange(0, (b - a) as int), char_pred(x)),
        decreases b,
    {
        proof {
            lemma_trim_end_step(t, (b - a) as int, char_pred(x));
        }
        b = b - 1;
    }
    assert(t.subrange(0, (b - a) as int) =~= v@.subrange(a as int, b as int));
    slice_chars(v, a, b)
}

} // verus!

verus! {

pub open spec fn is_prefix(p: Seq<char>, s: Seq<char>) -> bool {
    p.len() <= s.len() && s.subrange(0, p.len() as int) == p
}

/// `str::contains` with a string pattern: `needle` occurs at some position of `hay`.
pub open spec fn occurs_in(needle: Seq<char>, hay: Seq<char>) -> bool {
    exists|i: int| 0 <= i <= hay.len() - needle.len() && #[trigger] hay.subrange(i, i + needle.len()) == needle
}

/// Whether `v[at..]` begins with `p`.
pub fn has_prefix_at(v: &Vec<char>, at: usize, p: &Vec<char>) -> (r: bool)
    requires
        at <= v.len(),
    ensures
        r == (at + p.len() <= v.len() && v@.subrange(at as int, at + p.len()) == p@),
{
    if p.len() > v.len() - at {
        return false;
    }
    let mut i: usize = 0;
    while i < p.len()
        invariant
            at + p.len() <= v.len(),
            i <= p.len(),
            forall|k: int| 0 <= k < i ==> v@[at + k] == p@[k],
        decreases p.len() - i,
    {
        if v[at + i] != p[i] {
            assert(v@.subrange(at as int, at + p.len())[i as int] != p@[i as int]);
            return false;
        }
        i = i + 1;
    }
    assert(v@.subrange(at as int, at + p.len()) =~= p@);
    true
}

pub fn vec_eq(a: &Vec<char>, b: &Vec<char>) -> (r: bool)
    ensures
        r == (a@ == b@),
{
    if a.len() != b.len() {
        return false;
    }
    let r = has_prefix_at(a, 0, b);
    assert(a@.subrange(0, b.len() as int) =~= a@);
    r
}

/// Whether the characters of `v` are those of `s`.
pub fn eq_str(v: &Vec<char>, s: &str) -> (r: bool)
    ensures
        r == (v@ == s@),
{
    let w = chars_of(s);
    vec_eq(v, &w)
}

pub fn starts_with_str(v: &Vec<char>, s: &str) -> (r: bool)
    ensures
        r == is_prefix(s@, v@),
{
    let w = chars_of(s);
    has_prefix_at(v, 0, &w)
}

/// `str::contains`: naive search for `needle` in `hay`.
pub fn contains_vec(hay: &Vec<char>, needle: &Vec<char>) -> (r: bool)
    ensures
        r == occurs_in(needle@, hay@),
{
    if needle.len() > hay.len() {
        return false;
    }
    let last = hay.len() - needle.len();
    let mut i: usize = 0;
    while i <= last
        invariant
            last == hay.len() - needle.len(),
            i <= last + 1,
            forall|k: int| 0 <= k < i ==> #[trigger] hay@.subrange(k, k + needle.len()) != needle@,
        decreases last + 1 - i,
    {
        if has_prefix_at(hay, i, needle) {
            return true;
        }
        if i == last {
            return false;
        }
        i = i + 1;
    }
    false
}

/// Lexicographic order on characters by code point, which is the byte order of
/// UTF-8 text and so the order of `str`'s `Ord`.
pub open spec fn text_lt(a: Seq<char>, b: Seq<char>) -> bool
    decreases a.len(),
{
    if a.len() == 0 {
        b.len() > 0
    } else if b.len() == 0 {
        false
    } else if (a[0] as int) < (b[0] as int) {
        true
    } else if a[0] == b[0] {
        text_lt(a.drop_first(), b.drop_first())
    } else {
        false
    }
}

pub proof fn lemma_text_lt_irrefl(a: Seq<char>)
    ensures
        !text_lt(a, a),
    decreases a.len(),
{
    if a.len() > 0 {
        lemma_text_lt_irrefl(a.drop_first());
    }
}

pub proof fn lemma_text_lt_trans(a: Seq<char>, b: Seq<char>, c: Seq<char>)
    requires
        text_lt(a, b),
        text_lt(b, c),
    ensures
        text_lt(a, c),
    decreases a.len(),
{
    if a.len() > 0 && b.len() > 0 && c.len() > 0 && a[0] == b[0] && b[0] == c[0] {
        lemma_text_lt_trans(a.drop_first(), b.drop_first(), c.drop_first());
    }
}

pub proof fn lemma_text_lt_total(a: Seq<char>, b: Seq<char>)
    ensures
        text_lt(a, b) || text_lt(b, a) || a == b,
    decreases a.len(),
{
    if a.len() > 0 && b.len() > 0 && a[0] == b[0] {
        lemma_text_lt_total(a.drop_first(), b.drop_first());
        if a.drop_first() == b.drop_first() {
            assert(a =~= seq![a[0]] + a.drop_first());
            assert(b =~= seq![b[0]] + b.drop_first());
        }
    } else if a.len() == 0 && b.len() == 0 {
        assert(a =~= b);
    } else if a.len() > 0 && b.len() > 0 {
        assert(a[0] as int != b[0] as int);
    }
}

pub proof fn lemma_text_lt_asym(a: Seq<char>, b: Seq<char>)
    requires
        text_lt(a, b),
    ensures
        !text_lt(b, a),
{
    if text_lt(b, a) {
        lemma_text_lt_trans(a, b, a);
        lemma_text_lt_irrefl(a);
    }
}

/// `a < b` in the order of `text_lt`.
pub fn vec_lt(a: &Vec<char>, b: &Vec<char>) -> (r: bool)
    ensures
        r == text_lt(a@, b@),
{
    let mut i: usize = 0;
    proof {
        assert(a@.subrange(0, a.len() as int) =~= a@);
        assert(b@.subrange(0, b.len() as int) =~= b@);
    }
    while i < a.len() && i < b.len() && a[i] == b[i]
        invariant
            i <= a.len(),
            i <= b.len(),
            text_lt(a@, b@) == text_lt(a@.subrange(i as int, a.len() as int), b@.subrange(i as int, b.len() as int)),
        decreases a.len() - i,
    {
        assert(a@.subrange(i as int, a.len() as int).drop_first() =~= a@.subrange(i + 1, a.len() as int));
        assert(b@.subrange(i as int, b.len() as int).drop_first() =~= b@.subrange(i + 1, b.len() as int));
        i = i + 1;
    }
    if i == a.len() {
        i < b.len()
    } else if i == b.len() {
        false
    } else {
        a[i] < b[i]
    }
}

pub fn str_lt(a: &str, b: &str) -> (r: bool)
    ensures
        r == text_lt(a@, b@),
{
    let x = chars_of(a);
    let y = chars_of(b);
    vec_lt(&x, &y)
}

} // verus!

verus! {

/// Index of the first `'\n'` at or after `i`, or `s.len()` when there is none.
pub open spec fn next_newline(s: Seq<char>, i: int) -> int
    decreases s.len() - i,
{
    if i >= s.len() {
        s.len() as int
    } else if s[i] == '\n' {
        i
    } else {
        next_newline(s, i + 1)
    }
}

pub proof fn lemma_next_newline(s: Seq<char>, i: int)
    requires
        0 <= i <= s.len(),
    ensures
        i <= next_newline(s, i) <= s.len(),
        next_newline(s, i) < s.len() ==> s[next_newline(s, i)] == '\n',
        forall|k: int| i <= k < next_newline(s, i) ==> s[k] != '\n',
    decreases s.len() - i,
{
    if i < s.len() && s[i] != '\n' {
        lemma_next_newline(s, i + 1);
    }
}

/// A line without its `'\r'` when it has one at the end.
pub open spec fn strip_cr(l: Seq<char>) -> Seq<char> {
    if l.len() > 0 && l.last() == '\r' {
        l.drop_last()
    } else {
        l
    }
}

/// `str::lines` of `s[i..]`: pieces ended by `'\n'` (and a `'\r'` just before
/// it), the last piece kept only when it is not empty.
pub open spec fn lines_from(s: Seq<char>, i: int) -> Seq<Seq<char>>
    decreases s.len() - i,
{
    if i < 0 || i >= s.len() {
        seq![]
    } else {
        let e = next_newline(s, i);
        if e >= s.len() {
            seq![s.subrange(i, s.len() as int)]
        } else {
            proof {
                lemma_next_newline(s, i);
            }
            seq![strip_cr(s.subrange(i, e))] + lines_from(s, e + 1)
        }
    }
}

/// `str::lines`.
pub open spec fn lines(s: Seq<char>) -> Seq<Seq<char>> {
    lines_from(s, 0)
}

/// The lines of `v`, as `str::lines` splits them.
pub fn split_lines(v: &Vec<char>) -> (r: Vec<Vec<char>>)
    ensures
        r@.map_values(|l: Vec<char>| l@) == lines(v@),
{
    let n = v.len();
    let mut out: Vec<Vec<char>> = Vec::new();
    let mut i: usize = 0;
    assert(out@.map_values(|l: Vec<char>| l@) + lines_from(v@, 0) =~= lines(v@));
    while i < n
        invariant
            n == v.len(),
            i <= n,
            out@.map_values(|l: Vec<char>| l@) + lines_from(v@, i as int) == lines(v@),
        decreases n - i,
    {
        let mut e = i;
        while e < n && v[e] != '\n'
            invariant
                i <= e <= n == v.len(),
                next_newline(v@, i as int) == next_newline(v@, e as int),
            decreases n - e,
        {
            e = e + 1;
        }
        proof {
            lemma_next_newline(v@, i as int);
        }
        let ghost before = out@.map_values(|l: Vec<char>| l@);
        if e == n {
            let piece = slice_chars(v, i, n);
            out.push(piece);
            assert(out@.map_values(|l: Vec<char>| l@) =~= before.push(v@.subrange(i as int, n as int)));
            assert(lines_from(v@, n as int) =~= seq![]);
            assert(before + lines_from(v@, i as int) =~= out@.map_values(|l: Vec<char>| l@) + lines_from(v@, n as int));
            i = n;
        } else {
            let mut end = e;
            if end > i && v[end - 1] == '\r' {
                end = end - 1;
            }
            let piece = slice_chars(v, i, end);
            assert(piece@ == strip_cr(v@.subrange(i as int, e as int))) by {
                if e > i && v@[e - 1] == '\r' {
                    assert(v@.subrange(i as int, e as int).drop_last() =~= v@.subrange(i as int, (e - 1) as int));
                }
            }
            out.push(piece);
            assert(out@.map_values(|l: Vec<char>| l@) =~= before.push(piece@));
            assert(before + lines_from(v@, i as int) =~= out@.map_values(|l: Vec<char>| l@) + lines_from(v@, e + 1));
            i = e + 1;
        }
    }
    assert(lines_from(v@, i as int) =~= seq![]);
    assert(out@.map_values(|l: Vec<char>| l@) =~= lines(v@));
    out
}

} // verus!

verus! {

/// `parts` joined with `sep` between neighbours (`[T]::join`).
pub open spec fn join(parts: Seq<Seq<char>>, sep: Seq<char>) -> Seq<char>
    decreases parts.len(),
{
    if parts.len() == 0 {
        seq![]
    } else if parts.len() == 1 {
        parts[0]
    } else {
        join(parts.drop_last(), sep) + sep + parts.last()
    }
}

/// Appends the characters of `w` to `out`.
pub fn append_chars(out: &mut Vec<char>, w: &Vec<char>)
    ensures
        final(out)@ == old(out)@ + w@,
{
    let mut i: usize = 0;
    while i < w.len()
        invariant
            i <= w.len(),
            out@ == old(out)@ + w@.subrange(0, i as int),
        decreases w.len() - i,
    {
        out.push(w[i]);
        i = i + 1;
        assert(out@ =~= old(out)@ + w@.subrange(0, i as int));
    }
    assert(w@.subrange(0, w.len() as int) =~= w@);
}

pub fn append_str(out: &mut Vec<char>, s: &str)
    ensures
        final(out)@ == old(out)@ + s@,
{
    let w = chars_of(s);
    append_chars(out, &w);
}

/// `parts.join(sep)` on strings.
pub fn join_strings(parts: &Vec<String>, sep: &str) -> (r: String)
    ensures
        r@ == join(parts@.map_values(|p: String| p@), sep@),
{
    let ghost views = parts@.map_values(|p: String| p@);
    let mut out: Vec<char> = Vec::new();
    let mut i: usize = 0;
    while i < parts.len()
        invariant
            i <= parts.len(),
            views == parts@.map_values(|p: String| p@),
            out@ == join(views.subrange(0, i as int), sep@),
        decreases parts.len() - i,
    {
        if i > 0 {
            append_str(&mut out, sep);
        }
        append_str(&mut out, parts[i].as_str());
        proof {
            let t = views.subrange(0, i + 1);
            assert(t.drop_last() =~= views.subrange(0, i as int));
            if i == 0 {
                assert(out@ =~= t[0]);
            }
        }
        i = i + 1;
    }
    assert(views.subrange(0, parts.len() as int) =~= views);
    string_of(&out)
}

/// The character of a decimal digit.
pub open spec fn digit_char(d: int) -> char {
    (48 + d) as char
}

/// The decimal rendering of `n`, without leading zeros.
pub open spec fn decimal(n: nat) -> Seq<char>
    decreases n,
{
    if n < 10 {
        seq![digit_char(n as int)]
    } else {
        decimal(n / 10) + seq![digit_char((n % 10) as int)]
    }
}

pub fn push_digit(out: &mut Vec<char>, d: u64)
    requires
        d < 10,
    ensures
        final(out)@ == old(out)@.push(digit_char(d as int)),
{
    let b: u8 = 48 + (d as u8);
    out.push(b as char);
}

/// Appends the decimal rendering of `n`.
pub fn push_decimal(out: &mut Vec<char>, n: u64)
    ensures
        final(out)@ == old(out)@ + decimal(n as nat),
    decreases n,
{
    if n >= 10 {
        push_decimal(out, n / 10);
    }
    push_digit(out, n % 10);
    proof {
        if n < 10 {
            assert(n % 10 == n);
        }
    }
    assert(final(out)@ =~= old(out)@ + decimal(n as nat));
}

} // verus!

verus! {

pub open spec fn is_digit(c: char) -> bool {
    48 <= (c as u32) <= 57
}

pub open spec fn all_digits(s: Seq<char>) -> bool {
    forall|i: int| 0 <= i < s.len() ==> is_digit(#[trigger] s[i])
}

/// The number that the decimal digits `s` spell (leading zeros allowed).
pub open spec fn digits_value(s: Seq<char>) -> nat
    decreases s.len(),
{
    if s.len() == 0 {
        0
    } else {
        digits_value(s.drop_last()) * 10 + ((s.last() as u32) - 48) as nat
    }
}

/// What `str::parse::<u64>` gives: an optional `'+'`, then at least one
/// ASCII digit and nothing else, and a value that fits.
pub open spec fn parse_u64(s: Seq<char>) -> Option<u64> {
    let d = if s.len() > 0 && s[0] == '+' { s.drop_first() } else { s };
    if d.len() > 0 && all_digits(d) && digits_value(d) <= u64::MAX {
        Some(digits_value(d) as u64)
    } else {
        None
    }
}

/// What `str::parse::<i64>` gives: an optional `'+'` or `'-'`, then at least
/// one ASCII digit and nothing else, and a value in range.
pub open spec fn parse_i64(s: Seq<char>) -> Option<i64> {
    let neg = s.len() > 0 && s[0] == '-';
    let d = if s.len() > 0 && (s[0] == '+' || s[0] == '-') { s.drop_first() } else { s };
    if d.len() > 0 && all_digits(d) {
        if neg && digits_value(d) <= 0x8000_0000_0000_0000 {
            Some((0 - digits_value(d)) as i64)
        } else if !neg && digits_value(d) <= i64::MAX {
            Some(digits_value(d) as i64)
        } else {
            None
        }
    } else {
        None
    }
}

/// Reads the digits `v[a..]`: `Some(min(value, cap))` when they are all digits
/// and there is at least one, `None` otherwise.
fn read_digits(v: &Vec<char>, a: usize, cap: u128) -> (r: Option<u128>)
    requires
        a <= v.len(),
        cap <= 0x1_0000_0000_0000_0000,
    ensures
        ({
            let d = v@.subrange(a as int, v.len() as int);
            match r {
                Some(x) => d.len() > 0 && all_digits(d) && x == (if digits_value(d) < cap {
                    digits_value(d)
                } else {
                    cap as nat
                }),
                None => !(d.len() > 0 && all_digits(d)),
            }
        }),
{
    let ghost d = v@.subrange(a as int, v.len() as int);
    if a == v.len() {
        return None;
    }
    let mut acc: u128 = 0;
    let mut i = a;
    while i < v.len()
        invariant
            a <= i <= v.len(),
            d == v@.subrange(a as int, v.len() as int),
            cap <= 0x1_0000_0000_0000_0000,
            all_digits(v@.subrange(a as int, i as int)),
            acc == (if digits_value(v@.subrange(a as int, i as int)) < cap {
                digits_value(v@.subrange(a as int, i as int))
            } else {
                cap as nat
            }),
        decreases v.len() - i,
    {
        let c = v[i];
        let u = c as u32;
        if u < 48 || u > 57 {
            assert(d[i - a] == c);
            return None;
        }
        let ghost prev = v@.subrange(a as int, i as int);
        let ghost next = v@.subrange(a as int, i + 1);
        assert(next.drop_last() =~= prev);
        assert(next.last() == c);
        let dig: u128 = (u - 48) as u128;
        let t = acc * 10 + dig;
        acc = if t < cap { t } else { cap };
        i = i + 1;
    }
    assert(v@.subrange(a as int, i as int) =~= d);
    Some(acc)
}

pub fn parse_u64_vec(v: &Vec<char>) -> (r: Option<u64>)
    ensures
        r == parse_u64(v@),
{
    let a: usize = if v.len() > 0 && v[0] == '+' { 1 } else { 0 };
    assert(a == 1 ==> v@.subrange(1, v.len() as int) =~= v@.drop_first());
    assert(a == 0 ==> v@.subrange(0, v.len() as int) =~= v@);
    match read_digits(v, a, 0x1_0000_0000_0000_0000) {
        Some(x) => {
            if x <= 0xffff_ffff_ffff_ffff {
                Some(x as u64)
            } else {
                None
            }
        },
        None => None,
    }
}

pub fn parse_i64_vec(v: &Vec<char>) -> (r: Option<i64>)
    ensures
        r == parse_i64(v@),
{
    let neg = v.len() > 0 && v[0] == '-';
    let a: usize = if v.len() > 0 && (v[0] == '+' || v[0] == '-') { 1 } else { 0 };
    assert(a == 1 ==> v@.subrange(1, v.len() as int) =~= v@.drop_first());
    assert(a == 0 ==> v@.subrange(0, v.len() as int) =~= v@);
    match read_digits(v, a, 0x1_0000_0000_0000_0000) {
        Some(x) => {
            if neg {
                if x <= 0x8000_0000_0000_0000 {
                    if x == 0x8000_0000_0000_0000 {
                        Some(i64::MIN)
                    } else {
                        Some(0 - (x as i64))
                    }
                } else {
                    None
                }
            } else {
                if x <= 0x7fff_ffff_ffff_ffff {
                    Some(x as i64)
                } else {
                    None
                }
            }
        },
        None => None,
    }
}

/// The lower-case form of a text, as `str::to_lowercase` computes it from the
/// Unicode tables (a function of the text alone).
pub uninterp spec fn lowercase(s: Seq<char>) -> Seq<char>;

/// `str::to_lowercase`. Trusted: the result is `lowercase` of the argument.
#[verifier::external_body]
pub(crate) fn to_lowercase(s: &str) -> (r: String)
    ensures
        r@ == lowercase(s@),
{
    s.to_lowercase()
}

} // verus!

verus! {

/// Non-decreasing in the order of `text_lt`.
pub open spec fn sorted_texts(s: Seq<Seq<char>>) -> bool {
    forall|i: int, j: int| 0 <= i < j < s.len() ==> !text_lt(#[trigger] s[j], #[trigger] s[i])
}

pub proof fn lemma_texts_insert(v: Seq<String>, k: int, x: String)
    requires
        0 <= k <= v.len(),
    ensures
        v.insert(k, x).map_values(|s: String| s@) == v.map_values(|s: String| s@).insert(k, x@),
{
    v.insert_ensures(k, x);
    v.map_values(|s: String| s@).insert_ensures(k, x@);
    assert(v.insert(k, x).map_values(|s: String| s@) =~= v.map_values(|s: String| s@).insert(k, x@));
}

pub proof fn lemma_multiset_insert<A>(s: Seq<A>, k: int, x: A)
    requires
        0 <= k <= s.len(),
    ensures
        s.insert(k, x).to_multiset() == s.to_multiset().insert(x),
{
    broadcast use vstd::seq_lib::group_to_multiset_ensures;
    let a = s.subrange(0, k);
    let b = s.subrange(k, s.len() as int);
    assert(s =~= a + b);
    vstd::seq_lib::lemma_multiset_commutative(a, b);
    vstd::seq_lib::lemma_multiset_commutative(a.push(x), b);
    assert(s.insert(k, x) =~= a.push(x) + b);
    assert(s.insert(k, x).to_multiset() =~= s.to_multiset().insert(x));
}

/// Sorts strings by `text_lt` (the order of `str`'s `Ord`).
pub fn sort_strings(v: &Vec<String>) -> (r: Vec<String>)
    ensures
        sorted_texts(r@.map_values(|s: String| s@)),
        r@.map_values(|s: String| s@).to_multiset() == v@.map_values(|s: String| s@).to_multiset(),
{
    broadcast use vstd::seq_lib::group_to_multiset_ensures;
    let mut out: Vec<String> = Vec::new();
    let mut i: usize = 0;
    assert(v@.map_values(|s: String| s@).subrange(0, 0) =~= seq![]);
    assert(out@.map_values(|s: String| s@) =~= seq![]);
    while i < v.len()
        invariant
            i <= v.len(),
            sorted_texts(out@.map_values(|s: String| s@)),
            out@.map_values(|s: String| s@).to_multiset() == v@.map_values(|s: String| s@).subrange(
                0,
                i as int,
            ).to_multiset(),
        decreases v.len() - i,
    {
        let x = v[i].clone();
        assert(x@ == v@.map_values(|s: String| s@)[i as int]);
        let ghost t = out@.map_values(|s: String| s@);
        let mut k: usize = 0;
        while k < out.len() && !str_lt(x.as_str(), out[k].as_str())
            invariant
                k <= out.len(),
                t == out@.map_values(|s: String| s@),
                forall|a: int| 0 <= a < k ==> !text_lt(x@, #[trigger] t[a]),
            decreases out.len() - k,
        {
            assert(t[k as int] == out[k as int]@);
            k = k + 1;
        }
        assert(k < out.len() ==> t[k as int] == out[k as int]@);
        proof {
            lemma_texts_insert(out@, k as int, x);
        }
        out.insert(k, x);
        proof {
            let u = t.insert(k as int, x@);
            assert(out@.map_values(|s: String| s@) == u);
            t.insert_ensures(k as int, x@);
            assert forall|a: int, b: int| 0 <= a < b < u.len() implies !text_lt(
                #[trigger] u[b],
                #[trigger] u[a],
            ) by {
                if b < k {
                    assert(u[a] == t[a] && u[b] == t[b]);
                } else if a > k {
                    assert(u[a] == t[a - 1] && u[b] == t[b - 1]);
                } else if a == k {
                    assert(u[b] == t[b - 1]);
                    assert(u[a] == x@);
                    assert(text_lt(x@, t[k as int]));
                    if b - 1 == k {
                        lemma_text_lt_asym(x@, t[k as int]);
                    } else {
                        assert(!text_lt(t[b - 1], t[k as int]));
                        if text_lt(t[b - 1], x@) {
                            lemma_text_lt_trans(t[b - 1], x@, t[k as int]);
                        }
                    }
                } else {
                    // a < k == b or a < k < b
                    assert(u[a] == t[a]);
                    if b == k {
                        assert(u[b] == x@);
                    } else {
                        assert(u[b] == t[b - 1]);
                    }
                }
            }
            let w = v@.map_values(|s: String| s@);
            assert(w.subrange(0, i + 1) =~= w.subrange(0, i as int).push(x@));
            lemma_multiset_insert(t, k as int, x@);
            w.subrange(0, i as int).to_multiset_ensures();
            assert(w.subrange(0, i as int).push(x@).to_multiset() =~= w.subrange(0, i as int).to_multiset().insert(x@));
            assert(out@.map_values(|s: String| s@).to_multiset() == w.subrange(0, i + 1).to_multiset());
        }
        i = i + 1;
    }
    assert(v@.map_values(|s: String| s@).subrange(0, v.len() as int) =~= v@.map_values(|s: String| s@));
    out
}

} // verus!

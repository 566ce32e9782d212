//! How the screen's texts are fitted into their panes: names cut to a width,
//! rows padded, long values wrapped, scroll positions kept in range.
use vstd::prelude::*;
use crate::text::{
    chars_of, string_of, append_chars, append_str, push_decimal, decimal, is_space, char_is_space,
    slice_chars, join_strings, join,
};
use crate::pacman::texts;

verus! {

/// `name` cut to `budget` characters: when it is longer, its first
/// `budget - 1` characters (none when the budget is 0) and an ellipsis.
pub open spec fn fitted(name: Seq<char>, budget: nat) -> Seq<char> {
    if name.len() > budget {
        name.subrange(0, if budget >= 1 { budget - 1 } else { 0 }) + seq!['…']
    } else {
        name
    }
}

pub fn fit_name(name: &str, budget: usize) -> (r: String)
    ensures
        r@ == fitted(name@, budget as nat),
{
    let v = chars_of(name);
    if v.len() > budget {
        let keep = if budget >= 1 { budget - 1 } else { 0 };
        let mut out = slice_chars(&v, 0, keep);
        out.push('…');
        string_of(&out)
    } else {
        string_of(&v)
    }
}

/// The blank between a row's name and its right-hand text: what is left of
/// `usable` after `used`, at least one.
pub open spec fn gap(usable: nat, used: nat) -> nat {
    if usable > used && usable - used >= 1 {
        (usable - used) as nat
    } else {
        1
    }
}

pub fn gap_width(usable: usize, used: usize) -> (r: usize)
    ensures
        r == gap(usable as nat, used as nat),
{
    let left = if usable > used { usable - used } else { 0 };
    if left >= 1 { left } else { 1 }
}

/// A list for the details pane: `"None"` when empty, else its size in
/// brackets and the items joined by `", "`.
pub open spec fn summary(items: Seq<Seq<char>>) -> Seq<char> {
    if items.len() == 0 {
        "None"@
    } else {
        seq!['('] + decimal(items.len()) + seq![')', ' '] + join(items, ", "@)
    }
}

pub fn list_summary(items: &Vec<String>) -> (r: String)
    ensures
        r@ == summary(texts(items@)),
{
    if items.len() == 0 {
        return String::from_str("None");
    }
    let mut out: Vec<char> = Vec::new();
    out.push('(');
    push_decimal(&mut out, items.len() as u64);
    out.push(')');
    out.push(' ');
    let joined = join_strings(items, ", ");
    let j = chars_of(joined.as_str());
    append_chars(&mut out, &j);
    assert(out@ =~= summary(texts(items@)));
    string_of(&out)
}

/// `s` padded with spaces on the right to `width` characters (`{:<width}`).
pub open spec fn padded(s: Seq<char>, width: nat) -> Seq<char> {
    if s.len() >= width {
        s
    } else {
        s + Seq::new((width - s.len()) as nat, |_i: int| ' ')
    }
}

pub fn pad_right(s: &str, width: usize) -> (r: String)
    ensures
        r@ == padded(s@, width as nat),
{
    let mut v = chars_of(s);
    let n = v.len();
    let ghost orig = v@;
    while v.len() < width
        invariant
            n == orig.len(),
            n <= v.len() <= width || (v.len() == n && n >= width),
            v@ == orig + Seq::new((v.len() - n) as nat, |_i: int| ' '),
        decreases width - v.len(),
    {
        v.push(' ');
        assert(v@ =~= orig + Seq::new((v.len() - n) as nat, |_i: int| ' '));
    }
    proof {
        if n >= width {
            assert(v@ =~= orig);
        }
    }
    string_of(&v)
}

/// The first line that can be scrolled to, and the scroll kept to it: lines
/// are counted in 16 bits (`as u16`), less the height shown.
pub open spec fn scroll_limit(lines: nat, height: u16) -> u16 {
    let l = lines % 65536;
    (if l > height { l - height } else { 0 }) as u16
}

pub fn clamp_scroll(lines: usize, height: u16, scroll: u16) -> (r: (u16, u16))
    ensures
        r.0 == scroll_limit(lines as nat, height),
        r.1 == if scroll < r.0 { scroll } else { r.0 },
{
    let l = (lines % 65536) as u32;
    let max_scroll: u16 = if l > height as u32 { (l - height as u32) as u16 } else { 0 };
    (max_scroll, if scroll < max_scroll { scroll } else { max_scroll })
}

/// Where the help window goes in a screen of `w` by `h`: 62 by 16 at most,
/// two cells clear of each edge, centred.
pub open spec fn help_rect(w: u16, h: u16) -> (u16, u16, u16, u16) {
    let ww: int = if w >= 4 { if w - 4 < 62 { w - 4 } else { 62 } } else { 0 };
    let hh: int = if h >= 4 { if h - 4 < 16 { h - 4 } else { 16 } } else { 0 };
    (((w - ww) / 2) as u16, ((h - hh) / 2) as u16, ww as u16, hh as u16)
}

pub fn help_area(w: u16, h: u16) -> (r: (u16, u16, u16, u16))
    ensures
        r == help_rect(w, h),
{
    let ww: u16 = if w >= 4 { if w - 4 < 62 { w - 4 } else { 62 } } else { 0 };
    let hh: u16 = if h >= 4 { if h - 4 < 16 { h - 4 } else { 16 } } else { 0 };
    ((w - ww) / 2, (h - hh) / 2, ww, hh)
}

/// The key hints of the status bar.
pub open spec fn hint_texts() -> Seq<(Seq<char>, Seq<char>)> {
    seq![
        ("hjkl"@, "navigate"@),
        ("/"@, "search"@),
        ("s"@, "sort"@),
        ("."@, "deps"@),
        ("o"@, "orphans"@),
        ("r"@, "reload"@),
        ("?"@, "help"@),
        ("q"@, "quit"@),
    ]
}

pub fn hints() -> (r: Vec<(&'static str, &'static str)>)
    ensures
        r@.map_values(|p: (&'static str, &'static str)| (p.0@, p.1@)) == hint_texts(),
{
    let r = vec![
        ("hjkl", "navigate"),
        ("/", "search"),
        ("s", "sort"),
        (".", "deps"),
        ("o", "orphans"),
        ("r", "reload"),
        ("?", "help"),
        ("q", "quit"),
    ];
    assert(r@.map_values(|p: (&'static str, &'static str)| (p.0@, p.1@)) =~= hint_texts());
    r
}

/// The width a hint takes: its key, its label, and two spaces.
pub open spec fn hint_width(h: (Seq<char>, Seq<char>)) -> nat {
    h.0.len() + h.1.len() + 2
}

/// The total width of the first `n` hints.
pub open spec fn hints_width(hs: Seq<(Seq<char>, Seq<char>)>, n: int) -> nat
    decreases n,
{
    if n <= 0 {
        0
    } else {
        hints_width(hs, n - 1) + hint_width(hs[n - 1])
    }
}

/// How many hints fit, one after another, in `budget` cells.
pub open spec fn hints_fitting(hs: Seq<(Seq<char>, Seq<char>)>, budget: nat, n: int) -> int
    decreases hs.len() - n,
{
    if n < 0 || n >= hs.len() || hints_width(hs, n + 1) > budget {
        n
    } else {
        hints_fitting(hs, budget, n + 1)
    }
}

/// The number of hints the status bar shows beside a status of `status_len`
/// characters, and the width they take.
pub fn fit_hints(width: usize, status_len: usize) -> (r: (usize, usize))
    ensures
        r.0 == hints_fitting(hint_texts(), (if width > status_len { width - status_len } else { 0 }) as nat, 0),
        r.1 == hints_width(hint_texts(), r.0 as int),
{
    let hs = hints();
    let ghost h = hint_texts();
    let budget = if width > status_len { width - status_len } else { 0 };
    let mut used: usize = 0;
    let mut n: usize = 0;
    proof {
        reveal_strlit("hjkl");
        reveal_strlit("navigate");
        reveal_strlit("/");
        reveal_strlit("search");
        reveal_strlit("s");
        reveal_strlit("sort");
        reveal_strlit(".");
        reveal_strlit("deps");
        reveal_strlit("o");
        reveal_strlit("orphans");
        reveal_strlit("r");
        reveal_strlit("reload");
        reveal_strlit("?");
        reveal_strlit("help");
        reveal_strlit("q");
        reveal_strlit("quit");
    }
    assert(forall|i: int| 0 <= i < 8 ==> (#[trigger] h[i]).0.len() <= 8 && h[i].1.len() <= 8);
    while n < hs.len()
        invariant
            n <= hs.len() == h.len() == 8,
            h == hint_texts(),
            budget == (if width > status_len { width - status_len } else { 0 }),
            hs@.map_values(|p: (&'static str, &'static str)| (p.0@, p.1@)) == h,
            used == hints_width(h, n as int),
            used <= budget,
            forall|i: int| 0 <= i < 8 ==> (#[trigger] h[i]).0.len() <= 8 && h[i].1.len() <= 8,
            hints_fitting(h, budget as nat, 0) == hints_fitting(h, budget as nat, n as int),
        decreases hs.len() - n,
    {
        let (k, l) = hs[n];
        assert(h[n as int] == (k@, l@));
        let piece = k.unicode_len() + l.unicode_len() + 2;
        assert(piece == hint_width(h[n as int]));
        if piece > budget - used {
            return (n, used);
        }
        used = used + piece;
        n = n + 1;
    }
    (n, used)
}

} // verus!

verus! {

/// The first index at or after `i` that is not whitespace (or `s.len()`).
pub open spec fn skip_spaces(s: Seq<char>, i: int) -> int
    decreases s.len() - i,
{
    if 0 <= i < s.len() && is_space(s[i]) {
        skip_spaces(s, i + 1)
    } else {
        i
    }
}

/// The first index at or after `i` that is whitespace (or `s.len()`).
pub open spec fn word_end(s: Seq<char>, i: int) -> int
    decreases s.len() - i,
{
    if 0 <= i < s.len() && !is_space(s[i]) {
        word_end(s, i + 1)
    } else {
        i
    }
}

pub proof fn lemma_skip_spaces(s: Seq<char>, i: int)
    requires
        0 <= i <= s.len(),
    ensures
        i <= skip_spaces(s, i) <= s.len(),
        skip_spaces(s, i) < s.len() ==> !is_space(s[skip_spaces(s, i)]),
    decreases s.len() - i,
{
    if i < s.len() && is_space(s[i]) {
        lemma_skip_spaces(s, i + 1);
    }
}

pub proof fn lemma_word_end(s: Seq<char>, i: int)
    requires
        0 <= i <= s.len(),
    ensures
        i <= word_end(s, i) <= s.len(),
        i < s.len() && !is_space(s[i]) ==> i < word_end(s, i),
    decreases s.len() - i,
{
    if i < s.len() && !is_space(s[i]) {
        lemma_word_end(s, i + 1);
    }
}

/// `str::split_whitespace` of `s[i..]`: the maximal runs of non-whitespace.
pub open spec fn words_from(s: Seq<char>, i: int) -> Seq<Seq<char>>
    decreases s.len() - i,
{
    if i < 0 || i > s.len() {
        seq![]
    } else {
        let a = skip_spaces(s, i);
        if a >= s.len() {
            seq![]
        } else {
            let b = word_end(s, a);
            proof {
                lemma_skip_spaces(s, i);
                lemma_word_end(s, a);
            }
            seq![s.subrange(a, b)] + words_from(s, b)
        }
    }
}

/// A word longer than `width` cut into pieces of `width` characters, and the
/// rest (at most `width` long).
pub open spec fn split_long(w: Seq<char>, width: nat) -> (Seq<Seq<char>>, Seq<char>)
    decreases w.len(),
{
    if width > 0 && w.len() > width {
        let rest = split_long(w.subrange(width as int, w.len() as int), width);
        (seq![w.subrange(0, width as int)] + rest.0, rest.1)
    } else {
        (seq![], w)
    }
}

/// One word added to the lines made so far and the line being filled: a word
/// too long for a line ends the current line and is cut; a word that does not
/// fit after the current line starts a new one; otherwise it joins the line
/// after a space.
pub open spec fn wrap_step(st: (Seq<Seq<char>>, Seq<char>), w: Seq<char>, width: nat) -> (Seq<Seq<char>>, Seq<char>) {
    let chunks = st.0;
    let cur = st.1;
    if w.len() > width {
        let chunks1 = if cur.len() > 0 { chunks.push(cur) } else { chunks };
        let parts = split_long(w, width);
        (chunks1 + parts.0, parts.1)
    } else {
        let cand = if cur.len() == 0 { w } else { cur + seq![' '] + w };
        if cand.len() > width {
            (chunks.push(cur), w)
        } else {
            (chunks, cand)
        }
    }
}

pub open spec fn wrap_words(ws: Seq<Seq<char>>, width: nat) -> (Seq<Seq<char>>, Seq<char>)
    decreases ws.len(),
{
    if ws.len() == 0 {
        (seq![], seq![])
    } else {
        wrap_step(wrap_words(ws.drop_last(), width), ws.last(), width)
    }
}

/// The lines of a value shown in `width` columns, as the details pane wraps it.
pub open spec fn wrapped(s: Seq<char>, width: nat) -> Seq<Seq<char>> {
    let st = wrap_words(words_from(s, 0), width);
    st.0.push(st.1)
}

/// The words of `v` (`split_whitespace`).
pub fn split_words(v: &Vec<char>) -> (r: Vec<Vec<char>>)
    ensures
        r@.map_values(|w: Vec<char>| w@) == words_from(v@, 0),
{
    let n = v.len();
    let mut out: Vec<Vec<char>> = Vec::new();
    let mut i: usize = 0;
    assert(out@.map_values(|w: Vec<char>| w@) + words_from(v@, 0) =~= words_from(v@, 0));
    while i < n
        invariant
            n == v.len(),
            i <= n,
            out@.map_values(|w: Vec<char>| w@) + words_from(v@, i as int) == words_from(v@, 0),
        decreases n - i,
    {
        let mut a = i;
        while a < n && char_is_space(v[a])
            invariant
                i <= a <= n == v.len(),
                skip_spaces(v@, i as int) == skip_spaces(v@, a as int),
            decreases n - a,
        {
            a = a + 1;
        }
        proof {
            lemma_skip_spaces(v@, i as int);
        }
        if a >= n {
            assert(words_from(v@, i as int) =~= seq![]);
            assert(words_from(v@, n as int) =~= seq![]);
            i = n;
        } else {
            let mut b = a;
            while b < n && !char_is_space(v[b])
                invariant
                    a <= b <= n == v.len(),
                    word_end(v@, a as int) == word_end(v@, b as int),
                decreases n - b,
            {
                b = b + 1;
            }
            proof {
                lemma_word_end(v@, a as int);
            }
            let w = slice_chars(v, a, b);
            let ghost before = out@.map_values(|w: Vec<char>| w@);
            out.push(w);
            assert(out@.map_values(|w: Vec<char>| w@) =~= before.push(w@));
            assert(before + words_from(v@, i as int) =~= out@.map_values(|w: Vec<char>| w@) + words_from(v@, b as int));
            i = b;
        }
    }
    assert(words_from(v@, i as int) =~= seq![]);
    assert(out@.map_values(|w: Vec<char>| w@) =~= words_from(v@, 0));
    out
}

fn push_line(lines: &mut Vec<Vec<char>>, l: Vec<char>)
    ensures
        final(lines)@.map_values(|w: Vec<char>| w@) == old(lines)@.map_values(|w: Vec<char>| w@).push(l@),
{
    lines.push(l);
    assert(final(lines)@.map_values(|w: Vec<char>| w@) =~= old(lines)@.map_values(|w: Vec<char>| w@).push(l@));
}

/// Cuts a word longer than `width` (`split_long`): the pieces go to `lines`,
/// the rest is returned.
fn cut_word(lines: &mut Vec<Vec<char>>, w: &Vec<char>, width: usize) -> (rest: Vec<char>)
    requires
        width > 0,
    ensures
        final(lines)@.map_values(|x: Vec<char>| x@) == old(lines)@.map_values(|x: Vec<char>| x@) + split_long(w@, width as nat).0,
        rest@ == split_long(w@, width as nat).1,
{
    let n = w.len();
    let mut at: usize = 0;
    assert(w@.subrange(0, n as int) =~= w@);
    assert(old(lines)@.map_values(|x: Vec<char>| x@) + seq![] =~= old(lines)@.map_values(|x: Vec<char>| x@));
    while n - at > width
        invariant
            at <= n == w.len(),
            width > 0,
            old(lines)@.map_values(|x: Vec<char>| x@) + split_long(w@, width as nat).0 == lines@.map_values(|x: Vec<char>| x@)
                + split_long(w@.subrange(at as int, n as int), width as nat).0,
            split_long(w@, width as nat).1 == split_long(w@.subrange(at as int, n as int), width as nat).1,
        decreases n - at,
    {
        let piece = slice_chars(w, at, at + width);
        let ghost t = w@.subrange(at as int, n as int);
        assert(t.subrange(0, width as int) =~= piece@);
        assert(t.subrange(width as int, t.len() as int) =~= w@.subrange(at + width, n as int));
        let ghost before = lines@.map_values(|x: Vec<char>| x@);
        push_line(lines, piece);
        assert(before + split_long(t, width as nat).0 =~= lines@.map_values(|x: Vec<char>| x@) + split_long(w@.subrange(at + width, n as int), width as nat).0);
        at = at + width;
    }
    let rest = slice_chars(w, at, n);
    assert(split_long(w@.subrange(at as int, n as int), width as nat).0 =~= seq![]);
    assert(lines@.map_values(|x: Vec<char>| x@) + seq![] =~= lines@.map_values(|x: Vec<char>| x@));
    rest
}

/// Wraps a value into lines of at most `width` characters at whitespace,
/// cutting words that are longer than a line (`wrapped`).
pub fn wrap_text(value: &str, width: usize) -> (r: Vec<String>)
    requires
        width > 0,
    ensures
        texts(r@) == wrapped(value@, width as nat),
{
    let v = chars_of(value);
    let ws = split_words(&v);
    let ghost wv = ws@.map_values(|w: Vec<char>| w@);
    let mut lines: Vec<Vec<char>> = Vec::new();
    let mut cur: Vec<char> = Vec::new();
    let mut k: usize = 0;
    assert(wv.subrange(0, 0) =~= seq![]);
    assert(lines@.map_values(|x: Vec<char>| x@) =~= seq![]);
    while k < ws.len()
        invariant
            k <= ws.len(),
            width > 0,
            wv == ws@.map_values(|w: Vec<char>| w@),
            wv == words_from(v@, 0),
            v@ == value@,
            (lines@.map_values(|x: Vec<char>| x@), cur@) == wrap_words(wv.subrange(0, k as int), width as nat),
        decreases ws.len() - k,
    {
        let w = &ws[k];
        assert(wv[k as int] == w@);
        assert(wv.subrange(0, k + 1).drop_last() =~= wv.subrange(0, k as int));
        assert(wv.subrange(0, k + 1).last() == w@);
        if w.len() > width {
            if cur.len() > 0 {
                let c = cur;
                push_line(&mut lines, c);
            }
            cur = cut_word(&mut lines, w, width);
        } else {
            let mut cand: Vec<char> = Vec::new();
            if cur.len() == 0 {
                append_chars(&mut cand, w);
            } else {
                append_chars(&mut cand, &cur);
                cand.push(' ');
                append_chars(&mut cand, w);
            }
            assert(cur@.len() == 0 ==> cand@ =~= w@);
            assert(cur@.len() > 0 ==> cand@ =~= cur@ + seq![' '] + w@);
            if cand.len() > width {
                let c = cur;
                push_line(&mut lines, c);
                cur = slice_chars(w, 0, w.len());
                assert(cur@ =~= w@);
            } else {
                cur = cand;
            }
        }
        k = k + 1;
    }
    assert(wv.subrange(0, ws.len() as int) =~= wv);
    push_line(&mut lines, cur);
    let mut out: Vec<String> = Vec::new();
    let mut i: usize = 0;
    while i < lines.len()
        invariant
            i <= lines.len(),
            texts(out@) == lines@.map_values(|x: Vec<char>| x@).subrange(0, i as int),
        decreases lines.len() - i,
    {
        let ghost before = out@;
        out.push(string_of(&lines[i]));
        assert(texts(out@) =~= texts(before).push(lines[i as int]@));
        assert(texts(out@) =~= lines@.map_values(|x: Vec<char>| x@).subrange(0, i + 1));
        i = i + 1;
    }
    assert(lines@.map_values(|x: Vec<char>| x@).subrange(0, lines.len() as int) =~= lines@.map_values(|x: Vec<char>| x@));
    out
}

} // verus!

verus! {

/// The UTF-8 length of a text (what `str::len` counts).
pub open spec fn byte_len(s: Seq<char>) -> nat {
    vstd::utf8::encode_utf8(s).len()
}

/// A list row: the name fitted so that it, the right-hand texts and a space
/// fit in `usable` columns (right-hand texts measured in bytes, as `len` does),
/// and the gap before the right-hand texts.
pub open spec fn row(name: Seq<char>, size: Seq<char>, tag: Seq<char>, usable: nat) -> (Seq<char>, nat) {
    let right = byte_len(size) + byte_len(tag);
    let budget: nat = if usable > right + 1 { (usable - right - 1) as nat } else { 0 };
    let shown = fitted(name, budget);
    (shown, gap(usable, shown.len() + right))
}

pub fn row_layout(name: &str, size: &str, tag: &str, usable: usize) -> (r: (String, usize))
    requires
        byte_len(size@) + byte_len(tag@) + 1 <= usize::MAX,
    ensures
        (r.0@, r.1 as nat) == row(name@, size@, tag@, usable as nat),
{
    let right = size.len() + tag.len();
    let budget = if usable > right + 1 { usable - right - 1 } else { 0 };
    let shown = fit_name(name, budget);
    let shown_len = shown.as_str().unicode_len();
    assert(shown_len <= name@.len() + 1);
    let used = shown_len + right;
    let g = gap_width(usable, used);
    (shown, g)
}

/// The title of the package list: the counts, then the number of marked
/// packages (or the sort order when none is marked) if it fits.
pub open spec fn packages_title_text(shown: nat, total: nat, marked: nat, sort_label: Seq<char>, width: u16) -> Seq<char> {
    let usable: nat = if width >= 2 { (width - 2) as nat } else { 0 };
    let base = "Packages ("@ + decimal(shown) + seq!['/'] + decimal(total) + seq![')'];
    let extra = if marked > 0 {
        " ["@ + decimal(marked) + " marked]"@
    } else {
        " [sort: "@ + sort_label + seq![']']
    };
    if base.len() + extra.len() <= usable {
        base + extra
    } else {
        base
    }
}

pub fn packages_title(shown: usize, total: usize, marked: usize, sort_label: &str, width: u16) -> (r: String)
    ensures
        r@ == packages_title_text(shown as nat, total as nat, marked as nat, sort_label@, width),
{
    let usable: usize = if width >= 2 { (width - 2) as usize } else { 0 };
    let mut base: Vec<char> = Vec::new();
    append_str(&mut base, "Packages (");
    push_decimal(&mut base, shown as u64);
    base.push('/');
    push_decimal(&mut base, total as u64);
    base.push(')');
    let mut extra: Vec<char> = Vec::new();
    if marked > 0 {
        append_str(&mut extra, " [");
        push_decimal(&mut extra, marked as u64);
        append_str(&mut extra, " marked]");
    } else {
        append_str(&mut extra, " [sort: ");
        append_str(&mut extra, sort_label);
        extra.push(']');
    }
    assert(base@ =~= "Packages ("@ + decimal(shown as nat) + seq!['/'] + decimal(total as nat) + seq![')']);
    if base.len() <= usable && extra.len() <= usable - base.len() {
        append_chars(&mut base, &extra);
    }
    string_of(&base)
}

/// What the package pane says when the list is empty.
pub open spec fn empty_hint_text(searching: bool, show_dependencies: bool) -> Seq<char> {
    if searching {
        "No packages match this search.\nPress Esc to clear it."@
    } else if !show_dependencies {
        "Nothing explicitly installed here.\nPress '.' to also show dependency packages."@
    } else {
        "No packages in this category."@
    }
}

pub fn empty_hint(searching: bool, show_dependencies: bool) -> (r: &'static str)
    ensures
        r@ == empty_hint_text(searching, show_dependencies),
{
    if searching {
        "No packages match this search.\nPress Esc to clear it."
    } else if !show_dependencies {
        "Nothing explicitly installed here.\nPress '.' to also show dependency packages."
    } else {
        "No packages in this category."
    }
}

/// The title and text of the search bar.
pub open spec fn filter_bar_text(focused: bool, filter: Seq<char>) -> (Seq<char>, Seq<char>) {
    if focused {
        (
            "Search"@,
            if filter.len() == 0 {
                " Type to search…"@
            } else {
                seq![' '] + filter + seq!['_']
            },
        )
    } else {
        ("pacwatch"@, " Type / to search (c: category, d: description)"@)
    }
}

pub fn filter_bar(focused: bool, filter: &str) -> (r: (&'static str, String))
    ensures
        (r.0@, r.1@) == filter_bar_text(focused, filter@),
{
    if focused {
        if filter.is_empty() {
            ("Search", String::from_str(" Type to search…"))
        } else {
            let mut v: Vec<char> = Vec::new();
            v.push(' ');
            append_str(&mut v, filter);
            v.push('_');
            assert(v@ =~= seq![' '] + filter@ + seq!['_']);
            ("Search", string_of(&v))
        }
    } else {
        ("pacwatch", String::from_str(" Type / to search (c: category, d: description)"))
    }
}

/// The width of the values in the details pane: the pane less its borders
/// and the label column, at least 10.
pub open spec fn detail_value_width(width: u16) -> nat {
    let w: int = width as int - 2 - 16;
    if w >= 10 { w as nat } else { 10 }
}

pub fn value_width(width: u16) -> (r: usize)
    ensures
        r == detail_value_width(width),
{
    let w = (width as usize);
    let a = if w >= 2 { w - 2 } else { 0 };
    let b = if a >= 16 { a - 16 } else { 0 };
    if b >= 10 { b } else { 10 }
}

} // verus!

verus! {

proof fn lemma_split_long_fits(w: Seq<char>, width: nat)
    requires
        width > 0,
    ensures
        forall|i: int| 0 <= i < split_long(w, width).0.len() ==> (#[trigger] split_long(w, width).0[i]).len() == width,
        split_long(w, width).1.len() <= width || w.len() <= width,
        split_long(w, width).1.len() <= w.len(),
    decreases w.len(),
{
    if w.len() > width {
        let t = w.subrange(width as int, w.len() as int);
        lemma_split_long_fits(t, width);
        let rest = split_long(t, width);
        assert forall|i: int| 0 <= i < split_long(w, width).0.len() implies (#[trigger] split_long(w, width).0[i]).len() == width by {
            if i > 0 {
                assert(split_long(w, width).0[i] == rest.0[i - 1]);
            }
        }
    }
}

proof fn lemma_wrap_words_fit(ws: Seq<Seq<char>>, width: nat)
    requires
        width > 0,
    ensures
        forall|i: int| 0 <= i < wrap_words(ws, width).0.len() ==> (#[trigger] wrap_words(ws, width).0[i]).len() <= width,
        wrap_words(ws, width).1.len() <= width,
    decreases ws.len(),
{
    if ws.len() > 0 {
        let st = wrap_words(ws.drop_last(), width);
        lemma_wrap_words_fit(ws.drop_last(), width);
        let w = ws.last();
        let r = wrap_step(st, w, width);
        assert(r == wrap_words(ws, width));
        if w.len() > width {
            lemma_split_long_fits(w, width);
            let chunks1 = if st.1.len() > 0 { st.0.push(st.1) } else { st.0 };
            let parts = split_long(w, width);
            assert forall|i: int| 0 <= i < r.0.len() implies (#[trigger] r.0[i]).len() <= width by {
                if i < chunks1.len() {
                    assert(r.0[i] == chunks1[i]);
                    if i < st.0.len() {
                        assert(chunks1[i] == st.0[i]);
                    }
                } else {
                    assert(r.0[i] == parts.0[i - chunks1.len()]);
                }
            }
        } else {
            assert forall|i: int| 0 <= i < r.0.len() implies (#[trigger] r.0[i]).len() <= width by {
                if i < st.0.len() {
                    assert(r.0[i] == st.0[i]);
                }
            }
        }
    }
}

/// Every line of a wrapped value fits its width.
pub proof fn law_wrapped_lines_fit(s: Seq<char>, width: nat)
    requires
        width > 0,
    ensures
        forall|i: int| 0 <= i < wrapped(s, width).len() ==> (#[trigger] wrapped(s, width)[i]).len() <= width,
{
    let st = wrap_words(words_from(s, 0), width);
    lemma_wrap_words_fit(words_from(s, 0), width);
    assert forall|i: int| 0 <= i < wrapped(s, width).len() implies (#[trigger] wrapped(s, width)[i]).len() <= width by {
        if i < st.0.len() {
            assert(wrapped(s, width)[i] == st.0[i]);
        }
    }
}

/// A fitted name takes at most its budget (one column when the budget is 0).
pub proof fn law_fitted_width(name: Seq<char>, budget: nat)
    ensures
        fitted(name, budget).len() <= if budget >= 1 { budget } else { 1 },
        name.len() <= budget ==> fitted(name, budget) == name,
{
}

} // verus!

verus! {

/// The title of the package list of a browser `area_width` columns wide (the
/// browser marks no packages).
pub fn build_packages_title(app: &crate::app::App, area_width: u16) -> (r: String)
    ensures
        r@ == packages_title_text(
            app.filtered.len() as nat,
            app.all_packages.len() as nat,
            0,
            app.sort_key.label_text(),
            area_width,
        ),
{
    packages_title(app.filtered.len(), app.all_packages.len(), 0, app.sort_key.label(), area_width)
}

} // verus!

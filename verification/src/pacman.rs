//! Installed packages as pacman's local database describes them: the `desc`
//! record format, the `files` list, and the reverse dependencies.
use vstd::prelude::*;
use crate::text::{
    chars_of, string_of, split_lines, trim_char_vec, eq_str, parse_u64_vec, parse_i64_vec,
    join_strings, lines, trim_char, parse_u64, parse_i64, join, trim, trim_vec, slice_chars,
    vec_eq, sort_strings, sorted_texts, decimal, digit_char, next_newline, lemma_next_newline, strip_cr,
    lines_from, trim_start_by, trim_end_by, char_pred,
};
use crate::order::{KeyView, ordered, key_views, sort_indices};


verus! {

/// Why a package is installed.
#[derive(Debug, Clone, Copy, PartialEq, Eq, Structural)]
pub enum InstallReason {
    Explicit,
    Dependency,
}

impl Default for InstallReason {
    fn default() -> (r: Self)
        ensures
            r == InstallReason::Explicit,
    {
        InstallReason::Explicit
    }
}

impl InstallReason {
    pub fn is_explicit(self) -> (r: bool)
        ensures
            r == (self == InstallReason::Explicit),
    {
        match self {
            InstallReason::Explicit => true,
            InstallReason::Dependency => false,
        }
    }

    pub open spec fn label_text(self) -> Seq<char> {
        match self {
            InstallReason::Explicit => "Explicitly installed"@,
            InstallReason::Dependency => "Installed as a dependency"@,
        }
    }

    pub fn label(self) -> (r: &'static str)
        ensures
            r@ == self.label_text(),
    {
        match self {
            InstallReason::Explicit => "Explicitly installed",
            InstallReason::Dependency => "Installed as a dependency",
        }
    }
}

/// One installed package.
#[derive(Debug, Clone)]
pub struct Package {
    pub name: String,
    pub version: String,
    pub description: String,
    pub architecture: String,
    pub url: String,
    pub packager: String,
    pub licenses: Vec<String>,
    pub validated_by: String,
    pub install_reason: InstallReason,
    pub installed_size: u64,
    pub install_date: i64,
    pub build_date: i64,
    pub groups: Vec<String>,
    pub provides: Vec<String>,
    pub depends: Vec<String>,
    pub optdepends: Vec<String>,
    pub required_by: Vec<String>,
    pub optional_for: Vec<String>,
    pub conflicts: Vec<String>,
    pub replaces: Vec<String>,
    pub has_install_script: bool,
    pub files: Vec<String>,
}

/// The mathematical value of a [`Package`]: its texts as character sequences.
pub struct PackageView {
    pub name: Seq<char>,
    pub version: Seq<char>,
    pub description: Seq<char>,
    pub architecture: Seq<char>,
    pub url: Seq<char>,
    pub packager: Seq<char>,
    pub licenses: Seq<Seq<char>>,
    pub validated_by: Seq<char>,
    pub install_reason: InstallReason,
    pub installed_size: u64,
    pub install_date: i64,
    pub build_date: i64,
    pub groups: Seq<Seq<char>>,
    pub provides: Seq<Seq<char>>,
    pub depends: Seq<Seq<char>>,
    pub optdepends: Seq<Seq<char>>,
    pub required_by: Seq<Seq<char>>,
    pub optional_for: Seq<Seq<char>>,
    pub conflicts: Seq<Seq<char>>,
    pub replaces: Seq<Seq<char>>,
    pub has_install_script: bool,
    pub files: Seq<Seq<char>>,
}

/// The texts of a list of strings.
pub open spec fn texts(v: Seq<String>) -> Seq<Seq<char>> {
    v.map_values(|s: String| s@)
}

impl View for Package {
    type V = PackageView;

    open spec fn view(&self) -> PackageView {
        PackageView {
            name: self.name@,
            version: self.version@,
            description: self.description@,
            architecture: self.architecture@,
            url: self.url@,
            packager: self.packager@,
            licenses: texts(self.licenses@),
            validated_by: self.validated_by@,
            install_reason: self.install_reason,
            installed_size: self.installed_size,
            install_date: self.install_date,
            build_date: self.build_date,
            groups: texts(self.groups@),
            provides: texts(self.provides@),
            depends: texts(self.depends@),
            optdepends: texts(self.optdepends@),
            required_by: texts(self.required_by@),
            optional_for: texts(self.optional_for@),
            conflicts: texts(self.conflicts@),
            replaces: texts(self.replaces@),
            has_install_script: self.has_install_script,
            files: texts(self.files@),
        }
    }
}

/// An empty package: empty texts and lists, zero numbers, explicitly installed.
pub open spec fn empty_package() -> PackageView {
    PackageView {
        name: seq![],
        version: seq![],
        description: seq![],
        architecture: seq![],
        url: seq![],
        packager: seq![],
        licenses: seq![],
        validated_by: seq![],
        install_reason: InstallReason::Explicit,
        installed_size: 0,
        install_date: 0,
        build_date: 0,
        groups: seq![],
        provides: seq![],
        depends: seq![],
        optdepends: seq![],
        required_by: seq![],
        optional_for: seq![],
        conflicts: seq![],
        replaces: seq![],
        has_install_script: false,
        files: seq![],
    }
}

impl Default for Package {
    fn default() -> (r: Self)
        ensures
            r@ == empty_package(),
    {
        let r = Package {
            name: String::new(),
            version: String::new(),
            description: String::new(),
            architecture: String::new(),
            url: String::new(),
            packager: String::new(),
            licenses: Vec::new(),
            validated_by: String::new(),
            install_reason: InstallReason::Explicit,
            installed_size: 0,
            install_date: 0,
            build_date: 0,
            groups: Vec::new(),
            provides: Vec::new(),
            depends: Vec::new(),
            optdepends: Vec::new(),
            required_by: Vec::new(),
            optional_for: Vec::new(),
            conflicts: Vec::new(),
            replaces: Vec::new(),
            has_install_script: false,
            files: Vec::new(),
        };
        assert(r@.licenses =~= seq![]);
        assert(r@.groups =~= seq![]);
        assert(r@.provides =~= seq![]);
        assert(r@.depends =~= seq![]);
        assert(r@.optdepends =~= seq![]);
        assert(r@.required_by =~= seq![]);
        assert(r@.optional_for =~= seq![]);
        assert(r@.conflicts =~= seq![]);
        assert(r@.replaces =~= seq![]);
        assert(r@.files =~= seq![]);
        r
    }
}

impl PackageView {
    /// Installed as a dependency, and nothing requires it.
    pub open spec fn orphan(self) -> bool {
        self.install_reason == InstallReason::Dependency && self.required_by.len() == 0
    }
}

impl Package {
    pub fn is_orphan(&self) -> (r: bool)
        ensures
            r == self@.orphan(),
    {
        !self.install_reason.is_explicit() && self.required_by.len() == 0
    }
}

} // verus!

verus! {

/// Index of the first empty line at or after `j`, or `ls.len()`.
pub open spec fn block_end(ls: Seq<Seq<char>>, j: int) -> int
    decreases ls.len() - j,
{
    if j >= ls.len() {
        ls.len() as int
    } else if ls[j].len() == 0 {
        j
    } else {
        block_end(ls, j + 1)
    }
}

pub proof fn lemma_block_end(ls: Seq<Seq<char>>, j: int)
    requires
        0 <= j <= ls.len(),
    ensures
        j <= block_end(ls, j) <= ls.len(),
        block_end(ls, j) < ls.len() ==> ls[block_end(ls, j)].len() == 0,
        forall|k: int| j <= k < block_end(ls, j) ==> ls[k].len() > 0,
    decreases ls.len() - j,
{
    if j < ls.len() && ls[j].len() > 0 {
        lemma_block_end(ls, j + 1);
    }
}

/// A line that opens a record: it starts with `'%'`.
pub open spec fn is_header(l: Seq<char>) -> bool {
    l.len() > 0 && l[0] == '%'
}

/// The records of a `desc` file from line `i` on: each header line names a
/// field (the line with its `'%'`s trimmed) whose values are the lines after
/// it up to the next empty line, which is consumed. Lines outside a record
/// that are not headers are skipped.
pub open spec fn desc_records(ls: Seq<Seq<char>>, i: int) -> Seq<(Seq<char>, Seq<Seq<char>>)>
    decreases ls.len() - i,
{
    if i < 0 || i >= ls.len() {
        seq![]
    } else if !is_header(ls[i]) {
        desc_records(ls, i + 1)
    } else {
        let e = block_end(ls, i + 1);
        proof {
            lemma_block_end(ls, i + 1);
        }
        let next = if e < ls.len() { e + 1 } else { e };
        seq![(trim_char(ls[i], '%'), ls.subrange(i + 1, e))] + desc_records(ls, next)
    }
}

pub open spec fn first_or_empty(vs: Seq<Seq<char>>) -> Seq<char> {
    if vs.len() > 0 { vs[0] } else { seq![] }
}

pub open spec fn i64_or_zero(v: Option<i64>) -> i64 {
    match v {
        Some(x) => x,
        None => 0,
    }
}

pub open spec fn u64_or_zero(v: Option<u64>) -> u64 {
    match v {
        Some(x) => x,
        None => 0,
    }
}

/// What one record of a `desc` file sets in a package.
pub open spec fn apply_field(p: PackageView, field: Seq<char>, vs: Seq<Seq<char>>) -> PackageView {
    if field == "NAME"@ {
        PackageView { name: first_or_empty(vs), ..p }
    } else if field == "VERSION"@ {
        PackageView { version: first_or_empty(vs), ..p }
    } else if field == "DESC"@ {
        PackageView { description: first_or_empty(vs), ..p }
    } else if field == "ARCH"@ {
        PackageView { architecture: first_or_empty(vs), ..p }
    } else if field == "URL"@ {
        PackageView { url: first_or_empty(vs), ..p }
    } else if field == "LICENSE"@ {
        PackageView { licenses: vs, ..p }
    } else if field == "GROUPS"@ {
        PackageView { groups: vs, ..p }
    } else if field == "PROVIDES"@ {
        PackageView { provides: vs, ..p }
    } else if field == "DEPENDS"@ {
        PackageView { depends: vs, ..p }
    } else if field == "OPTDEPENDS"@ {
        PackageView { optdepends: vs, ..p }
    } else if field == "CONFLICTS"@ {
        PackageView { conflicts: vs, ..p }
    } else if field == "REPLACES"@ {
        PackageView { replaces: vs, ..p }
    } else if field == "PACKAGER"@ {
        PackageView { packager: first_or_empty(vs), ..p }
    } else if field == "BUILDDATE"@ {
        PackageView { build_date: i64_or_zero(parse_i64(first_or_empty(vs))), ..p }
    } else if field == "INSTALLDATE"@ {
        PackageView { install_date: i64_or_zero(parse_i64(first_or_empty(vs))), ..p }
    } else if field == "REASON"@ {
        if first_or_empty(vs) == "1"@ {
            PackageView { install_reason: InstallReason::Dependency, ..p }
        } else {
            p
        }
    } else if field == "VALIDATION"@ {
        PackageView { validated_by: join(vs, ", "@), ..p }
    } else if field == "SIZE"@ {
        PackageView { installed_size: u64_or_zero(parse_u64(first_or_empty(vs))), ..p }
    } else {
        p
    }
}

/// The records applied in order.
pub open spec fn apply_records(p: PackageView, recs: Seq<(Seq<char>, Seq<Seq<char>>)>) -> PackageView
    decreases recs.len(),
{
    if recs.len() == 0 {
        p
    } else {
        apply_records(apply_field(p, recs[0].0, recs[0].1), recs.drop_first())
    }
}

/// The package that a `desc` file describes.
pub open spec fn desc_package(raw: Seq<char>) -> PackageView {
    apply_records(empty_package(), desc_records(lines(raw), 0))
}

fn take_first(values: Vec<String>) -> (r: String)
    ensures
        r@ == first_or_empty(texts(values@)),
{
    let mut values = values;
    if values.len() > 0 {
        values.remove(0)
    } else {
        String::new()
    }
}

fn first_chars(values: &Vec<String>) -> (r: Vec<char>)
    ensures
        r@ == first_or_empty(texts(values@)),
{
    if values.len() > 0 {
        chars_of(values[0].as_str())
    } else {
        Vec::new()
    }
}

fn apply_text_field(pkg: &mut Package, field: &Vec<char>, values: Vec<String>) -> (done: bool)
    ensures
        done ==> final(pkg)@ == apply_field(old(pkg)@, field@, texts(values@)),
        !done ==> *final(pkg) == *old(pkg),
        !done ==> field@ != "NAME"@ && field@ != "VERSION"@ && field@ != "DESC"@ && field@
            != "ARCH"@ && field@ != "URL"@ && field@ != "LICENSE"@ && field@ != "GROUPS"@ && field@
            != "PROVIDES"@ && field@ != "DEPENDS"@ && field@ != "OPTDEPENDS"@ && field@
            != "CONFLICTS"@ && field@ != "REPLACES"@ && field@ != "PACKAGER"@,
{
    if eq_str(field, "NAME") {
        pkg.name = take_first(values);
    } else if eq_str(field, "VERSION") {
        pkg.version = take_first(values);
    } else if eq_str(field, "DESC") {
        pkg.description = take_first(values);
    } else if eq_str(field, "ARCH") {
        pkg.architecture = take_first(values);
    } else if eq_str(field, "URL") {
        pkg.url = take_first(values);
    } else if eq_str(field, "LICENSE") {
        pkg.licenses = values;
    } else if eq_str(field, "GROUPS") {
        pkg.groups = values;
    } else if eq_str(field, "PROVIDES") {
        pkg.provides = values;
    } else if eq_str(field, "DEPENDS") {
        pkg.depends = values;
    } else if eq_str(field, "OPTDEPENDS") {
        pkg.optdepends = values;
    } else if eq_str(field, "CONFLICTS") {
        pkg.conflicts = values;
    } else if eq_str(field, "REPLACES") {
        pkg.replaces = values;
    } else if eq_str(field, "PACKAGER") {
        pkg.packager = take_first(values);
    } else {
        return false;
    }
    true
}

fn apply_desc_field(pkg: &mut Package, field: &Vec<char>, values: Vec<String>)
    ensures
        final(pkg)@ == apply_field(old(pkg)@, field@, texts(values@)),
{
    let ghost vs = texts(values@);
    let first = first_chars(&values);
    let joined = join_strings(&values, ", ");
    if apply_text_field(pkg, field, values) {
        return;
    }
    if eq_str(field, "BUILDDATE") {
        pkg.build_date = match parse_i64_vec(&first) {
            Some(x) => x,
            None => 0,
        };
    } else if eq_str(field, "INSTALLDATE") {
        pkg.install_date = match parse_i64_vec(&first) {
            Some(x) => x,
            None => 0,
        };
    } else if eq_str(field, "REASON") {
        if eq_str(&first, "1") {
            pkg.install_reason = InstallReason::Dependency;
        }
    } else if eq_str(field, "VALIDATION") {
        pkg.validated_by = joined;
    } else if eq_str(field, "SIZE") {
        pkg.installed_size = match parse_u64_vec(&first) {
            Some(x) => x,
            None => 0,
        };
    }
}

/// Reads a package from the text of its `desc` file.
pub fn parse_desc(raw: &str) -> (pkg: Package)
    ensures
        pkg@ == desc_package(raw@),
{
    let chars = chars_of(raw);
    let ls = split_lines(&chars);
    let ghost l = ls@.map_values(|x: Vec<char>| x@);
    let n = ls.len();
    let mut pkg = Package::default();
    let mut i: usize = 0;
    while i < n
        invariant
            n == ls.len(),
            l == ls@.map_values(|x: Vec<char>| x@),
            l == lines(raw@),
            i <= n,
            desc_package(raw@) == apply_records(pkg@, desc_records(l, i as int)),
        decreases n - i,
    {
        assert(l[i as int] == ls[i as int]@);
        if !(ls[i].len() > 0 && ls[i][0] == '%') {
            i = i + 1;
        } else {
            let field = trim_char_vec(&ls[i], '%');
            let mut values: Vec<String> = Vec::new();
            let mut j = i + 1;
            proof {
                lemma_block_end(l, i + 1);
            }
            while j < n && ls[j].len() > 0
                invariant
                    n == ls.len(),
                    l == ls@.map_values(|x: Vec<char>| x@),
                    i < j <= n,
                    block_end(l, i + 1) == block_end(l, j as int),
                    texts(values@) == l.subrange(i + 1, j as int),
                decreases n - j,
            {
                assert(l[j as int] == ls[j as int]@);
                let v = string_of(&ls[j]);
                let ghost before = values@;
                values.push(v);
                assert(values@ == before.push(v));
                assert(texts(values@) =~= texts(before).push(v@));
                assert(texts(values@) =~= l.subrange(i + 1, j + 1));
                j = j + 1;
            }
            let ghost rec = (trim_char(l[i as int], '%'), l.subrange(i + 1, j as int));
            let next = if j < n { j + 1 } else { j };
            let ghost rest = desc_records(l, next as int);
            assert(desc_records(l, i as int) == seq![rec] + rest);
            assert((seq![rec] + rest).drop_first() =~= rest);
            apply_desc_field(&mut pkg, &field, values);
            i = next;
        }
    }
    pkg
}

} // verus!

verus! {

/// The paths of a `files` list: its lines after the first, without the empty
/// ones, each with a `'/'` in front.
pub open spec fn file_paths(ls: Seq<Seq<char>>, i: int) -> Seq<Seq<char>>
    decreases ls.len() - i,
{
    if i < 0 || i >= ls.len() {
        seq![]
    } else if ls[i].len() > 0 {
        seq![seq!['/'] + ls[i]] + file_paths(ls, i + 1)
    } else {
        file_paths(ls, i + 1)
    }
}

/// Reads the paths of a package's `files` list.
pub fn parse_files(raw: &str) -> (r: Vec<String>)
    ensures
        texts(r@) == file_paths(lines(raw@), 1),
{
    let chars = chars_of(raw);
    let ls = split_lines(&chars);
    let ghost l = ls@.map_values(|x: Vec<char>| x@);
    let mut out: Vec<String> = Vec::new();
    let mut i: usize = 1;
    if ls.len() == 0 {
        return out;
    }
    assert(texts(out@) =~= seq![]);
    while i < ls.len()
        invariant
            1 <= i <= ls.len(),
            l == ls@.map_values(|x: Vec<char>| x@),
            l == lines(raw@),
            texts(out@) + file_paths(l, i as int) == file_paths(l, 1),
        decreases ls.len() - i,
    {
        assert(l[i as int] == ls[i as int]@);
        if ls[i].len() > 0 {
            let mut p: Vec<char> = Vec::new();
            p.push('/');
            crate::text::append_chars(&mut p, &ls[i]);
            assert(p@ =~= seq!['/'] + l[i as int]);
            let ghost before = out@;
            out.push(string_of(&p));
            assert(texts(out@) =~= texts(before).push(p@));
            assert(texts(out@) + file_paths(l, i + 1) =~= texts(before) + file_paths(l, i as int));
        }
        i = i + 1;
    }
    assert(file_paths(l, i as int) =~= seq![]);
    assert(texts(out@) =~= texts(out@) + file_paths(l, i as int));
    out
}

/// Index of the first character at or after `i` for which `p` holds, or `s.len()`.
pub open spec fn find_char(s: Seq<char>, p: spec_fn(char) -> bool, i: int) -> int
    decreases s.len() - i,
{
    if i >= s.len() {
        s.len() as int
    } else if p(s[i]) {
        i
    } else {
        find_char(s, p, i + 1)
    }
}

pub proof fn lemma_find_char(s: Seq<char>, p: spec_fn(char) -> bool, i: int)
    requires
        0 <= i <= s.len(),
    ensures
        i <= find_char(s, p, i) <= s.len(),
    decreases s.len() - i,
{
    if i < s.len() && !p(s[i]) {
        lemma_find_char(s, p, i + 1);
    }
}

pub open spec fn version_op() -> spec_fn(char) -> bool {
    |c: char| c == '=' || c == '<' || c == '>'
}

pub open spec fn colon() -> spec_fn(char) -> bool {
    |c: char| c == ':'
}

/// The package a dependency names: the text before any `'='`, `'<'` or `'>'`, trimmed.
pub open spec fn dep_base(d: Seq<char>) -> Seq<char> {
    trim(d.subrange(0, find_char(d, version_op(), 0)))
}

/// The package an optional dependency names: the text before any `':'`, trimmed.
pub open spec fn optdep_base(d: Seq<char>) -> Seq<char> {
    trim(d.subrange(0, find_char(d, colon(), 0)))
}

fn is_cut(c: char, optional: bool) -> (r: bool)
    ensures
        r == (if optional { colon() } else { version_op() })(c),
{
    if optional {
        c == ':'
    } else {
        c == '=' || c == '<' || c == '>'
    }
}

fn cut_before(v: &Vec<char>, optional: bool) -> (r: Vec<char>)
    ensures
        r@ == v@.subrange(
            0,
            find_char(v@, if optional { colon() } else { version_op() }, 0),
        ),
{
    let ghost p = if optional { colon() } else { version_op() };
    let mut i: usize = 0;
    proof {
        lemma_find_char(v@, p, 0);
    }
    while i < v.len() && !is_cut(v[i], optional)
        invariant
            i <= v.len(),
            p == (if optional { colon() } else { version_op() }),
            find_char(v@, p, 0) == find_char(v@, p, i as int),
        decreases v.len() - i,
    {
        i = i + 1;
    }
    slice_chars(v, 0, i)
}

/// The package name in a dependency (`dep_base`), or in an optional
/// dependency (`optdep_base`).
pub fn base_name(dep: &str, optional: bool) -> (r: Vec<char>)
    ensures
        r@ == (if optional { optdep_base(dep@) } else { dep_base(dep@) }),
{
    let v = chars_of(dep);
    let c = cut_before(&v, optional);
    trim_vec(&c)
}

/// `dep_base` of a dependency.
pub fn dep_base_name(dep: &str) -> (r: String)
    ensures
        r@ == dep_base(dep@),
{
    string_of(&base_name(dep, false))
}

/// `optdep_base` of an optional dependency.
pub fn optdep_base_name(dep: &str) -> (r: String)
    ensures
        r@ == optdep_base(dep@),
{
    string_of(&base_name(dep, true))
}

} // verus!

verus! {

pub open spec fn views(ps: Seq<Package>) -> Seq<PackageView> {
    ps.map_values(|p: Package| p@)
}

pub open spec fn base_of(d: Seq<char>, optional: bool) -> Seq<char> {
    if optional { optdep_base(d) } else { dep_base(d) }
}

pub open spec fn deps_of(p: PackageView, optional: bool) -> Seq<Seq<char>> {
    if optional { p.optdepends } else { p.depends }
}

/// How many of `deps` name the package `name`.
pub open spec fn hits(deps: Seq<Seq<char>>, name: Seq<char>, optional: bool) -> nat
    decreases deps.len(),
{
    if deps.len() == 0 {
        0
    } else {
        hits(deps.drop_last(), name, optional) + (if base_of(deps.last(), optional) == name {
            1nat
        } else {
            0nat
        })
    }
}

/// The names of the packages among the first `n` that depend on `name`, in
/// package order, once per dependency that names it.
pub open spec fn requirers(ps: Seq<PackageView>, n: int, name: Seq<char>, optional: bool) -> Seq<Seq<char>>
    decreases n,
{
    if n <= 0 {
        seq![]
    } else {
        requirers(ps, n - 1, name, optional) + Seq::new(
            hits(deps_of(ps[n - 1], optional), name, optional),
            |_i: int| ps[n - 1].name,
        )
    }
}

/// No later package has the same name; a name is looked up to its last package.
pub open spec fn last_of_name(ps: Seq<PackageView>, t: int) -> bool {
    forall|u: int| t < u < ps.len() ==> #[trigger] ps[u].name != ps[t].name
}

/// The packages that depend on package `t`.
pub open spec fn reverse_list(ps: Seq<PackageView>, t: int, optional: bool) -> Seq<Seq<char>> {
    if last_of_name(ps, t) {
        requirers(ps, ps.len() as int, ps[t].name, optional)
    } else {
        seq![]
    }
}

/// A reverse dependency list after the computation: the sorted `found` names
/// when there are any, the old list otherwise.
pub open spec fn list_result(old_list: Seq<Seq<char>>, found: Seq<Seq<char>>, new_list: Seq<Seq<char>>) -> bool {
    if found.len() > 0 {
        sorted_texts(new_list) && new_list.to_multiset() == found.to_multiset()
    } else {
        new_list == old_list
    }
}

pub open spec fn with_reverse_deps(p: PackageView, req: Seq<Seq<char>>, opt: Seq<Seq<char>>) -> PackageView {
    PackageView { required_by: req, optional_for: opt, ..p }
}

/// `qs` is `ps` with each package's `required_by` and `optional_for` computed.
pub open spec fn reverse_deps_hold(ps: Seq<PackageView>, qs: Seq<PackageView>) -> bool {
    &&& qs.len() == ps.len()
    &&& forall|t: int|
        0 <= t < ps.len() ==> {
            &&& #[trigger] qs[t] == with_reverse_deps(ps[t], qs[t].required_by, qs[t].optional_for)
            &&& list_result(ps[t].required_by, reverse_list(ps, t, false), qs[t].required_by)
            &&& list_result(ps[t].optional_for, reverse_list(ps, t, true), qs[t].optional_for)
        }
}

fn names_of(packages: &Vec<Package>) -> (r: Vec<Vec<char>>)
    ensures
        r.len() == packages.len(),
        forall|u: int| 0 <= u < r.len() ==> #[trigger] r[u]@ == packages[u].name@,
{
    let mut r: Vec<Vec<char>> = Vec::new();
    let mut i: usize = 0;
    while i < packages.len()
        invariant
            i <= packages.len(),
            r.len() == i,
            forall|u: int| 0 <= u < r.len() ==> #[trigger] r[u]@ == packages[u].name@,
        decreases packages.len() - i,
    {
        r.push(chars_of(packages[i].name.as_str()));
        i = i + 1;
    }
    r
}

/// The last index whose name is `b`.
fn find_last_name(names: &Vec<Vec<char>>, b: &Vec<char>) -> (r: Option<usize>)
    ensures
        match r {
            Some(t) => t < names.len() && names[t as int]@ == b@ && forall|u: int|
                t < u < names.len() ==> #[trigger] names[u]@ != b@,
            None => forall|u: int| 0 <= u < names.len() ==> #[trigger] names[u]@ != b@,
        },
{
    let mut i = names.len();
    while i > 0
        invariant
            i <= names.len(),
            forall|u: int| i <= u < names.len() ==> #[trigger] names[u]@ != b@,
        decreases i,
    {
        if vec_eq(&names[i - 1], b) {
            return Some(i - 1);
        }
        i = i - 1;
    }
    None
}

fn push_at(r: &mut Vec<Vec<String>>, t: usize, s: String)
    requires
        t < old(r).len(),
    ensures
        final(r).len() == old(r).len(),
        forall|u: int| 0 <= u < final(r).len() && u != t ==> #[trigger] final(r)[u] == old(r)[u],
        final(r)[t as int]@ == old(r)[t as int]@.push(s),
{
    let mut tmp: Vec<String> = Vec::new();
    r.set_and_swap(t, &mut tmp);
    tmp.push(s);
    r.set_and_swap(t, &mut tmp);
}

proof fn lemma_new_push(c: nat, x: Seq<char>)
    ensures
        Seq::new(c + 1, |_i: int| x) == Seq::new(c, |_i: int| x).push(x),
{
    assert(Seq::new(c + 1, |_i: int| x) =~= Seq::new(c, |_i: int| x).push(x));
}

/// For each package, the packages that depend on it (`reverse_list`).
fn collect_requirers(packages: &Vec<Package>, names: &Vec<Vec<char>>, optional: bool) -> (r: Vec<Vec<String>>)
    requires
        names.len() == packages.len(),
        forall|u: int| 0 <= u < names.len() ==> #[trigger] names[u]@ == packages[u].name@,
    ensures
        r.len() == packages.len(),
        forall|t: int| 0 <= t < r.len() ==> texts(#[trigger] r[t]@) == reverse_list(views(packages@), t, optional),
{
    let ghost ps = views(packages@);
    let n = packages.len();
    let mut r: Vec<Vec<String>> = Vec::new();
    let mut t: usize = 0;
    while t < n
        invariant
            t <= n == packages.len(),
            r.len() == t,
            forall|u: int| 0 <= u < t ==> (#[trigger] r[u])@.len() == 0,
        decreases n - t,
    {
        r.push(Vec::new());
        t = t + 1;
    }
    assert forall|u: int| 0 <= u < n implies texts(#[trigger] r[u]@) == (if last_of_name(ps, u) {
        requirers(ps, 0, ps[u].name, optional)
    } else {
        seq![]
    }) by {
        assert(texts(r[u]@) =~= seq![]);
    }
    let mut k: usize = 0;
    while k < n
        invariant
            k <= n == packages.len(),
            ps == views(packages@),
            names.len() == n,
            forall|u: int| 0 <= u < names.len() ==> #[trigger] names[u]@ == packages[u].name@,
            r.len() == n,
            forall|u: int| 0 <= u < n ==> texts(#[trigger] r[u]@) == (if last_of_name(ps, u) {
                requirers(ps, k as int, ps[u].name, optional)
            } else {
                seq![]
            }),
        decreases n - k,
    {
        let deps = if optional { &packages[k].optdepends } else { &packages[k].depends };
        let ghost ds = texts(deps@);
        assert(ds == deps_of(ps[k as int], optional));
        let mut j: usize = 0;
        assert forall|u: int| 0 <= u < n implies texts(#[trigger] r[u]@) == (if last_of_name(ps, u) {
            requirers(ps, k as int, ps[u].name, optional) + Seq::new(
                hits(ds.subrange(0, j as int), ps[u].name, optional),
                |_i: int| ps[k as int].name,
            )
        } else {
            seq![]
        }) by {
            assert(hits(ds.subrange(0, 0), ps[u].name, optional) == 0);
            if last_of_name(ps, u) {
                assert(requirers(ps, k as int, ps[u].name, optional) + Seq::new(
                    0,
                    |_i: int| ps[k as int].name,
                ) =~= requirers(ps, k as int, ps[u].name, optional));
            }
        }
        while j < deps.len()
            invariant
                k < n == packages.len(),
                ps == views(packages@),
                ds == texts(deps@),
                ds == deps_of(ps[k as int], optional),
                j <= deps.len(),
                names.len() == n,
                forall|u: int| 0 <= u < names.len() ==> #[trigger] names[u]@ == packages[u].name@,
                r.len() == n,
                forall|u: int| 0 <= u < n ==> texts(#[trigger] r[u]@) == (if last_of_name(ps, u) {
                    requirers(ps, k as int, ps[u].name, optional) + Seq::new(
                        hits(ds.subrange(0, j as int), ps[u].name, optional),
                        |_i: int| ps[k as int].name,
                    )
                } else {
                    seq![]
                }),
            decreases deps.len() - j,
        {
            let b = base_name(deps[j].as_str(), optional);
            assert(ds[j as int] == deps[j as int]@);
            assert(ds.subrange(0, j + 1).drop_last() =~= ds.subrange(0, j as int));
            assert(ds.subrange(0, j + 1).last() == ds[j as int]);
            assert(b@ == base_of(ds[j as int], optional));
            let ghost old_r = r@;
            match find_last_name(names, &b) {
                Some(t0) => {
                    let nm = packages[k].name.clone();
                    push_at(&mut r, t0, nm);
                    assert forall|u: int| 0 <= u < n implies texts(#[trigger] r[u]@) == (if last_of_name(ps, u) {
                        requirers(ps, k as int, ps[u].name, optional) + Seq::new(
                            hits(ds.subrange(0, j + 1), ps[u].name, optional),
                            |_i: int| ps[k as int].name,
                        )
                    } else {
                        seq![]
                    }) by {
                        assert(names[u]@ == ps[u].name);
                        if u == t0 {
                            assert(ps[u].name == b@);
                            assert forall|w: int| u < w < ps.len() implies #[trigger] ps[w].name != ps[u].name by {
                                assert(names[w]@ == packages[w].name@);
                            }
                            assert(last_of_name(ps, u));
                            lemma_new_push(hits(ds.subrange(0, j as int), ps[u].name, optional), ps[k as int].name);
                            assert(texts(r[u]@) =~= texts(old_r[u]@).push(nm@));
                        } else {
                            assert(r[u] == old_r[u]);
                            if last_of_name(ps, u) && ps[u].name == b@ {
                                if u < t0 {
                                    assert(ps[t0 as int].name == ps[u].name);
                                } else {
                                    assert(names[u]@ == b@);
                                }
                            }
                        }
                    }
                },
                None => {
                    assert forall|u: int| 0 <= u < n implies texts(#[trigger] r[u]@) == (if last_of_name(ps, u) {
                        requirers(ps, k as int, ps[u].name, optional) + Seq::new(
                            hits(ds.subrange(0, j + 1), ps[u].name, optional),
                            |_i: int| ps[k as int].name,
                        )
                    } else {
                        seq![]
                    }) by {
                        assert(names[u]@ == ps[u].name);
                    }
                },
            }
            j = j + 1;
        }
        assert(ds.subrange(0, deps.len() as int) =~= ds);
        k = k + 1;
    }
    r
}

} // verus!

verus! {

/// Puts each package's reverse dependencies in place (`reverse_deps_hold`):
/// the names of the packages that depend on it (`required_by`) or list it as
/// an optional dependency (`optional_for`), sorted; a name is looked up to the
/// last package of that name.
pub fn compute_reverse_deps(packages: &mut Vec<Package>)
    ensures
        reverse_deps_hold(views(old(packages)@), views(final(packages)@)),
{
    let ghost ps = views(packages@);
    let names = names_of(packages);
    let req = collect_requirers(packages, &names, false);
    let opt = collect_requirers(packages, &names, true);
    let n = packages.len();
    let mut t: usize = 0;
    while t < n
        invariant
            t <= n == packages.len() == req.len() == opt.len(),
            ps.len() == n,
            forall|u: int| 0 <= u < n ==> texts(#[trigger] req[u]@) == reverse_list(ps, u, false),
            forall|u: int| 0 <= u < n ==> texts(#[trigger] opt[u]@) == reverse_list(ps, u, true),
            forall|u: int| t <= u < n ==> #[trigger] packages[u]@ == ps[u],
            forall|u: int| 0 <= u < t ==> {
                &&& #[trigger] packages[u]@ == with_reverse_deps(ps[u], packages[u]@.required_by, packages[u]@.optional_for)
                &&& list_result(ps[u].required_by, reverse_list(ps, u, false), packages[u]@.required_by)
                &&& list_result(ps[u].optional_for, reverse_list(ps, u, true), packages[u]@.optional_for)
            },
        decreases n - t,
    {
        let ghost before = packages@;
        let mut p = Package::default();
        packages.set_and_swap(t, &mut p);
        assert(p@ == ps[t as int]);
        if req[t].len() > 0 {
            p.required_by = sort_strings(&req[t]);
        }
        if opt[t].len() > 0 {
            p.optional_for = sort_strings(&opt[t]);
        }
        assert(p@ =~= with_reverse_deps(ps[t as int], p@.required_by, p@.optional_for));
        packages.set_and_swap(t, &mut p);
        assert forall|u: int| 0 <= u < n && u != t implies #[trigger] packages[u] == before[u] by {}
        t = t + 1;
    }
    assert(views(packages@).len() == n);
    assert forall|u: int| 0 <= u < n implies #[trigger] views(packages@)[u] == packages[u]@ by {}
}

/// The names of packages as sort keys.
pub open spec fn name_keys(ps: Seq<PackageView>) -> Seq<KeyView> {
    ps.map_values(|p: PackageView| (p.name, 0int))
}

/// `perm` lists every index of `ps` once, ordered by name, equal names in
/// index order: the order in which a stable sort by name leaves them.
pub open spec fn stable_name_order(ps: Seq<PackageView>, perm: Seq<usize>) -> bool {
    &&& perm.len() == ps.len()
    &&& perm.no_duplicates()
    &&& forall|i: int| 0 <= i < perm.len() ==> #[trigger] perm[i] < ps.len()
    &&& ordered(name_keys(ps), false, perm)
}

pub open spec fn permuted(ps: Seq<PackageView>, perm: Seq<usize>) -> Seq<PackageView> {
    perm.map_values(|i: usize| ps[i as int])
}

/// Sorts packages by name, keeping the order of packages with equal names.
pub fn sort_by_name(packages: Vec<Package>) -> (r: Vec<Package>)
    ensures
        exists|perm: Seq<usize>|
            stable_name_order(views(packages@), perm) && views(r@) == permuted(views(packages@), perm),
{
    broadcast use vstd::seq_lib::group_to_multiset_ensures;
    let ghost ps = views(packages@);
    let n = packages.len();
    let mut keys: Vec<(Vec<char>, i128)> = Vec::new();
    let mut items: Vec<usize> = Vec::new();
    let mut i: usize = 0;
    while i < n
        invariant
            i <= n == packages.len(),
            ps == views(packages@),
            keys.len() == i,
            items.len() == i,
            forall|q: int| 0 <= q < i ==> #[trigger] items[q] == q,
            key_views(keys@) == name_keys(ps).subrange(0, i as int),
        decreases n - i,
    {
        let ghost kb = key_views(keys@);
        keys.push((chars_of(packages[i].name.as_str()), 0));
        items.push(i);
        assert(key_views(keys@) =~= name_keys(ps).subrange(0, i + 1));
        i = i + 1;
    }
    assert(name_keys(ps).subrange(0, n as int) =~= name_keys(ps));
    assert(items@.no_duplicates());
    let order = sort_indices(&items, &keys, false);
    let ghost perm = order@;
    proof {
        assert(perm.no_duplicates()) by {
            assert forall|a: int, b: int| 0 <= a < perm.len() && 0 <= b < perm.len() && a != b implies perm[a] != perm[b] by {
                if a < b {
                    assert(crate::order::before(name_keys(ps), false, perm[a] as int, perm[b] as int));
                } else {
                    assert(crate::order::before(name_keys(ps), false, perm[b] as int, perm[a] as int));
                }
            }
        }
        items@.to_multiset_ensures();
        perm.to_multiset_ensures();
    }
    let mut src = packages;
    let mut out: Vec<Package> = Vec::new();
    let mut k: usize = 0;
    while k < n
        invariant
            k <= n == src.len() == order.len(),
            ps.len() == n,
            perm == order@,
            perm.no_duplicates(),
            forall|q: int| 0 <= q < n ==> #[trigger] order[q] < n,
            out.len() == k,
            forall|q: int| 0 <= q < k ==> #[trigger] out[q]@ == ps[perm[q] as int],
            forall|j: int| 0 <= j < n && !perm.subrange(0, k as int).contains(j as usize) ==> #[trigger] src[j]@ == ps[j],
        decreases n - k,
    {
        let idx = order[k];
        assert(!perm.subrange(0, k as int).contains(idx)) by {
            if perm.subrange(0, k as int).contains(idx) {
                let q = choose|q: int| 0 <= q < k && perm.subrange(0, k as int)[q] == idx;
                assert(perm[q] == perm[k as int]);
            }
        }
        let ghost sb = src@;
        let mut tmp = Package::default();
        src.set_and_swap(idx, &mut tmp);
        out.push(tmp);
        assert forall|j: int| 0 <= j < n && !perm.subrange(0, k + 1).contains(j as usize) implies #[trigger] src[j]@ == ps[j] by {
            assert(perm.subrange(0, k + 1)[k as int] == idx);
            assert(j != idx);
            assert(src[j] == sb[j]);
            if perm.subrange(0, k as int).contains(j as usize) {
                let q = choose|q: int| 0 <= q < k && perm.subrange(0, k as int)[q] == j as usize;
                assert(perm.subrange(0, k + 1)[q] == j as usize);
            }
        }
        k = k + 1;
    }
    assert(views(out@) =~= permuted(ps, perm));
    assert(stable_name_order(ps, perm));
    out
}

/// What pacman's local database holds, as loaded: the packages sorted by
/// name (stably) and their reverse dependencies computed.
pub fn finish_packages(packages: Vec<Package>) -> (r: Vec<Package>)
    ensures
        exists|perm: Seq<usize>|
            stable_name_order(views(packages@), perm) && reverse_deps_hold(
                permuted(views(packages@), perm),
                views(r@),
            ),
{
    let mut sorted = sort_by_name(packages);
    let ghost s = views(sorted@);
    compute_reverse_deps(&mut sorted);
    sorted
}

/// A package from the text of its `desc` file, whether it has an `install`
/// script, and the text of its `files` list when that could be read.
pub fn package_from_files(desc: &str, has_install_script: bool, files: Option<&str>) -> (r: Package)
    ensures
        r@ == (PackageView {
            has_install_script,
            files: match files {
                Some(f) => file_paths(lines(f@), 1),
                None => desc_package(desc@).files,
            },
            ..desc_package(desc@)
        }),
{
    let mut pkg = parse_desc(desc);
    pkg.has_install_script = has_install_script;
    match files {
        Some(f) => {
            pkg.files = parse_files(f);
        },
        None => {},
    }
    pkg
}

} // verus!

verus! {

/// The spacing of the `f64` values around `b`: 1 below 2^53, then doubling
/// with each binary digit more.
pub open spec fn f64_spacing(b: nat) -> nat {
    if b < 0x20_0000_0000_0000 {
        1
    } else if b < 0x40_0000_0000_0000 {
        2
    } else if b < 0x80_0000_0000_0000 {
        4
    } else if b < 0x100_0000_0000_0000 {
        8
    } else if b < 0x200_0000_0000_0000 {
        16
    } else if b < 0x400_0000_0000_0000 {
        32
    } else if b < 0x800_0000_0000_0000 {
        64
    } else if b < 0x1000_0000_0000_0000 {
        128
    } else if b < 0x2000_0000_0000_0000 {
        256
    } else if b < 0x4000_0000_0000_0000 {
        512
    } else if b < 0x8000_0000_0000_0000 {
        1024
    } else {
        2048
    }
}

/// `n / d` rounded to the nearest integer, ties to the even one.
pub open spec fn div_round_even(n: nat, d: nat) -> nat {
    let q = n / d;
    let r = n % d;
    if 2 * r > d || (2 * r == d && q % 2 == 1) {
        q + 1
    } else {
        q
    }
}

/// `b as f64`: the nearest `f64`, ties to the even mantissa.
pub open spec fn as_f64(b: nat) -> nat {
    div_round_even(b, f64_spacing(b)) * f64_spacing(b)
}

/// The unit that `human_size` picks: the largest power of 1024 (up to TiB)
/// that `b` reaches.
pub open spec fn size_unit(b: nat) -> nat {
    if b >= 0x100_0000_0000 {
        4
    } else if b >= 0x4000_0000 {
        3
    } else if b >= 0x10_0000 {
        2
    } else if b >= 0x400 {
        1
    } else {
        0
    }
}

pub open spec fn unit_scale(u: nat) -> nat {
    if u == 4 {
        0x100_0000_0000
    } else if u == 3 {
        0x4000_0000
    } else if u == 2 {
        0x10_0000
    } else if u == 1 {
        0x400
    } else {
        1
    }
}

pub open spec fn unit_name(u: nat) -> Seq<char> {
    if u == 4 {
        "TiB"@
    } else if u == 3 {
        "GiB"@
    } else if u == 2 {
        "MiB"@
    } else if u == 1 {
        "KiB"@
    } else {
        "B"@
    }
}

/// The size in hundredths of the unit, as `{:.2}` rounds it: to the nearest,
/// ties to even.
pub open spec fn size_hundredths(b: nat) -> nat {
    div_round_even(as_f64(b) * 100, unit_scale(size_unit(b)))
}

/// `human_size(b)`: the size in its unit with two decimals, a space, the unit.
pub open spec fn human_size_text(b: nat) -> Seq<char> {
    let c = size_hundredths(b);
    decimal(c / 100) + seq!['.', digit_char(((c / 10) % 10) as int), digit_char((c % 10) as int), ' ']
        + unit_name(size_unit(b))
}

fn round_even(n: u128, d: u128) -> (r: u128)
    requires
        d > 0,
        d <= 0x1_0000_0000_0000_0000,
        n < 0x1_0000_0000_0000_0000_0000_0000_0000,
    ensures
        r == div_round_even(n as nat, d as nat),
{
    let q = n / d;
    let r = n % d;
    assert(q <= n) by (nonlinear_arith)
        requires
            q == n / d,
            d > 0,
    ;
    if 2 * r > d || (2 * r == d && q % 2 == 1) {
        q + 1
    } else {
        q
    }
}

/// A byte count for people: `1536` is `"1.50 KiB"`.
pub fn human_size(bytes: u64) -> (r: String)
    ensures
        r@ == human_size_text(bytes as nat),
{
    let b = bytes as u128;
    let spacing: u128 = if b < 0x20_0000_0000_0000 {
        1
    } else if b < 0x40_0000_0000_0000 {
        2
    } else if b < 0x80_0000_0000_0000 {
        4
    } else if b < 0x100_0000_0000_0000 {
        8
    } else if b < 0x200_0000_0000_0000 {
        16
    } else if b < 0x400_0000_0000_0000 {
        32
    } else if b < 0x800_0000_0000_0000 {
        64
    } else if b < 0x1000_0000_0000_0000 {
        128
    } else if b < 0x2000_0000_0000_0000 {
        256
    } else if b < 0x4000_0000_0000_0000 {
        512
    } else if b < 0x8000_0000_0000_0000 {
        1024
    } else {
        2048
    };
    let q = round_even(b, spacing);
    assert(q <= 0x20_0000_0000_0000) by (nonlinear_arith)
        requires
            q <= b / spacing + 1,
            b < 0x1_0000_0000_0000_0000,
            spacing >= 1,
            b < 0x20_0000_0000_0000 * spacing,
    {
        assert(b / spacing < 0x20_0000_0000_0000);
    }
    let f: u128 = q * spacing;
    assert(f <= 0x1_0000_0000_0000_0000) by (nonlinear_arith)
        requires
            f == q * spacing,
            q <= 0x20_0000_0000_0000,
            spacing <= 2048,
            b < 0x20_0000_0000_0000 * spacing,
            q <= b / spacing + 1,
            spacing >= 1,
    {
        assert(q * spacing <= (b / spacing + 1) * spacing);
        assert((b / spacing) * spacing <= b);
    }
    let (unit, scale): (u64, u128) = if bytes >= 0x100_0000_0000 {
        (4, 0x100_0000_0000)
    } else if bytes >= 0x4000_0000 {
        (3, 0x4000_0000)
    } else if bytes >= 0x10_0000 {
        (2, 0x10_0000)
    } else if bytes >= 0x400 {
        (1, 0x400)
    } else {
        (0, 1)
    };
    assert(f == as_f64(bytes as nat));
    let c = round_even(f * 100, scale);
    assert(c <= 200_000_000_000) by (nonlinear_arith)
        requires
            c <= (f * 100) / (scale as int) + 1,
            f * 100 < 200_000_000_000 * scale,
            scale >= 1,
    {
        assert((f * 100) / (scale as int) < 200_000_000_000);
    }
    let c64 = c as u64;
    let mut out: Vec<char> = Vec::new();
    crate::text::push_decimal(&mut out, c64 / 100);
    out.push('.');
    crate::text::push_digit(&mut out, (c64 / 10) % 10);
    crate::text::push_digit(&mut out, c64 % 10);
    out.push(' ');
    let name = if unit == 4 {
        "TiB"
    } else if unit == 3 {
        "GiB"
    } else if unit == 2 {
        "MiB"
    } else if unit == 1 {
        "KiB"
    } else {
        "B"
    };
    crate::text::append_str(&mut out, name);
    assert(out@ =~= human_size_text(bytes as nat));
    string_of(&out)
}

} // verus!

verus! {

/// The first second that `chrono` can hold (the start of year -262143).
pub open spec fn first_timestamp() -> int {
    -8_334_601_228_800
}

/// The last second that `chrono` can hold (the end of year 262142).
pub open spec fn last_timestamp() -> int {
    8_210_266_876_799
}

/// The pattern in which times are shown.
pub open spec fn time_pattern() -> Seq<char> {
    "%a %d %b %Y %I:%M:%S %p %Z"@
}

/// `chrono::DateTime::<Utc>::from_timestamp(secs, 0)`, turned into the
/// machine's time zone (`DateTime<Local>::from`) and rendered with
/// `format(pattern).to_string()`. (`chrono`'s `DateTime` is generic over its
/// `TimeZone` trait, which Verus does not let this crate declare, so the value
/// does not leave this function.) Trusted: there is a text exactly when `secs`
/// lies in the range of dates that `chrono` holds, years -262143 to 262142
/// (`NaiveDate::MIN` to `NaiveDate::MAX`). The pattern is held to the one this
/// library uses, which `chrono` renders without error. What the text says is
/// not stated: it depends on the time zone that the environment sets. That
/// it is not `"Unknown"` is: the pattern begins with the weekday's short
/// name and a space.
#[verifier::external_body]
fn local_time_text(secs: i64, pattern: &str) -> (r: Option<String>)
    requires
        pattern@ == time_pattern(),
    ensures
        r.is_some() <==> first_timestamp() <= secs <= last_timestamp(),
        r matches Some(t) ==> t@ != "Unknown"@,
{
    match chrono::DateTime::from_timestamp(secs, 0) {
        Some(utc) => {
            let local: chrono::DateTime<chrono::Local> = utc.into();
            Some(local.format(pattern).to_string())
        },
        None => None,
    }
}

/// The text shown for a Unix time, given what the time zone drew of it
/// (`None` when it could not be drawn): `"Unknown"` for 0 and for a time not
/// drawn, else the drawn text.
pub fn epoch_text(epoch: i64, drawn: Option<String>) -> (r: String)
    ensures
        r@ == if epoch == 0 || drawn is None { "Unknown"@ } else { drawn->0@ },
{
    if epoch == 0 {
        return String::from_str("Unknown");
    }
    match drawn {
        Some(text) => text,
        None => String::from_str("Unknown"),
    }
}

/// A Unix time for people, in the machine's time zone: `"Unknown"` for 0 and
/// for times out of `chrono`'s range, else the time as `local_time_text`
/// draws it, which is never `"Unknown"`.
pub fn format_epoch(epoch: i64) -> (r: String)
    ensures
        epoch == 0 ==> r@ == "Unknown"@,
        !(first_timestamp() <= epoch <= last_timestamp()) ==> r@ == "Unknown"@,
        epoch != 0 && first_timestamp() <= epoch <= last_timestamp() ==> r@ != "Unknown"@,
{
    let drawn = if epoch == 0 {
        None
    } else {
        local_time_text(epoch, "%a %d %b %Y %I:%M:%S %p %Z")
    };
    epoch_text(epoch, drawn)
}

} // verus!

verus! {

proof fn lemma_hits_positive(deps: Seq<Seq<char>>, name: Seq<char>, optional: bool, j: int)
    requires
        0 <= j < deps.len(),
        base_of(deps[j], optional) == name,
    ensures
        hits(deps, name, optional) > 0,
    decreases deps.len(),
{
    if j < deps.len() - 1 {
        lemma_hits_positive(deps.drop_last(), name, optional, j);
    }
}

proof fn lemma_requirers_prefix(ps: Seq<PackageView>, m: int, n: int, name: Seq<char>, optional: bool, x: Seq<char>)
    requires
        0 <= m <= n,
        requirers(ps, m, name, optional).contains(x),
    ensures
        requirers(ps, n, name, optional).contains(x),
    decreases n - m,
{
    if m < n {
        lemma_requirers_prefix(ps, m, n - 1, name, optional, x);
        let r = requirers(ps, n - 1, name, optional);
        let i = choose|i: int| 0 <= i < r.len() && r[i] == x;
        assert(requirers(ps, n, name, optional)[i] == x);
    }
}

/// Whoever depends on a package is among the packages that require it: when
/// package `k` lists a dependency naming package `t` (the last package of that
/// name), the name of `k` is in `t`'s `required_by` (`optional_for` for an
/// optional dependency).
pub proof fn law_dependents_recorded(ps: Seq<PackageView>, qs: Seq<PackageView>, k: int, t: int, j: int, optional: bool)
    requires
        reverse_deps_hold(ps, qs),
        0 <= k < ps.len(),
        0 <= t < ps.len(),
        last_of_name(ps, t),
        0 <= j < deps_of(ps[k], optional).len(),
        base_of(deps_of(ps[k], optional)[j], optional) == ps[t].name,
    ensures
        optional ==> qs[t].optional_for.contains(ps[k].name),
        !optional ==> qs[t].required_by.contains(ps[k].name),
{
    broadcast use vstd::seq_lib::group_to_multiset_ensures;
    let name = ps[t].name;
    lemma_hits_positive(deps_of(ps[k], optional), name, optional, j);
    let before = requirers(ps, k, name, optional);
    let r = requirers(ps, k + 1, name, optional);
    assert(r[before.len() as int] == ps[k].name);
    assert(r.contains(ps[k].name));
    lemma_requirers_prefix(ps, k + 1, ps.len() as int, name, optional, ps[k].name);
    let found = reverse_list(ps, t, optional);
    assert(found.contains(ps[k].name));
    assert(found.len() > 0);
    assert(qs[t] == with_reverse_deps(ps[t], qs[t].required_by, qs[t].optional_for));
    if optional {
        let l = qs[t].optional_for;
        l.to_multiset_ensures();
        found.to_multiset_ensures();
        assert(l.to_multiset().count(ps[k].name) > 0);
    } else {
        let l = qs[t].required_by;
        l.to_multiset_ensures();
        found.to_multiset_ensures();
        assert(l.to_multiset().count(ps[k].name) > 0);
    }
}

/// A package is an orphan exactly when it was installed as a dependency and
/// nothing requires it.
pub proof fn law_orphan(p: PackageView)
    ensures
        p.orphan() <==> (p.install_reason != InstallReason::Explicit && p.required_by.len() == 0),
{
}

} // verus!

verus! {

proof fn lemma_next_newline_at(s: Seq<char>, i: int, n: int)
    requires
        0 <= i <= n < s.len(),
        s[n] == '\n',
        forall|k: int| i <= k < n ==> s[k] != '\n',
    ensures
        next_newline(s, i) == n,
    decreases n - i,
{
    if i < n {
        lemma_next_newline_at(s, i + 1, n);
    }
}

proof fn lemma_next_newline_shift(a: Seq<char>, b: Seq<char>, k: int)
    requires
        0 <= k <= b.len(),
    ensures
        next_newline(a + b, a.len() + k) == a.len() + next_newline(b, k),
    decreases b.len() - k,
{
    if k < b.len() {
        assert((a + b)[a.len() + k] == b[k]);
        if b[k] != '\n' {
            lemma_next_newline_shift(a, b, k + 1);
        }
    }
}

proof fn lemma_next_newline_prefix(a: Seq<char>, b: Seq<char>, i: int)
    requires
        0 <= i <= a.len(),
        next_newline(a, i) < a.len(),
    ensures
        next_newline(a + b, i) == next_newline(a, i),
    decreases a.len() - i,
{
    assert((a + b)[i] == a[i]);
    if a[i] != '\n' {
        lemma_next_newline_prefix(a, b, i + 1);
    }
}

proof fn lemma_lines_shift(a: Seq<char>, b: Seq<char>, k: int)
    requires
        0 <= k <= b.len(),
    ensures
        lines_from(a + b, a.len() + k) == lines_from(b, k),
    decreases b.len() - k,
{
    if k < b.len() {
        lemma_next_newline_shift(a, b, k);
        lemma_next_newline(b, k);
        let e = next_newline(b, k);
        if e < b.len() {
            lemma_lines_shift(a, b, e + 1);
            assert((a + b).subrange(a.len() + k, a.len() + e) =~= b.subrange(k, e));
        } else {
            assert((a + b).subrange(a.len() + k, (a + b).len() as int) =~= b.subrange(k, b.len() as int));
        }
    }
}

proof fn lemma_lines_prefix(a: Seq<char>, b: Seq<char>, i: int)
    requires
        0 <= i <= a.len(),
        a.len() == 0 || a.last() == '\n',
    ensures
        lines_from(a + b, i) == lines_from(a, i) + lines(b),
    decreases a.len() - i,
{
    if i == a.len() {
        lemma_lines_shift(a, b, 0);
        assert(lines_from(a, i) + lines(b) =~= lines(b));
    } else {
        lemma_next_newline(a, i);
        let e = next_newline(a, i);
        if e >= a.len() {
            assert(a[a.len() - 1] == '\n');
        }
        lemma_next_newline_prefix(a, b, i);
        lemma_lines_prefix(a, b, e + 1);
        assert((a + b).subrange(i, e) =~= a.subrange(i, e));
        assert(lines_from(a + b, i) == seq![strip_cr(a.subrange(i, e))] + lines_from(a + b, e + 1));
        assert(lines_from(a, i) == seq![strip_cr(a.subrange(i, e))] + lines_from(a, e + 1));
        assert(seq![strip_cr(a.subrange(i, e))] + (lines_from(a, e + 1) + lines(b)) =~= (seq![
            strip_cr(a.subrange(i, e)),
        ] + lines_from(a, e + 1)) + lines(b));
    }
}

/// The lines of a text that ends with a line break, then more text, are the
/// lines of each.
proof fn lemma_lines_concat(a: Seq<char>, b: Seq<char>)
    requires
        a.len() == 0 || a.last() == '\n',
    ensures
        lines(a + b) == lines(a) + lines(b),
{
    lemma_lines_prefix(a, b, 0);
}

/// The lines of a text without line breaks, then a line break.
proof fn lemma_one_line(v: Seq<char>)
    requires
        !v.contains('\n'),
    ensures
        lines(v + seq!['\n']) == seq![strip_cr(v)],
{
    let s = v + seq!['\n'];
    assert forall|k: int| 0 <= k < v.len() implies s[k] != '\n' by {
        assert(s[k] == v[k]);
        if v[k] == '\n' {
            assert(v.contains('\n'));
        }
    }
    lemma_next_newline_at(s, 0, v.len() as int);
    assert(s.subrange(0, v.len() as int) =~= v);
    assert(lines_from(s, (v.len() + 1) as int) =~= Seq::<Seq<char>>::empty());
    assert(lines(s) =~= seq![strip_cr(v)]);
}

proof fn lemma_block_end_shift(l1: Seq<Seq<char>>, l2: Seq<Seq<char>>, k: int)
    requires
        0 <= k <= l2.len(),
    ensures
        block_end(l1 + l2, l1.len() + k) == l1.len() + block_end(l2, k),
    decreases l2.len() - k,
{
    if k < l2.len() {
        assert((l1 + l2)[l1.len() + k] == l2[k]);
        if l2[k].len() != 0 {
            lemma_block_end_shift(l1, l2, k + 1);
        }
    }
}

proof fn lemma_block_end_prefix(l1: Seq<Seq<char>>, l2: Seq<Seq<char>>, j: int)
    requires
        0 <= j <= l1.len(),
        block_end(l1, j) < l1.len(),
    ensures
        block_end(l1 + l2, j) == block_end(l1, j),
    decreases l1.len() - j,
{
    assert((l1 + l2)[j] == l1[j]);
    if l1[j].len() != 0 {
        lemma_block_end_prefix(l1, l2, j + 1);
    }
}

proof fn lemma_records_shift(l1: Seq<Seq<char>>, l2: Seq<Seq<char>>, k: int)
    requires
        0 <= k <= l2.len(),
    ensures
        desc_records(l1 + l2, l1.len() + k) == desc_records(l2, k),
    decreases l2.len() - k,
{
    if k < l2.len() {
        assert((l1 + l2)[l1.len() + k] == l2[k]);
        if !is_header(l2[k]) {
            lemma_records_shift(l1, l2, k + 1);
        } else {
            lemma_block_end_shift(l1, l2, k + 1);
            lemma_block_end(l2, k + 1);
            let e = block_end(l2, k + 1);
            let next = if e < l2.len() { e + 1 } else { e };
            lemma_records_shift(l1, l2, next);
            assert((l1 + l2).subrange(l1.len() + k + 1, l1.len() + e) =~= l2.subrange(k + 1, e));
        }
    }
}

proof fn lemma_records_prefix(l1: Seq<Seq<char>>, l2: Seq<Seq<char>>, i: int)
    requires
        0 <= i <= l1.len(),
        l1.len() == 0 || l1.last().len() == 0,
    ensures
        desc_records(l1 + l2, i) == desc_records(l1, i) + desc_records(l2, 0),
    decreases l1.len() - i,
{
    if i == l1.len() {
        lemma_records_shift(l1, l2, 0);
        assert(desc_records(l1, i) + desc_records(l2, 0) =~= desc_records(l2, 0));
    } else {
        assert((l1 + l2)[i] == l1[i]);
        if !is_header(l1[i]) {
            lemma_records_prefix(l1, l2, i + 1);
            assert(desc_records(l1, i) == desc_records(l1, i + 1));
        } else {
            assert(i + 1 < l1.len());
            lemma_block_end(l1, i + 1);
            let e = block_end(l1, i + 1);
            if e >= l1.len() {
                assert(l1[l1.len() - 1].len() > 0);
            }
            lemma_block_end_prefix(l1, l2, i + 1);
            lemma_records_prefix(l1, l2, e + 1);
            let rec = (trim_char(l1[i], '%'), l1.subrange(i + 1, e));
            assert((l1 + l2).subrange(i + 1, e) =~= l1.subrange(i + 1, e));
            assert(desc_records(l1 + l2, i) == seq![rec] + desc_records(l1 + l2, e + 1));
            assert(desc_records(l1, i) == seq![rec] + desc_records(l1, e + 1));
            assert(seq![rec] + (desc_records(l1, e + 1) + desc_records(l2, 0)) =~= (seq![rec]
                + desc_records(l1, e + 1)) + desc_records(l2, 0));
        }
    }
}

proof fn lemma_apply_concat(
    p: PackageView,
    r1: Seq<(Seq<char>, Seq<Seq<char>>)>,
    r2: Seq<(Seq<char>, Seq<Seq<char>>)>,
)
    ensures
        apply_records(p, r1 + r2) == apply_records(apply_records(p, r1), r2),
    decreases r1.len(),
{
    if r1.len() == 0 {
        assert(r1 + r2 =~= r2);
    } else {
        assert((r1 + r2).drop_first() =~= r1.drop_first() + r2);
        assert((r1 + r2)[0] == r1[0]);
        lemma_apply_concat(apply_field(p, r1[0].0, r1[0].1), r1.drop_first(), r2);
    }
}

proof fn lemma_trim_percents(f: Seq<char>)
    requires
        !f.contains('%'),
    ensures
        trim_char(seq!['%'] + f + seq!['%'], '%') == f,
{
    let s = seq!['%'] + f + seq!['%'];
    let p = char_pred('%');
    let t = f + seq!['%'];
    assert(s.drop_first() =~= t);
    if f.len() == 0 {
        assert(t.drop_first() =~= Seq::<char>::empty());
        assert(trim_start_by(t.drop_first(), p) == Seq::<char>::empty());
        assert(trim_start_by(t, p) == Seq::<char>::empty());
        assert(trim_start_by(s, p) == Seq::<char>::empty());
        assert(trim_end_by(Seq::<char>::empty(), p) == Seq::<char>::empty());
        assert(f =~= Seq::<char>::empty());
    } else {
        if f[0] == '%' {
            assert(f.contains('%'));
        }
        assert(t[0] == f[0]);
        assert(trim_start_by(t, p) == t);
        assert(trim_start_by(s, p) == t);
        assert(t.drop_last() =~= f);
        if f.last() == '%' {
            assert(f.contains('%'));
        }
        assert(trim_end_by(f, p) == f);
        assert(trim_end_by(t, p) == f);
    }
}

/// The field names whose records set something in a package.
pub open spec fn desc_known_field(f: Seq<char>) -> bool {
    ||| f == "NAME"@
    ||| f == "VERSION"@
    ||| f == "DESC"@
    ||| f == "ARCH"@
    ||| f == "URL"@
    ||| f == "LICENSE"@
    ||| f == "GROUPS"@
    ||| f == "PROVIDES"@
    ||| f == "DEPENDS"@
    ||| f == "OPTDEPENDS"@
    ||| f == "CONFLICTS"@
    ||| f == "REPLACES"@
    ||| f == "PACKAGER"@
    ||| f == "BUILDDATE"@
    ||| f == "INSTALLDATE"@
    ||| f == "REASON"@
    ||| f == "VALIDATION"@
    ||| f == "SIZE"@
}

/// The text of one record: the header naming `f`, one value line `v`, and the
/// empty line that ends it.
pub open spec fn record_text(f: Seq<char>, v: Seq<char>) -> Seq<char> {
    seq!['%'] + f + seq!['%', '\n'] + v + seq!['\n', '\n']
}

/// A `desc` text that ends between records: empty, or ending with an empty line.
pub open spec fn ends_between_records(raw: Seq<char>) -> bool {
    raw.len() == 0 || (raw.len() >= 2 && raw[raw.len() - 1] == '\n' && raw[raw.len() - 2] == '\n')
}

/// A record written after a `desc` text that ends between records is applied
/// to the package read from that text, with its value line (none when the
/// line is empty).
proof fn lemma_append_record(raw: Seq<char>, f: Seq<char>, v: Seq<char>)
    requires
        ends_between_records(raw),
        !f.contains('%'),
        !f.contains('\n'),
        !v.contains('\n'),
    ensures
        desc_package(raw + record_text(f, v)) == apply_field(
            desc_package(raw),
            f,
            if strip_cr(v).len() > 0 { seq![strip_cr(v)] } else { Seq::<Seq<char>>::empty() },
        ),
{
    let h = seq!['%'] + f + seq!['%'];
    assert(!h.contains('\n')) by {
        if h.contains('\n') {
            let k = choose|k: int| 0 <= k < h.len() && h[k] == '\n';
            assert(f[k - 1] == '\n');
            assert(f.contains('\n'));
        }
    }
    let a1 = h + seq!['\n'];
    let a2 = v + seq!['\n'];
    let a3 = seq!['\n'];
    let suffix = record_text(f, v);
    assert(suffix =~= a1 + (a2 + a3));
    lemma_one_line(h);
    lemma_one_line(v);
    lemma_one_line(Seq::<char>::empty());
    assert(Seq::<char>::empty() + seq!['\n'] =~= a3);
    lemma_lines_concat(a2, a3);
    lemma_lines_concat(a1, a2 + a3);
    assert(strip_cr(h) == h);
    assert(strip_cr(Seq::<char>::empty()) == Seq::<char>::empty());
    let ls = seq![h, strip_cr(v), Seq::<char>::empty()];
    assert(lines(suffix) =~= ls);
    // the lines of `raw` end with an empty one
    let l1 = lines(raw);
    if raw.len() > 0 {
        let x = raw.subrange(0, raw.len() - 1);
        assert(raw =~= x + a3);
        assert(x.last() == '\n');
        lemma_lines_concat(x, a3);
        assert(l1.last() == Seq::<char>::empty());
    } else {
        assert(l1 =~= Seq::<Seq<char>>::empty());
    }
    lemma_lines_concat(raw, suffix);
    lemma_records_prefix(l1, ls, 0);
    // the records of the added lines: one, of field `f`
    lemma_trim_percents(f);
    assert(is_header(ls[0]));
    let vs = if strip_cr(v).len() > 0 { seq![strip_cr(v)] } else { Seq::<Seq<char>>::empty() };
    if strip_cr(v).len() > 0 {
        assert(block_end(ls, 2) == 2);
        assert(block_end(ls, 1) == 2);
        assert(ls.subrange(1, 2) =~= vs);
        assert(desc_records(ls, 3) =~= Seq::<(Seq<char>, Seq<Seq<char>>)>::empty());
    } else {
        assert(block_end(ls, 1) == 1);
        assert(ls.subrange(1, 1) =~= vs);
        assert(desc_records(ls, 3) =~= Seq::<(Seq<char>, Seq<Seq<char>>)>::empty());
        assert(!is_header(ls[2]));
        assert(desc_records(ls, 2) == desc_records(ls, 3));
    }
    assert(desc_records(ls, 0) =~= seq![(f, vs)]);
    lemma_apply_concat(empty_package(), desc_records(l1, 0), seq![(f, vs)]);
    let p = apply_records(empty_package(), desc_records(l1, 0));
    assert(apply_records(p, seq![(f, vs)]) == apply_records(apply_field(p, f, vs), seq![(f, vs)].drop_first()));
    assert(seq![(f, vs)].drop_first() =~= Seq::<(Seq<char>, Seq<Seq<char>>)>::empty());
}

/// A record of a field that the reader does not know, written after a `desc`
/// text that ends between records, changes nothing of the package read from it.
pub proof fn law_unknown_field_ignored(raw: Seq<char>, f: Seq<char>, v: Seq<char>)
    requires
        ends_between_records(raw),
        !desc_known_field(f),
        !f.contains('%'),
        !f.contains('\n'),
        !v.contains('\n'),
    ensures
        desc_package(raw + record_text(f, v)) == desc_package(raw),
{
    lemma_append_record(raw, f, v);
}

/// What each record sets: a record with the value line `w`, written after a
/// `desc` text that ends between records, changes exactly the field it names
/// in the package read from the text (the text fields take `w`, the list
/// fields the list `[w]`, the dates and the size the number `w` spells, or 0;
/// `REASON` 1 marks a dependency), and leaves every other field as it was.
pub proof fn law_record_sets_field(raw: Seq<char>, f: Seq<char>, w: Seq<char>)
    requires
        ends_between_records(raw),
        !f.contains('%'),
        !f.contains('\n'),
        !w.contains('\n'),
        w.len() > 0,
        w.last() != '\r',
    ensures
        ({
            let q = desc_package(raw);
            let r = desc_package(raw + record_text(f, w));
            &&& f == "NAME"@ ==> r == (PackageView { name: w, ..q })
            &&& f == "VERSION"@ ==> r == (PackageView { version: w, ..q })
            &&& f == "DESC"@ ==> r == (PackageView { description: w, ..q })
            &&& f == "ARCH"@ ==> r == (PackageView { architecture: w, ..q })
            &&& f == "URL"@ ==> r == (PackageView { url: w, ..q })
            &&& f == "PACKAGER"@ ==> r == (PackageView { packager: w, ..q })
            &&& f == "LICENSE"@ ==> r == (PackageView { licenses: seq![w], ..q })
            &&& f == "GROUPS"@ ==> r == (PackageView { groups: seq![w], ..q })
            &&& f == "PROVIDES"@ ==> r == (PackageView { provides: seq![w], ..q })
            &&& f == "DEPENDS"@ ==> r == (PackageView { depends: seq![w], ..q })
            &&& f == "OPTDEPENDS"@ ==> r == (PackageView { optdepends: seq![w], ..q })
            &&& f == "CONFLICTS"@ ==> r == (PackageView { conflicts: seq![w], ..q })
            &&& f == "REPLACES"@ ==> r == (PackageView { replaces: seq![w], ..q })
            &&& f == "VALIDATION"@ ==> r == (PackageView { validated_by: w, ..q })
            &&& f == "BUILDDATE"@ ==> r == (PackageView {
                build_date: if parse_i64(w) is Some { parse_i64(w)->0 } else { 0 },
                ..q
            })
            &&& f == "INSTALLDATE"@ ==> r == (PackageView {
                install_date: if parse_i64(w) is Some { parse_i64(w)->0 } else { 0 },
                ..q
            })
            &&& f == "SIZE"@ ==> r == (PackageView {
                installed_size: if parse_u64(w) is Some { parse_u64(w)->0 } else { 0 },
                ..q
            })
            &&& f == "REASON"@ ==> r == if w == "1"@ {
                PackageView { install_reason: InstallReason::Dependency, ..q }
            } else {
                q
            }
        }),
{
    lemma_append_record(raw, f, w);
    assert(strip_cr(w) == w);
    reveal_strlit("NAME");
    reveal_strlit("VERSION");
    reveal_strlit("DESC");
    reveal_strlit("ARCH");
    reveal_strlit("URL");
    reveal_strlit("PACKAGER");
    reveal_strlit("LICENSE");
    reveal_strlit("GROUPS");
    reveal_strlit("PROVIDES");
    reveal_strlit("DEPENDS");
    reveal_strlit("OPTDEPENDS");
    reveal_strlit("CONFLICTS");
    reveal_strlit("REPLACES");
    reveal_strlit("VALIDATION");
    reveal_strlit("BUILDDATE");
    reveal_strlit("INSTALLDATE");
    reveal_strlit("SIZE");
    reveal_strlit("REASON");
    // names of equal length differ at a first index
    assert("NAME"@[0] != "DESC"@[0]);
    assert("NAME"@[0] != "ARCH"@[0]);
    assert("NAME"@[0] != "SIZE"@[0]);
    assert("DESC"@[0] != "ARCH"@[0]);
    assert("DESC"@[0] != "SIZE"@[0]);
    assert("ARCH"@[0] != "SIZE"@[0]);
    assert("VERSION"@[0] != "LICENSE"@[0]);
    assert("VERSION"@[0] != "DEPENDS"@[0]);
    assert("LICENSE"@[0] != "DEPENDS"@[0]);
    assert("GROUPS"@[0] != "REASON"@[0]);
    assert("PROVIDES"@[1] != "PACKAGER"@[1]);
    assert("PROVIDES"@[0] != "REPLACES"@[0]);
    assert("PACKAGER"@[0] != "REPLACES"@[0]);
    assert("CONFLICTS"@[0] != "BUILDDATE"@[0]);
    assert("OPTDEPENDS"@[0] != "VALIDATION"@[0]);
    assert(join(seq![w], ", "@) == w);
}

} // verus!

//! The state of the package browser and what each key does to it.
use vstd::prelude::*;
use crate::text::{
    chars_of, string_of, trim, trim_vec, to_lowercase, lowercase, occurs_in, contains_vec,
    starts_with_str, slice_chars, is_prefix, eq_str, vec_eq,
};
use crate::pacman::{Package, PackageView, InstallReason, texts, views};
use crate::categories::{CategoryMap, shown_category};
use crate::order::{KeyView, ordered, key_views, sort_indices};

verus! {

/// The pane that keys act on.
#[derive(Debug, Clone, Copy, PartialEq, Eq, Structural)]
pub enum Focus {
    Categories,
    Packages,
    Detail,
    Filter,
}

/// The order of the package list.
#[derive(Debug, Clone, Copy, PartialEq, Eq, Structural)]
pub enum SortKey {
    NameAsc,
    NameDesc,
    Size,
    Newest,
}

/// What a line of typed input is for.
#[derive(Debug, Clone, Copy, PartialEq, Eq, Structural)]
pub enum InputMode {
    AssignCategory,
    RenameCategory,
}

/// The part of the filter text that a search looks at.
#[derive(Debug, Clone, Copy, PartialEq, Eq, Structural)]
pub enum SearchMode {
    Description,
    Category,
    Name,
}

impl SortKey {
    pub open spec fn following(self) -> SortKey {
        match self {
            SortKey::NameAsc => SortKey::NameDesc,
            SortKey::NameDesc => SortKey::Size,
            SortKey::Size => SortKey::Newest,
            SortKey::Newest => SortKey::NameAsc,
        }
    }

    /// The next order in the cycle name, name reversed, size, newest.
    pub fn next(self) -> (r: Self)
        ensures
            r == self.following(),
    {
        match self {
            SortKey::NameAsc => SortKey::NameDesc,
            SortKey::NameDesc => SortKey::Size,
            SortKey::Size => SortKey::Newest,
            SortKey::Newest => SortKey::NameAsc,
        }
    }

    pub open spec fn label_text(self) -> Seq<char> {
        match self {
            SortKey::NameAsc => "a-z"@,
            SortKey::NameDesc => "z-a"@,
            SortKey::Size => "big"@,
            SortKey::Newest => "new"@,
        }
    }

    pub fn label(self) -> (r: &'static str)
        ensures
            r@ == self.label_text(),
    {
        match self {
            SortKey::NameAsc => "a-z",
            SortKey::NameDesc => "z-a",
            SortKey::Size => "big",
            SortKey::Newest => "new",
        }
    }

    /// Whether the order is descending (all but name ascending).
    pub open spec fn descending(self) -> bool {
        self != SortKey::NameAsc
    }

    /// The key a package is sorted by.
    pub open spec fn key_of(self, p: PackageView) -> KeyView {
        match self {
            SortKey::NameAsc => (p.name, 0),
            SortKey::NameDesc => (p.name, 0),
            SortKey::Size => (seq![], p.installed_size as int),
            SortKey::Newest => (seq![], p.install_date as int),
        }
    }

    pub open spec fn keys(self, ps: Seq<PackageView>) -> Seq<KeyView> {
        ps.map_values(|p: PackageView| self.key_of(p))
    }
}

/// The package browser.
pub struct App {
    pub all_packages: Vec<Package>,
    pub category_map: CategoryMap,
    pub categories: Vec<String>,
    pub selected_category: usize,
    pub filtered: Vec<usize>,
    pub filter_text: String,
    pub package_state: usize,
    pub detail_scroll: u16,
    pub focus: Focus,
    pub should_quit: bool,
    pub show_help: bool,
    /// When `g` was pressed once, in nanoseconds on the caller's monotonic clock.
    pub pending_g: Option<u64>,
    pub show_dependencies: bool,
    pub show_orphans_only: bool,
    pub sort_key: SortKey,
    pub input_mode: Option<InputMode>,
    pub input_buffer: String,
}

/// The category list shown for a map: "All", its categories, "Uncategorized".
pub open spec fn category_list(map: CategoryMap) -> Seq<Seq<char>> {
    seq!["All"@] + texts(map.order@) + seq!["Uncategorized"@]
}

/// How the filter text is read: `d:` searches descriptions, `c:` categories,
/// anything else names; the needle is what follows, trimmed.
pub open spec fn search_of(q: Seq<char>) -> (SearchMode, Seq<char>) {
    if is_prefix("d:"@, q) {
        (SearchMode::Description, trim(q.subrange("d:"@.len() as int, q.len() as int)))
    } else if is_prefix("c:"@, q) {
        (SearchMode::Category, trim(q.subrange("c:"@.len() as int, q.len() as int)))
    } else {
        (SearchMode::Name, q)
    }
}

impl App {
    /// The invariant of every state the browser passes through.
    pub open spec fn wf(&self) -> bool {
        &&& texts(self.categories@) == category_list(self.category_map)
        &&& self.selected_category < self.categories.len()
        &&& forall|i: int| 0 <= i < self.filtered.len() ==> #[trigger] self.filtered[i] < self.all_packages.len()
        &&& (self.filtered.len() == 0 && self.package_state == 0) || self.package_state < self.filtered.len()
    }

    pub open spec fn packages(&self) -> Seq<PackageView> {
        views(self.all_packages@)
    }

    /// The category shown for package `i`.
    pub open spec fn category_of_package(&self, i: int) -> Seq<char> {
        shown_category(self.category_map.category_of(self.packages()[i].name))
    }

    /// The filter text as searched: trimmed and lower-cased.
    pub open spec fn query(&self) -> Seq<char> {
        if trim(self.filter_text@).len() == 0 {
            seq![]
        } else {
            lowercase(trim(self.filter_text@))
        }
    }

    /// Whether package `i` is listed when category `sel` is selected.
    pub open spec fn listed(&self, sel: int, i: int) -> bool {
        let p = self.packages()[i];
        let (mode, needle) = search_of(self.query());
        let cat = self.categories@[sel]@;
        let pcat = self.category_of_package(i);
        let cat_ok = needle.len() > 0 || cat == "All"@ || pcat == cat;
        let text_ok = needle.len() == 0 || match mode {
            SearchMode::Description => occurs_in(needle, lowercase(p.description)),
            SearchMode::Category => occurs_in(needle, lowercase(pcat)),
            SearchMode::Name => occurs_in(needle, lowercase(p.name)),
        };
        let reason_ok = self.show_dependencies || p.install_reason == InstallReason::Explicit;
        let orphan_ok = !self.show_orphans_only || p.orphan();
        cat_ok && text_ok && reason_ok && orphan_ok
    }

    /// `list` holds the packages listed under category `sel`, each once, in the
    /// order of the sort key (equal keys in package order).
    pub open spec fn listing(&self, sel: int, list: Seq<usize>) -> bool {
        &&& ordered(self.sort_key.keys(self.packages()), self.sort_key.descending(), list)
        &&& forall|i: int| 0 <= i < list.len() ==> #[trigger] list[i] < self.all_packages.len()
        &&& forall|i: int| 0 <= i < self.all_packages.len() ==> (list.contains(i as usize) <==> #[trigger] self.listed(sel, i))
    }

    /// The package under the cursor.
    pub open spec fn cursor_package(&self) -> Option<int> {
        if self.package_state < self.filtered.len() {
            Some(self.filtered[self.package_state as int] as int)
        } else {
            None
        }
    }

    /// The selection after the cursor is followed: while a search is typed,
    /// the category of the package under the cursor is selected (its first
    /// place in the list), when it is in the list.
    pub open spec fn synced(&self, sel: usize, after: usize) -> bool {
        if self.filter_text@.len() > 0 && self.cursor_package() is Some {
            let c = self.category_of_package(self.cursor_package()->0);
            if texts(self.categories@).contains(c) {
                after < self.categories.len() && self.categories@[after as int]@ == c && forall|k: int|
                    0 <= k < after ==> #[trigger] self.categories@[k]@ != c
            } else {
                after == sel
            }
        } else {
            after == sel
        }
    }

    /// `f` is `m` after the list is recomputed: the listing for the selected
    /// category, the cursor kept in the list, the selection synced.
    pub open spec fn recomputed(m: App, f: App) -> bool {
        &&& f.all_packages == m.all_packages
        &&& f.category_map == m.category_map
        &&& f.categories == m.categories
        &&& f.filter_text == m.filter_text
        &&& f.detail_scroll == m.detail_scroll
        &&& f.focus == m.focus
        &&& f.should_quit == m.should_quit
        &&& f.show_help == m.show_help
        &&& f.pending_g == m.pending_g
        &&& f.show_dependencies == m.show_dependencies
        &&& f.show_orphans_only == m.show_orphans_only
        &&& f.sort_key == m.sort_key
        &&& f.input_mode == m.input_mode
        &&& f.input_buffer == m.input_buffer
        &&& m.listing(m.selected_category as int, f.filtered@)
        &&& f.package_state == if m.package_state >= f.filtered.len() {
            if f.filtered.len() == 0 { 0 } else { (f.filtered.len() - 1) as usize }
        } else {
            m.package_state
        }
        &&& f.synced(m.selected_category, f.selected_category)
    }
}

} // verus!

verus! {

impl App {
    /// The search mode and needle of the filter text.
    fn search_parts(&self) -> (r: (SearchMode, Vec<char>))
        ensures
            (r.0, r.1@) == search_of(self.query()),
    {
        let ft = chars_of(self.filter_text.as_str());
        let t = trim_vec(&ft);
        if t.len() == 0 {
            proof {
                reveal_strlit("d:");
                reveal_strlit("c:");
            }
            return (SearchMode::Name, t);
        }
        let ts = string_of(&t);
        let low = to_lowercase(ts.as_str());
        let q = chars_of(low.as_str());
        if starts_with_str(&q, "d:") {
            let p = chars_of("d:");
            let rest = slice_chars(&q, p.len(), q.len());
            (SearchMode::Description, trim_vec(&rest))
        } else if starts_with_str(&q, "c:") {
            let p = chars_of("c:");
            let rest = slice_chars(&q, p.len(), q.len());
            (SearchMode::Category, trim_vec(&rest))
        } else {
            (SearchMode::Name, q)
        }
    }

    fn lower_chars(s: &str) -> (r: Vec<char>)
        ensures
            r@ == lowercase(s@),
    {
        let l = to_lowercase(s);
        chars_of(l.as_str())
    }

    fn package_listed(&self, sel: usize, i: usize, cat: &Vec<char>, mode: SearchMode, needle: &Vec<char>) -> (r: bool)
        requires
            sel < self.categories.len(),
            i < self.all_packages.len(),
            cat@ == self.categories@[sel as int]@,
            (mode, needle@) == search_of(self.query()),
        ensures
            r == self.listed(sel as int, i as int),
    {
        let p = &self.all_packages[i];
        assert(self.packages()[i as int] == p@);
        let pcat_str = self.category_map.get(p.name.as_str());
        let pcat = chars_of(pcat_str);
        let cat_ok = needle.len() > 0 || eq_str(cat, "All") || vec_eq(&pcat, cat);
        let text_ok = if needle.len() == 0 {
            true
        } else {
            match mode {
                SearchMode::Description => contains_vec(&App::lower_chars(p.description.as_str()), needle),
                SearchMode::Category => contains_vec(&App::lower_chars(pcat_str), needle),
                SearchMode::Name => contains_vec(&App::lower_chars(p.name.as_str()), needle),
            }
        };
        let reason_ok = self.show_dependencies || p.install_reason.is_explicit();
        let orphan_ok = !self.show_orphans_only || p.is_orphan();
        cat_ok && text_ok && reason_ok && orphan_ok
    }

    /// The sort keys of all packages under the current sort key.
    fn sort_keys(&self) -> (r: Vec<(Vec<char>, i128)>)
        ensures
            key_views(r@) == self.sort_key.keys(self.packages()),
    {
        let mut keys: Vec<(Vec<char>, i128)> = Vec::new();
        let mut i: usize = 0;
        while i < self.all_packages.len()
            invariant
                i <= self.all_packages.len(),
                key_views(keys@) == self.sort_key.keys(self.packages()).subrange(0, i as int),
            decreases self.all_packages.len() - i,
        {
            let p = &self.all_packages[i];
            assert(self.packages()[i as int] == p@);
            let k: (Vec<char>, i128) = match self.sort_key {
                SortKey::NameAsc => (chars_of(p.name.as_str()), 0),
                SortKey::NameDesc => (chars_of(p.name.as_str()), 0),
                SortKey::Size => (Vec::new(), p.installed_size as i128),
                SortKey::Newest => (Vec::new(), p.install_date as i128),
            };
            let ghost before = keys@;
            keys.push(k);
            assert(key_views(keys@) =~= key_views(before).push((k.0@, k.1 as int)));
            assert(key_views(keys@) =~= self.sort_key.keys(self.packages()).subrange(0, i + 1));
            i = i + 1;
        }
        assert(self.sort_key.keys(self.packages()).subrange(0, i as int) =~= self.sort_key.keys(self.packages()));
        keys
    }

    /// While a search is typed, selects the category of the package under the
    /// cursor.
    fn sync_category_cursor(&mut self)
        requires
            forall|i: int| 0 <= i < old(self).filtered.len() ==> #[trigger] old(self).filtered[i] < old(self).all_packages.len(),
        ensures
            *final(self) == (App { selected_category: final(self).selected_category, ..*old(self) }),
            old(self).synced(old(self).selected_category, final(self).selected_category),
    {
        if self.filter_text.as_str().is_empty() {
            return;
        }
        if self.package_state >= self.filtered.len() {
            return;
        }
        let idx = self.filtered[self.package_state];
        assert(self.packages()[idx as int] == self.all_packages[idx as int]@);
        let c = chars_of(self.category_map.get(self.all_packages[idx].name.as_str()));
        let mut k: usize = 0;
        while k < self.categories.len()
            invariant
                *self == *old(self),
                k <= self.categories.len(),
                self.filter_text@.len() > 0,
                c@ == self.category_of_package(idx as int),
                self.cursor_package() == Some(idx as int),
                forall|q: int| 0 <= q < k ==> #[trigger] self.categories@[q]@ != c@,
            decreases self.categories.len() - k,
        {
            let ck = chars_of(self.categories[k].as_str());
            if vec_eq(&ck, &c) {
                assert(texts(old(self).categories@)[k as int] == c@);
                self.selected_category = k;
                return;
            }
            k = k + 1;
        }
        assert(!texts(self.categories@).contains(c@)) by {
            if texts(self.categories@).contains(c@) {
                let q = choose|q: int| 0 <= q < self.categories.len() && #[trigger] texts(self.categories@)[q] == c@;
                assert(self.categories@[q]@ == c@);
            }
        }
    }

    /// Rebuilds the package list: the packages that pass the search, the
    /// selected category, the dependency and orphan switches, in the order of
    /// the sort key; keeps the cursor in the list and follows it while searching.
    pub fn recompute_filter(&mut self)
        requires
            old(self).wf(),
        ensures
            final(self).wf(),
            App::recomputed(*old(self), *final(self)),
    {
        broadcast use vstd::seq_lib::group_to_multiset_ensures;
        let ghost m = *self;
        let sel = self.selected_category;
        let (mode, needle) = self.search_parts();
        let cat = chars_of(self.categories[sel].as_str());
        let n = self.all_packages.len();
        let mut items: Vec<usize> = Vec::new();
        let mut i: usize = 0;
        while i < n
            invariant
                *self == m,
                m.wf(),
                sel == m.selected_category,
                n == self.all_packages.len(),
                i <= n,
                cat@ == self.categories@[sel as int]@,
                (mode, needle@) == search_of(self.query()),
                forall|a: int, b: int| 0 <= a < b < items.len() ==> #[trigger] items[a] < #[trigger] items[b],
                forall|a: int| 0 <= a < items.len() ==> #[trigger] items[a] < i,
                forall|j: int| 0 <= j < i ==> (items@.contains(j as usize) <==> #[trigger] self.listed(sel as int, j)),
            decreases n - i,
        {
            let ghost before = items@;
            let b = self.package_listed(sel, i, &cat, mode, &needle);
            if b {
                items.push(i);
            }
            assert forall|j: int| 0 <= j < i + 1 implies (items@.contains(j as usize) <==> #[trigger] self.listed(sel as int, j)) by {
                if j < i {
                    if items@.contains(j as usize) {
                        let q = choose|q: int| 0 <= q < items.len() && items@[q] == j as usize;
                        if q < before.len() {
                            assert(before[q] == j as usize);
                        } else {
                            assert(items@[q] == i);
                        }
                    }
                    if before.contains(j as usize) {
                        let q = choose|q: int| 0 <= q < before.len() && before[q] == j as usize;
                        assert(items@[q] == j as usize);
                    }
                } else {
                    if b {
                        assert(items@[items.len() - 1] == i);
                    } else if items@.contains(i) {
                        let q = choose|q: int| 0 <= q < items.len() && items@[q] == i;
                        assert(before[q] < i);
                    }
                }
            }
            i = i + 1;
        }
        assert(items@.no_duplicates()) by {
            assert forall|a: int, b: int| 0 <= a < items.len() && 0 <= b < items.len() && a != b implies items@[a] != items@[b] by {
                if a < b {
                    assert(items[a] < items[b]);
                } else {
                    assert(items[b] < items[a]);
                }
            }
        }
        let keys = self.sort_keys();
        assert(key_views(keys@).len() == keys@.len());
        assert(keys.len() == n);
        let desc = match self.sort_key {
            SortKey::NameAsc => false,
            _ => true,
        };
        let sorted = sort_indices(&items, &keys, desc);
        proof {
            items@.to_multiset_ensures();
            sorted@.to_multiset_ensures();
            assert forall|j: int| 0 <= j < n implies (sorted@.contains(j as usize) <==> #[trigger] self.listed(sel as int, j)) by {
                assert(sorted@.contains(j as usize) <==> sorted@.to_multiset().count(j as usize) > 0);
                assert(items@.contains(j as usize) <==> items@.to_multiset().count(j as usize) > 0);
            }
        }
        self.filtered = sorted;
        if self.package_state >= self.filtered.len() {
            self.package_state = if self.filtered.len() == 0 { 0 } else { self.filtered.len() - 1 };
        }
        let ghost before_sync = *self;
        self.sync_category_cursor();
        assert(m.listing(m.selected_category as int, self.filtered@));
    }
}

} // verus!

verus! {

pub open spec fn clamp(x: int, lo: int, hi: int) -> int {
    if x < lo {
        lo
    } else if x > hi {
        hi
    } else {
        x
    }
}

/// The list of category names for display: "All", the map's categories, "Uncategorized".
pub fn category_names(map: &CategoryMap) -> (r: Vec<String>)
    ensures
        texts(r@) == category_list(*map),
{
    let mut r: Vec<String> = Vec::new();
    r.push(String::from_str("All"));
    let cats = map.categories();
    let mut i: usize = 0;
    assert(texts(r@) =~= seq!["All"@]);
    while i < cats.len()
        invariant
            i <= cats.len(),
            texts(cats@) == texts(map.order@).push("Uncategorized"@),
            texts(r@) == seq!["All"@] + texts(cats@).subrange(0, i as int),
        decreases cats.len() - i,
    {
        let ghost before = r@;
        r.push(cats[i].clone());
        assert(texts(r@) =~= texts(before).push(cats[i as int]@));
        assert(texts(cats@)[i as int] == cats[i as int]@);
        assert(texts(r@) =~= seq!["All"@] + texts(cats@).subrange(0, i + 1));
        i = i + 1;
    }
    assert(texts(cats@).subrange(0, cats.len() as int) =~= texts(cats@));
    assert(texts(r@) =~= category_list(*map));
    r
}

/// Removes the last character of a string, if any (`String::pop`).
#[verifier::external_body]
fn pop_char(s: &mut String)
    ensures
        final(s)@ == if old(s)@.len() > 0 {
            old(s)@.drop_last()
        } else {
            old(s)@
        },
{
    s.pop();
}

impl App {
    /// A browser over the given packages and categories: everything shown,
    /// nothing searched, the cursor at the top, explicit packages by name.
    pub fn new(all_packages: Vec<Package>, category_map: CategoryMap) -> (r: App)
        ensures
            r.wf(),
            r.all_packages == all_packages,
            r.category_map == category_map,
            r.selected_category == 0,
            r.filter_text@ == Seq::<char>::empty(),
            r.input_buffer@ == Seq::<char>::empty(),
            r.package_state == 0,
            r.detail_scroll == 0,
            r.focus == Focus::Categories,
            !r.should_quit,
            !r.show_help,
            r.pending_g is None,
            !r.show_dependencies,
            !r.show_orphans_only,
            r.sort_key == SortKey::NameAsc,
            r.input_mode is None,
            r.listing(0, r.filtered@),
    {
        let categories = category_names(&category_map);
        let mut app = App {
            all_packages,
            category_map,
            categories,
            selected_category: 0,
            filtered: Vec::new(),
            filter_text: String::new(),
            package_state: 0,
            detail_scroll: 0,
            focus: Focus::Categories,
            should_quit: false,
            show_help: false,
            pending_g: None,
            show_dependencies: false,
            show_orphans_only: false,
            sort_key: SortKey::NameAsc,
            input_mode: None,
            input_buffer: String::new(),
        };
        assert(texts(app.categories@).len() == app.categories.len());
        let ghost m = app;
        app.recompute_filter();
        proof {
            App::lemma_listing_frame(m, app, 0, app.filtered@);
        }
        app
    }

    /// The listing depends only on the packages, the categories, the search
    /// and the switches.
    pub proof fn lemma_listing_frame(a: App, b: App, sel: int, list: Seq<usize>)
        requires
            a.all_packages == b.all_packages,
            a.category_map == b.category_map,
            a.categories == b.categories,
            a.filter_text == b.filter_text,
            a.show_dependencies == b.show_dependencies,
            a.show_orphans_only == b.show_orphans_only,
            a.sort_key == b.sort_key,
        ensures
            a.listing(sel, list) == b.listing(sel, list),
    {
        assert forall|i: int| 0 <= i < a.all_packages.len() implies a.listed(sel, i) == b.listed(sel, i) by {}
    }

    /// The package under the cursor.
    pub fn selected_package(&self) -> (r: Option<&Package>)
        requires
            self.wf(),
        ensures
            match self.cursor_package() {
                Some(i) => r == Some(&self.all_packages[i]),
                None => r is None,
            },
    {
        if self.package_state < self.filtered.len() {
            Some(&self.all_packages[self.filtered[self.package_state]])
        } else {
            None
        }
    }

    /// `f` is `o` after the cursor moves by `delta` within the list.
    pub open spec fn package_moved(o: App, f: App, delta: int) -> bool {
        if o.filtered.len() == 0 {
            f == o
        } else {
            let next = clamp(o.package_state + delta, 0, o.filtered.len() - 1) as usize;
            let m = App { package_state: next, detail_scroll: 0, ..o };
            &&& f == App { selected_category: f.selected_category, ..m }
            &&& m.synced(o.selected_category, f.selected_category)
        }
    }

    /// Moves the cursor by `delta`, stopping at either end of the list.
    pub fn move_package(&mut self, delta: i32)
        requires
            old(self).wf(),
            old(self).filtered.len() > 0 ==> old(self).filtered.len() <= i32::MAX,
            old(self).filtered.len() > 0 ==> old(self).package_state + delta <= i32::MAX,
        ensures
            final(self).wf(),
            App::package_moved(*old(self), *final(self), delta as int),
    {
        if self.filtered.len() == 0 {
            return;
        }
        let len = self.filtered.len() as i64;
        let mut next: i64 = self.package_state as i64 + delta as i64;
        if next < 0 {
            next = 0;
        } else if next > len - 1 {
            next = len - 1;
        }
        self.package_state = next as usize;
        self.detail_scroll = 0;
        self.sync_category_cursor();
    }

    /// The scroll of the detail pane after moving by `delta`: not below zero,
    /// and kept to 16 bits as `as u16` keeps it.
    pub open spec fn scrolled_to(scroll: u16, delta: int) -> u16 {
        let next = scroll + delta;
        (if next < 0 { 0 } else { next % 65536 }) as u16
    }

    /// Scrolls the detail pane by `delta`.
    pub fn scroll_detail(&mut self, delta: i32)
        requires
            old(self).detail_scroll + delta <= i32::MAX,
        ensures
            *final(self) == (App { detail_scroll: App::scrolled_to(old(self).detail_scroll, delta as int), ..*old(self) }),
    {
        let next: i64 = self.detail_scroll as i64 + delta as i64;
        let clipped: i64 = if next < 0 { 0 } else { next % 65536 };
        self.detail_scroll = clipped as u16;
    }

    /// `f` is `o` after a jump to the top of the focused pane.
    pub open spec fn jumped_top(o: App, f: App) -> bool {
        match o.focus {
            Focus::Categories => f.filter_text@.len() == 0 && App::recomputed(
                App { filter_text: f.filter_text, selected_category: 0, package_state: 0, detail_scroll: 0, ..o },
                f,
            ),
            Focus::Packages => {
                let m = App { package_state: 0, detail_scroll: 0, ..o };
                &&& f == App { selected_category: f.selected_category, ..m }
                &&& m.synced(o.selected_category, f.selected_category)
            },
            Focus::Detail => f == App { detail_scroll: 0, ..o },
            Focus::Filter => f == o,
        }
    }

    /// Jumps to the top of the focused pane: the first category (clearing the
    /// search), the first package, or the start of the details.
    pub fn jump_top(&mut self)
        requires
            old(self).wf(),
        ensures
            final(self).wf(),
            App::jumped_top(*old(self), *final(self)),
    {
        match self.focus {
            Focus::Categories => {
                self.filter_text = String::new();
                self.selected_category = 0;
                self.package_state = 0;
                self.detail_scroll = 0;
                self.recompute_filter();
            },
            Focus::Packages => {
                self.package_state = 0;
                self.detail_scroll = 0;
                self.sync_category_cursor();
            },
            Focus::Detail => {
                self.detail_scroll = 0;
            },
            Focus::Filter => {},
        }
    }

    /// `f` is `o` after a jump to the bottom of the focused pane.
    pub open spec fn jumped_bottom(o: App, f: App) -> bool {
        match o.focus {
            Focus::Categories => f.filter_text@.len() == 0 && App::recomputed(
                App {
                    filter_text: f.filter_text,
                    selected_category: (o.categories.len() - 1) as usize,
                    package_state: 0,
                    detail_scroll: 0,
                    ..o
                },
                f,
            ),
            Focus::Packages => {
                let last = if o.filtered.len() == 0 { 0 } else { (o.filtered.len() - 1) as usize };
                let m = App { package_state: last, detail_scroll: 0, ..o };
                &&& f == App { selected_category: f.selected_category, ..m }
                &&& m.synced(o.selected_category, f.selected_category)
            },
            Focus::Detail => f == App { detail_scroll: u16::MAX, ..o },
            Focus::Filter => f == o,
        }
    }

    /// Jumps to the bottom of the focused pane: the last category (clearing
    /// the search), the last package, or the end of the details.
    pub fn jump_bottom(&mut self)
        requires
            old(self).wf(),
        ensures
            final(self).wf(),
            App::jumped_bottom(*old(self), *final(self)),
    {
        match self.focus {
            Focus::Categories => {
                self.filter_text = String::new();
                self.selected_category = if self.categories.len() == 0 { 0 } else { self.categories.len() - 1 };
                self.package_state = 0;
                self.detail_scroll = 0;
                self.recompute_filter();
            },
            Focus::Packages => {
                self.package_state = if self.filtered.len() == 0 { 0 } else { self.filtered.len() - 1 };
                self.detail_scroll = 0;
                self.sync_category_cursor();
            },
            Focus::Detail => {
                self.detail_scroll = u16::MAX;
            },
            Focus::Filter => {},
        }
    }

    /// `f` is `o` after the category selection moves by `delta`.
    pub open spec fn category_moved(o: App, f: App, delta: int) -> bool {
        let next = clamp(o.selected_category + delta, 0, o.categories.len() - 1) as usize;
        f.filter_text@.len() == 0 && App::recomputed(
            App { filter_text: f.filter_text, selected_category: next, package_state: 0, detail_scroll: 0, ..o },
            f,
        )
    }

    /// Moves the category selection by `delta`, stopping at either end, and
    /// clears the search.
    pub fn move_category(&mut self, delta: i32)
        requires
            old(self).wf(),
            old(self).categories.len() <= i32::MAX,
            old(self).selected_category + delta <= i32::MAX,
        ensures
            final(self).wf(),
            App::category_moved(*old(self), *final(self), delta as int),
    {
        let len = self.categories.len() as i64;
        if len == 0 {
            return;
        }
        self.filter_text = String::new();
        let mut next: i64 = self.selected_category as i64 + delta as i64;
        if next < 0 {
            next = 0;
        } else if next > len - 1 {
            next = len - 1;
        }
        self.selected_category = next as usize;
        self.package_state = 0;
        self.detail_scroll = 0;
        self.recompute_filter();
    }

    /// Package `i` counts toward the size of `category`: it is in it (every
    /// package is in "All") and it is shown by the dependency switch.
    pub open spec fn counted(&self, category: Seq<char>, i: int) -> bool {
        (category == "All"@ || self.category_of_package(i) == category) && (self.show_dependencies
            || self.packages()[i].install_reason == InstallReason::Explicit)
    }

    /// The installed size of the counted packages among the first `n`.
    pub open spec fn size_of(&self, category: Seq<char>, n: int) -> int
        decreases n,
    {
        if n <= 0 {
            0
        } else {
            self.size_of(category, n - 1) + if self.counted(category, n - 1) {
                self.packages()[n - 1].installed_size as int
            } else {
                0
            }
        }
    }

    /// The installed size of the packages in a category.
    pub fn category_size(&self, category: &str) -> (r: u64)
        requires
            self.size_of(category@, self.all_packages.len() as int) <= u64::MAX,
        ensures
            r == self.size_of(category@, self.all_packages.len() as int),
    {
        let c = chars_of(category);
        let all = eq_str(&c, "All");
        let n = self.all_packages.len();
        let mut total: u64 = 0;
        let mut i: usize = 0;
        while i < n
            invariant
                i <= n == self.all_packages.len(),
                c@ == category@,
                all == (category@ == "All"@),
                total == self.size_of(category@, i as int),
                self.size_of(category@, n as int) <= u64::MAX,
            decreases n - i,
        {
            let p = &self.all_packages[i];
            assert(self.packages()[i as int] == p@);
            let in_cat = all || vec_eq(&chars_of(self.category_map.get(p.name.as_str())), &c);
            let shown = self.show_dependencies || p.install_reason.is_explicit();
            proof {
                self.lemma_size_of_monotone(category@, i + 1, n as int);
            }
            if in_cat && shown {
                total = total + p.installed_size;
            }
            i = i + 1;
        }
        total
    }

    /// The installed size of the packages in a category, or `None` when it
    /// does not fit in 64 bits.
    pub fn category_size_checked(&self, category: &str) -> (r: Option<u64>)
        ensures
            r == if self.size_of(category@, self.all_packages.len() as int) <= u64::MAX {
                Some(self.size_of(category@, self.all_packages.len() as int) as u64)
            } else {
                None::<u64>
            },
    {
        let c = chars_of(category);
        let all = eq_str(&c, "All");
        let n = self.all_packages.len();
        let mut total: u64 = 0;
        let mut i: usize = 0;
        while i < n
            invariant
                i <= n == self.all_packages.len(),
                c@ == category@,
                all == (category@ == "All"@),
                total == self.size_of(category@, i as int),
            decreases n - i,
        {
            let p = &self.all_packages[i];
            assert(self.packages()[i as int] == p@);
            let in_cat = all || vec_eq(&chars_of(self.category_map.get(p.name.as_str())), &c);
            let shown = self.show_dependencies || p.install_reason.is_explicit();
            if in_cat && shown {
                match total.checked_add(p.installed_size) {
                    Some(t) => {
                        total = t;
                    },
                    None => {
                        proof {
                            self.lemma_size_of_monotone(category@, i + 1, n as int);
                        }
                        return None;
                    },
                }
            }
            i = i + 1;
        }
        Some(total)
    }

    proof fn lemma_size_of_monotone(&self, category: Seq<char>, a: int, b: int)
        requires
            a <= b,
        ensures
            self.size_of(category, a) <= self.size_of(category, b),
        decreases b - a,
    {
        if a < b {
            self.lemma_size_of_monotone(category, a, b - 1);
        }
    }

    /// Shows or hides the packages installed as dependencies.
    pub fn toggle_dependencies(&mut self)
        requires
            old(self).wf(),
        ensures
            final(self).wf(),
            App::recomputed(App { show_dependencies: !old(self).show_dependencies, ..*old(self) }, *final(self)),
    {
        self.show_dependencies = !self.show_dependencies;
        self.recompute_filter();
    }

    /// Shows only orphans, or every package.
    pub fn toggle_orphans_only(&mut self)
        requires
            old(self).wf(),
        ensures
            final(self).wf(),
            App::recomputed(App { show_orphans_only: !old(self).show_orphans_only, ..*old(self) }, *final(self)),
    {
        self.show_orphans_only = !self.show_orphans_only;
        self.recompute_filter();
    }

    /// Sorts by the next sort key.
    pub fn cycle_sort(&mut self)
        requires
            old(self).wf(),
        ensures
            final(self).wf(),
            App::recomputed(App { sort_key: old(self).sort_key.following(), ..*old(self) }, *final(self)),
    {
        self.sort_key = self.sort_key.next();
        self.recompute_filter();
    }

    /// `f` is `o` with the input line closed and emptied.
    pub open spec fn input_cancelled(o: App, f: App) -> bool {
        f == App { input_mode: None, input_buffer: f.input_buffer, ..o } && f.input_buffer@.len() == 0
    }

    /// Closes the input line.
    pub fn cancel_input(&mut self)
        ensures
            App::input_cancelled(*old(self), *final(self)),
    {
        self.input_mode = None;
        self.input_buffer = String::new();
    }

    /// `f` is `o` after asking for a category for the package under the cursor.
    pub open spec fn assign_started(o: App, f: App) -> bool {
        if o.cursor_package() is None {
            f == o
        } else {
            f == App { input_mode: Some(InputMode::AssignCategory), input_buffer: f.input_buffer, ..o }
                && f.input_buffer@.len() == 0
        }
    }

    /// Opens the input line for the category of the package under the cursor.
    pub fn start_assign_category(&mut self)
        requires
            old(self).wf(),
        ensures
            App::assign_started(*old(self), *final(self)),
    {
        if self.selected_package().is_none() {
            return;
        }
        self.input_mode = Some(InputMode::AssignCategory);
        self.input_buffer = String::new();
    }

    /// The selected category is one the user made: not "All" nor "Uncategorized".
    pub open spec fn own_category(name: Seq<char>) -> bool {
        name != "All"@ && name != "Uncategorized"@
    }

    /// `f` is `o` after asking for a new name of the selected category.
    pub open spec fn rename_started(o: App, f: App) -> bool {
        let cur = o.categories@[o.selected_category as int]@;
        if !App::own_category(cur) {
            f == o
        } else {
            f == App { input_mode: Some(InputMode::RenameCategory), input_buffer: f.input_buffer, ..o }
                && f.input_buffer@ == cur
        }
    }

    /// Opens the input line, holding the selected category's name, to rename it.
    pub fn start_rename_category(&mut self)
        requires
            old(self).wf(),
        ensures
            App::rename_started(*old(self), *final(self)),
            (old(self).categories@[old(self).selected_category as int]@ == "All"@
                || old(self).categories@[old(self).selected_category as int]@ == "Uncategorized"@)
                ==> *final(self) == *old(self),
    {
        let current = self.categories[self.selected_category].clone();
        let c = chars_of(current.as_str());
        if eq_str(&c, "All") || eq_str(&c, "Uncategorized") {
            return;
        }
        self.input_mode = Some(InputMode::RenameCategory);
        self.input_buffer = current;
    }

    /// The category to delete: the selected one, unless it is "All" or
    /// "Uncategorized". The deletion itself is the caller's, which then hands
    /// back the categories with `apply_category_map`.
    pub fn delete_selected_category(&self) -> (r: Option<String>)
        requires
            self.wf(),
        ensures
            match r {
                Some(name) => name@ == self.categories@[self.selected_category as int]@ && App::own_category(name@),
                None => !App::own_category(self.categories@[self.selected_category as int]@),
            },
            r is None <==> (self.categories@[self.selected_category as int]@ == "All"@
                || self.categories@[self.selected_category as int]@ == "Uncategorized"@),
            r matches Some(name) ==> name@ == self.categories@[self.selected_category as int]@,
    {
        let current = self.categories[self.selected_category].clone();
        let c = chars_of(current.as_str());
        if eq_str(&c, "All") || eq_str(&c, "Uncategorized") {
            return None;
        }
        Some(current)
    }

    /// Takes a category map that replaces the current one (after a category
    /// was renamed or deleted) and rebuilds the lists.
    pub fn apply_category_map(&mut self, map: CategoryMap)
        requires
            old(self).wf(),
            old(self).selected_category < map.order.len() + 2,
        ensures
            final(self).wf(),
            App::recomputed(App { category_map: map, categories: final(self).categories, ..*old(self) }, *final(self)),
    {
        let names = category_names(&map);
        self.category_map = map;
        self.categories = names;
        assert(texts(self.categories@).len() == self.categories.len());
        self.recompute_filter();
    }

    /// Takes the categories as read again from the configuration; a selection
    /// past the end of the new list goes back to "All".
    pub fn reload_categories(&mut self, map: CategoryMap)
        requires
            old(self).wf(),
        ensures
            final(self).wf(),
            App::recomputed(
                App {
                    category_map: map,
                    categories: final(self).categories,
                    selected_category: if old(self).selected_category >= map.order.len() + 2 {
                        0
                    } else {
                        old(self).selected_category
                    },
                    ..*old(self)
                },
                *final(self),
            ),
    {
        let names = category_names(&map);
        self.category_map = map;
        self.categories = names;
        assert(texts(self.categories@).len() == self.categories.len());
        if self.selected_category >= self.categories.len() {
            self.selected_category = 0;
        }
        self.recompute_filter();
    }
}

} // verus!

verus! {

/// A key as the browser reads it.
#[derive(Debug, Clone, Copy, PartialEq, Eq, Structural)]
pub enum Key {
    Esc,
    Enter,
    Backspace,
    Char(char),
    Other,
}

/// What the caller has to do after a key: write or read the category file.
pub enum Effect {
    Nothing,
    /// File `package` under `category` in the configuration.
    AssignPackage { package: String, category: String },
    /// Rename a category in the configuration, then hand back the categories
    /// read again with `apply_category_map`.
    RenameCategory { from: String, to: String },
    /// Delete a category from the configuration, then hand back the categories
    /// read again with `apply_category_map`.
    DeleteCategory { name: String },
    /// Read the configuration again and hand it back with `reload_categories`.
    ReloadCategories,
}

/// `new` is `old` with `name` added unless it is there, sorted then.
pub open spec fn order_added(old: Seq<String>, new: Seq<String>, name: Seq<char>) -> bool {
    if texts(old).contains(name) {
        new == old
    } else {
        crate::text::sorted_texts(texts(new)) && texts(new).to_multiset() == texts(old).to_multiset().insert(name)
    }
}

/// A window of half a second for a double `g`, in nanoseconds.
pub open spec fn double_tap_window() -> u64 {
    500_000_000
}

impl App {
    /// `f` and `eff` are `o` after the input line is confirmed: a package filed
    /// under the typed category (which is added to the list), or a category
    /// renamed; an empty line only closes the input.
    pub open spec fn confirmed(o: App, f: App, eff: Effect) -> bool {
        match o.input_mode {
            None => f == o && eff is Nothing,
            Some(mode) => {
                let name = trim(o.input_buffer@);
                if name.len() == 0 {
                    App::input_cancelled(o, f) && eff is Nothing
                } else {
                    match mode {
                        InputMode::AssignCategory => match o.cursor_package() {
                            Some(i) => {
                                let pkg = o.packages()[i].name;
                                &&& eff matches Effect::AssignPackage { package, category } && package@ == pkg && category@ == name
                                &&& forall|x: Seq<char>| #[trigger] f.category_map.category_of(x) == if x == pkg {
                                    Some(name)
                                } else {
                                    o.category_map.category_of(x)
                                }
                                &&& order_added(o.category_map.order@, f.category_map.order@, name)
                                &&& App::recomputed(
                                    App { category_map: f.category_map, categories: f.categories, ..o },
                                    App { input_mode: o.input_mode, input_buffer: o.input_buffer, ..f },
                                )
                                &&& f.input_mode is None
                                &&& f.input_buffer@.len() == 0
                            },
                            None => App::input_cancelled(o, f) && eff is Nothing,
                        },
                        InputMode::RenameCategory => {
                            &&& eff matches Effect::RenameCategory { from, to } && from@
                                == o.categories@[o.selected_category as int]@ && to@ == name
                            &&& App::input_cancelled(o, f)
                        },
                    }
                }
            },
        }
    }

    /// Confirms the input line; see `confirmed`.
    pub fn confirm_input(&mut self) -> (eff: Effect)
        requires
            old(self).wf(),
        ensures
            final(self).wf(),
            App::confirmed(*old(self), *final(self), eff),
    {
        broadcast use vstd::seq_lib::group_to_multiset_ensures;
        let mode = match self.input_mode {
            Some(m) => m,
            None => {
                return Effect::Nothing;
            },
        };
        let buf = chars_of(self.input_buffer.as_str());
        let name_chars = trim_vec(&buf);
        if name_chars.len() == 0 {
            self.cancel_input();
            return Effect::Nothing;
        }
        let name = string_of(&name_chars);
        let eff = match mode {
            InputMode::AssignCategory => {
                if self.package_state < self.filtered.len() {
                    let pkg_name = self.all_packages[self.filtered[self.package_state]].name.clone();
                    assert(self.packages()[self.filtered[self.package_state as int] as int]
                        == self.all_packages[self.filtered[self.package_state as int] as int]@);
                    let ghost o = *self;
                    self.category_map.insert(pkg_name.clone(), name.clone());
                    self.category_map.add_category(&name);
                    proof {
                        texts(o.category_map.order@).to_multiset_ensures();
                        texts(self.category_map.order@).to_multiset_ensures();
                    }
                    self.categories = category_names(&self.category_map);
                    assert(texts(self.categories@).len() == self.categories.len());
                    assert(texts(o.categories@).len() == o.categories.len());
                    let ghost mid = *self;
                    self.recompute_filter();
                    Effect::AssignPackage { package: pkg_name, category: name }
                } else {
                    Effect::Nothing
                }
            },
            InputMode::RenameCategory => {
                Effect::RenameCategory {
                    from: self.categories[self.selected_category].clone(),
                    to: name,
                }
            },
        };
        self.cancel_input();
        eff
    }

    /// `f` is `o` after a key while typing a search.
    pub open spec fn filter_key_handled(o: App, key: Key, f: App) -> bool {
        match key {
            Key::Esc => f.filter_text@.len() == 0 && App::recomputed(
                App { filter_text: f.filter_text, focus: Focus::Packages, ..o },
                f,
            ),
            Key::Enter => f == App { focus: Focus::Packages, ..o },
            Key::Backspace => {
                &&& f.filter_text@ == if o.filter_text@.len() > 0 {
                    o.filter_text@.drop_last()
                } else {
                    o.filter_text@
                }
                &&& App::recomputed(App { filter_text: f.filter_text, ..o }, f)
            },
            Key::Char(c) => {
                &&& f.filter_text@ == if c == '/' {
                    Seq::<char>::empty()
                } else {
                    o.filter_text@.push(c)
                }
                &&& App::recomputed(App { filter_text: f.filter_text, ..o }, f)
            },
            Key::Other => f == o,
        }
    }

    fn handle_filter_keys(&mut self, key: Key)
        requires
            old(self).wf(),
        ensures
            final(self).wf(),
            App::filter_key_handled(*old(self), key, *final(self)),
    {
        match key {
            Key::Esc => {
                self.filter_text = String::new();
                self.focus = Focus::Packages;
                self.recompute_filter();
            },
            Key::Enter => {
                self.focus = Focus::Packages;
            },
            Key::Backspace => {
                pop_char(&mut self.filter_text);
                self.recompute_filter();
            },
            Key::Char(c) => {
                if c == '/' {
                    self.filter_text = String::new();
                } else {
                    crate::text::push_char(&mut self.filter_text, c);
                }
                self.recompute_filter();
            },
            Key::Other => {},
        }
    }

    /// The focus after `l`.
    pub open spec fn focus_right(f: Focus) -> Focus {
        match f {
            Focus::Categories => Focus::Packages,
            Focus::Packages => Focus::Detail,
            Focus::Detail => Focus::Categories,
            Focus::Filter => Focus::Packages,
        }
    }

    /// The focus after `h`.
    pub open spec fn focus_left(f: Focus) -> Focus {
        match f {
            Focus::Categories => Focus::Detail,
            Focus::Packages => Focus::Categories,
            Focus::Detail => Focus::Packages,
            Focus::Filter => Focus::Categories,
        }
    }

    /// `f` is `o` after moving down (`step` 1) or up (`step` -1) in the focused pane.
    pub open spec fn stepped(o: App, f: App, step: int) -> bool {
        match o.focus {
            Focus::Categories => App::category_moved(o, f, step),
            Focus::Packages => App::package_moved(o, f, step),
            Focus::Detail => f == App { detail_scroll: App::scrolled_to(o.detail_scroll, step), ..o },
            Focus::Filter => f == o,
        }
    }

    /// Whether `g` at time `now` completes a double `g`.
    pub open spec fn double_tap(pending: Option<u64>, now: u64) -> bool {
        match pending {
            Some(t) => (if now >= t { now - t } else { 0 }) < double_tap_window(),
            None => false,
        }
    }

    /// `f` and `eff` are `o` after a navigation key at time `now`.
    pub open spec fn nav_key_handled(o: App, key: Key, now: u64, f: App, eff: Effect) -> bool {
        let p = if key != Key::Char('g') { App { pending_g: None, ..o } } else { o };
        if key == Key::Char('q') {
            f == App { should_quit: true, ..p } && eff is Nothing
        } else if key == Key::Char('?') {
            f == App { show_help: true, ..p } && eff is Nothing
        } else if key == Key::Char('g') {
            (if App::double_tap(o.pending_g, now) {
                App::jumped_top(App { pending_g: None, ..o }, f)
            } else {
                f == App { pending_g: Some(now), ..o }
            }) && eff is Nothing
        } else if key == Key::Char('G') {
            App::jumped_bottom(p, f) && eff is Nothing
        } else if key == Key::Char('.') {
            App::recomputed(App { show_dependencies: !p.show_dependencies, ..p }, f) && eff is Nothing
        } else if key == Key::Char('o') {
            App::recomputed(App { show_orphans_only: !p.show_orphans_only, ..p }, f) && eff is Nothing
        } else if key == Key::Char('/') {
            f == App { focus: Focus::Filter, ..p } && eff is Nothing
        } else if key == Key::Char('m') {
            App::assign_started(p, f) && eff is Nothing
        } else if key == Key::Char('r') && p.focus == Focus::Categories {
            App::rename_started(p, f) && eff is Nothing
        } else if key == Key::Char('d') && p.focus == Focus::Categories {
            &&& f == p
            &&& if App::own_category(p.categories@[p.selected_category as int]@) {
                eff matches Effect::DeleteCategory { name } && name@ == p.categories@[p.selected_category as int]@
            } else {
                eff is Nothing
            }
        } else if key == Key::Char('l') {
            f == App { focus: App::focus_right(p.focus), ..p } && eff is Nothing
        } else if key == Key::Char('h') {
            f == App { focus: App::focus_left(p.focus), ..p } && eff is Nothing
        } else if key == Key::Char('j') {
            App::stepped(p, f, 1) && eff is Nothing
        } else if key == Key::Char('k') {
            App::stepped(p, f, -1) && eff is Nothing
        } else if key == Key::Char('R') {
            f == p && eff is ReloadCategories
        } else if key == Key::Char('s') {
            App::recomputed(App { sort_key: p.sort_key.following(), ..p }, f) && eff is Nothing
        } else {
            f == p && eff is Nothing
        }
    }

    fn handle_nav_keys(&mut self, key: Key, now: u64) -> (eff: Effect)
        requires
            old(self).wf(),
            key == Key::Char('j') || key == Key::Char('k') ==> old(self).categories.len() <= i32::MAX
                && old(self).filtered.len() <= i32::MAX,
        ensures
            final(self).wf(),
            App::nav_key_handled(*old(self), key, now, *final(self), eff),
    {
        if key != Key::Char('g') {
            self.pending_g = None;
        }
        match key {
            Key::Char('q') => {
                self.should_quit = true;
            },
            Key::Char('?') => {
                self.show_help = true;
            },
            Key::Char('g') => {
                let double = match self.pending_g {
                    Some(t) => (if now >= t { now - t } else { 0 }) < 500_000_000,
                    None => false,
                };
                if double {
                    self.pending_g = None;
                    self.jump_top();
                } else {
                    self.pending_g = Some(now);
                }
            },
            Key::Char('G') => {
                self.jump_bottom();
            },
            Key::Char('.') => {
                self.toggle_dependencies();
            },
            Key::Char('o') => {
                self.toggle_orphans_only();
            },
            Key::Char('/') => {
                self.focus = Focus::Filter;
            },
            Key::Char('m') => {
                self.start_assign_category();
            },
            Key::Char('r') if self.focus == Focus::Categories => {
                self.start_rename_category();
            },
            Key::Char('d') if self.focus == Focus::Categories => {
                return match self.delete_selected_category() {
                    Some(name) => Effect::DeleteCategory { name },
                    None => Effect::Nothing,
                };
            },
            Key::Char('l') => {
                self.focus = match self.focus {
                    Focus::Categories => Focus::Packages,
                    Focus::Packages => Focus::Detail,
                    Focus::Detail => Focus::Categories,
                    Focus::Filter => Focus::Packages,
                };
            },
            Key::Char('h') => {
                self.focus = match self.focus {
                    Focus::Categories => Focus::Detail,
                    Focus::Packages => Focus::Categories,
                    Focus::Detail => Focus::Packages,
                    Focus::Filter => Focus::Categories,
                };
            },
            Key::Char('j') => {
                match self.focus {
                    Focus::Categories => self.move_category(1),
                    Focus::Packages => self.move_package(1),
                    Focus::Detail => self.scroll_detail(1),
                    Focus::Filter => {},
                }
            },
            Key::Char('k') => {
                match self.focus {
                    Focus::Categories => self.move_category(-1),
                    Focus::Packages => self.move_package(-1),
                    Focus::Detail => self.scroll_detail(-1),
                    Focus::Filter => {},
                }
            },
            Key::Char('R') => {
                return Effect::ReloadCategories;
            },
            Key::Char('s') => {
                self.cycle_sort();
            },
            _ => {},
        }
        Effect::Nothing
    }

    /// `f` and `eff` are `o` after `key` at time `now`.
    pub open spec fn key_handled(o: App, key: Key, now: u64, f: App, eff: Effect) -> bool {
        if o.input_mode is Some {
            match key {
                Key::Esc => App::input_cancelled(o, f) && eff is Nothing,
                Key::Enter => App::confirmed(o, f, eff),
                Key::Backspace => {
                    &&& f == App { input_buffer: f.input_buffer, ..o }
                    &&& f.input_buffer@ == if o.input_buffer@.len() > 0 {
                        o.input_buffer@.drop_last()
                    } else {
                        o.input_buffer@
                    }
                    &&& eff is Nothing
                },
                Key::Char(c) => {
                    &&& f == App { input_buffer: f.input_buffer, ..o }
                    &&& f.input_buffer@ == o.input_buffer@.push(c)
                    &&& eff is Nothing
                },
                Key::Other => f == o && eff is Nothing,
            }
        } else if o.show_help {
            (if key == Key::Char('?') || key == Key::Esc {
                f == App { show_help: false, ..o }
            } else {
                f == o
            }) && eff is Nothing
        } else if o.focus == Focus::Filter {
            App::filter_key_handled(o, key, f) && eff is Nothing
        } else {
            App::nav_key_handled(o, key, now, f, eff)
        }
    }

    /// What a key does at time `now` (nanoseconds on the caller's monotonic
    /// clock): it edits the input line while there is one, closes the help
    /// while it is shown, edits the search while it has the focus, and
    /// otherwise navigates. The effect says what the caller has to do with the
    /// category file.
    pub fn handle_key(&mut self, key: Key, now: u64) -> (eff: Effect)
        requires
            old(self).wf(),
            key == Key::Char('j') || key == Key::Char('k') ==> old(self).categories.len() <= i32::MAX
                && old(self).filtered.len() <= i32::MAX,
        ensures
            final(self).wf(),
            App::key_handled(*old(self), key, now, *final(self), eff),
    {
        if self.input_mode.is_some() {
            match key {
                Key::Esc => self.cancel_input(),
                Key::Enter => {
                    return self.confirm_input();
                },
                Key::Backspace => {
                    pop_char(&mut self.input_buffer);
                },
                Key::Char(c) => crate::text::push_char(&mut self.input_buffer, c),
                Key::Other => {},
            }
            return Effect::Nothing;
        }
        if self.show_help {
            if key == Key::Char('?') || key == Key::Esc {
                self.show_help = false;
            }
            return Effect::Nothing;
        }
        match self.focus {
            Focus::Filter => {
                self.handle_filter_keys(key);
                Effect::Nothing
            },
            _ => self.handle_nav_keys(key, now),
        }
    }
}

} // verus!

verus! {

/// Four steps of `SortKey::next` come back to where they started.
pub proof fn law_sort_cycle(k: SortKey)
    ensures
        k.following().following().following().following() == k,
{
}

/// The package list is determined by the state: two lists that both hold
/// the listed packages in sort order are the same.
pub proof fn law_listing_unique(app: App, sel: int, l1: Seq<usize>, l2: Seq<usize>)
    requires
        app.listing(sel, l1),
        app.listing(sel, l2),
    ensures
        l1 == l2,
{
    assert forall|x: usize| l1.contains(x) <==> l2.contains(x) by {
        if l1.contains(x) {
            let i = choose|i: int| 0 <= i < l1.len() && l1[i] == x;
            assert(l1[i] < app.all_packages.len());
            assert(app.listed(sel, x as int));
        }
        if l2.contains(x) {
            let i = choose|i: int| 0 <= i < l2.len() && l2[i] == x;
            assert(l2[i] < app.all_packages.len());
            assert(app.listed(sel, x as int));
        }
    }
    crate::order::lemma_ordered_unique(app.sort_key.keys(app.packages()), app.sort_key.descending(), l1, l2);
}

/// Turning the dependency switch twice, while nothing is searched, gives back
/// the switch, the selection and the package list that the state had.
pub proof fn law_toggle_dependencies_twice(o: App, f1: App, f2: App, g: App)
    requires
        o.wf(),
        o.filter_text@.len() == 0,
        App::recomputed(App { show_dependencies: !o.show_dependencies, ..o }, f1),
        App::recomputed(App { show_dependencies: !f1.show_dependencies, ..f1 }, f2),
        App::recomputed(o, g),
    ensures
        f2.show_dependencies == o.show_dependencies,
        f2.selected_category == o.selected_category,
        f2.filtered@ == g.filtered@,
{
    let m2 = App { show_dependencies: !f1.show_dependencies, ..f1 };
    App::lemma_listing_frame(m2, o, o.selected_category as int, f2.filtered@);
    law_listing_unique(o, o.selected_category as int, f2.filtered@, g.filtered@);
    assert(f2.filtered@ == g.filtered@);
}

/// Turning the orphan switch twice, while nothing is searched, gives back the
/// switch, the selection and the package list that the state had.
pub proof fn law_toggle_orphans_twice(o: App, f1: App, f2: App, g: App)
    requires
        o.wf(),
        o.filter_text@.len() == 0,
        App::recomputed(App { show_orphans_only: !o.show_orphans_only, ..o }, f1),
        App::recomputed(App { show_orphans_only: !f1.show_orphans_only, ..f1 }, f2),
        App::recomputed(o, g),
    ensures
        f2.show_orphans_only == o.show_orphans_only,
        f2.selected_category == o.selected_category,
        f2.filtered@ == g.filtered@,
{
    let m2 = App { show_orphans_only: !f1.show_orphans_only, ..f1 };
    App::lemma_listing_frame(m2, o, o.selected_category as int, f2.filtered@);
    law_listing_unique(o, o.selected_category as int, f2.filtered@, g.filtered@);
    assert(f2.filtered@ == g.filtered@);
}

/// While the input line is open, a typed character and a backspace leave the
/// line as it was.
pub proof fn law_type_then_erase(o: App, c: char, now: u64, f1: App, e1: Effect, f2: App, e2: Effect)
    requires
        o.input_mode is Some,
        App::key_handled(o, Key::Char(c), now, f1, e1),
        App::key_handled(f1, Key::Backspace, now, f2, e2),
    ensures
        f2 == (App { input_buffer: f2.input_buffer, ..o }),
        f2.input_buffer@ == o.input_buffer@,
        e1 is Nothing,
        e2 is Nothing,
{
    assert(f2.input_buffer@ =~= o.input_buffer@);
}

/// In the panes, `l` then `h` gives back the focus; nothing else changes but
/// the pending `g`, which is dropped.
pub proof fn law_right_then_left(o: App, n1: u64, n2: u64, f1: App, e1: Effect, f2: App, e2: Effect)
    requires
        o.input_mode is None,
        !o.show_help,
        o.focus != Focus::Filter,
        App::key_handled(o, Key::Char('l'), n1, f1, e1),
        App::key_handled(f1, Key::Char('h'), n2, f2, e2),
    ensures
        f2 == (App { pending_g: None, ..o }),
        e1 is Nothing,
        e2 is Nothing,
{
}

/// In the panes, `h` then `l` gives back the focus; nothing else changes but
/// the pending `g`, which is dropped.
pub proof fn law_left_then_right(o: App, n1: u64, n2: u64, f1: App, e1: Effect, f2: App, e2: Effect)
    requires
        o.input_mode is None,
        !o.show_help,
        o.focus != Focus::Filter,
        App::key_handled(o, Key::Char('h'), n1, f1, e1),
        App::key_handled(f1, Key::Char('l'), n2, f2, e2),
    ensures
        f2 == (App { pending_g: None, ..o }),
        e1 is Nothing,
        e2 is Nothing,
{
}

/// In the panes, three `l`s come back to the focus they started from.
pub proof fn law_three_rights(o: App, n1: u64, n2: u64, n3: u64, f1: App, e1: Effect, f2: App, e2: Effect, f3: App, e3: Effect)
    requires
        o.input_mode is None,
        !o.show_help,
        o.focus != Focus::Filter,
        App::key_handled(o, Key::Char('l'), n1, f1, e1),
        App::key_handled(f1, Key::Char('l'), n2, f2, e2),
        App::key_handled(f2, Key::Char('l'), n3, f3, e3),
    ensures
        f3 == (App { pending_g: None, ..o }),
{
}

/// A `g`, another key and a `g`, all while the panes have the keys, never
/// jump: the second `g` only starts a new wait.
pub proof fn law_g_key_g(
    o: App,
    k: Key,
    n1: u64,
    n2: u64,
    n3: u64,
    f1: App,
    e1: Effect,
    f2: App,
    e2: Effect,
    f3: App,
    e3: Effect,
)
    requires
        k != Key::Char('g'),
        o.input_mode is None && !o.show_help && o.focus != Focus::Filter,
        f1.input_mode is None && !f1.show_help && f1.focus != Focus::Filter,
        f2.input_mode is None && !f2.show_help && f2.focus != Focus::Filter,
        App::key_handled(o, Key::Char('g'), n1, f1, e1),
        App::key_handled(f1, k, n2, f2, e2),
        App::key_handled(f2, Key::Char('g'), n3, f3, e3),
    ensures
        f2.pending_g is None,
        f3 == (App { pending_g: Some(n3), ..f2 }),
{
}

/// With nothing searched (blanks count as nothing), a package is listed
/// exactly when it is in the selected category and the two switches let it
/// through; under "All", with both switches off, every explicitly installed
/// package is listed.
pub proof fn law_empty_search_lists(app: App, sel: int, i: int)
    requires
        trim(app.filter_text@).len() == 0,
    ensures
        app.listed(sel, i) == ((app.categories@[sel]@ == "All"@ || app.category_of_package(i)
            == app.categories@[sel]@) && (app.show_dependencies || app.packages()[i].install_reason
            == InstallReason::Explicit) && (!app.show_orphans_only || app.packages()[i].orphan())),
        app.categories@[sel]@ == "All"@ && !app.show_dependencies && !app.show_orphans_only ==> (
        app.listed(sel, i) <==> app.packages()[i].install_reason == InstallReason::Explicit),
{
    reveal_strlit("d:");
    reveal_strlit("c:");
    assert(search_of(app.query()) == (SearchMode::Name, Seq::<char>::empty()));
}

/// A plain search (no `d:` or `c:` in front) matches package names only: a
/// package is listed exactly when the lower-cased search text occurs in its
/// lower-cased name and the two switches let it through; its description and
/// its category play no part.
pub proof fn law_plain_search_names(app: App, sel: int, i: int)
    requires
        trim(app.filter_text@).len() > 0,
        lowercase(trim(app.filter_text@)).len() > 0,
        !is_prefix("d:"@, lowercase(trim(app.filter_text@))),
        !is_prefix("c:"@, lowercase(trim(app.filter_text@))),
    ensures
        app.listed(sel, i) == (occurs_in(lowercase(trim(app.filter_text@)), lowercase(app.packages()[i].name))
            && (app.show_dependencies || app.packages()[i].install_reason == InstallReason::Explicit)
            && (!app.show_orphans_only || app.packages()[i].orphan())),
{
}

/// A `d:` search matches descriptions only: a package is listed exactly when
/// the trimmed text after `d:` occurs in its lower-cased description and the
/// two switches let it through; its name and category play no part.
pub proof fn law_description_search(app: App, sel: int, i: int)
    requires
        trim(app.filter_text@).len() > 0,
        is_prefix("d:"@, lowercase(trim(app.filter_text@))),
        trim(lowercase(trim(app.filter_text@)).subrange(2, lowercase(trim(app.filter_text@)).len() as int)).len() > 0,
    ensures
        app.listed(sel, i) == (occurs_in(
            trim(lowercase(trim(app.filter_text@)).subrange(2, lowercase(trim(app.filter_text@)).len() as int)),
            lowercase(app.packages()[i].description),
        ) && (app.show_dependencies || app.packages()[i].install_reason == InstallReason::Explicit)
            && (!app.show_orphans_only || app.packages()[i].orphan())),
{
    reveal_strlit("d:");
}

/// A `c:` search matches the category shown for a package only: a package is
/// listed exactly when the trimmed text after `c:` occurs in its lower-cased
/// category and the two switches let it through.
pub proof fn law_category_search(app: App, sel: int, i: int)
    requires
        trim(app.filter_text@).len() > 0,
        !is_prefix("d:"@, lowercase(trim(app.filter_text@))),
        is_prefix("c:"@, lowercase(trim(app.filter_text@))),
        trim(lowercase(trim(app.filter_text@)).subrange(2, lowercase(trim(app.filter_text@)).len() as int)).len() > 0,
    ensures
        app.listed(sel, i) == (occurs_in(
            trim(lowercase(trim(app.filter_text@)).subrange(2, lowercase(trim(app.filter_text@)).len() as int)),
            lowercase(app.category_of_package(i)),
        ) && (app.show_dependencies || app.packages()[i].install_reason == InstallReason::Explicit)
            && (!app.show_orphans_only || app.packages()[i].orphan())),
{
    reveal_strlit("c:");
}

/// "All" and "Uncategorized" are not categories of the file: with one of them
/// selected, asking to rename it changes nothing, and `r` or `d` in the
/// categories pane does nothing but drop a pending `g`.
pub proof fn law_fixed_categories_stay(o: App, f: App, key: Key, now: u64, g: App, eff: Effect)
    requires
        o.categories@[o.selected_category as int]@ == "All"@ || o.categories@[o.selected_category as int]@
            == "Uncategorized"@,
    ensures
        App::rename_started(o, f) ==> f == o,
        (o.input_mode is None && !o.show_help && o.focus == Focus::Categories && (key == Key::Char('r')
            || key == Key::Char('d')) && App::key_handled(o, key, now, g, eff)) ==> (g == (App {
            pending_g: None,
            ..o
        }) && eff is Nothing),
{
}

/// `gg` on the categories pane clears the search and selects "All" (the
/// first category), whatever was searched and selected before; `G` clears the
/// search and selects the last category.
pub proof fn law_jumps_clear_search(o: App, f: App)
    requires
        o.wf(),
        o.focus == Focus::Categories,
    ensures
        App::jumped_top(o, f) ==> f.filter_text@.len() == 0 && f.selected_category == 0 && f.package_state == 0,
        App::jumped_bottom(o, f) ==> f.filter_text@.len() == 0 && f.selected_category == o.categories.len() - 1
            && f.package_state == 0,
{
    if App::jumped_top(o, f) {
        let m = App { filter_text: f.filter_text, selected_category: 0, package_state: 0, detail_scroll: 0, ..o };
        assert(App::recomputed(m, f));
        assert(f.synced(m.selected_category, f.selected_category));
    }
    if App::jumped_bottom(o, f) {
        let m = App {
            filter_text: f.filter_text,
            selected_category: (o.categories.len() - 1) as usize,
            package_state: 0,
            detail_scroll: 0,
            ..o
        };
        assert(App::recomputed(m, f));
        assert(f.synced(m.selected_category, f.selected_category));
    }
}

/// Moving the cursor while a search is typed: the cursor moves by `delta`,
/// stopping at the ends of the list, and the selected category follows the
/// package under it (its first place among the categories) when that category
/// is listed.
pub proof fn law_move_follows_cursor(o: App, f: App, delta: int)
    requires
        App::package_moved(o, f, delta),
        o.filtered.len() > 0,
        o.filter_text@.len() > 0,
    ensures
        f.filtered == o.filtered,
        f.filter_text == o.filter_text,
        f.package_state as int == if o.package_state + delta < 0 {
            0
        } else if o.package_state + delta > o.filtered.len() - 1 {
            o.filtered.len() - 1
        } else {
            o.package_state + delta
        },
        texts(o.categories@).contains(o.category_of_package(f.filtered[f.package_state as int] as int)) ==> (
        f.selected_category < f.categories.len() && f.categories@[f.selected_category as int]@
            == o.category_of_package(f.filtered[f.package_state as int] as int) && forall|k: int|
            0 <= k < f.selected_category ==> #[trigger] f.categories@[k]@ != o.category_of_package(
            f.filtered[f.package_state as int] as int,
        )),
{
}

/// Every state the browser reaches keeps the cursor on a package of the list
/// (or at 0 on an empty list), so the selected package is always a listed one.
pub proof fn law_cursor_in_list(app: App)
    requires
        app.wf(),
        app.filtered.len() > 0,
    ensures
        app.cursor_package() is Some,
        app.cursor_package()->0 < app.all_packages.len(),
{
}

} // verus!

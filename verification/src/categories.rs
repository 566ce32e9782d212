//! The user's package categories: which category each package is filed
//! under, and the list of categories.
use vstd::prelude::*;
use crate::text::{chars_of, vec_eq, sort_strings, sorted_texts, eq_str};
use crate::pacman::texts;

verus! {

/// The categories as a configuration file lists them: each category with the
/// packages filed under it, in the order in which they were read.
pub struct RawConfig {
    pub categories: Vec<(String, Vec<String>)>,
}

/// Which category each package is filed under (`lookup`, read so that a later
/// pair wins), and the category names in sorted order (`order`).
pub struct CategoryMap {
    pub lookup: Vec<(String, String)>,
    pub order: Vec<String>,
}

/// The category that `pairs` gives `name`: the one of the last pair for it.
pub open spec fn assigned(pairs: Seq<(String, String)>, name: Seq<char>) -> Option<Seq<char>>
    decreases pairs.len(),
{
    if pairs.len() == 0 {
        None
    } else if pairs.last().0@ == name {
        Some(pairs.last().1@)
    } else {
        assigned(pairs.drop_last(), name)
    }
}

/// The category shown for a package.
pub open spec fn shown_category(c: Option<Seq<char>>) -> Seq<char> {
    match c {
        Some(x) => x,
        None => "Uncategorized"@,
    }
}

/// The category that a configuration gives `name`: the last category, in the
/// order read, that lists it.
pub open spec fn config_category(entries: Seq<(String, Vec<String>)>, name: Seq<char>) -> Option<Seq<char>>
    decreases entries.len(),
{
    if entries.len() == 0 {
        None
    } else if texts(entries.last().1@).contains(name) {
        Some(entries.last().0@)
    } else {
        config_category(entries.drop_last(), name)
    }
}

/// The category names of a configuration, in the order read.
pub open spec fn config_names(entries: Seq<(String, Vec<String>)>) -> Seq<Seq<char>> {
    entries.map_values(|e: (String, Vec<String>)| e.0@)
}

impl CategoryMap {
    /// The category of `name`, in the map's own terms.
    pub open spec fn category_of(&self, name: Seq<char>) -> Option<Seq<char>> {
        assigned(self.lookup@, name)
    }

    pub fn new() -> (r: Self)
        ensures
            r.lookup@.len() == 0,
            r.order@.len() == 0,
            forall|name: Seq<char>| r.category_of(name) is None,
    {
        CategoryMap { lookup: Vec::new(), order: Vec::new() }
    }

    /// The index of the last pair for `name`.
    fn find(&self, name: &Vec<char>) -> (r: Option<usize>)
        ensures
            match r {
                Some(i) => i < self.lookup.len() && self.lookup[i as int].0@ == name@
                    && assigned(self.lookup@, name@) == Some(self.lookup[i as int].1@)
                    && forall|k: int| i < k < self.lookup.len() ==> #[trigger] self.lookup[k].0@ != name@,
                None => assigned(self.lookup@, name@) is None,
            },
    {
        let mut i = self.lookup.len();
        assert(self.lookup@.subrange(0, i as int) =~= self.lookup@);
        while i > 0
            invariant
                i <= self.lookup.len(),
                assigned(self.lookup@, name@) == assigned(self.lookup@.subrange(0, i as int), name@),
                forall|k: int| i <= k < self.lookup.len() ==> #[trigger] self.lookup[k].0@ != name@,
            decreases i,
        {
            let ghost s = self.lookup@.subrange(0, i as int);
            assert(s.drop_last() =~= self.lookup@.subrange(0, i - 1));
            assert(s.last() == self.lookup[i - 1]);
            let k = chars_of(self.lookup[i - 1].0.as_str());
            if vec_eq(&k, name) {
                return Some(i - 1);
            }
            i = i - 1;
        }
        None
    }

    /// The category a package is filed under, `"Uncategorized"` when none.
    pub fn get(&self, package_name: &str) -> (r: &str)
        ensures
            r@ == shown_category(self.category_of(package_name@)),
    {
        let name = chars_of(package_name);
        match self.find(&name) {
            Some(i) => self.lookup[i].1.as_str(),
            None => "Uncategorized",
        }
    }

    /// Files `package` under `category`; other packages keep theirs.
    pub fn insert(&mut self, package: String, category: String)
        ensures
            final(self).order == old(self).order,
            forall|name: Seq<char>|
                #![trigger final(self).category_of(name)]
                final(self).category_of(name) == if name == package@ {
                    Some(category@)
                } else {
                    old(self).category_of(name)
                },
    {
        let name = chars_of(package.as_str());
        match self.find(&name) {
            Some(i) => {
                let ghost before = self.lookup@;
                let mut pair = (String::new(), String::new());
                self.lookup.set_and_swap(i, &mut pair);
                pair.1 = category;
                self.lookup.set_and_swap(i, &mut pair);
                proof {
                    lemma_assigned_update(before, i as int, self.lookup@);
                    assert(self.lookup[i as int].0@ == name@);
                }
            },
            None => {
                let ghost before = self.lookup@;
                self.lookup.push((package, category));
                assert(self.lookup@.drop_last() =~= before);
            },
        }
    }

    /// The categories for display: those in `order`, then `"Uncategorized"`.
    pub fn categories(&self) -> (r: Vec<String>)
        ensures
            texts(r@) == texts(self.order@).push("Uncategorized"@),
    {
        let mut cats: Vec<String> = Vec::new();
        let mut i: usize = 0;
        while i < self.order.len()
            invariant
                i <= self.order.len(),
                texts(cats@) == texts(self.order@).subrange(0, i as int),
            decreases self.order.len() - i,
        {
            let ghost before = cats@;
            cats.push(self.order[i].clone());
            assert(texts(cats@) =~= texts(before).push(self.order[i as int]@));
            assert(texts(cats@) =~= texts(self.order@).subrange(0, i + 1));
            i = i + 1;
        }
        assert(texts(self.order@).subrange(0, self.order.len() as int) =~= texts(self.order@));
        let ghost before = cats@;
        cats.push(String::from_str("Uncategorized"));
        assert(texts(cats@) =~= texts(before).push("Uncategorized"@));
        cats
    }

    /// Adds a category name to `order` unless it is there, then sorts `order`.
    pub fn add_category(&mut self, name: &String)
        ensures
            final(self).lookup == old(self).lookup,
            texts(old(self).order@).contains(name@) ==> final(self).order == old(self).order,
            !texts(old(self).order@).contains(name@) ==> sorted_texts(texts(final(self).order@)),
            !texts(old(self).order@).contains(name@) ==> texts(final(self).order@).to_multiset()
                == texts(old(self).order@).to_multiset().insert(name@),
    {
        let mut i: usize = 0;
        while i < self.order.len()
            invariant
                i <= self.order.len(),
                *self == *old(self),
                forall|k: int| 0 <= k < i ==> texts(self.order@)[k] != name@,
            decreases self.order.len() - i,
        {
            if self.order[i] == *name {
                assert(texts(self.order@)[i as int] == name@);
                return;
            }
            i = i + 1;
        }
        let ghost before = self.order@;
        self.order.push(name.clone());
        assert(texts(self.order@) =~= texts(before).push(name@));
        let sorted = sort_strings(&self.order);
        proof {
            texts(before).to_multiset_ensures();
        }
        self.order = sorted;
    }

    /// The map that a configuration describes: each listed package filed under
    /// the last category that lists it, the category names sorted.
    pub fn from_config(raw: &RawConfig) -> (r: Self)
        ensures
            forall|name: Seq<char>| #[trigger] r.category_of(name) == config_category(raw.categories@, name),
            sorted_texts(texts(r.order@)),
            texts(r.order@).to_multiset() == config_names(raw.categories@).to_multiset(),
    {
        let mut map = CategoryMap::new();
        let mut names: Vec<String> = Vec::new();
        let entries = &raw.categories;
        let mut e: usize = 0;
        while e < entries.len()
            invariant
                e <= entries.len(),
                texts(names@) == config_names(entries@).subrange(0, e as int),
                forall|name: Seq<char>| #[trigger] map.category_of(name) == config_category(entries@.subrange(0, e as int), name),
            decreases entries.len() - e,
        {
            let ghost before_names = names@;
            names.push(entries[e].0.clone());
            assert(texts(names@) =~= texts(before_names).push(entries[e as int].0@));
            assert(texts(names@) =~= config_names(entries@).subrange(0, e + 1));
            let pkgs = &entries[e].1;
            let ghost prefix = entries@.subrange(0, e as int);
            let ghost next = entries@.subrange(0, e + 1);
            assert(next.drop_last() =~= prefix);
            assert(next.last() == entries[e as int]);
            let mut j: usize = 0;
            while j < pkgs.len()
                invariant
                    e < entries.len(),
                    pkgs == entries[e as int].1,
                    next == entries@.subrange(0, e + 1),
                    prefix == entries@.subrange(0, e as int),
                    next.drop_last() == prefix,
                    next.last() == entries[e as int],
                    j <= pkgs.len(),
                    forall|name: Seq<char>| #[trigger] map.category_of(name) == if texts(pkgs@).subrange(0, j as int).contains(name) {
                        Some(entries[e as int].0@)
                    } else {
                        config_category(prefix, name)
                    },
                decreases pkgs.len() - j,
            {
                let ghost t = texts(pkgs@);
                map.insert(pkgs[j].clone(), entries[e].0.clone());
                assert forall|name: Seq<char>| #[trigger] map.category_of(name) == if t.subrange(0, j + 1).contains(name) {
                    Some(entries[e as int].0@)
                } else {
                    config_category(prefix, name)
                } by {
                    assert(t.subrange(0, j + 1) =~= t.subrange(0, j as int).push(t[j as int]));
                    assert(t[j as int] == pkgs[j as int]@);
                    if t.subrange(0, j as int).contains(name) {
                        let q = choose|q: int| 0 <= q < j && #[trigger] t.subrange(0, j as int)[q] == name;
                        assert(t.subrange(0, j + 1)[q] == name);
                    }
                    if t.subrange(0, j + 1).contains(name) && name != t[j as int] {
                        let q = choose|q: int| 0 <= q < j + 1 && #[trigger] t.subrange(0, j + 1)[q] == name;
                        assert(q < j);
                        assert(t.subrange(0, j as int)[q] == name);
                    }
                    if name == t[j as int] {
                        assert(t.subrange(0, j + 1)[j as int] == name);
                    }
                }
                j = j + 1;
            }
            assert(texts(pkgs@).subrange(0, pkgs.len() as int) =~= texts(pkgs@));
            e = e + 1;
        }
        assert(config_names(entries@).subrange(0, entries.len() as int) =~= config_names(entries@));
        assert(entries@.subrange(0, entries.len() as int) =~= entries@);
        let ghost m0 = map;
        map.order = sort_strings(&names);
        assert forall|name: Seq<char>| #[trigger] map.category_of(name) == config_category(raw.categories@, name) by {
            assert(m0.category_of(name) == config_category(entries@.subrange(0, entries.len() as int), name));
        }
        map
    }
}

proof fn lemma_assigned_update(before: Seq<(String, String)>, i: int, after: Seq<(String, String)>)
    requires
        0 <= i < before.len(),
        after.len() == before.len(),
        after[i].0@ == before[i].0@,
        forall|k: int| 0 <= k < before.len() && k != i ==> after[k] == before[k],
        forall|k: int| i < k < before.len() ==> #[trigger] before[k].0@ != before[i].0@,
    ensures
        forall|name: Seq<char>|
            #![trigger assigned(after, name)]
            assigned(after, name) == if name == before[i].0@ {
                Some(after[i].1@)
            } else {
                assigned(before, name)
            },
{
    assert forall|name: Seq<char>| #![trigger assigned(after, name)] assigned(after, name) == if name == before[i].0@ {
        Some(after[i].1@)
    } else {
        assigned(before, name)
    } by {
        lemma_assigned_update_one(before, i, after, name);
    }
}

proof fn lemma_assigned_update_one(before: Seq<(String, String)>, i: int, after: Seq<(String, String)>, name: Seq<char>)
    requires
        0 <= i < before.len(),
        after.len() == before.len(),
        after[i].0@ == before[i].0@,
        forall|k: int| 0 <= k < before.len() && k != i ==> after[k] == before[k],
        forall|k: int| i < k < before.len() ==> #[trigger] before[k].0@ != before[i].0@,
    ensures
        assigned(after, name) == if name == before[i].0@ {
            Some(after[i].1@)
        } else {
            assigned(before, name)
        },
    decreases before.len(),
{
    if i == before.len() - 1 {
        assert(after.drop_last() =~= before.drop_last());
    } else {
        assert(after.last() == before.last());
        assert(before.last().0@ != before[i].0@);
        if before.last().0@ != name {
            lemma_assigned_update_one(before.drop_last(), i, after.drop_last(), name);
        }
    }
}

} // verus!

verus! {

/// What is filed is found: after `insert(package, category)`, `get(package)`
/// gives `category`, and every other package gives what it gave before.
pub proof fn law_insert_then_get(before: CategoryMap, after: CategoryMap, package: Seq<char>, category: Seq<char>, other: Seq<char>)
    requires
        forall|name: Seq<char>|
            #![trigger after.category_of(name)]
            after.category_of(name) == if name == package {
                Some(category)
            } else {
                before.category_of(name)
            },
        other != package,
    ensures
        shown_category(after.category_of(package)) == category,
        shown_category(after.category_of(other)) == shown_category(before.category_of(other)),
{
    assert(after.category_of(package) == Some(category));
    assert(after.category_of(other) == before.category_of(other));
}

/// A package that no category lists is shown as "Uncategorized".
pub proof fn law_unlisted_is_uncategorized(raw: Seq<(String, Vec<String>)>, map: CategoryMap, name: Seq<char>)
    requires
        forall|n: Seq<char>| #[trigger] map.category_of(n) == config_category(raw, n),
        forall|i: int| 0 <= i < raw.len() ==> !texts(#[trigger] raw[i].1@).contains(name),
    ensures
        shown_category(map.category_of(name)) == "Uncategorized"@,
    decreases raw.len(),
{
    lemma_config_category_none(raw, name);
    assert(map.category_of(name) == config_category(raw, name));
}

proof fn lemma_config_category_none(raw: Seq<(String, Vec<String>)>, name: Seq<char>)
    requires
        forall|i: int| 0 <= i < raw.len() ==> !texts(#[trigger] raw[i].1@).contains(name),
    ensures
        config_category(raw, name) is None,
    decreases raw.len(),
{
    if raw.len() > 0 {
        assert(raw.drop_last().len() == raw.len() - 1);
        assert forall|i: int| 0 <= i < raw.drop_last().len() implies !texts(#[trigger] raw.drop_last()[i].1@).contains(name) by {
            assert(raw.drop_last()[i] == raw[i]);
        }
        assert(!texts(raw[raw.len() - 1].1@).contains(name));
        lemma_config_category_none(raw.drop_last(), name);
    }
}

} // verus!

verus! {

#[verifier::external_type_specification]
#[verifier::external_body]
pub struct ExDocumentMut(toml_edit::DocumentMut);

#[verifier::external_type_specification]
#[verifier::external_body]
pub struct ExTomlError(toml_edit::TomlError);

/// What the `categories` table of a TOML document holds: each key that holds
/// an item, with the string values of the array under it, in order (`None`
/// when the item is not an array). `None` when `categories` is not a table.
pub uninterp spec fn category_entries(doc: toml_edit::DocumentMut) -> Option<Map<Seq<char>, Option<Seq<Seq<char>>>>>;

/// Whether the top level of a TOML document holds an item under `categories`.
pub uninterp spec fn has_categories(doc: toml_edit::DocumentMut) -> bool;

/// What `toml_edit` parses a text into, read through the two models above:
/// `None` when the text is not TOML, else the document's `category_entries`
/// and `has_categories`.
pub uninterp spec fn toml_categories(t: Seq<char>) -> Option<(Option<Map<Seq<char>, Option<Seq<Seq<char>>>>>, bool)>;

/// Every key of `m2` is a key of `m` with the same entry, and every key of `m`
/// that holds a list is a key of `m2`.
pub open spec fn lists_kept(m: Map<Seq<char>, Option<Seq<Seq<char>>>>, m2: Map<Seq<char>, Option<Seq<Seq<char>>>>) -> bool {
    &&& forall|k: Seq<char>| #[trigger] m2.contains_key(k) ==> m.contains_key(k) && m2[k] == m[k]
    &&& forall|k: Seq<char>| #[trigger] m.contains_key(k) && m[k] is Some ==> m2.contains_key(k)
}

/// No key of `m` holds a list.
pub open spec fn no_lists(m: Map<Seq<char>, Option<Seq<Seq<char>>>>) -> bool {
    forall|k: Seq<char>| #[trigger] m.contains_key(k) ==> m[k] is None
}

/// What reading back the text of a document with entries `e` and `has` gives
/// (`t`): the text parses; a `categories` that is not a table comes back as it
/// was; a table comes back with every list and no other entry, or, when it
/// holds no list, may be gone (an empty implicit table is not drawn).
pub open spec fn redrawn(e: Option<Map<Seq<char>, Option<Seq<Seq<char>>>>>, has: bool, t: Option<(Option<Map<Seq<char>, Option<Seq<Seq<char>>>>>, bool)>) -> bool {
    match t {
        None => false,
        Some(back) => match e {
            None => back.0 is None && back.1 == has,
            Some(m) => (back.0 matches Some(m2) && back.1 && lists_kept(m, m2)) || (back.0 is None
                && !back.1 && no_lists(m)),
        },
    }
}

/// Why the category file could not take an assignment.
#[derive(Debug, Clone, Copy, PartialEq, Eq, Structural)]
pub enum AssignError {
    /// The text is not TOML.
    Parse,
    /// `categories` holds something other than a table.
    NotATable,
    /// The category holds something other than an array.
    NotAnArray,
}

/// `text.parse::<DocumentMut>()`. Trusted: it succeeds exactly on the texts
/// that `toml_categories` reads, and the document's models are what it reads
/// there (parsing TOML is `toml_edit`'s, a function of the text alone).
#[verifier::external_body]
fn parse_document(text: &str) -> (r: Result<toml_edit::DocumentMut, toml_edit::TomlError>)
    ensures
        r is Ok <==> toml_categories(text@) is Some,
        r matches Ok(d) ==> toml_categories(text@) == Some((category_entries(d), has_categories(d))),
{
    text.parse::<toml_edit::DocumentMut>()
}

/// The keys of the `categories` table (`Table::iter`, which skips keys that
/// hold no item), or `None` when `categories` is not a table. Looking it up
/// with `doc["categories"]` may leave an empty item under `categories`, which
/// the table model, the test for an item and `Display` do not see.
#[verifier::external_body]
fn category_keys(doc: &mut toml_edit::DocumentMut) -> (r: Option<Vec<String>>)
    ensures
        category_entries(*final(doc)) == category_entries(*old(doc)),
        has_categories(*final(doc)) == has_categories(*old(doc)),
        r is Some <==> category_entries(*old(doc)) is Some,
        r matches Some(keys) ==> texts(keys@).no_duplicates() && texts(keys@).to_set()
            == category_entries(*old(doc))->0.dom(),
{
    match doc["categories"].as_table_mut() {
        Some(t) => Some(t.iter().map(|(k, _)| k.to_string()).collect()),
        None => None,
    }
}

/// Whether a value is kept when `package` is taken out of a list: it is kept
/// unless it is the string `package`.
fn keeps_value(v: Option<&str>, package: &str) -> (r: bool)
    ensures
        r == !(v matches Some(s) && s@ == package@),
{
    match v {
        Some(s) => !eq_str(&chars_of(s), package),
        None => true,
    }
}

pub open spec fn not_text(p: Seq<char>) -> spec_fn(Seq<char>) -> bool {
    |x: Seq<char>| x != p
}

/// The entries with the strings `package` taken out of the list under `key`.
pub open spec fn without_at(m: Map<Seq<char>, Option<Seq<Seq<char>>>>, key: Seq<char>, package: Seq<char>) -> Map<Seq<char>, Option<Seq<Seq<char>>>> {
    if m.contains_key(key) && m[key] is Some {
        m.insert(key, Some(m[key]->0.filter(not_text(package))))
    } else {
        m
    }
}

/// `Array::retain` on the array under `key` in `categories`, keeping what
/// `keeps_value` keeps: the string `package` is taken out of it.
#[verifier::external_body]
fn remove_from_list(doc: &mut toml_edit::DocumentMut, key: &str, package: &str)
    requires
        category_entries(*old(doc)) is Some,
    ensures
        category_entries(*final(doc)) == Some(without_at(category_entries(*old(doc))->0, key@, package@)),
        has_categories(*final(doc)) == has_categories(*old(doc)),
{
    if let Some(t) = doc["categories"].as_table_mut() {
        if let Some(item) = t.get_mut(key) {
            if let Some(a) = item.as_array_mut() {
                a.retain(|v| keeps_value(v.as_str(), package));
            }
        }
    }
}

/// `doc["categories"].or_insert(table())`, then whether `categories` is a
/// table: an empty table is put there when `categories` held nothing.
#[verifier::external_body]
fn ensure_table(doc: &mut toml_edit::DocumentMut) -> (r: bool)
    ensures
        category_entries(*old(doc)) is Some ==> has_categories(*old(doc)),
        r == (category_entries(*old(doc)) is Some || !has_categories(*old(doc))),
        !has_categories(*old(doc)) ==> category_entries(*final(doc)) == Some(Map::<Seq<char>, Option<Seq<Seq<char>>>>::empty()),
        has_categories(*old(doc)) ==> category_entries(*final(doc)) == category_entries(*old(doc)),
        has_categories(*final(doc)),
{
    doc["categories"].or_insert(toml_edit::table()).is_table()
}

/// `Table::contains_key` on `categories`: whether `key` holds an item.
#[verifier::external_body]
fn holds_key(doc: &toml_edit::DocumentMut, key: &str) -> (r: bool)
    requires
        category_entries(*doc) is Some,
    ensures
        r == category_entries(*doc)->0.contains_key(key@),
{
    match doc["categories"].as_table() {
        Some(t) => t.contains_key(key),
        None => false,
    }
}

/// `categories[key] = value(Array::new())`: an empty array under a new key.
#[verifier::external_body]
fn add_empty_list(doc: &mut toml_edit::DocumentMut, key: &str)
    requires
        category_entries(*old(doc)) is Some,
        !category_entries(*old(doc))->0.contains_key(key@),
    ensures
        category_entries(*final(doc)) == Some(category_entries(*old(doc))->0.insert(key@, Some(Seq::<Seq<char>>::empty()))),
        has_categories(*final(doc)) == has_categories(*old(doc)),
{
    if let Some(t) = doc["categories"].as_table_mut() {
        t[key] = toml_edit::value(toml_edit::Array::new());
    }
}

/// `Array::push(package)` on the array under `key`; `false`, and nothing
/// changed, when that item is not an array.
#[verifier::external_body]
fn push_to_list(doc: &mut toml_edit::DocumentMut, key: &str, package: &str) -> (r: bool)
    requires
        category_entries(*old(doc)) is Some,
        category_entries(*old(doc))->0.contains_key(key@),
    ensures
        r == category_entries(*old(doc))->0[key@] is Some,
        r ==> category_entries(*final(doc)) == Some(category_entries(*old(doc))->0.insert(
            key@,
            Some(category_entries(*old(doc))->0[key@]->0.push(package@)),
        )),
        !r ==> category_entries(*final(doc)) == category_entries(*old(doc)),
        has_categories(*final(doc)) == has_categories(*old(doc)),
{
    if let Some(t) = doc["categories"].as_table_mut() {
        if let Some(item) = t.get_mut(key) {
            if let Some(a) = item.as_array_mut() {
                a.push(package);
                return true;
            }
        }
    }
    false
}

/// `doc.to_string()`: the document's text. Trusted: read back, it gives the
/// document's models as `redrawn` says (`Display` draws every item but empty
/// ones and implicit tables that hold no key-value pair).
#[verifier::external_body]
fn render(doc: &toml_edit::DocumentMut) -> (r: String)
    ensures
        redrawn(category_entries(*doc), has_categories(*doc), toml_categories(r@)),
{
    doc.to_string()
}

/// `Table::remove(key)` on `categories`: the key and its item are gone.
#[verifier::external_body]
fn remove_key(doc: &mut toml_edit::DocumentMut, key: &str)
    requires
        category_entries(*old(doc)) is Some,
    ensures
        category_entries(*final(doc)) == Some(category_entries(*old(doc))->0.remove(key@)),
        has_categories(*final(doc)) == has_categories(*old(doc)),
{
    if let Some(t) = doc["categories"].as_table_mut() {
        t.remove(key);
    }
}

/// `Table::remove(from)` on `categories`, then `Table::insert(to, item)` of
/// the item it gave back: the entry of `from` moves to `to`, replacing what
/// `to` held.
#[verifier::external_body]
fn move_key(doc: &mut toml_edit::DocumentMut, from: &str, to: &str)
    requires
        category_entries(*old(doc)) is Some,
        category_entries(*old(doc))->0.contains_key(from@),
    ensures
        category_entries(*final(doc)) == Some(category_entries(*old(doc))->0.remove(from@).insert(
            to@,
            category_entries(*old(doc))->0[from@],
        )),
        has_categories(*final(doc)) == has_categories(*old(doc)),
{
    if let Some(t) = doc["categories"].as_table_mut() {
        if let Some(item) = t.remove(from) {
            t.insert(to, item);
        }
    }
}

/// The category table with `name` taken out.
pub open spec fn deleted(e: Option<Map<Seq<char>, Option<Seq<Seq<char>>>>>, name: Seq<char>) -> Option<Map<Seq<char>, Option<Seq<Seq<char>>>>> {
    match e {
        Some(m) => Some(m.remove(name)),
        None => None,
    }
}

/// The category table with the entry of `from` moved to `to`, when there is one.
pub open spec fn renamed(e: Option<Map<Seq<char>, Option<Seq<Seq<char>>>>>, from: Seq<char>, to: Seq<char>) -> Option<Map<Seq<char>, Option<Seq<Seq<char>>>>> {
    match e {
        Some(m) => if m.contains_key(from) {
            Some(m.remove(from).insert(to, m[from]))
        } else {
            Some(m)
        },
        None => None,
    }
}

/// A category file's text with the category `name` taken out of the
/// `categories` table (`None` when the text is not TOML).
pub fn delete_category_text(text: &str, name: &str) -> (r: Option<String>)
    ensures
        r is None <==> toml_categories(text@) is None,
        toml_categories(text@) matches Some(before) ==> (r matches Some(out) && redrawn(
            deleted(before.0, name@),
            before.1,
            toml_categories(out@),
        )),
{
    let mut doc = match parse_document(text) {
        Ok(d) => d,
        Err(_) => {
            return None;
        },
    };
    match category_keys(&mut doc) {
        Some(_) => remove_key(&mut doc, name),
        None => {},
    }
    Some(render(&doc))
}

/// A category file's text with the category `from` renamed to `to` (`None`
/// when the text is not TOML).
pub fn rename_category_text(text: &str, from: &str, to: &str) -> (r: Option<String>)
    ensures
        r is None <==> toml_categories(text@) is None,
        toml_categories(text@) matches Some(before) ==> (r matches Some(out) && redrawn(
            renamed(before.0, from@, to@),
            before.1,
            toml_categories(out@),
        )),
{
    let mut doc = match parse_document(text) {
        Ok(d) => d,
        Err(_) => {
            return None;
        },
    };
    match category_keys(&mut doc) {
        Some(_) => {
            if holds_key(&doc, from) {
                move_key(&mut doc, from, to);
            }
        },
        None => {},
    }
    Some(render(&doc))
}

/// Every list of the table with `package` taken out.
pub open spec fn without(m: Map<Seq<char>, Option<Seq<Seq<char>>>>, package: Seq<char>) -> Map<Seq<char>, Option<Seq<Seq<char>>>> {
    m.map_values(|v: Option<Seq<Seq<char>>>| match v {
        Some(s) => Some(s.filter(not_text(package))),
        None => None,
    })
}

/// The table before the assignment's push: `package` out of every list, and
/// `categories` an empty table when there was none.
pub open spec fn cleared(e: Option<Map<Seq<char>, Option<Seq<Seq<char>>>>>, package: Seq<char>) -> Map<Seq<char>, Option<Seq<Seq<char>>>> {
    match e {
        Some(m) => without(m, package),
        None => Map::empty(),
    }
}

/// The outcome of filing `package` under `category` in a category table `e`
/// (`None`: `categories` is not a table; `has`: it holds an item): an error
/// when `categories` is not a table or the category is not a list, else the
/// table with `package` out of every list and at the end of the category's
/// list (a new, empty one when there was none).
pub open spec fn assignment(e: Option<Map<Seq<char>, Option<Seq<Seq<char>>>>>, has: bool, package: Seq<char>, category: Seq<char>) -> Result<Map<Seq<char>, Option<Seq<Seq<char>>>>, AssignError> {
    if e is None && has {
        Err(AssignError::NotATable)
    } else {
        let c = cleared(e, package);
        if c.contains_key(category) {
            match c[category] {
                Some(list) => Ok(c.insert(category, Some(list.push(package)))),
                None => Err(AssignError::NotAnArray),
            }
        } else {
            Ok(c.insert(category, Some(seq![package])))
        }
    }
}

/// `assignment` on a document's table.
pub open spec fn assigned_entries(doc: toml_edit::DocumentMut, package: Seq<char>, category: Seq<char>) -> Result<Map<Seq<char>, Option<Seq<Seq<char>>>>, AssignError> {
    assignment(category_entries(doc), has_categories(doc), package, category)
}

/// Files `package` under `category` in a parsed category file: takes it out
/// of every category's list and appends it to `category`'s, made when missing.
pub fn assign_in_document(doc: &mut toml_edit::DocumentMut, package: &str, category: &str) -> (r: Result<(), AssignError>)
    ensures
        r is Ok <==> assigned_entries(*old(doc), package@, category@) is Ok,
        r matches Err(e) ==> assigned_entries(*old(doc), package@, category@) == Err::<Map<Seq<char>, Option<Seq<Seq<char>>>>, AssignError>(e),
        r is Ok ==> category_entries(*final(doc)) == Some(assigned_entries(*old(doc), package@, category@)->Ok_0),
        r is Ok ==> has_categories(*final(doc)),
{
    let ghost d0 = *doc;
    match category_keys(doc) {
        Some(keys) => {
            let ghost m0 = category_entries(d0)->0;
            let ghost kt = texts(keys@);
            let mut i: usize = 0;
            while i < keys.len()
                invariant
                    i <= keys.len(),
                    kt == texts(keys@),
                    kt.no_duplicates(),
                    kt.to_set() == m0.dom(),
                    has_categories(*doc) == has_categories(d0),
                    category_entries(*doc) matches Some(m) && m.dom() == m0.dom() && forall|k: Seq<char>|
                        #![trigger m[k]]
                        m0.contains_key(k) ==> m[k] == if kt.subrange(0, i as int).contains(k) {
                            without(m0, package@)[k]
                        } else {
                            m0[k]
                        },
                decreases keys.len() - i,
            {
                let ghost before = category_entries(*doc)->0;
                remove_from_list(doc, keys[i].as_str(), package);
                proof {
                    let key = keys[i as int]@;
                    assert(kt[i as int] == key);
                    assert(kt.contains(key));
                    assert(m0.contains_key(key));
                    let m = category_entries(*doc)->0;
                    assert(m.dom() =~= m0.dom());
                    assert forall|k: Seq<char>| #![trigger m[k]] m0.contains_key(k) implies m[k] == if kt.subrange(0, i + 1).contains(k) {
                        without(m0, package@)[k]
                    } else {
                        m0[k]
                    } by {
                        if k == key {
                            assert(kt.subrange(0, i + 1)[i as int] == key);
                            assert(!kt.subrange(0, i as int).contains(key)) by {
                                if kt.subrange(0, i as int).contains(key) {
                                    let q = choose|q: int| 0 <= q < i && #[trigger] kt.subrange(0, i as int)[q] == key;
                                    assert(kt[q] == kt[i as int]);
                                }
                            }
                        } else {
                            if kt.subrange(0, i + 1).contains(k) {
                                let q = choose|q: int| 0 <= q < i + 1 && #[trigger] kt.subrange(0, i + 1)[q] == k;
                                assert(q < i);
                                assert(kt.subrange(0, i as int)[q] == k);
                            }
                            if kt.subrange(0, i as int).contains(k) {
                                let q = choose|q: int| 0 <= q < i && #[trigger] kt.subrange(0, i as int)[q] == k;
                                assert(kt.subrange(0, i + 1)[q] == k);
                            }
                        }
                    }
                }
                i = i + 1;
            }
            proof {
                let m = category_entries(*doc)->0;
                assert(kt.subrange(0, keys.len() as int) =~= kt);
                assert forall|k: Seq<char>| m0.contains_key(k) implies kt.contains(k) by {
                    assert(kt.to_set().contains(k));
                }
                assert(m =~= without(m0, package@));
            }
            assert(category_entries(*doc) == Some(cleared(category_entries(d0), package@)));
        },
        None => {
            assert(category_entries(*doc) is None);
        },
    }
    assert(has_categories(*doc) == has_categories(d0));
    let ghost c = cleared(category_entries(d0), package@);
    assert(category_entries(*doc) is Some ==> category_entries(*doc)->0 == c);
    if !ensure_table(doc) {
        return Err(AssignError::NotATable);
    }
    assert(category_entries(*doc) == Some(c));
    if !holds_key(doc, category) {
        add_empty_list(doc, category);
    }
    if !push_to_list(doc, category, package) {
        return Err(AssignError::NotAnArray);
    }
    proof {
        if !c.contains_key(category@) {
            assert(c.insert(category@, Some(Seq::<Seq<char>>::empty())).insert(category@, Some(Seq::<Seq<char>>::empty().push(package@)))
                =~= c.insert(category@, Some(seq![package@])));
        } else {
            assert(c.insert(category@, Some(c[category@]->0.push(package@))) == assigned_entries(d0, package@, category@)->Ok_0);
        }
    }
    Ok(())
}

/// A category file's text after filing `package` under `category`
/// (`assign_in_document` on the parsed text, then the document's text).
pub fn assign_package_text(text: &str, package: &str, category: &str) -> (r: Result<String, AssignError>)
    ensures
        r == Err::<String, AssignError>(AssignError::Parse) <==> toml_categories(text@) is None,
        toml_categories(text@) matches Some(before) ==> {
            let a = assignment(before.0, before.1, package@, category@);
            &&& (r is Ok <==> a is Ok)
            &&& (r matches Err(e) ==> a == Err::<Map<Seq<char>, Option<Seq<Seq<char>>>>, AssignError>(e))
            &&& (r matches Ok(out) ==> (toml_categories(out@) matches Some(after) && after.1
                && (after.0 matches Some(m2) && lists_kept(a->Ok_0, m2))))
        },
{
    let mut doc = match parse_document(text) {
        Ok(d) => d,
        Err(_) => {
            return Err(AssignError::Parse);
        },
    };
    let ghost before = doc;
    match assign_in_document(&mut doc, package, category) {
        Ok(()) => {
            let out = render(&doc);
            proof {
                let m = assigned_entries(before, package@, category@)->Ok_0;
                assert(m.contains_key(category@) && m[category@] is Some);
                assert(!no_lists(m));
            }
            Ok(out)
        },
        Err(e) => Err(e),
    }
}

} // verus!

verus! {

proof fn lemma_filter_drops(s: Seq<Seq<char>>, p: Seq<char>)
    ensures
        !s.filter(not_text(p)).contains(p),
{
    broadcast use vstd::seq_lib::group_filter_ensures;

    if s.filter(not_text(p)).contains(p) {
        let i = choose|i: int| 0 <= i < s.filter(not_text(p)).len() && s.filter(not_text(p))[i] == p;
        assert(not_text(p)(s.filter(not_text(p))[i]));
    }
}

/// A filed package is listed exactly once: at the end of its category's list,
/// and in no other list; and so it is in the text read back, which keeps
/// every list of the assignment (`assign_package_text`).
pub proof fn law_filed_once(e: Option<Map<Seq<char>, Option<Seq<Seq<char>>>>>, has: bool, package: Seq<char>, category: Seq<char>, other: Seq<char>, back: Map<Seq<char>, Option<Seq<Seq<char>>>>)
    requires
        assignment(e, has, package, category) is Ok,
        lists_kept(assignment(e, has, package, category)->Ok_0, back),
        other != category,
    ensures
        ({
            let m = assignment(e, has, package, category)->Ok_0;
            &&& m.contains_key(category)
            &&& m[category] matches Some(list) && list.last() == package && !list.drop_last().contains(package)
            &&& (m.contains_key(other) && m[other] is Some) ==> !m[other]->0.contains(package)
            &&& back.contains_key(category) && back[category] == m[category]
            &&& (back.contains_key(other) && back[other] is Some) ==> !back[other]->0.contains(package)
        }),
{
    let c = cleared(e, package);
    match e {
        Some(m0) => {
            if m0.contains_key(category) && m0[category] is Some {
                lemma_filter_drops(m0[category]->0, package);
            }
            if m0.contains_key(other) && m0[other] is Some {
                lemma_filter_drops(m0[other]->0, package);
            }
        },
        None => {},
    }
    let m = assignment(e, has, package, category)->Ok_0;
    if c.contains_key(category) {
        let list = c[category]->0;
        assert(m[category]->0.drop_last() =~= list);
    } else {
        assert(m[category]->0.drop_last() =~= Seq::<Seq<char>>::empty());
    }
    assert(m.contains_key(category) && m[category] is Some);
    if back.contains_key(other) {
        assert(m.contains_key(other) && back[other] == m[other]);
    }
}

/// The category table of a text read back (`None` when there is none).
pub open spec fn back_entries(back: Option<(Option<Map<Seq<char>, Option<Seq<Seq<char>>>>>, bool)>) -> Option<Map<Seq<char>, Option<Seq<Seq<char>>>>> {
    match back {
        Some(b) => b.0,
        None => None,
    }
}

/// A deleted category is not in the text read back (`delete_category_text`),
/// and every other category's list is.
pub proof fn law_deleted_gone(e: Option<Map<Seq<char>, Option<Seq<Seq<char>>>>>, has: bool, name: Seq<char>, other: Seq<char>, back: Option<(Option<Map<Seq<char>, Option<Seq<Seq<char>>>>>, bool)>)
    requires
        redrawn(deleted(e, name), has, back),
        other != name,
    ensures
        back is Some,
        back_entries(back) matches Some(m2) ==> !m2.contains_key(name),
        (e is Some && e->0.contains_key(other) && e->0[other] is Some) ==> (back_entries(back) matches Some(m2)
            && m2.contains_key(other) && m2[other] == e->0[other]),
{
    if e is Some {
        let m = e->0;
        let d = m.remove(name);
        if m.contains_key(other) && m[other] is Some {
            assert(d.contains_key(other) && d[other] is Some);
        }
    }
}

/// A renamed category's list is under its new name in the text read back
/// (`rename_category_text`), and not under the old one.
pub proof fn law_renamed_moves(e: Option<Map<Seq<char>, Option<Seq<Seq<char>>>>>, has: bool, from: Seq<char>, to: Seq<char>, back: Option<(Option<Map<Seq<char>, Option<Seq<Seq<char>>>>>, bool)>)
    requires
        e matches Some(m) && m.contains_key(from) && m[from] is Some,
        from != to,
        redrawn(renamed(e, from, to), has, back),
    ensures
        back_entries(back) matches Some(m2) && m2.contains_key(to) && m2[to] == e->0[from] && !m2.contains_key(from),
{
    let m = e->0;
    let r = m.remove(from).insert(to, m[from]);
    assert(r.contains_key(to) && r[to] is Some);
}

} // verus!

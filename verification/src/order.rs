//! Stable sorting of indices by keys made of a text and a number.
use vstd::prelude::*;
use crate::text::{text_lt, lemma_text_lt_trans, lemma_text_lt_total, lemma_text_lt_irrefl, lemma_text_lt_asym, lemma_multiset_insert};

verus! {

/// A sort key: a text, then a number, compared in that order.
pub type KeyView = (Seq<char>, int);

pub open spec fn key_lt(a: KeyView, b: KeyView) -> bool {
    text_lt(a.0, b.0) || (a.0 == b.0 && a.1 < b.1)
}

/// Item `a` comes before item `b`: by key (ascending, or descending when
/// `desc`), and by index among equal keys (which is what a stable sort of
/// items given in index order yields).
pub open spec fn before(keys: Seq<KeyView>, desc: bool, a: int, b: int) -> bool {
    if keys[a] == keys[b] {
        a < b
    } else if desc {
        key_lt(keys[b], keys[a])
    } else {
        key_lt(keys[a], keys[b])
    }
}

/// Every item comes before every later item.
pub open spec fn ordered(keys: Seq<KeyView>, desc: bool, s: Seq<usize>) -> bool {
    forall|i: int, j: int| 0 <= i < j < s.len() ==> before(keys, desc, #[trigger] s[i] as int, #[trigger] s[j] as int)
}

pub proof fn lemma_key_lt_total(a: KeyView, b: KeyView)
    ensures
        key_lt(a, b) || key_lt(b, a) || a == b,
{
    lemma_text_lt_total(a.0, b.0);
}

pub proof fn lemma_key_lt_asym(a: KeyView, b: KeyView)
    requires
        key_lt(a, b),
    ensures
        !key_lt(b, a),
{
    if text_lt(a.0, b.0) {
        lemma_text_lt_asym(a.0, b.0);
        if b.0 == a.0 {
            lemma_text_lt_irrefl(a.0);
        }
    } else {
        lemma_text_lt_irrefl(a.0);
    }
}

pub proof fn lemma_key_lt_trans(a: KeyView, b: KeyView, c: KeyView)
    requires
        key_lt(a, b),
        key_lt(b, c),
    ensures
        key_lt(a, c),
{
    if text_lt(a.0, b.0) && text_lt(b.0, c.0) {
        lemma_text_lt_trans(a.0, b.0, c.0);
    }
}

pub proof fn lemma_before_total(keys: Seq<KeyView>, desc: bool, a: int, b: int)
    requires
        a != b,
    ensures
        before(keys, desc, a, b) || before(keys, desc, b, a),
{
    lemma_key_lt_total(keys[a], keys[b]);
}

pub proof fn lemma_before_asym(keys: Seq<KeyView>, desc: bool, a: int, b: int)
    requires
        before(keys, desc, a, b),
    ensures
        !before(keys, desc, b, a),
{
    if keys[a] != keys[b] {
        if desc {
            lemma_key_lt_asym(keys[b], keys[a]);
        } else {
            lemma_key_lt_asym(keys[a], keys[b]);
        }
    }
}

pub proof fn lemma_before_trans(keys: Seq<KeyView>, desc: bool, a: int, b: int, c: int)
    requires
        before(keys, desc, a, b),
        before(keys, desc, b, c),
    ensures
        before(keys, desc, a, c),
{
    if keys[a] == keys[b] && keys[b] == keys[c] {
    } else if keys[a] == keys[b] {
    } else if keys[b] == keys[c] {
    } else if keys[a] == keys[c] {
        if desc {
            lemma_key_lt_asym(keys[b], keys[a]);
        } else {
            lemma_key_lt_asym(keys[a], keys[b]);
        }
    } else if desc {
        lemma_key_lt_trans(keys[c], keys[b], keys[a]);
    } else {
        lemma_key_lt_trans(keys[a], keys[b], keys[c]);
    }
}

pub open spec fn key_views(keys: Seq<(Vec<char>, i128)>) -> Seq<KeyView> {
    keys.map_values(|k: (Vec<char>, i128)| (k.0@, k.1 as int))
}

fn key_eq(a: &(Vec<char>, i128), b: &(Vec<char>, i128)) -> (r: bool)
    ensures
        r == ((a.0@, a.1 as int) == (b.0@, b.1 as int)),
{
    a.1 == b.1 && crate::text::vec_eq(&a.0, &b.0)
}

fn key_less(a: &(Vec<char>, i128), b: &(Vec<char>, i128)) -> (r: bool)
    ensures
        r == key_lt((a.0@, a.1 as int), (b.0@, b.1 as int)),
{
    crate::text::vec_lt(&a.0, &b.0) || (crate::text::vec_eq(&a.0, &b.0) && a.1 < b.1)
}

/// `before` on concrete keys.
pub fn comes_before(keys: &Vec<(Vec<char>, i128)>, desc: bool, a: usize, b: usize) -> (r: bool)
    requires
        a < keys.len(),
        b < keys.len(),
    ensures
        r == before(key_views(keys@), desc, a as int, b as int),
{
    let ghost kv = key_views(keys@);
    assert(kv[a as int] == (keys[a as int].0@, keys[a as int].1 as int));
    assert(kv[b as int] == (keys[b as int].0@, keys[b as int].1 as int));
    if key_eq(&keys[a], &keys[b]) {
        a < b
    } else if desc {
        key_less(&keys[b], &keys[a])
    } else {
        key_less(&keys[a], &keys[b])
    }
}

/// The items, each an index into `keys`, in the order of `before`.
pub fn sort_indices(items: &Vec<usize>, keys: &Vec<(Vec<char>, i128)>, desc: bool) -> (r: Vec<usize>)
    requires
        items@.no_duplicates(),
        forall|i: int| 0 <= i < items.len() ==> #[trigger] items[i] < keys.len(),
    ensures
        ordered(key_views(keys@), desc, r@),
        r@.to_multiset() == items@.to_multiset(),
        forall|i: int| 0 <= i < r.len() ==> #[trigger] r[i] < keys.len(),
{
    broadcast use vstd::seq_lib::group_to_multiset_ensures;
    let ghost kv = key_views(keys@);
    let mut out: Vec<usize> = Vec::new();
    let mut i: usize = 0;
    assert(items@.subrange(0, 0) =~= seq![]);
    while i < items.len()
        invariant
            i <= items.len(),
            items@.no_duplicates(),
            kv == key_views(keys@),
            forall|q: int| 0 <= q < items.len() ==> #[trigger] items[q] < keys.len(),
            forall|q: int| 0 <= q < out.len() ==> #[trigger] out[q] < keys.len(),
            ordered(kv, desc, out@),
            out@.to_multiset() == items@.subrange(0, i as int).to_multiset(),
        decreases items.len() - i,
    {
        let x = items[i];
        let ghost t = out@;
        proof {
            // x is not yet in out
            assert forall|q: int| 0 <= q < t.len() implies #[trigger] t[q] != x by {
                let m = items@.subrange(0, i as int);
                t.to_multiset_ensures();
                m.to_multiset_ensures();
                assert(t.contains(t[q]));
                assert(t.to_multiset().count(t[q]) > 0);
                assert(m.contains(t[q]));
                let p = choose|p: int| 0 <= p < m.len() && m[p] == t[q];
                assert(items[p] == m[p]);
            }
        }
        let mut k: usize = 0;
        while k < out.len() && !comes_before(keys, desc, x, out[k])
            invariant
                k <= out.len(),
                t == out@,
                x < keys.len(),
                kv == key_views(keys@),
                forall|q: int| 0 <= q < out.len() ==> #[trigger] out[q] < keys.len(),
                forall|a: int| 0 <= a < k ==> !before(kv, desc, x as int, #[trigger] t[a] as int),
            decreases out.len() - k,
        {
            k = k + 1;
        }
        out.insert(k, x);
        proof {
            let u = t.insert(k as int, x);
            assert(out@ == u);
            t.insert_ensures(k as int, x);
            assert forall|a: int, b: int| 0 <= a < b < u.len() implies before(
                kv,
                desc,
                #[trigger] u[a] as int,
                #[trigger] u[b] as int,
            ) by {
                if b < k {
                    assert(u[a] == t[a] && u[b] == t[b]);
                } else if a > k {
                    assert(u[a] == t[a - 1] && u[b] == t[b - 1]);
                } else if a == k {
                    assert(u[b] == t[b - 1]);
                    assert(before(kv, desc, x as int, t[k as int] as int));
                    if b - 1 > k {
                        assert(before(kv, desc, t[k as int] as int, t[b - 1] as int));
                        lemma_before_trans(kv, desc, x as int, t[k as int] as int, t[b - 1] as int);
                    }
                } else {
                    assert(u[a] == t[a]);
                    if b == k {
                        assert(u[b] == x);
                        assert(!before(kv, desc, x as int, t[a] as int));
                        lemma_before_total(kv, desc, x as int, t[a] as int);
                    } else {
                        assert(u[b] == t[b - 1]);
                    }
                }
            }
            assert forall|q: int| 0 <= q < out.len() implies #[trigger] out[q] < keys.len() by {
                if q < k {
                    assert(out[q] == t[q]);
                } else if q > k {
                    assert(out[q] == t[q - 1]);
                }
            }
            assert(items@.subrange(0, i + 1) =~= items@.subrange(0, i as int).push(x));
            lemma_multiset_insert(t, k as int, x);
            items@.subrange(0, i as int).to_multiset_ensures();
        }
        i = i + 1;
    }
    assert(items@.subrange(0, items.len() as int) =~= items@);
    out
}

} // verus!

verus! {

/// Sorting leaves no choice: two lists of the same items, each in the order
/// of `before`, are the same list.
pub proof fn lemma_ordered_unique(keys: Seq<KeyView>, desc: bool, s1: Seq<usize>, s2: Seq<usize>)
    requires
        ordered(keys, desc, s1),
        ordered(keys, desc, s2),
        forall|x: usize| s1.contains(x) <==> s2.contains(x),
    ensures
        s1 == s2,
    decreases s1.len(),
{
    if s1.len() == 0 {
        if s2.len() > 0 {
            assert(s2.contains(s2[0]));
        }
        assert(s1 =~= s2);
    } else if s2.len() == 0 {
        assert(s1.contains(s1[0]));
    } else {
        let a = s1[0];
        let b = s2[0];
        if a != b {
            assert(s1.contains(a));
            let j = choose|j: int| 0 <= j < s2.len() && s2[j] == a;
            assert(j > 0);
            assert(before(keys, desc, b as int, a as int));
            assert(s2.contains(b));
            let i = choose|i: int| 0 <= i < s1.len() && s1[i] == b;
            assert(i > 0);
            assert(before(keys, desc, a as int, b as int));
            lemma_before_asym(keys, desc, a as int, b as int);
        }
        let t1 = s1.drop_first();
        let t2 = s2.drop_first();
        assert forall|i: int, j: int| 0 <= i < j < t1.len() implies before(keys, desc, #[trigger] t1[i] as int, #[trigger] t1[j] as int) by {
            assert(t1[i] == s1[i + 1] && t1[j] == s1[j + 1]);
        }
        assert forall|i: int, j: int| 0 <= i < j < t2.len() implies before(keys, desc, #[trigger] t2[i] as int, #[trigger] t2[j] as int) by {
            assert(t2[i] == s2[i + 1] && t2[j] == s2[j + 1]);
        }
        assert forall|x: usize| t1.contains(x) <==> t2.contains(x) by {
            if t1.contains(x) {
                let i = choose|i: int| 0 <= i < t1.len() && t1[i] == x;
                assert(s1[i + 1] == x);
                if x == a {
                    assert(before(keys, desc, s1[0] as int, s1[i + 1] as int));
                }
                assert(s2.contains(x));
                let j = choose|j: int| 0 <= j < s2.len() && s2[j] == x;
                assert(j != 0);
                assert(t2[j - 1] == x);
            }
            if t2.contains(x) {
                let j = choose|j: int| 0 <= j < t2.len() && t2[j] == x;
                assert(s2[j + 1] == x);
                if x == b {
                    assert(before(keys, desc, s2[0] as int, s2[j + 1] as int));
                }
                assert(s1.contains(x));
                let i = choose|i: int| 0 <= i < s1.len() && s1[i] == x;
                assert(i != 0);
                assert(t1[i - 1] == x);
            }
        }
        lemma_ordered_unique(keys, desc, t1, t2);
        assert(s1 =~= seq![a] + t1);
        assert(s2 =~= seq![b] + t2);
    }
}

} // verus!

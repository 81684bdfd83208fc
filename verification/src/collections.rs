//! The insertion-ordered collections of `starlark_map`, as this library uses them.
//!
//! Each collection is opaque to Verus. Its contents are named by a spec function,
//! and every method that the library calls has a wrapper whose contract states,
//! over that name, what the method does according to `starlark_map`'s source:
//! a `SmallMap` keeps its entries in insertion order, with at most one entry per
//! key (so the entry at position `i` is the first, and only, one with its key);
//! `insert` on a present key replaces the value in place; `entry(..)` appends
//! a new entry at the end when the key is absent. A `SmallSet` is a `SmallMap`
//! to `()`.
use vstd::prelude::*;
use starlark_map::small_map::SmallMap;
use starlark_map::small_set::SmallSet;

use crate::django_index::DjangoModuleData;

verus! {

#[verifier::external_type_specification]
#[verifier::external_body]
#[verifier::reject_recursive_types(T)]
pub struct ExSmallSet<T>(SmallSet<T>);

#[verifier::external_type_specification]
#[verifier::external_body]
#[verifier::reject_recursive_types(K)]
#[verifier::reject_recursive_types(V)]
pub struct ExSmallMap<K, V>(SmallMap<K, V>);

/// `Clone` for `SmallSet`, which the library's derived `Clone` impls call.
/// Nothing is stated of the copy: it is used only where no proof depends on it.
pub assume_specification<T: Clone>[ <SmallSet<T> as Clone>::clone ](s: &SmallSet<T>) -> SmallSet<T>;

/// `Clone` for `SmallMap`, which the library's derived `Clone` impls call.
/// Nothing is stated of the copy: it is used only where no proof depends on it.
pub assume_specification<K: Clone, V: Clone>[ <SmallMap<K, V> as Clone>::clone ](m: &SmallMap<K, V>) -> SmallMap<K, V>;

// ---------------------------------------------------------------------------
// Spec helpers over the models
// ---------------------------------------------------------------------------

/// The character sequences of a sequence of strings.
pub open spec fn strings(v: Seq<String>) -> Seq<Seq<char>> {
    v.map_values(|s: String| s@)
}

/// What inserting `x` into a set with elements `s` (in order) leaves.
pub open spec fn set_insert_spec(s: Seq<Seq<char>>, x: Seq<char>) -> Seq<Seq<char>> {
    if s.contains(x) {
        s
    } else {
        s.push(x)
    }
}

/// Inserting every element of `xs`, in order, into a set with elements `s`.
pub open spec fn set_insert_all_spec(s: Seq<Seq<char>>, xs: Seq<Seq<char>>) -> Seq<Seq<char>>
    decreases xs.len(),
{
    if xs.len() == 0 {
        s
    } else {
        set_insert_spec(set_insert_all_spec(s, xs.drop_last()), xs.last())
    }
}

/// The index of the first entry with key `k`, or -1 when there is none.
pub open spec fn key_index<V>(e: Seq<(Seq<char>, V)>, k: Seq<char>) -> int
    decreases e.len(),
{
    if e.len() == 0 {
        -1
    } else {
        let j = key_index(e.drop_last(), k);
        if j >= 0 {
            j
        } else if e.last().0 == k {
            e.len() - 1
        } else {
            -1
        }
    }
}

/// The value of the first entry with key `k`.
pub open spec fn lookup<V>(e: Seq<(Seq<char>, V)>, k: Seq<char>) -> Option<V> {
    let i = key_index(e, k);
    if i >= 0 {
        Some(e[i].1)
    } else {
        None
    }
}

/// No two entries share a key.
pub open spec fn keys_distinct<V>(e: Seq<(Seq<char>, V)>) -> bool {
    forall|i: int, j: int| 0 <= i < j < e.len() ==> e[i].0 != e[j].0
}

/// `key_index` finds the first entry with the key, and only such an entry.
pub proof fn lemma_key_index<V>(e: Seq<(Seq<char>, V)>, k: Seq<char>)
    ensures
        -1 <= key_index(e, k) < e.len(),
        key_index(e, k) >= 0 ==> e[key_index(e, k)].0 == k,
        forall|j: int|
            0 <= j < e.len() && (key_index(e, k) < 0 || j < key_index(e, k)) ==> e[j].0 != k,
    decreases e.len(),
{
    if e.len() > 0 {
        lemma_key_index(e.drop_last(), k);
        assert forall|j: int|
            0 <= j < e.len() && (key_index(e, k) < 0 || j < key_index(e, k)) implies e[j].0
            != k by {
            if j < e.len() - 1 {
                assert(e.drop_last()[j] == e[j]);
            }
        }
    }
}

/// When every entry's key is first found at the entry itself, no two entries
/// share a key.
pub proof fn lemma_keys_distinct_from_indices<V>(e: Seq<(Seq<char>, V)>)
    requires
        forall|i: int| 0 <= i < e.len() ==> key_index(e, #[trigger] e[i].0) == i,
    ensures
        keys_distinct(e),
{
    assert forall|i: int, j: int| 0 <= i < j < e.len() implies e[i].0 != e[j].0 by {
        if e[i].0 == e[j].0 {
            assert(key_index(e, e[i].0) == i);
            assert(key_index(e, e[j].0) == j);
        }
    }
}

/// With distinct keys, the key of entry `i` is found at `i`.
pub proof fn lemma_key_index_distinct<V>(e: Seq<(Seq<char>, V)>, i: int)
    requires
        keys_distinct(e),
        0 <= i < e.len(),
    ensures
        key_index(e, e[i].0) == i,
{
    lemma_key_index(e, e[i].0);
}

/// Appending an entry leaves earlier keys where they were.
pub proof fn lemma_key_index_push<V>(e: Seq<(Seq<char>, V)>, x: (Seq<char>, V), k: Seq<char>)
    ensures
        key_index(e.push(x), k) == (if key_index(e, k) >= 0 {
            key_index(e, k)
        } else if x.0 == k {
            e.len() as int
        } else {
            -1
        }),
{
    assert(e.push(x).drop_last() =~= e);
}

/// Replacing the value of one entry, keeping its key, moves no key.
pub proof fn lemma_key_index_update<V>(e: Seq<(Seq<char>, V)>, i: int, v: V, k: Seq<char>)
    requires
        0 <= i < e.len(),
    ensures
        key_index(e.update(i, (e[i].0, v)), k) == key_index(e, k),
    decreases e.len(),
{
    let u = e.update(i, (e[i].0, v));
    if i == e.len() - 1 {
        assert(u.drop_last() =~= e.drop_last());
    } else {
        assert(u.drop_last() =~= e.drop_last().update(i, (e[i].0, v)));
        lemma_key_index_update(e.drop_last(), i, v, k);
    }
}

/// Entries with the same keys at the same positions have the same key indices.
pub proof fn lemma_key_index_same_keys<V, W>(a: Seq<(Seq<char>, V)>, b: Seq<(Seq<char>, W)>, k: Seq<char>)
    requires
        a.len() == b.len(),
        forall|i: int| 0 <= i < a.len() ==> a[i].0 == b[i].0,
    ensures
        key_index(a, k) == key_index(b, k),
    decreases a.len(),
{
    if a.len() > 0 {
        lemma_key_index_same_keys(a.drop_last(), b.drop_last(), k);
    }
}

/// Whether `x` is among the elements left by inserting `xs` into `s`.
pub proof fn lemma_insert_all_contains(s: Seq<Seq<char>>, xs: Seq<Seq<char>>, x: Seq<char>)
    ensures
        set_insert_all_spec(s, xs).contains(x) <==> (s.contains(x) || xs.contains(x)),
    decreases xs.len(),
{
    if xs.len() > 0 {
        lemma_insert_all_contains(s, xs.drop_last(), x);
        let r = set_insert_all_spec(s, xs.drop_last());
        if xs.drop_last().contains(x) {
            let j = choose|j: int| 0 <= j < xs.drop_last().len() && xs.drop_last()[j] == x;
            assert(xs[j] == x);
        }
        if xs.contains(x) && !xs.drop_last().contains(x) {
            let j = choose|j: int| 0 <= j < xs.len() && xs[j] == x;
            if j < xs.len() - 1 {
                assert(xs.drop_last()[j] == x);
            }
            assert(xs.last() == x);
        }
        if !r.contains(xs.last()) {
            assert(r.push(xs.last())[r.len() as int] == xs.last());
            if r.contains(x) {
                let j = choose|j: int| 0 <= j < r.len() && r[j] == x;
                assert(r.push(xs.last())[j] == x);
            }
            if r.push(xs.last()).contains(x) && x != xs.last() {
                let j = choose|j: int| 0 <= j < r.len() + 1 && r.push(xs.last())[j] == x;
                assert(r[j] == x);
            }
        }
    }
}

/// Inserting into a sequence without duplicates leaves none.
pub proof fn lemma_insert_all_no_duplicates(s: Seq<Seq<char>>, xs: Seq<Seq<char>>)
    requires
        s.no_duplicates(),
    ensures
        set_insert_all_spec(s, xs).no_duplicates(),
    decreases xs.len(),
{
    if xs.len() > 0 {
        lemma_insert_all_no_duplicates(s, xs.drop_last());
        let r = set_insert_all_spec(s, xs.drop_last());
        if !r.contains(xs.last()) {
            assert forall|i: int, j: int|
                0 <= i < r.len() + 1 && 0 <= j < r.len() + 1 && i != j implies r.push(
                xs.last(),
            )[i] != r.push(xs.last())[j] by {
                if i == r.len() {
                    assert(r[j] != xs.last());
                } else if j == r.len() {
                    assert(r[i] != xs.last());
                }
            }
        }
    }
}

// ---------------------------------------------------------------------------
// SmallSet<String>
// ---------------------------------------------------------------------------

/// The elements of a set of strings, in insertion order.
pub uninterp spec fn set_items(s: SmallSet<String>) -> Seq<Seq<char>>;

/// `SmallSet::new`: the empty set.
#[verifier::external_body]
pub(crate) fn set_new() -> (r: SmallSet<String>)
    ensures
        set_items(r) == Seq::<Seq<char>>::empty(),
{
    SmallSet::new()
}

/// `SmallSet::insert`: appends `x` unless an equal element is present, and
/// returns whether it did.
#[verifier::external_body]
pub(crate) fn set_insert(s: &mut SmallSet<String>, x: String) -> (r: bool)
    ensures
        set_items(*final(s)) == set_insert_spec(set_items(*old(s)), x@),
        r == !set_items(*old(s)).contains(x@),
{
    s.insert(x)
}

/// `SmallSet::iter`, each element cloned: the elements in order, each once.
#[verifier::external_body]
pub(crate) fn set_to_vec(s: &SmallSet<String>) -> (r: Vec<String>)
    ensures
        strings(r@) == set_items(*s),
        strings(r@).no_duplicates(),
{
    s.iter().cloned().collect()
}

/// `SmallSet::difference`, each element cloned: the elements of `a`, in `a`'s
/// order, that `b` does not contain.
#[verifier::external_body]
pub(crate) fn set_difference(a: &SmallSet<String>, b: &SmallSet<String>) -> (r: Vec<String>)
    ensures
        strings(r@) == set_items(*a).filter(|x: Seq<char>| !set_items(*b).contains(x)),
{
    a.difference(b).cloned().collect()
}

// ---------------------------------------------------------------------------
// SmallMap<String, DjangoModuleData>: module data by module path
// ---------------------------------------------------------------------------

/// The entries of a map from module path to module data, in insertion order.
pub uninterp spec fn module_entries(m: SmallMap<String, DjangoModuleData>) -> Seq<
    (Seq<char>, DjangoModuleData),
>;

/// `SmallMap::new`: the empty map.
#[verifier::external_body]
pub(crate) fn module_map_new() -> (r: SmallMap<String, DjangoModuleData>)
    ensures
        module_entries(r) == Seq::<(Seq<char>, DjangoModuleData)>::empty(),
{
    SmallMap::new()
}

/// `SmallMap::len`.
#[verifier::external_body]
pub(crate) fn module_map_len(m: &SmallMap<String, DjangoModuleData>) -> (r: usize)
    ensures
        r == module_entries(*m).len(),
{
    m.len()
}

/// `SmallMap::get_index`: the entry at position `i`.
#[verifier::external_body]
pub(crate) fn module_map_get_index(m: &SmallMap<String, DjangoModuleData>, i: usize) -> (r: (
    &String,
    &DjangoModuleData,
))
    requires
        i < module_entries(*m).len(),
    ensures
        r.0@ == module_entries(*m)[i as int].0,
        key_index(module_entries(*m), r.0@) == i,
        *r.1 == module_entries(*m)[i as int].1,
{
    m.get_index(i).unwrap()
}

/// `SmallMap::get`: the value stored under `k`.
#[verifier::external_body]
pub(crate) fn module_map_get<'a>(m: &'a SmallMap<String, DjangoModuleData>, k: &str) -> (r: Option<
    &'a DjangoModuleData,
>)
    ensures
        r is Some <==> lookup(module_entries(*m), k@) is Some,
        r matches Some(d) ==> lookup(module_entries(*m), k@) == Some(*d),
{
    m.get(k)
}

// ---------------------------------------------------------------------------
// SmallMap<String, Vec<String>>: module paths by relation target
// ---------------------------------------------------------------------------

/// The entries of a map from a name to a list of strings, in insertion order.
pub uninterp spec fn list_entries(m: SmallMap<String, Vec<String>>) -> Seq<
    (Seq<char>, Seq<Seq<char>>),
>;

/// `SmallMap::new`: the empty map.
#[verifier::external_body]
pub(crate) fn list_map_new() -> (r: SmallMap<String, Vec<String>>)
    ensures
        list_entries(r) == Seq::<(Seq<char>, Seq<Seq<char>>)>::empty(),
{
    SmallMap::new()
}

/// `SmallMap::len`.
#[verifier::external_body]
pub(crate) fn list_map_len(m: &SmallMap<String, Vec<String>>) -> (r: usize)
    ensures
        r == list_entries(*m).len(),
{
    m.len()
}

/// `SmallMap::get_index`: the entry at position `i`.
#[verifier::external_body]
pub(crate) fn list_map_get_index(m: &SmallMap<String, Vec<String>>, i: usize) -> (r: (
    &String,
    &Vec<String>,
))
    requires
        i < list_entries(*m).len(),
    ensures
        r.0@ == list_entries(*m)[i as int].0,
        key_index(list_entries(*m), r.0@) == i,
        strings(r.1@) == list_entries(*m)[i as int].1,
{
    m.get_index(i).unwrap()
}

/// `SmallMap::get`: the list stored under `k`.
#[verifier::external_body]
pub(crate) fn list_map_get<'a>(m: &'a SmallMap<String, Vec<String>>, k: &str) -> (r: Option<
    &'a Vec<String>,
>)
    ensures
        r is Some <==> lookup(list_entries(*m), k@) is Some,
        r matches Some(v) ==> lookup(list_entries(*m), k@) == Some(strings(v@)),
{
    m.get(k)
}

/// `SmallMap::insert`: replaces the value in place when `k` is present,
/// otherwise appends the entry.
#[verifier::external_body]
pub(crate) fn list_map_insert(m: &mut SmallMap<String, Vec<String>>, k: String, v: Vec<String>)
    ensures
        list_entries(*final(m)) == (if key_index(list_entries(*old(m)), k@) >= 0 {
            list_entries(*old(m)).update(key_index(list_entries(*old(m)), k@), (k@, strings(v@)))
        } else {
            list_entries(*old(m)).push((k@, strings(v@)))
        }),
{
    m.insert(k, v);
}

/// `SmallMap::entry(k).or_default().push(x)`: appends `x` to the list under
/// `k`, first appending an empty list under `k` when there is none.
#[verifier::external_body]
pub(crate) fn list_map_push(m: &mut SmallMap<String, Vec<String>>, k: String, x: String)
    ensures
        list_entries(*final(m)) == (if key_index(list_entries(*old(m)), k@) >= 0 {
            list_entries(*old(m)).update(
                key_index(list_entries(*old(m)), k@),
                (k@, list_entries(*old(m))[key_index(list_entries(*old(m)), k@)].1.push(x@)),
            )
        } else {
            list_entries(*old(m)).push((k@, seq![x@]))
        }),
{
    m.entry(k).or_default().push(x);
}

// ---------------------------------------------------------------------------
// SmallMap<String, SmallSet<String>>: readers by target name
// ---------------------------------------------------------------------------

/// The entries of a map from a name to a set of strings, in insertion order.
pub uninterp spec fn set_entries(m: SmallMap<String, SmallSet<String>>) -> Seq<
    (Seq<char>, Seq<Seq<char>>),
>;

/// `SmallMap::new`: the empty map.
#[verifier::external_body]
pub(crate) fn set_map_new() -> (r: SmallMap<String, SmallSet<String>>)
    ensures
        set_entries(r) == Seq::<(Seq<char>, Seq<Seq<char>>)>::empty(),
{
    SmallMap::new()
}

/// `SmallMap::get`: the set stored under `k`.
#[verifier::external_body]
pub(crate) fn set_map_get<'a>(m: &'a SmallMap<String, SmallSet<String>>, k: &str) -> (r: Option<
    &'a SmallSet<String>,
>)
    ensures
        r is Some <==> lookup(set_entries(*m), k@) is Some,
        r matches Some(s) ==> lookup(set_entries(*m), k@) == Some(set_items(*s)),
{
    m.get(k)
}

/// `SmallMap::into_iter`, collected: the entries in order.
#[verifier::external_body]
pub(crate) fn set_map_into_vec(m: SmallMap<String, SmallSet<String>>) -> (r: Vec<
    (String, SmallSet<String>),
>)
    ensures
        r@.len() == set_entries(m).len(),
        forall|i: int|
            0 <= i < r@.len() ==> r@[i].0@ == set_entries(m)[i].0 && set_items(r@[i].1)
                == set_entries(m)[i].1 && key_index(set_entries(m), r@[i].0@) == i,
{
    m.into_iter().collect()
}

/// `SmallMap::entry(k).or_default().insert(x)`: inserts `x` into the set under
/// `k`, first appending an empty set under `k` when there is none.
#[verifier::external_body]
pub(crate) fn set_map_insert(m: &mut SmallMap<String, SmallSet<String>>, k: String, x: String)
    ensures
        set_entries(*final(m)).len() == (if key_index(set_entries(*old(m)), k@) >= 0 {
            set_entries(*old(m)).len()
        } else {
            set_entries(*old(m)).len() + 1
        }),
        forall|j: int|
            0 <= j < set_entries(*old(m)).len() && j != key_index(set_entries(*old(m)), k@)
                ==> set_entries(*final(m))[j] == set_entries(*old(m))[j],
        key_index(set_entries(*old(m)), k@) >= 0 ==> set_entries(*final(m))[key_index(
            set_entries(*old(m)),
            k@,
        )].0 == k@ && set_entries(*final(m))[key_index(set_entries(*old(m)), k@)].1
            == set_insert_spec(set_entries(*old(m))[key_index(set_entries(*old(m)), k@)].1, x@),
        key_index(set_entries(*old(m)), k@) < 0 ==> set_entries(*final(m))[set_entries(
            *old(m),
        ).len() as int].0 == k@ && set_entries(*final(m))[set_entries(*old(m)).len() as int].1
            == seq![x@],
{
    m.entry(k).or_default().insert(x);
}

/// `SmallMap::entry(k).or_default().extend(xs)`: inserts every element of `xs`,
/// in order, into the set under `k`, first appending an empty set under `k`
/// when there is none.
#[verifier::external_body]
pub(crate) fn set_map_extend(m: &mut SmallMap<String, SmallSet<String>>, k: String, xs: SmallSet<String>)
    ensures
        set_entries(*final(m)).len() == (if key_index(set_entries(*old(m)), k@) >= 0 {
            set_entries(*old(m)).len()
        } else {
            set_entries(*old(m)).len() + 1
        }),
        forall|j: int|
            0 <= j < set_entries(*old(m)).len() && j != key_index(set_entries(*old(m)), k@)
                ==> set_entries(*final(m))[j] == set_entries(*old(m))[j],
        key_index(set_entries(*old(m)), k@) >= 0 ==> set_entries(*final(m))[key_index(
            set_entries(*old(m)),
            k@,
        )].0 == k@ && set_entries(*final(m))[key_index(set_entries(*old(m)), k@)].1
            == set_insert_all_spec(
            set_entries(*old(m))[key_index(set_entries(*old(m)), k@)].1,
            set_items(xs),
        ),
        key_index(set_entries(*old(m)), k@) < 0 ==> set_entries(*final(m))[set_entries(
            *old(m),
        ).len() as int].0 == k@ && set_entries(*final(m))[set_entries(*old(m)).len() as int].1
            == set_insert_all_spec(Seq::empty(), set_items(xs)),
{
    m.entry(k).or_default().extend(xs);
}

} // verus!

//! The registry of compartments: each compartment mesh file found in the
//! model's `compartments` directory is registered under its file stem, in
//! an `IndexMap` that keeps the order in which names were first seen.
use indexmap::IndexMap;
use vstd::prelude::*;

verus! {

#[verifier::external_type_specification]
#[verifier::external_body]
#[verifier::reject_recursive_types(K)]
#[verifier::reject_recursive_types(V)]
#[verifier::reject_recursive_types(S)]
pub struct ExIndexMap<K, V, S>(IndexMap<K, V, S>);

/// What a registry holds: its entries in the map's order, each a name (as
/// characters) and the position of the file registered under it.
pub uninterp spec fn registry_entries(m: IndexMap<String, usize>) -> Seq<(Seq<char>, usize)>;

/// `IndexMap::new`: a map with no entries.
#[verifier::external_body]
pub(crate) fn registry_new() -> (m: IndexMap<String, usize>)
    ensures
        registry_entries(m) == Seq::<(Seq<char>, usize)>::empty(),
{
    IndexMap::new()
}

/// `IndexMap::insert`: where an entry with an equal key exists, its value is
/// replaced in place and the old value is returned; otherwise the entry is
/// appended last and `None` is returned.
#[verifier::external_body]
pub(crate) fn registry_insert(m: &mut IndexMap<String, usize>, key: String, value: usize) -> (prev:
    Option<usize>)
    ensures
        match prev {
            Some(p) => exists|i: int|
                0 <= i < registry_entries(*old(m)).len() && registry_entries(*old(m))[i].0 == key@
                    && registry_entries(*old(m))[i].1 == p && registry_entries(*final(m))
                    == registry_entries(*old(m)).update(i, (key@, value)),
            None => (forall|i: int|
                0 <= i < registry_entries(*old(m)).len() ==> registry_entries(*old(m))[i].0
                    != key@) && registry_entries(*final(m)) == registry_entries(*old(m)).push(
                (key@, value),
            ),
        },
{
    m.insert(key, value)
}

/// `IndexMap::len`: the number of entries.
#[verifier::external_body]
pub(crate) fn registry_len(m: &IndexMap<String, usize>) -> (n: usize)
    ensures
        n == registry_entries(*m).len(),
{
    m.len()
}

/// `IndexMap::get_index`: the entry at position `i` in the map's order, or
/// `None` past the end.
#[verifier::external_body]
pub(crate) fn registry_get_index(m: &IndexMap<String, usize>, i: usize) -> (e: Option<
    (&String, &usize),
>)
    ensures
        match e {
            Some((k, v)) => i < registry_entries(*m).len() && k@ == registry_entries(*m)[i as int].0
                && *v == registry_entries(*m)[i as int].1,
            None => i >= registry_entries(*m).len(),
        },
{
    m.get_index(i)
}

/// No two entries share a name.
pub open spec fn distinct_names(e: Seq<(Seq<char>, usize)>) -> bool {
    forall|i: int, j: int| 0 <= i < j < e.len() ==> #[trigger] e[i].0 != #[trigger] e[j].0
}

/// Registers `value` under `key`: an entry with that name gets the new value
/// in place; a new name is appended.
pub open spec fn entry_insert(e: Seq<(Seq<char>, usize)>, key: Seq<char>, value: usize) -> Seq<
    (Seq<char>, usize),
> {
    if exists|i: int| 0 <= i < e.len() && e[i].0 == key {
        let i = choose|i: int| 0 <= i < e.len() && e[i].0 == key;
        e.update(i, (key, value))
    } else {
        e.push((key, value))
    }
}

/// The stems of the directory entries as characters (`None` for an entry
/// without a file name).
pub open spec fn stem_views(stems: Seq<Option<String>>) -> Seq<Option<Seq<char>>> {
    Seq::new(
        stems.len(),
        |i: int|
            match stems[i] {
                Some(s) => Some(s@),
                None => None,
            },
    )
}

/// The registry after going through `stems` in order, registering entry
/// `i` under its stem.
pub open spec fn registry_spec(stems: Seq<Option<Seq<char>>>) -> Seq<(Seq<char>, usize)>
    decreases stems.len(),
{
    if stems.len() == 0 {
        Seq::empty()
    } else {
        let prev = registry_spec(stems.drop_last());
        match stems.last() {
            Some(name) => entry_insert(prev, name, (stems.len() - 1) as usize),
            None => prev,
        }
    }
}


/// Every stem is registered.
#[verifier::opaque]
pub open spec fn registers_every_stem(stems: Seq<Option<Seq<char>>>, r: Seq<(Seq<char>, usize)>) -> bool {
    forall|j: int|
        0 <= j < stems.len() && #[trigger] stems[j] is Some ==> exists|k: int|
            0 <= k < r.len() && r[k].0 == stems[j]->0
}

/// Each entry keeps the position of the last directory entry with its stem.
#[verifier::opaque]
pub open spec fn keeps_last_position(stems: Seq<Option<Seq<char>>>, r: Seq<(Seq<char>, usize)>) -> bool {
    forall|k: int|
        0 <= k < r.len() ==> {
            &&& (#[trigger] r[k]).1 < stems.len()
            &&& stems[r[k].1 as int] == Some(r[k].0)
            &&& forall|j: int| r[k].1 < j < stems.len() ==> stems[j] != Some(r[k].0)
        }
}

/// The position of the first directory entry with stem `name`, or the
/// length of the listing where there is none.
pub open spec fn first_index(stems: Seq<Option<Seq<char>>>, name: Seq<char>) -> int
    decreases stems.len(),
{
    if stems.len() == 0 {
        0
    } else {
        let f = first_index(stems.drop_last(), name);
        if f < stems.len() - 1 {
            f
        } else if stems.last() == Some(name) {
            stems.len() - 1
        } else {
            stems.len() as int
        }
    }
}

/// Names come in the order in which they were first seen in the listing.
pub open spec fn first_seen_order(stems: Seq<Option<Seq<char>>>, r: Seq<(Seq<char>, usize)>) -> bool {
    forall|k1: int, k2: int|
        0 <= k1 < k2 < r.len() ==> first_index(stems, #[trigger] r[k1].0) < first_index(
            stems,
            #[trigger] r[k2].0,
        )
}

/// The registry holds each stem once, under the position of the last
/// directory entry with that stem, and its names come in the order in
/// which they were first met in the directory listing.
pub proof fn lemma_registry_shape(stems: Seq<Option<Seq<char>>>)
    requires
        stems.len() <= usize::MAX,
    ensures
        distinct_names(registry_spec(stems)),
        registers_every_stem(stems, registry_spec(stems)),
        keeps_last_position(stems, registry_spec(stems)),
        first_seen_order(stems, registry_spec(stems)),
    decreases stems.len(),
{
    if stems.len() == 0 {
        reveal(registers_every_stem);
        reveal(keeps_last_position);
        return;
    }
    let s = stems.drop_last();
    let n = s.len();
    lemma_registry_shape(s);
    let p = registry_spec(s);
    assert(stems == s.push(stems.last()));
    match stems.last() {
        None => {
            lemma_shape_skip(s, p);
        },
        Some(name) => {
            lemma_entry_insert_distinct(p, name, n as usize);
            if exists|i: int| 0 <= i < p.len() && p[i].0 == name {
                let c = choose|i: int| 0 <= i < p.len() && p[i].0 == name;
                lemma_shape_update(s, p, name, c);
            } else {
                lemma_shape_append(s, p, name);
            }
        },
    }
}

proof fn lemma_first_index_at_most(stems: Seq<Option<Seq<char>>>, name: Seq<char>, j: int)
    requires
        0 <= j < stems.len(),
        stems[j] == Some(name),
    ensures
        first_index(stems, name) <= j,
    decreases stems.len(),
{
    if j < stems.len() - 1 {
        let s = stems.drop_last();
        assert(s[j] == stems[j]);
        lemma_first_index_at_most(s, name, j);
    }
}

proof fn lemma_first_index_absent(stems: Seq<Option<Seq<char>>>, name: Seq<char>)
    requires
        forall|j: int| 0 <= j < stems.len() ==> stems[j] != Some(name),
    ensures
        first_index(stems, name) == stems.len(),
    decreases stems.len(),
{
    if stems.len() > 0 {
        let s = stems.drop_last();
        assert forall|j: int| 0 <= j < s.len() implies s[j] != Some(name) by {
            assert(s[j] == stems[j]);
        }
        lemma_first_index_absent(s, name);
    }
}

proof fn lemma_first_index_push(s: Seq<Option<Seq<char>>>, x: Option<Seq<char>>, name: Seq<char>)
    ensures
        first_index(s, name) < s.len() ==> first_index(s.push(x), name) == first_index(s, name),
        first_index(s, name) >= s.len() && x == Some(name) ==> first_index(s.push(x), name)
            == s.len(),
{
    assert(s.push(x).drop_last() == s);
}

proof fn lemma_shape_skip(s: Seq<Option<Seq<char>>>, p: Seq<(Seq<char>, usize)>)
    requires
        registers_every_stem(s, p),
        keeps_last_position(s, p),
        first_seen_order(s, p),
    ensures
        registers_every_stem(s.push(None), p),
        keeps_last_position(s.push(None), p),
        first_seen_order(s.push(None), p),
{
    let t = s.push(None);
    assert(registers_every_stem(t, p)) by {
        reveal(registers_every_stem);
        assert forall|j: int| 0 <= j < t.len() && #[trigger] t[j] is Some implies exists|k: int|
            0 <= k < p.len() && p[k].0 == t[j]->0 by {
            assert(s[j] is Some);
        }
    }
    assert(keeps_last_position(t, p)) by {
        reveal(keeps_last_position);
        assert forall|k: int| 0 <= k < p.len() implies {
            &&& (#[trigger] p[k]).1 < t.len()
            &&& t[p[k].1 as int] == Some(p[k].0)
            &&& forall|j: int| p[k].1 < j < t.len() ==> t[j] != Some(p[k].0)
        } by {
            assert(p[k].1 < s.len());
            assert(t[p[k].1 as int] == s[p[k].1 as int]);
            assert forall|j: int| p[k].1 < j < t.len() implies t[j] != Some(p[k].0) by {
                if j < s.len() {
                    assert(t[j] == s[j]);
                }
            }
        }
    }
    assert forall|k1: int, k2: int| 0 <= k1 < k2 < p.len() implies first_index(
        t,
        #[trigger] p[k1].0,
    ) < first_index(t, #[trigger] p[k2].0) by {
        reveal(keeps_last_position);
        lemma_first_index_at_most(s, p[k1].0, p[k1].1 as int);
        lemma_first_index_at_most(s, p[k2].0, p[k2].1 as int);
        lemma_first_index_push(s, None, p[k1].0);
        lemma_first_index_push(s, None, p[k2].0);
    }
}

proof fn lemma_shape_update(
    s: Seq<Option<Seq<char>>>,
    p: Seq<(Seq<char>, usize)>,
    name: Seq<char>,
    c: int,
)
    requires
        0 <= c < p.len(),
        p[c].0 == name,
        s.len() < usize::MAX,
        distinct_names(p),
        registers_every_stem(s, p),
        keeps_last_position(s, p),
        first_seen_order(s, p),
    ensures
        registers_every_stem(s.push(Some(name)), p.update(c, (name, s.len() as usize))),
        keeps_last_position(s.push(Some(name)), p.update(c, (name, s.len() as usize))),
        first_seen_order(s.push(Some(name)), p.update(c, (name, s.len() as usize))),
{
    let t = s.push(Some(name));
    let n = s.len();
    let r = p.update(c, (name, n as usize));
    assert(forall|k: int| 0 <= k < r.len() ==> #[trigger] r[k].0 == p[k].0);
    assert(registers_every_stem(t, r)) by {
        reveal(registers_every_stem);
        assert forall|j: int| 0 <= j < t.len() && #[trigger] t[j] is Some implies exists|k: int|
            0 <= k < r.len() && r[k].0 == t[j]->0 by {
            if j < n {
                assert(s[j] is Some);
                let k = choose|k: int| 0 <= k < p.len() && p[k].0 == s[j]->0;
                assert(r[k].0 == t[j]->0);
            } else {
                assert(r[c].0 == t[j]->0);
            }
        }
    }
    assert(keeps_last_position(t, r)) by {
        reveal(keeps_last_position);
        assert forall|k: int| 0 <= k < r.len() implies {
            &&& (#[trigger] r[k]).1 < t.len()
            &&& t[r[k].1 as int] == Some(r[k].0)
            &&& forall|j: int| r[k].1 < j < t.len() ==> t[j] != Some(r[k].0)
        } by {
            if k != c {
                assert(r[k] == p[k]);
                if k < c {
                    assert(p[k].0 != p[c].0);
                } else {
                    assert(p[c].0 != p[k].0);
                }
                assert(p[k].1 < n);
                assert(t[p[k].1 as int] == s[p[k].1 as int]);
                assert forall|j: int| r[k].1 < j < t.len() implies t[j] != Some(r[k].0) by {
                    if j < n {
                        assert(t[j] == s[j]);
                    }
                }
            }
        }
    }
    assert forall|k1: int, k2: int| 0 <= k1 < k2 < r.len() implies first_index(
        t,
        #[trigger] r[k1].0,
    ) < first_index(t, #[trigger] r[k2].0) by {
        reveal(keeps_last_position);
        assert(r[k1].0 == p[k1].0);
        assert(r[k2].0 == p[k2].0);
        lemma_first_index_at_most(s, p[k1].0, p[k1].1 as int);
        lemma_first_index_at_most(s, p[k2].0, p[k2].1 as int);
        lemma_first_index_push(s, Some(name), p[k1].0);
        lemma_first_index_push(s, Some(name), p[k2].0);
    }
}

proof fn lemma_shape_append(s: Seq<Option<Seq<char>>>, p: Seq<(Seq<char>, usize)>, name: Seq<char>)
    requires
        forall|i: int| 0 <= i < p.len() ==> p[i].0 != name,
        s.len() < usize::MAX,
        registers_every_stem(s, p),
        keeps_last_position(s, p),
        first_seen_order(s, p),
    ensures
        registers_every_stem(s.push(Some(name)), p.push((name, s.len() as usize))),
        keeps_last_position(s.push(Some(name)), p.push((name, s.len() as usize))),
        first_seen_order(s.push(Some(name)), p.push((name, s.len() as usize))),
{
    let t = s.push(Some(name));
    let n = s.len();
    let r = p.push((name, n as usize));
    assert forall|j: int| 0 <= j < n implies s[j] != Some(name) by {
        reveal(registers_every_stem);
        if s[j] == Some(name) {
            assert(s[j] is Some);
            let k = choose|k: int| 0 <= k < p.len() && p[k].0 == s[j]->0;
            assert(p[k].0 != name);
        }
    }
    assert(registers_every_stem(t, r)) by {
        reveal(registers_every_stem);
        assert forall|j: int| 0 <= j < t.len() && #[trigger] t[j] is Some implies exists|k: int|
            0 <= k < r.len() && r[k].0 == t[j]->0 by {
            if j < n {
                assert(s[j] is Some);
                let k = choose|k: int| 0 <= k < p.len() && p[k].0 == s[j]->0;
                assert(r[k].0 == t[j]->0);
            } else {
                assert(r[p.len() as int].0 == t[j]->0);
            }
        }
    }
    assert(keeps_last_position(t, r)) by {
        reveal(keeps_last_position);
        assert forall|k: int| 0 <= k < r.len() implies {
            &&& (#[trigger] r[k]).1 < t.len()
            &&& t[r[k].1 as int] == Some(r[k].0)
            &&& forall|j: int| r[k].1 < j < t.len() ==> t[j] != Some(r[k].0)
        } by {
            if k < p.len() {
                assert(r[k] == p[k]);
                assert(p[k].1 < n);
                assert(t[p[k].1 as int] == s[p[k].1 as int]);
                assert forall|j: int| r[k].1 < j < t.len() implies t[j] != Some(r[k].0) by {
                    if j < n {
                        assert(t[j] == s[j]);
                    }
                }
            }
        }
    }
    lemma_first_index_absent(s, name);
    lemma_first_index_push(s, Some(name), name);
    assert forall|k1: int, k2: int| 0 <= k1 < k2 < r.len() implies first_index(
        t,
        #[trigger] r[k1].0,
    ) < first_index(t, #[trigger] r[k2].0) by {
        reveal(keeps_last_position);
        assert(r[k1] == p[k1]);
        lemma_first_index_at_most(s, p[k1].0, p[k1].1 as int);
        lemma_first_index_push(s, Some(name), p[k1].0);
        if k2 < p.len() {
            assert(r[k2] == p[k2]);
            lemma_first_index_at_most(s, p[k2].0, p[k2].1 as int);
            lemma_first_index_push(s, Some(name), p[k2].0);
        }
    }
}

proof fn lemma_entry_insert_distinct(e: Seq<(Seq<char>, usize)>, key: Seq<char>, value: usize)
    requires
        distinct_names(e),
    ensures
        distinct_names(entry_insert(e, key, value)),
{
    let r = entry_insert(e, key, value);
    if exists|i: int| 0 <= i < e.len() && e[i].0 == key {
        let k = choose|i: int| 0 <= i < e.len() && e[i].0 == key;
        assert forall|i: int, j: int| 0 <= i < j < r.len() implies #[trigger] r[i].0 != #[trigger] r[j].0 by {
            assert(e[i].0 != e[j].0);
            if i == k {
                assert(r[i].0 == e[k].0);
            }
            if j == k {
                assert(r[j].0 == e[k].0);
            }
        }
    } else {
        assert forall|i: int, j: int| 0 <= i < j < r.len() implies #[trigger] r[i].0 != #[trigger] r[j].0 by {
            if j < e.len() {
                assert(e[i].0 != e[j].0);
            }
        }
    }
}

/// Registers each directory entry that has a stem under that stem, with its
/// position in `stems` as value, in the order of `stems`: a name keeps the
/// place where it was first seen and the position of the last entry with
/// that stem.
pub fn register_compartments(stems: &Vec<Option<String>>) -> (m: IndexMap<String, usize>)
    ensures
        registry_entries(m) == registry_spec(stem_views(stems@)),
        distinct_names(registry_entries(m)),
{
    let mut m = registry_new();
    let mut i: usize = 0;
    let ghost all = stem_views(stems@);
    assert(all.take(0) =~= Seq::<Option<Seq<char>>>::empty());
    while i < stems.len()
        invariant
            i <= stems.len(),
            all == stem_views(stems@),
            registry_entries(m) == registry_spec(all.take(i as int)),
            distinct_names(registry_entries(m)),
        decreases stems.len() - i,
    {
        let ghost before = registry_entries(m);
        assert(all.take(i + 1).drop_last() =~= all.take(i as int));
        match &stems[i] {
            Some(name) => {
                proof {
                    lemma_entry_insert_distinct(before, name@, i);
                }
                let prev = registry_insert(&mut m, name.clone(), i);
                proof {
                    let after = registry_entries(m);
                    match prev {
                        Some(p) => {
                            let k = choose|k: int|
                                0 <= k < before.len() && before[k].0 == name@ && before[k].1 == p
                                    && after == before.update(k, (name@, i));
                            let c = choose|c: int| 0 <= c < before.len() && before[c].0 == name@;
                            assert(c == k) by {
                                if c < k {
                                    assert(before[c].0 != before[k].0);
                                } else if k < c {
                                    assert(before[k].0 != before[c].0);
                                }
                            }
                            assert(after == entry_insert(before, name@, i));
                        },
                        None => {
                            assert(after == entry_insert(before, name@, i));
                        },
                    }
                }
            },
            None => {},
        }
        i += 1;
    }
    assert(all.take(stems.len() as int) =~= all);
    m
}

} // verus!

//! Tables keyed by the numbers of device and transfer identifiers.

use std::collections::BTreeMap;
use vstd::prelude::*;
use vstd::std_specs::cmp::OrdSpec;

verus! {

broadcast use vstd::laws_cmp::group_laws_cmp;

/// The keys of a table, each once and in ascending order.
pub open spec fn keys_of<V>(m: Map<u64, V>, ks: Seq<u64>) -> bool {
    &&& forall|i: int, j: int| 0 <= i < j < ks.len() ==> #[trigger] ks[i] < #[trigger] ks[j]
    &&& forall|k: u64| #[trigger] m.contains_key(k) <==> ks.contains(k)
    &&& ks.len() == m.len()
}

/// See [`keys_of`].
pub fn keys<V>(m: &BTreeMap<u64, V>) -> (r: Vec<u64>)
    ensures
        keys_of(m@, r@),
{
    let mut r: Vec<u64> = Vec::new();
    for kv in it: m.iter()
        invariant
            it.seq().len() == m@.dom().len(),
            r@.len() == it.index(),
            forall|i: int| 0 <= i < it.index() ==> #[trigger] r@[i] == *it.seq()[i].0,
            forall|i: int, j: int|
                0 <= i < j < r@.len() ==> #[trigger] r@[i] < #[trigger] r@[j],
            vstd::std_specs::btree::increasing_seq(it.seq().map_values(|kv: (&u64, &V)| *kv.0)),
            forall|i: int|
                0 <= i < it.seq().len() ==> m@.contains_key(*(#[trigger] it.seq()[i]).0),
            forall|k: u64| #[trigger] m@.contains_key(k) ==> it.seq().contains((&k, &m@[k])),
            forall|i: int| 0 <= i < r@.len() ==> m@.contains_key(#[trigger] r@[i]),
            it.index() == it.seq().len() ==> forall|k: u64| #[trigger]
                m@.contains_key(k) ==> r@.contains(k),
    {
        proof {
            let s = it.seq().map_values(|kv: (&u64, &V)| *kv.0);
            vstd::std_specs::btree::axiom_increasing_seq_meaning(s);
            assert forall|i: int| 0 <= i < r@.len() implies #[trigger] r@[i] < *kv.0 by {
                assert(s[i] == r@[i]);
                assert(s[it.index()] == *kv.0);
                assert(s[i].cmp_spec(&s[it.index()]) is Less);
            }
        }
        r.push(*kv.0);
        proof {
            assert forall|k: u64|
                it.index() + 1 == it.seq().len() && #[trigger] m@.contains_key(
                    k,
                ) implies r@.contains(k) by {
                let i = choose|i: int| 0 <= i < it.seq().len() && it.seq()[i] == (&k, &m@[k]);
                assert(r@[i] == k);
            }
        }
    }
    r
}

/// The keys of a table stand in one order only.
pub proof fn lemma_keys_unique<V>(m: Map<u64, V>, a: Seq<u64>, b: Seq<u64>)
    requires
        m.dom().finite(),
        keys_of(m, a),
        keys_of(m, b),
    ensures
        a == b,
    decreases a.len(),
{
    if a.len() > 0 {
        let x = a.last();
        let y = b.last();
        assert(a.contains(x));
        assert(b.contains(y));
        assert(m.contains_key(x) && m.contains_key(y));
        let i = choose|i: int| 0 <= i < b.len() && b[i] == x;
        let j = choose|j: int| 0 <= j < a.len() && a[j] == y;
        assert(x == y) by {
            if i < b.len() - 1 {
                assert(b[i] < b[b.len() - 1]);
            }
            if j < a.len() - 1 {
                assert(a[j] < a[a.len() - 1]);
            }
        }
        lemma_keys_rest(m, a);
        lemma_keys_rest(m, b);
        lemma_keys_unique(m.remove(x), a.drop_last(), b.drop_last());
        assert(a =~= a.drop_last().push(x));
        assert(b =~= b.drop_last().push(x));
    } else {
        assert(a =~= b);
    }
}

proof fn lemma_keys_rest<V>(m: Map<u64, V>, a: Seq<u64>)
    requires
        m.dom().finite(),
        keys_of(m, a),
        a.len() > 0,
    ensures
        keys_of(m.remove(a.last()), a.drop_last()),
{
    let x = a.last();
    let rest = m.remove(x);
    assert(a.contains(x));
    assert forall|k: u64| #[trigger] rest.contains_key(k) <==> a.drop_last().contains(k) by {
        if rest.contains_key(k) {
            assert(m.contains_key(k));
            let i = choose|i: int| 0 <= i < a.len() && a[i] == k;
            assert(a.drop_last()[i] == k);
        }
        if a.drop_last().contains(k) {
            let i = choose|i: int| 0 <= i < a.len() - 1 && a.drop_last()[i] == k;
            assert(a[i] < a[a.len() - 1]);
            assert(a.contains(k));
        }
    }
    assert(m.contains_key(x));
    m.lemma_remove_key_len(x);
}

/// The keys of a table, each once and in ascending order.
pub open spec fn wide_keys_of<V>(m: Map<u128, V>, ks: Seq<u128>) -> bool {
    &&& forall|i: int, j: int| 0 <= i < j < ks.len() ==> #[trigger] ks[i] < #[trigger] ks[j]
    &&& forall|k: u128| #[trigger] m.contains_key(k) <==> ks.contains(k)
    &&& ks.len() == m.len()
}

/// See [`wide_keys_of`].
pub fn wide_keys<V>(m: &BTreeMap<u128, V>) -> (r: Vec<u128>)
    ensures
        wide_keys_of(m@, r@),
{
    let mut r: Vec<u128> = Vec::new();
    for kv in it: m.iter()
        invariant
            it.seq().len() == m@.dom().len(),
            r@.len() == it.index(),
            forall|i: int| 0 <= i < it.index() ==> #[trigger] r@[i] == *it.seq()[i].0,
            forall|i: int, j: int|
                0 <= i < j < r@.len() ==> #[trigger] r@[i] < #[trigger] r@[j],
            vstd::std_specs::btree::increasing_seq(it.seq().map_values(|kv: (&u128, &V)| *kv.0)),
            forall|i: int|
                0 <= i < it.seq().len() ==> m@.contains_key(*(#[trigger] it.seq()[i]).0),
            forall|k: u128| #[trigger] m@.contains_key(k) ==> it.seq().contains((&k, &m@[k])),
            forall|i: int| 0 <= i < r@.len() ==> m@.contains_key(#[trigger] r@[i]),
            it.index() == it.seq().len() ==> forall|k: u128| #[trigger]
                m@.contains_key(k) ==> r@.contains(k),
    {
        proof {
            let s = it.seq().map_values(|kv: (&u128, &V)| *kv.0);
            vstd::std_specs::btree::axiom_increasing_seq_meaning(s);
            assert forall|i: int| 0 <= i < r@.len() implies #[trigger] r@[i] < *kv.0 by {
                assert(s[i] == r@[i]);
                assert(s[it.index()] == *kv.0);
                assert(s[i].cmp_spec(&s[it.index()]) is Less);
            }
        }
        r.push(*kv.0);
        proof {
            assert forall|k: u128|
                it.index() + 1 == it.seq().len() && #[trigger] m@.contains_key(
                    k,
                ) implies r@.contains(k) by {
                let i = choose|i: int| 0 <= i < it.seq().len() && it.seq()[i] == (&k, &m@[k]);
                assert(r@[i] == k);
            }
        }
    }
    r
}

} // verus!

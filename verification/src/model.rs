//! The mathematical model of the store: an ordered sequence of records with
//! pairwise distinct keys, and the finite map that such a sequence denotes.

use vstd::prelude::*;

verus! {

/// What an entry denotes: its value and its time-to-live.
pub type EntryModel = (Seq<char>, Option<u64>);

/// A key together with what is stored under it.
pub type Record = (Seq<char>, EntryModel);

/// The key of each record, in order.
pub open spec fn keys_of(rs: Seq<Record>) -> Seq<Seq<char>> {
    Seq::new(rs.len(), |i: int| rs[i].0)
}

/// Whether some record of `rs` has the key `k`.
pub open spec fn has_key(rs: Seq<Record>, k: Seq<char>) -> bool {
    exists|i: int| 0 <= i < rs.len() && (#[trigger] rs[i]).0 == k
}

/// A position at which `rs` holds the key `k`, where there is one.
pub open spec fn index_of(rs: Seq<Record>, k: Seq<char>) -> int {
    choose|i: int| 0 <= i < rs.len() && (#[trigger] rs[i]).0 == k
}

/// No key occurs in two records.
pub open spec fn distinct_keys(rs: Seq<Record>) -> bool {
    forall|i: int, j: int|
        0 <= i < j < rs.len() ==> (#[trigger] rs[i]).0 != (#[trigger] rs[j]).0
}

/// What is stored under `k`, if anything.
pub open spec fn lookup(rs: Seq<Record>, k: Seq<char>) -> Option<EntryModel> {
    if has_key(rs, k) {
        Some(rs[index_of(rs, k)].1)
    } else {
        None
    }
}

/// Stores `e` under `k`: an existing record keeps its place, a new one goes
/// to the end.
pub open spec fn put(rs: Seq<Record>, k: Seq<char>, e: EntryModel) -> Seq<Record> {
    if has_key(rs, k) {
        rs.update(index_of(rs, k), (k, e))
    } else {
        rs.push((k, e))
    }
}

/// Drops the record with key `k`, if there is one.
pub open spec fn without(rs: Seq<Record>, k: Seq<char>) -> Seq<Record> {
    if has_key(rs, k) {
        rs.remove(index_of(rs, k))
    } else {
        rs
    }
}

/// The records obtained by storing each pair of `ps` in turn, starting from
/// nothing. Of two pairs with the same key the later one decides the value.
pub open spec fn from_pairs(ps: Seq<Record>) -> Seq<Record>
    decreases ps.len(),
{
    if ps.len() == 0 {
        Seq::empty()
    } else {
        put(from_pairs(ps.drop_last()), ps.last().0, ps.last().1)
    }
}

/// The finite map that the records denote.
pub open spec fn map_of(rs: Seq<Record>) -> Map<Seq<char>, EntryModel> {
    Map::new(|k: Seq<char>| has_key(rs, k), |k: Seq<char>| rs[index_of(rs, k)].1)
}

/// With distinct keys, a key is found at one position only.
pub proof fn lemma_index_unique(rs: Seq<Record>, k: Seq<char>, i: int)
    requires
        distinct_keys(rs),
        0 <= i < rs.len(),
        rs[i].0 == k,
    ensures
        has_key(rs, k),
        index_of(rs, k) == i,
{
    let j = index_of(rs, k);
    assert(0 <= j < rs.len() && rs[j].0 == k);
    if j < i {
        assert(rs[j].0 != rs[i].0);
    } else if i < j {
        assert(rs[i].0 != rs[j].0);
    }
}

/// Storing under a key keeps the keys distinct and acts on the denoted map
/// as an insertion.
pub proof fn lemma_put(rs: Seq<Record>, k: Seq<char>, e: EntryModel)
    requires
        distinct_keys(rs),
    ensures
        distinct_keys(put(rs, k, e)),
        map_of(put(rs, k, e)) == map_of(rs).insert(k, e),
        lookup(put(rs, k, e), k) == Some(e),
        has_key(rs, k) ==> put(rs, k, e).len() == rs.len(),
        !has_key(rs, k) ==> put(rs, k, e).len() == rs.len() + 1,
{
    let out = put(rs, k, e);
    if has_key(rs, k) {
        let i = index_of(rs, k);
        assert(0 <= i < rs.len() && rs[i].0 == k);
        assert forall|a: int, b: int| 0 <= a < b < out.len() implies (#[trigger] out[a]).0 != (
        #[trigger] out[b]).0 by {
            assert(out[a].0 == rs[a].0 && out[b].0 == rs[b].0);
        }
        lemma_index_unique(out, k, i);
        assert forall|q: Seq<char>| has_key(out, q) == has_key(rs, q) by {
            if has_key(rs, q) {
                let j = index_of(rs, q);
                assert(out[j].0 == q);
            }
            if has_key(out, q) {
                let j = index_of(out, q);
                assert(rs[j].0 == q);
            }
        }
        assert forall|q: Seq<char>| has_key(rs, q) && q != k implies out[index_of(out, q)].1
            == rs[index_of(rs, q)].1 by {
            let j = index_of(rs, q);
            assert(out[j].0 == q);
            lemma_index_unique(out, q, j);
        }
    } else {
        let n = rs.len() as int;
        assert forall|a: int, b: int| 0 <= a < b < out.len() implies (#[trigger] out[a]).0 != (
        #[trigger] out[b]).0 by {
            if b == n {
                assert(out[a] == rs[a]);
            } else {
                assert(out[a] == rs[a] && out[b] == rs[b]);
            }
        }
        assert(out[n].0 == k);
        lemma_index_unique(out, k, n);
        assert forall|q: Seq<char>| has_key(out, q) == (has_key(rs, q) || q == k) by {
            if has_key(rs, q) {
                let j = index_of(rs, q);
                assert(out[j].0 == q);
            }
            if has_key(out, q) && q != k {
                let j = index_of(out, q);
                assert(rs[j].0 == q);
            }
        }
        assert forall|q: Seq<char>| has_key(rs, q) implies out[index_of(out, q)].1
            == rs[index_of(rs, q)].1 by {
            let j = index_of(rs, q);
            assert(out[j].0 == q);
            lemma_index_unique(out, q, j);
        }
    }
    assert(map_of(out) =~= map_of(rs).insert(k, e));
}

/// Dropping a key keeps the keys distinct and acts on the denoted map as a
/// removal.
pub proof fn lemma_without(rs: Seq<Record>, k: Seq<char>)
    requires
        distinct_keys(rs),
    ensures
        distinct_keys(without(rs, k)),
        map_of(without(rs, k)) == map_of(rs).remove(k),
        !has_key(without(rs, k), k),
{
    let out = without(rs, k);
    if has_key(rs, k) {
        let i = index_of(rs, k);
        assert(0 <= i < rs.len() && rs[i].0 == k);
        assert forall|a: int| 0 <= a < out.len() implies #[trigger] out[a] == rs[if a < i {
            a
        } else {
            a + 1
        }] by {}
        assert forall|a: int, b: int| 0 <= a < b < out.len() implies (#[trigger] out[a]).0 != (
        #[trigger] out[b]).0 by {
            let a2 = if a < i { a } else { a + 1 };
            let b2 = if b < i { b } else { b + 1 };
            assert(out[a] == rs[a2] && out[b] == rs[b2]);
            assert(rs[a2].0 != rs[b2].0);
        }
        assert forall|q: Seq<char>| has_key(out, q) == (has_key(rs, q) && q != k) by {
            if has_key(rs, q) && q != k {
                let j = index_of(rs, q);
                let j2 = if j < i { j } else { j - 1 };
                assert(out[j2] == rs[j]);
            }
            if has_key(out, q) {
                let j = index_of(out, q);
                let j2 = if j < i { j } else { j + 1 };
                assert(out[j] == rs[j2]);
                assert(rs[j2].0 == q);
                if q == k {
                    lemma_index_unique(rs, k, j2);
                }
            }
        }
        assert forall|q: Seq<char>| has_key(out, q) implies out[index_of(out, q)].1
            == rs[index_of(rs, q)].1 by {
            let j = index_of(out, q);
            let j2 = if j < i { j } else { j + 1 };
            assert(out[j] == rs[j2]);
            lemma_index_unique(rs, q, j2);
        }
    }
    assert(map_of(out) =~= map_of(rs).remove(k));
}

/// Of two values stored under one key, one after the other, the later one
/// is found, and nothing remains of the earlier one: the records are what
/// storing the later value alone would have left.
pub proof fn lemma_last_write_wins(rs: Seq<Record>, k: Seq<char>, e1: EntryModel, e2: EntryModel)
    requires
        distinct_keys(rs),
    ensures
        lookup(put(put(rs, k, e1), k, e2), k) == Some(e2),
        put(put(rs, k, e1), k, e2) == put(rs, k, e2),
        map_of(put(put(rs, k, e1), k, e2)) == map_of(rs).insert(k, e2),
{
    let first = put(rs, k, e1);
    lemma_put(rs, k, e1);
    lemma_put(first, k, e2);
    lemma_put(rs, k, e2);
    if has_key(rs, k) {
        let i = index_of(rs, k);
        assert(0 <= i < rs.len() && rs[i].0 == k);
        assert(first[i].0 == k);
        lemma_index_unique(first, k, i);
    } else {
        let n = rs.len() as int;
        assert(first[n].0 == k);
        lemma_index_unique(first, k, n);
    }
    assert(put(first, k, e2) =~= put(rs, k, e2));
}

/// Deleting a key that is absent finds nothing to delete and changes
/// nothing, so a second attempt finds nothing either. Deleting a key that
/// is present leaves it absent.
pub proof fn lemma_delete_twice(rs: Seq<Record>, k: Seq<char>)
    requires
        distinct_keys(rs),
    ensures
        !has_key(rs, k) ==> without(rs, k) == rs,
        !has_key(without(rs, k), k),
        without(without(rs, k), k) == without(rs, k),
        !map_of(without(rs, k)).contains_key(k),
{
    lemma_without(rs, k);
}

/// Storing pairs one by one yields distinct keys.
pub proof fn lemma_from_pairs_distinct(ps: Seq<Record>)
    ensures
        distinct_keys(from_pairs(ps)),
    decreases ps.len(),
{
    if ps.len() > 0 {
        lemma_from_pairs_distinct(ps.drop_last());
        lemma_put(from_pairs(ps.drop_last()), ps.last().0, ps.last().1);
    }
}

/// Records with distinct keys are rebuilt unchanged from themselves.
pub proof fn lemma_from_pairs_identity(rs: Seq<Record>)
    requires
        distinct_keys(rs),
    ensures
        from_pairs(rs) == rs,
    decreases rs.len(),
{
    if rs.len() > 0 {
        let init = rs.drop_last();
        assert forall|i: int, j: int| 0 <= i < j < init.len() implies (#[trigger] init[i]).0 != (
        #[trigger] init[j]).0 by {
            assert(init[i] == rs[i] && init[j] == rs[j]);
        }
        lemma_from_pairs_identity(init);
        let k = rs.last().0;
        if has_key(init, k) {
            let i = index_of(init, k);
            assert(init[i] == rs[i]);
            assert(rs[i].0 != rs[rs.len() - 1].0);
        }
        assert(init.push(rs.last()) =~= rs);
    } else {
        assert(rs =~= Seq::empty());
    }
}

} // verus!

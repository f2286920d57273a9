//! The key-value store.

use crate::model::{
    distinct_keys, from_pairs, has_key, index_of, keys_of, lemma_index_unique, lemma_put,
    lemma_without, lookup, map_of, put, without, EntryModel, Record,
};
use crate::snapshot::{
    bytes_or_empty, decode_pairs, decoding, encode_pairs, encoding, lemma_restored_exactly, restored,
    snapshot_of,
};
use crate::text::str_eq;
use vstd::prelude::*;

verus! {

/// The stored unit for one key: a value and a time-to-live that is carried
/// along but never acted on.
#[derive(Debug)]
pub struct ValueEntry {
    pub value: String,
    pub ttl: Option<u64>,
}

impl Clone for ValueEntry {
    fn clone(&self) -> (r: Self)
        ensures
            r@ == self@,
    {
        ValueEntry { value: self.value.clone(), ttl: self.ttl }
    }
}

impl View for ValueEntry {
    type V = EntryModel;

    open spec fn view(&self) -> EntryModel {
        (self.value@, self.ttl)
    }
}

/// What a list of key/entry pairs denotes, pair by pair.
pub open spec fn records_of(pairs: Seq<(String, ValueEntry)>) -> Seq<Record> {
    Seq::new(pairs.len(), |i: int| (pairs[i].0@, pairs[i].1@))
}

/// A mapping from keys to entries that remembers the order in which its
/// keys were first stored.
pub struct Database {
    entries: Vec<(String, ValueEntry)>,
}

impl View for Database {
    type V = Map<Seq<char>, EntryModel>;

    open spec fn view(&self) -> Map<Seq<char>, EntryModel> {
        map_of(self.records())
    }
}

impl Database {
    /// The records held, in the order in which their keys were first stored.
    pub closed spec fn records(&self) -> Seq<Record> {
        records_of(self.entries@)
    }

    /// The invariant of the store: keys are unique.
    pub open spec fn wf(&self) -> bool {
        distinct_keys(self.records())
    }

    /// An empty store.
    pub fn new() -> (db: Self)
        ensures
            db.wf(),
            db.records() == Seq::<Record>::empty(),
            db@ == Map::<Seq<char>, EntryModel>::empty(),
    {
        let db = Database { entries: Vec::new() };
        assert(db.records() =~= Seq::<Record>::empty());
        assert(db@ =~= Map::<Seq<char>, EntryModel>::empty());
        db
    }

    /// Where `key` is held, if it is.
    fn position(&self, key: &str) -> (r: Option<usize>)
        ensures
            match r {
                Some(i) => i < self.records().len() && self.records()[i as int].0 == key@,
                None => !has_key(self.records(), key@),
            },
    {
        let mut i: usize = 0;
        while i < self.entries.len()
            invariant
                i <= self.entries.len(),
                forall|j: int| 0 <= j < i ==> (#[trigger] self.records()[j]).0 != key@,
            decreases self.entries.len() - i,
        {
            if str_eq(self.entries[i].0.as_str(), key) {
                return Some(i);
            }
            i += 1;
        }
        None
    }

    /// Stores `value` under `key` with no time-to-live, replacing whatever
    /// was stored there.
    pub fn set(&mut self, key: &str, value: &str)
        requires
            old(self).wf(),
        ensures
            final(self).wf(),
            final(self).records() == put(old(self).records(), key@, (value@, None)),
            final(self)@ == old(self)@.insert(key@, (value@, None)),
    {
        self.store(key.to_owned(), ValueEntry { value: value.to_owned(), ttl: None });
        proof {
            lemma_put(old(self).records(), key@, (value@, None));
        }
    }

    /// The value stored under `key`, if any.
    pub fn get(&self, key: &str) -> (r: Option<String>)
        requires
            self.wf(),
        ensures
            match r {
                Some(value) => self@.contains_key(key@) && value@ == self@[key@].0,
                None => !self@.contains_key(key@),
            },
            match (r, lookup(self.records(), key@)) {
                (Some(value), Some(entry)) => value@ == entry.0,
                (None, None) => true,
                _ => false,
            },
    {
        match self.position(key) {
            Some(i) => {
                proof {
                    lemma_index_unique(self.records(), key@, i as int);
                }
                Some(self.entries[i].1.value.clone())
            },
            None => None,
        }
    }

    /// Removes `key` and tells whether it was present.
    pub fn del(&mut self, key: &str) -> (present: bool)
        requires
            old(self).wf(),
        ensures
            final(self).wf(),
            present == has_key(old(self).records(), key@),
            present == old(self)@.contains_key(key@),
            final(self).records() == without(old(self).records(), key@),
            final(self)@ == old(self)@.remove(key@),
    {
        proof {
            lemma_without(self.records(), key@);
        }
        match self.position(key) {
            Some(i) => {
                proof {
                    lemma_index_unique(self.records(), key@, i as int);
                }
                self.entries.remove(i);
                assert(self.records() =~= without(old(self).records(), key@));
                true
            },
            None => false,
        }
    }

    /// All keys, in the order in which they were first stored.
    pub fn keys(&self) -> (r: Vec<String>)
        requires
            self.wf(),
        ensures
            r.deep_view() == keys_of(self.records()),
            r.deep_view().no_duplicates(),
            r.deep_view().to_set() == self@.dom(),
    {
        let mut out: Vec<String> = Vec::new();
        let mut i: usize = 0;
        while i < self.entries.len()
            invariant
                i <= self.entries.len(),
                out.len() == i,
                forall|j: int| 0 <= j < i ==> (#[trigger] out[j])@ == self.records()[j].0,
            decreases self.entries.len() - i,
        {
            out.push(self.entries[i].0.clone());
            i += 1;
        }
        proof {
            let ks = keys_of(self.records());
            assert(out.deep_view() =~= ks);
            assert forall|a: int, b: int| 0 <= a < ks.len() && 0 <= b < ks.len() && a != b implies ks[a]
                != ks[b] by {
                if a < b {
                    assert(self.records()[a].0 != self.records()[b].0);
                } else {
                    assert(self.records()[b].0 != self.records()[a].0);
                }
            }
            assert forall|k: Seq<char>| ks.to_set().contains(k) == self@.dom().contains(k) by {
                if ks.to_set().contains(k) {
                    let a = choose|a: int| 0 <= a < ks.len() && ks[a] == k;
                    assert(self.records()[a].0 == k);
                }
                if has_key(self.records(), k) {
                    let a = index_of(self.records(), k);
                    assert(ks[a] == k);
                }
            }
            assert(ks.to_set() =~= self@.dom());
        }
        out
    }

    /// Replaces the whole content by the given pairs, stored one after the
    /// other: of two pairs with one key the later decides the value.
    fn rebuild(&mut self, pairs: Vec<(String, ValueEntry)>)
        ensures
            final(self).wf(),
            final(self).records() == from_pairs(records_of(pairs@)),
            final(self)@ == map_of(from_pairs(records_of(pairs@))),
    {
        let mut fresh = Database::new();
        let ghost all = records_of(pairs@);
        for pair in it: pairs
            invariant
                all == records_of(it.seq()),
                fresh.wf(),
                fresh.records() == from_pairs(all.take(it.index() as int)),
        {
            proof {
                let i = it.index() as int;
                assert(all.take(i + 1).drop_last() =~= all.take(i));
                assert(all.take(i + 1).last() == all[i]);
            }
            fresh.store(pair.0, pair.1);
        }
        assert(all.take(all.len() as int) =~= all);
        self.entries = fresh.entries;
    }

    /// Acts on the outcome of decoding a snapshot. Decoded pairs replace the
    /// whole content: they are stored one after the other, so that of two
    /// pairs with one key the later decides the value. A failed decoding
    /// changes nothing.
    pub fn restore(&mut self, decoded: Option<Vec<(String, ValueEntry)>>)
        requires
            old(self).wf(),
        ensures
            final(self).wf(),
            final(self).records() == match decoded {
                Some(pairs) => from_pairs(records_of(pairs@)),
                None => old(self).records(),
            },
            final(self)@ == match decoded {
                Some(pairs) => map_of(from_pairs(records_of(pairs@))),
                None => old(self)@,
            },
    {
        match decoded {
            Some(pairs) => self.rebuild(pairs),
            None => {},
        }
    }

    /// The snapshot of the store: the encoding of its records in order, or
    /// no bytes at all where the encoder fails.
    ///
    /// Bytes that the encoder produced restore exactly the records of this
    /// store when they are loaded, whatever the loading store held.
    pub fn dump(&self) -> (bytes: Vec<u8>)
        requires
            self.wf(),
        ensures
            bytes@ == snapshot_of(self.records()),
            encoding(self.records()) is Some ==> forall|prior: Seq<Record>| #[trigger]
                restored(prior, bytes@) == self.records(),
    {
        let pairs = self.to_wire();
        let encoded = match encode_pairs(&pairs) {
            Ok(bytes) => {
                proof {
                    assert forall|prior: Seq<Record>| #[trigger]
                        restored(prior, bytes@) == self.records() by {
                        lemma_restored_exactly(self.records(), prior, bytes@);
                    }
                }
                Some(bytes)
            },
            Err(_) => None,
        };
        bytes_or_empty(encoded)
    }

    /// Loads a snapshot: bytes that decode replace the whole content, bytes
    /// that do not are ignored.
    pub fn load(&mut self, bytes: &[u8])
        requires
            old(self).wf(),
        ensures
            final(self).wf(),
            final(self).records() == restored(old(self).records(), bytes@),
            final(self)@ == map_of(restored(old(self).records(), bytes@)),
            decoding(bytes@) is None ==> final(self).records() == old(self).records(),
            bytes@.len() < 8 ==> final(self).records() == old(self).records(),
    {
        let decoded = match decode_pairs(bytes) {
            Ok(pairs) => Some(from_wire(pairs)),
            Err(_) => None,
        };
        self.restore(decoded)
    }

    /// The records as plain pairs, ready for the encoder.
    fn to_wire(&self) -> (pairs: Vec<(String, (String, Option<u64>))>)
        ensures
            pairs.deep_view() == self.records(),
    {
        let mut pairs: Vec<(String, (String, Option<u64>))> = Vec::new();
        let mut i: usize = 0;
        while i < self.entries.len()
            invariant
                i <= self.entries.len(),
                pairs.len() == i,
                forall|j: int| 0 <= j < i ==> (#[trigger] pairs[j]).deep_view() == self.records()[j],
            decreases self.entries.len() - i,
        {
            let key = self.entries[i].0.clone();
            let value = self.entries[i].1.value.clone();
            pairs.push((key, (value, self.entries[i].1.ttl)));
            i += 1;
        }
        assert(pairs.deep_view() =~= self.records());
        pairs
    }

    /// Stores `entry` under `key` as it is, time-to-live included.
    fn store(&mut self, key: String, entry: ValueEntry)
        requires
            old(self).wf(),
        ensures
            final(self).wf(),
            final(self).records() == put(old(self).records(), key@, entry@),
    {
        proof {
            lemma_put(self.records(), key@, entry@);
        }
        match self.position(key.as_str()) {
            Some(i) => {
                proof {
                    lemma_index_unique(self.records(), key@, i as int);
                }
                self.entries.set(i, (key, entry));
                assert(self.records() =~= put(old(self).records(), key@, entry@));
            },
            None => {
                self.entries.push((key, entry));
                assert(self.records() =~= put(old(self).records(), key@, entry@));
            },
        }
    }
}

/// What a list of plain pairs denotes, pair by pair.
spec fn plain_records(pairs: Seq<(String, (String, Option<u64>))>) -> Seq<Record> {
    Seq::new(pairs.len(), |i: int| (pairs[i].0@, (pairs[i].1.0@, pairs[i].1.1)))
}

/// Plain pairs from the decoder as key/entry pairs.
fn from_wire(pairs: Vec<(String, (String, Option<u64>))>) -> (entries: Vec<(String, ValueEntry)>)
    ensures
        records_of(entries@) == pairs.deep_view(),
{
    let mut entries: Vec<(String, ValueEntry)> = Vec::new();
    let ghost all = pairs.deep_view();
    assert(all =~= plain_records(pairs@));
    for pair in it: pairs
        invariant
            all == plain_records(it.seq()),
            records_of(entries@) == all.take(it.index() as int),
    {
        let ghost before = records_of(entries@);
        entries.push((pair.0, ValueEntry { value: pair.1.0, ttl: pair.1.1 }));
        assert(records_of(entries@) =~= before.push(all[it.index() as int]));
        assert(all.take(it.index() + 1) =~= before.push(all[it.index() as int]));
    }
    assert(all.take(all.len() as int) =~= all);
    entries
}

} // verus!

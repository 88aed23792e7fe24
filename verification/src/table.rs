//! A table of records of one kind in a durable store, each under the key
//! that the record itself gives.

use crate::identity::bytes_equal;
use crate::lists::{keep_marked, lemma_marked_values};
use crate::store::{
    KeyedRegion, KeyedStore, Region, bytes_before, keyed_store_region, lists_all,
};
use std::marker::PhantomData;
use vstd::prelude::*;

verus! {

/// A record that a table can hold: it has a stored form that is read back
/// to the same record, and a key under which it is kept.
pub trait Stored: View + Sized {
    /// The record that stored bytes hold, if they hold one.
    spec fn decode(bytes: Seq<u8>) -> Option<Self::V>;

    /// The key under which a record is kept.
    spec fn key_of(record: Self::V) -> Seq<u8>;

    /// The stored form of the record.
    fn to_bytes(&self) -> (bytes: Vec<u8>)
        ensures
            Self::decode(bytes@) == Some(self@),
    ;

    /// Reads a record back from its stored form.
    fn from_bytes(bytes: &Vec<u8>) -> (record: Option<Self>)
        ensures
            match record {
                Some(r) => Self::decode(bytes@) == Some(r@),
                None => Self::decode(bytes@) is None,
            },
    ;

    /// The key under which the record is kept.
    fn key(&self) -> (key: Vec<u8>)
        ensures
            key@ == Self::key_of(self@),
    ;
}

/// A table of records of the kind `R`.
pub struct Table<R: Stored> {
    store: KeyedStore,
    kind: PhantomData<R>,
}

/// Whether the records are a table: each entry is a record of the kind
/// `R`, under the key of that record.
pub open spec fn tables<R: Stored>(records: Map<Seq<u8>, Seq<u8>>) -> bool {
    forall|key: Seq<u8>|
        records.contains_key(key) ==> {
            &&& R::decode(#[trigger] records[key]) is Some
            &&& R::key_of(R::decode(records[key])->0) == key
        }
}

/// The table that the records hold.
pub open spec fn tabled<R: Stored>(records: Map<Seq<u8>, Seq<u8>>) -> Map<Seq<u8>, R::V> {
    Map::new(|key: Seq<u8>| records.contains_key(key), |key: Seq<u8>| R::decode(records[key])->0)
}

/// The mathematical values of a list of records.
pub open spec fn record_views<R: View>(records: Seq<R>) -> Seq<R::V> {
    records.map_values(|r: R| r@)
}

/// Whether `records` are the records of `table` that pass the test, each
/// once, in ascending order of their keys.
pub open spec fn lists_where<R: Stored>(
    table: Map<Seq<u8>, R::V>,
    test: spec_fn(R::V) -> bool,
    records: Seq<R::V>,
) -> bool {
    &&& forall|i: int|
        0 <= i < records.len() ==> {
            &&& table.contains_key(R::key_of(#[trigger] records[i]))
            &&& table[R::key_of(records[i])] == records[i]
            &&& test(records[i])
        }
    &&& forall|i: int, j: int|
        0 <= i < j < records.len() ==> bytes_before(
            R::key_of(#[trigger] records[i]),
            R::key_of(#[trigger] records[j]),
        ) && R::key_of(records[i]) != R::key_of(records[j])
    &&& forall|key: Seq<u8>|
        table.contains_key(key) && test(#[trigger] table[key]) ==> exists|i: int|
            0 <= i < records.len() && R::key_of(#[trigger] records[i]) == key
}

/// Whether `records` are the records of `table`, each once, in ascending
/// order of their keys.
pub open spec fn lists_table<R: Stored>(table: Map<Seq<u8>, R::V>, records: Seq<R::V>) -> bool {
    lists_where::<R>(table, |record: R::V| true, records)
}

/// A listing of a table holds the record of every key.
pub proof fn lemma_listing_covers<R: Stored>(
    table: Map<Seq<u8>, R::V>,
    records: Seq<R::V>,
    key: Seq<u8>,
)
    requires
        lists_table::<R>(table, records),
        table.contains_key(key),
    ensures
        exists|i: int| 0 <= i < records.len() && #[trigger] records[i] == table[key],
{
    let test = |record: R::V| true;
    assert(test(table[key]));
    let at = choose|at: int| 0 <= at < records.len() && R::key_of(#[trigger] records[at]) == key;
    assert(table[R::key_of(records[at])] == records[at]);
}

/// The positions of the items that pass the test.
pub open spec fn positions<V>(items: Seq<V>, test: spec_fn(V) -> bool) -> Seq<int>
    decreases items.len(),
{
    if items.len() == 0 {
        Seq::empty()
    } else if test(items.last()) {
        positions(items.drop_last(), test).push(items.len() - 1)
    } else {
        positions(items.drop_last(), test)
    }
}

/// The items that pass a test stand at ascending positions of the list,
/// and every item that passes is among them.
pub proof fn lemma_positions<V>(items: Seq<V>, test: spec_fn(V) -> bool)
    ensures
        positions(items, test).len() == items.filter(test).len(),
        forall|i: int|
            0 <= i < positions(items, test).len() ==> {
                &&& 0 <= #[trigger] positions(items, test)[i] < items.len()
                &&& items.filter(test)[i] == items[positions(items, test)[i]]
                &&& test(items[positions(items, test)[i]])
            },
        forall|i: int, j: int|
            0 <= i < j < positions(items, test).len() ==> #[trigger] positions(items, test)[i]
                < #[trigger] positions(items, test)[j],
        forall|at: int|
            0 <= at < items.len() && test(#[trigger] items[at]) ==> exists|i: int|
                0 <= i < positions(items, test).len() && #[trigger] positions(items, test)[i]
                    == at,
    decreases items.len(),
{
    reveal(Seq::filter);
    if items.len() > 0 {
        let front = items.drop_last();
        lemma_positions(front, test);
        let found = positions(items, test);
        let before = positions(front, test);
        assert forall|at: int| 0 <= at < items.len() && test(#[trigger] items[at]) implies exists|
            i: int,
        |
            0 <= i < found.len() && #[trigger] found[i] == at by {
            if at < items.len() - 1 {
                assert(test(front[at]));
                let i = choose|i: int| 0 <= i < before.len() && #[trigger] before[i] == at;
                assert(found[i] == at);
            } else {
                assert(found[found.len() - 1] == at);
            }
        }
        assert forall|i: int| 0 <= i < found.len() implies {
            &&& 0 <= #[trigger] found[i] < items.len()
            &&& items.filter(test)[i] == items[found[i]]
            &&& test(items[found[i]])
        } by {
            if i < before.len() {
                assert(found[i] == before[i]);
                assert(front[before[i]] == items[before[i]]);
            }
        }
        assert forall|i: int, j: int| 0 <= i < j < found.len() implies #[trigger] found[i]
            < #[trigger] found[j] by {
            if j < before.len() {
                assert(found[i] == before[i] && found[j] == before[j]);
            } else {
                assert(found[i] == before[i]);
            }
        }
    }
}

/// The records of a listing that pass a test are the listing of the
/// records that pass it.
pub proof fn lemma_selected_listing<R: Stored>(
    table: Map<Seq<u8>, R::V>,
    all: Seq<R::V>,
    test: spec_fn(R::V) -> bool,
)
    requires
        lists_table::<R>(table, all),
    ensures
        lists_where::<R>(table, test, all.filter(test)),
{
    lemma_positions(all, test);
    let found = positions(all, test);
    let kept = all.filter(test);
    assert forall|i: int| 0 <= i < kept.len() implies {
        &&& table.contains_key(R::key_of(#[trigger] kept[i]))
        &&& table[R::key_of(kept[i])] == kept[i]
        &&& test(kept[i])
    } by {
        assert(kept[i] == all[found[i]]);
    }
    assert forall|i: int, j: int| 0 <= i < j < kept.len() implies bytes_before(
        R::key_of(#[trigger] kept[i]),
        R::key_of(#[trigger] kept[j]),
    ) && R::key_of(kept[i]) != R::key_of(kept[j]) by {
        assert(kept[i] == all[found[i]] && kept[j] == all[found[j]]);
        assert(found[i] < found[j]);
    }
    assert forall|key: Seq<u8>|
        table.contains_key(key) && test(#[trigger] table[key]) implies exists|i: int|
        0 <= i < kept.len() && R::key_of(#[trigger] kept[i]) == key by {
        let at = choose|at: int| 0 <= at < all.len() && R::key_of(#[trigger] all[at]) == key;
        assert(table[R::key_of(all[at])] == all[at]);
        assert(test(all[at]));
        let i = choose|i: int| 0 <= i < found.len() && #[trigger] found[i] == at;
        assert(kept[i] == all[at]);
    }
}

impl<R: Stored> View for Table<R> {
    type V = Map<Seq<u8>, R::V>;

    closed spec fn view(&self) -> Map<Seq<u8>, R::V> {
        Map::new(
            |key: Seq<u8>| self.store@.contains_key(key),
            |key: Seq<u8>| R::decode(self.store@[key])->0,
        )
    }
}

impl<R: Stored> Table<R> {
    /// Whether the table is sound: every stored entry holds a record, under
    /// the key of that record.
    pub closed spec fn wf(&self) -> bool {
        &&& self.store@.dom().finite()
        &&& forall|key: Seq<u8>|
            self.store@.contains_key(key) ==> {
                &&& R::decode(#[trigger] self.store@[key]) is Some
                &&& R::key_of(R::decode(self.store@[key])->0) == key
            }
    }

    /// An empty table on the region.
    pub(crate) fn new(region: Region) -> (table: Table<R>)
        ensures
            table.wf(),
            table@ == Map::<Seq<u8>, R::V>::empty(),
    {
        let table = Table { store: KeyedStore::new(region), kind: PhantomData };
        assert(table@ =~= Map::<Seq<u8>, R::V>::empty());
        table
    }

    /// The region that the table lives on.
    pub closed spec fn region(&self) -> KeyedRegion {
        keyed_store_region(self.store)
    }

    /// Gives up the table and hands back the region that holds it.
    pub(crate) fn into_region(self) -> (region: KeyedRegion)
        ensures
            region == self.region(),
    {
        self.store.into_region()
    }

    /// The table that the region holds, or `None` when what it holds is no
    /// sound table: an entry that is no record, or a record under another
    /// key than its own. What the region holds is not known here:
    /// `from_store` says what comes of each store.
    pub(crate) fn restore(region: KeyedRegion) -> (table: Option<Table<R>>)
        ensures
            table matches Some(t) ==> t.wf() && t.region() == region,
    {
        Table::from_store(KeyedStore::reopen(region))
    }

    /// The table that a store holds, where it holds one: each of its
    /// entries is a record under the key of that record. Any other store
    /// holds no table.
    pub fn from_store(store: KeyedStore) -> (table: Option<Table<R>>)
        ensures
            match table {
                Some(t) => {
                    &&& t.wf()
                    &&& t.region() == keyed_store_region(store)
                    &&& tables::<R>(store@)
                    &&& t@ == tabled::<R>(store@)
                },
                None => !tables::<R>(store@),
            },
    {
        // `len` tells that the entries are finitely many.
        let _ = store.len();
        let items = store.entries();
        let mut i: usize = 0;
        while i < items.len()
            invariant
                i <= items@.len(),
                lists_all(store@, items@),
                forall|j: int|
                    0 <= j < i ==> {
                        &&& R::decode((#[trigger] items@[j]).1@) is Some
                        &&& R::key_of(R::decode(items@[j].1@)->0) == items@[j].0@
                    },
            decreases items@.len() - i,
        {
            let sound = match R::from_bytes(&items[i].1) {
                Some(record) => bytes_equal(&record.key(), &items[i].0),
                None => false,
            };
            if !sound {
                proof {
                    assert(store@.contains_key(items@[i as int].0@));
                    assert(store@[items@[i as int].0@] == items@[i as int].1@);
                }
                return None;
            }
            i += 1;
        }
        let table = Table { store, kind: PhantomData };
        proof {
            assert forall|key: Seq<u8>| table.store@.contains_key(key) implies {
                &&& R::decode(#[trigger] table.store@[key]) is Some
                &&& R::key_of(R::decode(table.store@[key])->0) == key
            } by {
                let at = choose|at: int|
                    0 <= at < items@.len() && (#[trigger] items@[at]).0@ == key;
                assert(table.store@[items@[at].0@] == items@[at].1@);
            }
            assert(table@ =~= tabled::<R>(store@));
        }
        Some(table)
    }

    /// The number of records.
    pub fn len(&self) -> (count: u64)
        requires
            self.wf(),
        ensures
            self@.dom().finite(),
            count == self@.dom().len(),
    {
        assert(self@.dom() =~= self.store@.dom());
        self.store.len()
    }

    /// Whether a record is kept under the key.
    pub fn contains(&self, key: &Vec<u8>) -> (present: bool)
        requires
            self.wf(),
        ensures
            present == self@.contains_key(key@),
    {
        self.store.contains_key(key)
    }

    /// The record under the key, if there is one.
    pub fn get(&self, key: &Vec<u8>) -> (record: Option<R>)
        requires
            self.wf(),
        ensures
            match record {
                Some(r) => self@.contains_key(key@) && self@[key@] == r@ && R::key_of(r@) == key@,
                None => !self@.contains_key(key@),
            },
    {
        match self.store.get(key) {
            Some(bytes) => R::from_bytes(&bytes),
            None => None,
        }
    }

    /// Keeps the record under its key, in place of the one that was there.
    pub fn put(&mut self, record: &R)
        requires
            old(self).wf(),
        ensures
            final(self).wf(),
            final(self)@ == old(self)@.insert(R::key_of(record@), record@),
    {
        let key = record.key();
        let bytes = record.to_bytes();
        self.store.insert(key, bytes);
        assert(final(self)@ =~= old(self)@.insert(R::key_of(record@), record@));
    }

    /// Every record is kept under its own key.
    pub proof fn lemma_keys(&self)
        requires
            self.wf(),
        ensures
            forall|key: Seq<u8>|
                self@.contains_key(key) ==> R::key_of(#[trigger] self@[key]) == key,
    {
    }

    /// Every record, in ascending order of the keys.
    pub fn list(&self) -> (records: Vec<R>)
        requires
            self.wf(),
        ensures
            lists_table::<R>(self@, record_views(records@)),
    {
        let items = self.store.entries();
        let mut records: Vec<R> = Vec::new();
        let mut i: usize = 0;
        while i < items.len()
            invariant
                self.wf(),
                i <= items@.len(),
                lists_all(self.store@, items@),
                records@.len() == i,
                forall|j: int|
                    0 <= j < i ==> (#[trigger] records@[j])@ == self@[items@[j].0@] && R::key_of(
                        records@[j]@,
                    ) == items@[j].0@,
            decreases items@.len() - i,
        {
            assert(self.store@.contains_key(items@[i as int].0@));
            match R::from_bytes(&items[i].1) {
                Some(record) => {
                    records.push(record);
                },
                None => {
                    assert(R::decode(self.store@[items@[i as int].0@]) is Some);
                },
            }
            i += 1;
        }
        proof {
            let views = record_views(records@);
            assert forall|key: Seq<u8>| self@.contains_key(key) implies exists|i: int|
                0 <= i < views.len() && R::key_of(#[trigger] views[i]) == key by {
                let at = choose|at: int|
                    0 <= at < items@.len() && (#[trigger] items@[at]).0@ == key;
                assert(R::key_of(views[at]) == key);
            }
            assert forall|i: int, j: int| 0 <= i < j < views.len() implies bytes_before(
                R::key_of(#[trigger] views[i]),
                R::key_of(#[trigger] views[j]),
            ) && R::key_of(views[i]) != R::key_of(views[j]) by {
                assert(bytes_before(items@[i].0@, items@[j].0@));
            }
            assert forall|i: int| 0 <= i < views.len() implies {
                &&& self@.contains_key(R::key_of(#[trigger] views[i]))
                &&& self@[R::key_of(views[i])] == views[i]
            } by {
                assert(self.store@.contains_key(items@[i].0@));
            }
        }
        records
    }
}

/// Keeps the records of a listing whose mark is set: where each mark says
/// whether its record passes a test, these are the records of the table
/// that pass it.
pub(crate) fn keep_listed<R: Stored>(
    all: Vec<R>,
    marks: &Vec<bool>,
    Ghost(table): Ghost<Map<Seq<u8>, R::V>>,
    Ghost(test): Ghost<spec_fn(R::V) -> bool>,
) -> (kept: Vec<R>)
    requires
        lists_table::<R>(table, record_views(all@)),
        marks@.len() == all@.len(),
        forall|i: int| 0 <= i < all@.len() ==> marks@[i] == test((#[trigger] all@[i])@),
    ensures
        lists_where::<R>(table, test, record_views(kept@)),
        record_views(kept@) == record_views(all@).filter(test),
{
    let ghost value = |r: R| r@;
    let ghost listed = all@;
    let kept = keep_marked(all, marks);
    proof {
        lemma_marked_values(listed, marks@, value, test);
        assert(record_views(kept@) =~= kept@.map_values(value));
        assert(record_views(listed) =~= listed.map_values(value));
        lemma_selected_listing::<R>(table, record_views(listed), test);
    }
    kept
}

} // verus!

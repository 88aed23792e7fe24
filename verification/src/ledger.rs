//! The append-only log of custody events: the single source of truth for
//! the history of every product.

use crate::error::LedgerError;
use crate::events::{EventView, TrackingEvent, decode_event};
use crate::lists::{keep_marked, lemma_marked_values};
use crate::store::{RecordRegion, RecordStore, Region, lists_from, record_store_region};
use vstd::prelude::*;

verus! {

/// The log of events. The event at position `i` has the id `i`: ids start at
/// zero, rise by one with every append, and are never reused.
pub struct Ledger {
    store: RecordStore,
    next_id: u64,
}

/// The mathematical values of a list of events.
pub open spec fn event_views(events: Seq<TrackingEvent>) -> Seq<EventView> {
    Seq::new(events.len(), |i: int| events[i]@)
}

/// `event` with another id.
pub open spec fn with_id(event: EventView, id: u64) -> EventView {
    EventView {
        id,
        product_id: event.product_id,
        user_id: event.user_id,
        user_role: event.user_role,
        event_type: event.event_type,
        description: event.description,
        location: event.location,
        timestamp: event.timestamp,
        metadata: event.metadata,
    }
}

/// Whether the records are a log of `count` events: an event under each id
/// below `count` and under no other key, each event under its own id.
pub open spec fn logs(records: Map<u64, Seq<u8>>, count: u64) -> bool {
    &&& forall|key: u64| records.contains_key(key) <==> key < count
    &&& forall|key: u64|
        key < count ==> {
            &&& decode_event(#[trigger] records[key]) is Some
            &&& decode_event(records[key])->0.id == key
        }
}

/// The log of `count` events that the records hold.
pub open spec fn logged(records: Map<u64, Seq<u8>>, count: u64) -> Seq<EventView> {
    Seq::new(count as nat, |i: int| decode_event(records[i as u64])->0)
}

/// The events of `log` that come after the one with the id `cursor`.
pub open spec fn events_after(log: Seq<EventView>, cursor: u64) -> Seq<EventView> {
    if cursor < log.len() {
        log.subrange(cursor + 1, log.len() as int)
    } else {
        Seq::empty()
    }
}

/// The events of `log` that are about the product, in the order of `log`.
pub open spec fn events_of_product(log: Seq<EventView>, product_id: Seq<char>) -> Seq<EventView> {
    log.filter(|e: EventView| e.product_id == product_id)
}

impl View for Ledger {
    type V = Seq<EventView>;

    closed spec fn view(&self) -> Seq<EventView> {
        Seq::new(self.next_id as nat, |i: int| decode_event(self.store@[i as u64])->0)
    }
}

impl Ledger {
    /// Whether the log is sound: it holds an event under each id below the
    /// next one and under no other, and each event carries its own id.
    pub closed spec fn wf(&self) -> bool {
        &&& forall|key: u64| self.store@.contains_key(key) <==> key < self.next_id
        &&& forall|key: u64|
            key < self.next_id ==> {
                &&& decode_event(#[trigger] self.store@[key]) is Some
                &&& decode_event(self.store@[key])->0.id == key
            }
    }

    /// An empty log on the region.
    pub(crate) fn new(region: Region) -> (ledger: Ledger)
        ensures
            ledger.wf(),
            ledger@.len() == 0,
    {
        Ledger { store: RecordStore::new(region), next_id: 0 }
    }

    /// The region that the log lives on.
    pub closed spec fn region(&self) -> RecordRegion {
        record_store_region(self.store)
    }

    /// Gives up the log and hands back the region that holds it.
    pub(crate) fn into_region(self) -> (region: RecordRegion)
        ensures
            region == self.region(),
    {
        self.store.into_region()
    }

    /// The log that the region holds, or `None` when what it holds is no
    /// sound log: an entry that is no event, an event under
    /// another id than its own, or a gap in the ids. What the region holds
    /// is not known here: `from_store` says what comes of each store.
    pub(crate) fn restore(region: RecordRegion) -> (ledger: Option<Ledger>)
        ensures
            ledger matches Some(l) ==> l.wf() && l.region() == region,
    {
        Ledger::from_store(RecordStore::reopen(region))
    }

    /// The log that a store holds, where it holds one: its entries are
    /// events under the ids from zero up to their number, each under its
    /// own id. Any other store holds no log.
    pub fn from_store(store: RecordStore) -> (ledger: Option<Ledger>)
        ensures
            match ledger {
                Some(l) => {
                    &&& l.wf()
                    &&& l.region() == record_store_region(store)
                    &&& logs(store@, l@.len() as u64)
                    &&& l@ == logged(store@, l@.len() as u64)
                },
                None => forall|count: u64| !logs(store@, count),
            },
    {
        let items = store.entries();
        let mut i: usize = 0;
        while i < items.len()
            invariant
                i <= items@.len(),
                lists_from(store@, 0, items@),
                forall|j: int|
                    0 <= j < i ==> {
                        &&& (#[trigger] items@[j]).0 == j
                        &&& decode_event(items@[j].1@) is Some
                        &&& decode_event(items@[j].1@)->0.id == j
                    },
            decreases items@.len() - i,
        {
            let sound = match TrackingEvent::from_bytes(&items[i].1) {
                Some(event) => items[i].0 == i as u64 && event.id == i as u64,
                None => false,
            };
            if !sound {
                proof {
                    assert forall|count: u64| !logs(store@, count) by {
                        if logs(store@, count) {
                            lemma_listing_is_dense(store@, 0, count, items@);
                            assert(items@[i as int].0 == i);
                            assert(store@[i as u64] == items@[i as int].1@);
                        }
                    }
                }
                return None;
            }
            i += 1;
        }
        let next_id = items.len() as u64;
        let ledger = Ledger { store, next_id };
        proof {
            assert forall|key: u64| ledger.store@.contains_key(key) <==> key < next_id by {
                if key < next_id {
                    assert(ledger.store@.contains_key(items@[key as int].0));
                }
                if ledger.store@.contains_key(key) {
                    let at = choose|at: int|
                        0 <= at < items@.len() && (#[trigger] items@[at]).0 == key;
                    assert(items@[at].0 == at);
                }
            }
            assert forall|key: u64| key < next_id implies {
                &&& decode_event(#[trigger] ledger.store@[key]) is Some
                &&& decode_event(ledger.store@[key])->0.id == key
            } by {
                assert(ledger.store@[items@[key as int].0] == items@[key as int].1@);
            }
            assert(ledger@ =~= logged(store@, next_id));
        }
        Some(ledger)
    }

    /// The number of events, which is the id that the next event gets.
    pub fn len(&self) -> (count: u64)
        requires
            self.wf(),
        ensures
            count == self@.len(),
    {
        self.next_id
    }

    /// Appends the event under the next id, which it returns. The id that
    /// `event` came with is not used. The log is full once it holds
    /// `u64::MAX` events; then nothing is written.
    pub fn append(&mut self, event: TrackingEvent) -> (result: Result<u64, LedgerError>)
        requires
            old(self).wf(),
        ensures
            final(self).wf(),
            match result {
                Ok(id) => id == old(self)@.len() && id < u64::MAX && final(self)@ == old(
                    self,
                )@.push(
                    with_id(event@, id),
                ),
                Err(e) => e == LedgerError::StorageError && old(self)@.len() == u64::MAX
                    && final(self)@ == old(self)@,
            },
    {
        if self.next_id == u64::MAX {
            return Err(LedgerError::StorageError);
        }
        let id = self.next_id;
        let mut stored = event;
        stored.id = id;
        let bytes = stored.to_bytes();
        self.store.insert(id, bytes);
        self.next_id = id + 1;
        assert(final(self)@ =~= old(self)@.push(with_id(event@, id)));
        Ok(id)
    }

    /// The event with this id, if there is one.
    pub fn get(&self, id: u64) -> (event: Option<TrackingEvent>)
        requires
            self.wf(),
        ensures
            match event {
                Some(e) => id < self@.len() && e@ == self@[id as int],
                None => id >= self@.len(),
            },
    {
        match self.store.get(id) {
            Some(bytes) => TrackingEvent::from_bytes(&bytes),
            None => None,
        }
    }

    /// The events after the one with the id `cursor`, in ascending id order.
    /// A cursor at or beyond the last id gives none.
    pub fn events_since(&self, cursor: u64) -> (events: Vec<TrackingEvent>)
        requires
            self.wf(),
        ensures
            event_views(events@) == events_after(self@, cursor),
    {
        if cursor >= self.next_id {
            let events: Vec<TrackingEvent> = Vec::new();
            assert(event_views(events@) =~= events_after(self@, cursor));
            return events;
        }
        let start: u64 = cursor + 1;
        let items = self.store.range_from(start);
        let events = self.decode_listing(start, &items);
        assert(event_views(events@) =~= events_after(self@, cursor));
        events
    }

    /// Every event, in ascending id order.
    pub fn all(&self) -> (events: Vec<TrackingEvent>)
        requires
            self.wf(),
        ensures
            event_views(events@) == self@,
    {
        let items = self.store.entries();
        let events = self.decode_listing(0, &items);
        assert(event_views(events@) =~= self@);
        events
    }

    /// Reads the events that a listing of the store from `start` on holds.
    fn decode_listing(&self, start: u64, items: &Vec<(u64, Vec<u8>)>) -> (events: Vec<
        TrackingEvent,
    >)
        requires
            self.wf(),
            start <= self.next_id,
            lists_from(self.store@, start, items@),
        ensures
            event_views(events@) == self@.subrange(start as int, self@.len() as int),
    {
        proof {
            lemma_listing_is_dense(self.store@, start, self.next_id, items@);
        }
        let mut events: Vec<TrackingEvent> = Vec::new();
        let mut i: usize = 0;
        while i < items.len()
            invariant
                self.wf(),
                i <= items@.len(),
                items@.len() == self.next_id - start,
                events@.len() == i,
                forall|j: int|
                    0 <= j < items@.len() ==> (#[trigger] items@[j]).0 == start + j
                        && self.store@[items@[j].0] == items@[j].1@,
                forall|j: int| 0 <= j < i ==> (#[trigger] events@[j])@ == self@[start + j],
            decreases items@.len() - i,
        {
            match TrackingEvent::from_bytes(&items[i].1) {
                Some(event) => {
                    events.push(event);
                },
                None => {
                    assert(decode_event(self.store@[items@[i as int].0]) is Some);
                },
            }
            i += 1;
        }
        assert(event_views(events@) =~= self@.subrange(start as int, self@.len() as int));
        events
    }

    /// The events about the product, in ascending id order.
    pub fn history_of(&self, product_id: &String) -> (events: Vec<TrackingEvent>)
        requires
            self.wf(),
        ensures
            event_views(events@) == events_of_product(self@, product_id@),
    {
        select_product(self.all(), product_id)
    }

    /// Ids are positions: the event at position `i` of the log has the id
    /// `i`. So the ids of the log start at zero and rise by one, with no gap
    /// and none twice.
    pub proof fn lemma_ids_are_positions(&self)
        requires
            self.wf(),
        ensures
            ids_are_positions(self@),
    {
        assert forall|i: int| 0 <= i < self@.len() implies (#[trigger] self@[i]).id == i by {
            assert(decode_event(self.store@[i as u64])->0.id == i as u64);
        }
    }
}

/// The log after the drafts have been appended to it one by one, each
/// under the id that is the length of the log before it.
pub open spec fn log_after(log: Seq<EventView>, drafts: Seq<EventView>) -> Seq<EventView>
    decreases drafts.len(),
{
    if drafts.len() == 0 {
        log
    } else {
        log_after(log, drafts.drop_last()).push(
            with_id(drafts.last(), log_after(log, drafts.drop_last()).len() as u64),
        )
    }
}

/// Whether every event of the log carries its position as its id.
pub open spec fn ids_are_positions(log: Seq<EventView>) -> bool {
    forall|i: int| 0 <= i < log.len() ==> (#[trigger] log[i]).id == i
}

/// Appending hands out consecutive ids: the draft at position `k` gets the
/// id that is `k` above the length that the log had, so from the empty log
/// the ids are 0, 1, 2 and so on, with no gap and none twice. The events
/// that were there stay as they were.
pub proof fn lemma_appended_ids_count_up(log: Seq<EventView>, drafts: Seq<EventView>)
    requires
        log.len() + drafts.len() <= u64::MAX,
    ensures
        log_after(log, drafts).len() == log.len() + drafts.len(),
        forall|i: int| 0 <= i < log.len() ==> log_after(log, drafts)[i] == log[i],
        forall|k: int|
            0 <= k < drafts.len() ==> #[trigger] log_after(log, drafts)[log.len() + k] == with_id(
                drafts[k],
                (log.len() + k) as u64,
            ),
        ids_are_positions(log) ==> ids_are_positions(log_after(log, drafts)),
    decreases drafts.len(),
{
    if drafts.len() > 0 {
        let front = drafts.drop_last();
        lemma_appended_ids_count_up(log, front);
        let after = log_after(log, drafts);
        assert forall|k: int| 0 <= k < drafts.len() implies #[trigger] after[log.len() + k]
            == with_id(drafts[k], (log.len() + k) as u64) by {
            if k < front.len() {
                assert(after[log.len() + k] == log_after(log, front)[log.len() + k]);
                assert(front[k] == drafts[k]);
            }
        }
        if ids_are_positions(log) {
            assert forall|i: int| 0 <= i < after.len() implies (#[trigger] after[i]).id == i by {
                if i < log.len() + front.len() {
                    assert(after[i] == log_after(log, front)[i]);
                }
            }
        }
    }
}

/// What `events_after` gives is exact: each event it gives is in the log
/// and has an id above the cursor, the ids ascend, every event of the log
/// with an id above the cursor is given, and a cursor at or beyond the last
/// id gives nothing.
pub proof fn lemma_events_after_is_exact(log: Seq<EventView>, cursor: u64)
    requires
        ids_are_positions(log),
    ensures
        forall|i: int|
            0 <= i < events_after(log, cursor).len() ==> {
                &&& (#[trigger] events_after(log, cursor)[i]).id > cursor
                &&& log.contains(events_after(log, cursor)[i])
            },
        forall|i: int, j: int|
            0 <= i < j < events_after(log, cursor).len() ==> (#[trigger] events_after(
                log,
                cursor,
            )[i]).id < (#[trigger] events_after(log, cursor)[j]).id,
        forall|k: int|
            0 <= k < log.len() && (#[trigger] log[k]).id > cursor ==> events_after(
                log,
                cursor,
            ).contains(log[k]),
        cursor + 1 >= log.len() ==> events_after(log, cursor).len() == 0,
{
    let after = events_after(log, cursor);
    assert forall|i: int| 0 <= i < after.len() implies {
        &&& (#[trigger] after[i]).id > cursor
        &&& log.contains(after[i])
    } by {
        assert(after[i] == log[cursor + 1 + i]);
    }
    assert forall|i: int, j: int| 0 <= i < j < after.len() implies (#[trigger] after[i]).id < (
    #[trigger] after[j]).id by {
        assert(after[i] == log[cursor + 1 + i]);
        assert(after[j] == log[cursor + 1 + j]);
    }
    assert forall|k: int|
        0 <= k < log.len() && (#[trigger] log[k]).id > cursor implies after.contains(log[k]) by {
        assert(after[k - cursor - 1] == log[k]);
    }
}

/// A listing of a store whose keys are the numbers below `next`, taken from
/// `start` on, holds the key `start + j` at position `j` and ends with the
/// last key.
pub proof fn lemma_listing_is_dense(
    records: Map<u64, Seq<u8>>,
    start: u64,
    next: u64,
    items: Seq<(u64, Vec<u8>)>,
)
    requires
        lists_from(records, start, items),
        forall|key: u64| records.contains_key(key) <==> key < next,
        start <= next,
    ensures
        items.len() == next - start,
        forall|j: int|
            0 <= j < items.len() ==> (#[trigger] items[j]).0 == start + j && records[items[j].0]
                == items[j].1@,
{
    assert forall|j: int| 0 <= j < items.len() implies (#[trigger] items[j]).0 == start + j
        && records[items[j].0] == items[j].1@ by {
        lemma_listing_position(records, start, next, items, j);
    }
    let count = items.len();
    if start + count < next {
        let missing: u64 = (start + count) as u64;
        assert(records.contains_key(missing));
        let at = choose|at: int| 0 <= at < count && (#[trigger] items[at]).0 == missing;
        assert(items[at].0 == start + at);
    }
    if count > 0 {
        assert(records.contains_key(items[count - 1].0));
    }
}

proof fn lemma_listing_position(
    records: Map<u64, Seq<u8>>,
    start: u64,
    next: u64,
    items: Seq<(u64, Vec<u8>)>,
    i: int,
)
    requires
        lists_from(records, start, items),
        forall|key: u64| records.contains_key(key) <==> key < next,
        start <= next,
        0 <= i < items.len(),
    ensures
        items[i].0 == start + i,
    decreases i,
{
    assert(records.contains_key(items[i].0));
    if i > 0 {
        lemma_listing_position(records, start, next, items, i - 1);
        assert(items[i - 1].0 < items[i].0);
    }
    let wanted: u64 = (start + i) as u64;
    assert(records.contains_key(wanted));
    let at = choose|at: int| 0 <= at < items.len() && (#[trigger] items[at]).0 == wanted;
    if at < i {
        lemma_listing_position(records, start, next, items, at);
    } else if at > i {
        assert(items[i].0 < items[at].0);
    }
}

/// The events of a list that are about the product, in their order.
pub fn select_product(events: Vec<TrackingEvent>, product_id: &String) -> (kept: Vec<
    TrackingEvent,
>)
    ensures
        event_views(kept@) == events_of_product(event_views(events@), product_id@),
{
    let mut marks: Vec<bool> = Vec::new();
    let mut i: usize = 0;
    while i < events.len()
        invariant
            i <= events@.len(),
            marks@.len() == i,
            forall|j: int|
                0 <= j < i ==> marks@[j] == ((#[trigger] events@[j])@.product_id == product_id@),
        decreases events@.len() - i,
    {
        marks.push(events[i].product_id == *product_id);
        i += 1;
    }
    let ghost value = |e: TrackingEvent| e@;
    let ghost test = |e: EventView| e.product_id == product_id@;
    let ghost all = events@;
    let kept = keep_marked(events, &marks);
    proof {
        lemma_marked_values(all, marks@, value, test);
        assert(event_views(kept@) =~= kept@.map_values(value));
        assert(event_views(all) =~= all.map_values(value));
    }
    kept
}

} // verus!

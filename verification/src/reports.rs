//! Reports: disputes that any identity may raise about another, resolved
//! once by an auditor.

use crate::codec::{
    field_flag, field_number, field_optional_flag, field_text, field_views, flag_field, flag_of,
    frame_fields, number_field, number_of, optional_flag_field, optional_flag_of, text_bytes,
    text_of, unframe, unframe_fields,
};
use crate::error::LedgerError;
use crate::identity::{Identity, MAX_IDENTITY_BYTES, copy_bytes};
use crate::ledger::lemma_listing_is_dense;
use crate::store::{RecordRegion, RecordStore, Region, lists_from, record_store_region};
use vstd::prelude::*;

verus! {

/// A dispute about an identity.
#[derive(Debug)]
pub struct Report {
    /// The position of the report in the book, assigned by the book.
    pub report_id: u64,
    pub reporter: Identity,
    pub reported_entity: Identity,
    pub product_id: String,
    pub reason: String,
    pub timestamp: u64,
    pub resolved: bool,
    /// The finding of the auditor; `None` until the report is resolved.
    pub valid: Option<bool>,
}

/// A [`Report`] as a mathematical value.
pub struct ReportView {
    pub report_id: u64,
    pub reporter: Seq<u8>,
    pub reported_entity: Seq<u8>,
    pub product_id: Seq<char>,
    pub reason: Seq<char>,
    pub timestamp: u64,
    pub resolved: bool,
    pub valid: Option<bool>,
}

impl View for Report {
    type V = ReportView;

    open spec fn view(&self) -> ReportView {
        ReportView {
            report_id: self.report_id,
            reporter: self.reporter@,
            reported_entity: self.reported_entity@,
            product_id: self.product_id@,
            reason: self.reason@,
            timestamp: self.timestamp,
            resolved: self.resolved,
            valid: self.valid,
        }
    }
}

/// The number of fields of a stored report.
pub const REPORT_FIELDS: usize = 8;

/// The report that a list of fields holds, if it holds one.
pub open spec fn report_of_fields(fields: Seq<Seq<u8>>) -> Option<ReportView> {
    if fields.len() == REPORT_FIELDS && number_of(fields[0]) is Some && fields[1].len()
        <= MAX_IDENTITY_BYTES && fields[2].len() <= MAX_IDENTITY_BYTES && text_of(
        fields[3],
    ) is Some && text_of(fields[4]) is Some && number_of(fields[5]) is Some && flag_of(
        fields[6],
    ) is Some && optional_flag_of(fields[7]) is Some {
        Some(
            ReportView {
                report_id: number_of(fields[0])->0,
                reporter: fields[1],
                reported_entity: fields[2],
                product_id: text_of(fields[3])->0,
                reason: text_of(fields[4])->0,
                timestamp: number_of(fields[5])->0,
                resolved: flag_of(fields[6])->0,
                valid: optional_flag_of(fields[7])->0,
            },
        )
    } else {
        None
    }
}

/// The report that a stored record holds, if it holds one.
pub open spec fn decode_report(bytes: Seq<u8>) -> Option<ReportView> {
    match unframe(bytes) {
        Some(fields) => report_of_fields(fields),
        None => None,
    }
}

/// Whether the records are a book of `count` reports: a report under each
/// id below `count` and under no other key, each report under its own id.
pub open spec fn books(records: Map<u64, Seq<u8>>, count: u64) -> bool {
    &&& forall|key: u64| records.contains_key(key) <==> key < count
    &&& forall|key: u64|
        key < count ==> {
            &&& decode_report(#[trigger] records[key]) is Some
            &&& decode_report(records[key])->0.report_id == key
        }
}

/// The book of `count` reports that the records hold.
pub open spec fn booked(records: Map<u64, Seq<u8>>, count: u64) -> Seq<ReportView> {
    Seq::new(count as nat, |i: int| decode_report(records[i as u64])->0)
}

/// `report` with another id.
pub open spec fn numbered(report: ReportView, id: u64) -> ReportView {
    ReportView {
        report_id: id,
        reporter: report.reporter,
        reported_entity: report.reported_entity,
        product_id: report.product_id,
        reason: report.reason,
        timestamp: report.timestamp,
        resolved: report.resolved,
        valid: report.valid,
    }
}

impl Report {
    /// The stored form of the report. Reading it back gives the same report.
    pub fn to_bytes(&self) -> (bytes: Vec<u8>)
        ensures
            decode_report(bytes@) == Some(self@),
    {
        let mut fields: Vec<Vec<u8>> = Vec::new();
        fields.push(number_field(self.report_id));
        fields.push(copy_bytes(self.reporter.as_bytes()));
        fields.push(copy_bytes(self.reported_entity.as_bytes()));
        fields.push(text_bytes(&self.product_id));
        fields.push(text_bytes(&self.reason));
        fields.push(number_field(self.timestamp));
        fields.push(flag_field(self.resolved));
        fields.push(optional_flag_field(self.valid));
        let bytes = frame_fields(&fields);
        proof {
            let views = field_views(fields@);
            assert(report_of_fields(views) == Some(self@));
        }
        bytes
    }

    /// Reads a report back from its stored form, or gives `None` when the
    /// bytes are not the stored form of any report.
    pub fn from_bytes(bytes: &Vec<u8>) -> (report: Option<Report>)
        ensures
            match report {
                Some(r) => decode_report(bytes@) == Some(r@),
                None => decode_report(bytes@) is None,
            },
    {
        let fields = unframe_fields(bytes)?;
        let ghost views = field_views(fields@);
        if fields.len() != REPORT_FIELDS {
            return None;
        }
        assert(forall|i: int| 0 <= i < 8 ==> views[i] == (#[trigger] fields@[i])@);
        let report_id = field_number(&fields[0])?;
        let reporter = Identity::from_bytes(copy_bytes(&fields[1]))?;
        let reported_entity = Identity::from_bytes(copy_bytes(&fields[2]))?;
        let product_id = field_text(&fields[3])?;
        let reason = field_text(&fields[4])?;
        let timestamp = field_number(&fields[5])?;
        let resolved = field_flag(&fields[6])?;
        let valid = field_optional_flag(&fields[7])?;
        Some(
            Report {
                report_id,
                reporter,
                reported_entity,
                product_id,
                reason,
                timestamp,
                resolved,
                valid,
            },
        )
    }
}

/// The book of reports. The report at position `i` has the id `i`.
pub struct ReportBook {
    store: RecordStore,
    next_id: u64,
}

impl View for ReportBook {
    type V = Seq<ReportView>;

    closed spec fn view(&self) -> Seq<ReportView> {
        Seq::new(self.next_id as nat, |i: int| decode_report(self.store@[i as u64])->0)
    }
}

impl ReportBook {
    /// Whether the book is sound: it holds a report under each id below the
    /// next one and under no other, and each report carries its own id.
    pub closed spec fn wf(&self) -> bool {
        &&& forall|key: u64| self.store@.contains_key(key) <==> key < self.next_id
        &&& forall|key: u64|
            key < self.next_id ==> {
                &&& decode_report(#[trigger] self.store@[key]) is Some
                &&& decode_report(self.store@[key])->0.report_id == key
            }
    }

    /// An empty book on the region.
    pub(crate) fn new(region: Region) -> (book: ReportBook)
        ensures
            book.wf(),
            book@.len() == 0,
    {
        ReportBook { store: RecordStore::new(region), next_id: 0 }
    }

    /// The region that the book lives on.
    pub closed spec fn region(&self) -> RecordRegion {
        record_store_region(self.store)
    }

    /// Gives up the book and hands back the region that holds it.
    pub(crate) fn into_region(self) -> (region: RecordRegion)
        ensures
            region == self.region(),
    {
        self.store.into_region()
    }

    /// The book that the region holds, or `None` when what it holds is no
    /// sound book: an entry that is no report, a report
    /// under another id than its own, or a gap in the ids. What the region
    /// holds is not known here: `from_store` says what comes of each store.
    pub(crate) fn restore(region: RecordRegion) -> (book: Option<ReportBook>)
        ensures
            book matches Some(b) ==> b.wf() && b.region() == region,
    {
        ReportBook::from_store(RecordStore::reopen(region))
    }

    /// The book that a store holds, where it holds one: its entries are
    /// reports under the ids from zero up to their number, each under its
    /// own id. Any other store holds no book.
    pub fn from_store(store: RecordStore) -> (book: Option<ReportBook>)
        ensures
            match book {
                Some(b) => {
                    &&& b.wf()
                    &&& b.region() == record_store_region(store)
                    &&& books(store@, b@.len() as u64)
                    &&& b@ == booked(store@, b@.len() as u64)
                },
                None => forall|count: u64| !books(store@, count),
            },
    {
        let items = store.entries();
        let mut i: usize = 0;
        while i < items.len()
            invariant
                i <= items@.len(),
                lists_from(store@, 0, items@),
                forall|j: int|
                    0 <= j < i ==> {
                        &&& (#[trigger] items@[j]).0 == j
                        &&& decode_report(items@[j].1@) is Some
                        &&& decode_report(items@[j].1@)->0.report_id == j
                    },
            decreases items@.len() - i,
        {
            let sound = match Report::from_bytes(&items[i].1) {
                Some(report) => items[i].0 == i as u64 && report.report_id == i as u64,
                None => false,
            };
            if !sound {
                proof {
                    assert forall|count: u64| !books(store@, count) by {
                        if books(store@, count) {
                            lemma_listing_is_dense(store@, 0, count, items@);
                            assert(items@[i as int].0 == i);
                            assert(store@[i as u64] == items@[i as int].1@);
                        }
                    }
                }
                return None;
            }
            i += 1;
        }
        let next_id = items.len() as u64;
        let book = ReportBook { store, next_id };
        proof {
            assert forall|key: u64| book.store@.contains_key(key) <==> key < next_id by {
                if key < next_id {
                    assert(book.store@.contains_key(items@[key as int].0));
                }
                if book.store@.contains_key(key) {
                    let at = choose|at: int|
                        0 <= at < items@.len() && (#[trigger] items@[at]).0 == key;
                    assert(items@[at].0 == at);
                }
            }
            assert forall|key: u64| key < next_id implies {
                &&& decode_report(#[trigger] book.store@[key]) is Some
                &&& decode_report(book.store@[key])->0.report_id == key
            } by {
                assert(book.store@[items@[key as int].0] == items@[key as int].1@);
            }
            assert(book@ =~= booked(store@, next_id));
        }
        Some(book)
    }

    /// The number of reports, which is the id that the next report gets.
    pub fn len(&self) -> (count: u64)
        requires
            self.wf(),
        ensures
            count == self@.len(),
    {
        self.next_id
    }

    /// Adds the report under the next id, which it returns. The id that
    /// `report` came with is not used. The book is full once it holds
    /// `u64::MAX` reports; then nothing is written.
    pub fn add(&mut self, report: Report) -> (result: Result<u64, LedgerError>)
        requires
            old(self).wf(),
        ensures
            final(self).wf(),
            match result {
                Ok(id) => id == old(self)@.len() && id < u64::MAX && final(self)@ == old(
                    self,
                )@.push(
                    numbered(report@, id),
                ),
                Err(e) => e == LedgerError::StorageError && old(self)@.len() == u64::MAX
                    && final(self)@ == old(self)@,
            },
    {
        if self.next_id == u64::MAX {
            return Err(LedgerError::StorageError);
        }
        let id = self.next_id;
        let mut stored = report;
        stored.report_id = id;
        let bytes = stored.to_bytes();
        self.store.insert(id, bytes);
        self.next_id = id + 1;
        assert(final(self)@ =~= old(self)@.push(numbered(report@, id)));
        Ok(id)
    }

    /// The report with this id, if there is one.
    pub fn get(&self, id: u64) -> (report: Option<Report>)
        requires
            self.wf(),
        ensures
            match report {
                Some(r) => id < self@.len() && r@ == self@[id as int],
                None => id >= self@.len(),
            },
    {
        match self.store.get(id) {
            Some(bytes) => Report::from_bytes(&bytes),
            None => None,
        }
    }

    /// Writes the report over the one that has its id.
    pub fn replace(&mut self, report: &Report)
        requires
            old(self).wf(),
            report.report_id < old(self)@.len(),
        ensures
            final(self).wf(),
            final(self)@ == old(self)@.update(report.report_id as int, report@),
    {
        let bytes = report.to_bytes();
        self.store.insert(report.report_id, bytes);
        assert(final(self)@ =~= old(self)@.update(report.report_id as int, report@));
    }

    /// Ids are positions: the report at position `i` of the book has the id
    /// `i`.
    pub proof fn lemma_ids_are_positions(&self)
        requires
            self.wf(),
        ensures
            forall|i: int| 0 <= i < self@.len() ==> (#[trigger] self@[i]).report_id == i,
    {
        assert forall|i: int| 0 <= i < self@.len() implies (#[trigger] self@[i]).report_id
            == i by {
            assert(decode_report(self.store@[i as u64])->0.report_id == i as u64);
        }
    }
}

impl Clone for Report {
    fn clone(&self) -> (copy: Report)
        ensures
            copy@ == self@,
    {
        Report {
            report_id: self.report_id,
            reporter: self.reporter.clone(),
            reported_entity: self.reported_entity.clone(),
            product_id: self.product_id.clone(),
            reason: self.reason.clone(),
            timestamp: self.timestamp,
            resolved: self.resolved,
            valid: self.valid,
        }
    }
}

} // verus!

//! Transfers: the two-phase handoff of custody from the owner of a product
//! to a named recipient.

use crate::codec::{
    field_number, field_optional_number, field_text, field_views, frame_fields, number_field,
    number_of, optional_number_field, optional_number_of, tag_field, text_bytes, text_of, unframe,
    unframe_fields,
};
use crate::identity::{Identity, MAX_IDENTITY_BYTES, copy_bytes};
use crate::error::LedgerError;
use crate::ledger::lemma_listing_is_dense;
use crate::lists::{keep_marked, lemma_marked_values};
use crate::store::{RecordRegion, RecordStore, Region, lists_from, record_store_region};
use vstd::prelude::*;

verus! {

/// How far a transfer has come. `Completed` is final.
#[derive(Clone, Copy, Debug, PartialEq, Eq, Structural)]
pub enum TransferStatus {
    Pending,
    Completed,
}

impl TransferStatus {
    /// The status that a one-byte field stands for.
    pub open spec fn of_field(field: Seq<u8>) -> Option<TransferStatus> {
        if field.len() != 1 {
            None
        } else if field[0] == 0 {
            Some(TransferStatus::Pending)
        } else if field[0] == 1 {
            Some(TransferStatus::Completed)
        } else {
            None
        }
    }

    /// The byte that stands for the status in a stored record.
    pub fn tag(self) -> (tag: u8)
        ensures
            TransferStatus::of_field(seq![tag]) == Some(self),
    {
        match self {
            TransferStatus::Pending => 0,
            TransferStatus::Completed => 1,
        }
    }

    /// Reads the status that a field stands for.
    pub fn from_field(field: &Vec<u8>) -> (status: Option<TransferStatus>)
        ensures
            status == TransferStatus::of_field(field@),
    {
        if field.len() != 1 {
            None
        } else if field[0] == 0 {
            Some(TransferStatus::Pending)
        } else if field[0] == 1 {
            Some(TransferStatus::Completed)
        } else {
            None
        }
    }
}

/// A handoff of one product from its owner to a recipient.
#[derive(Debug)]
pub struct Transfer {
    /// The position of the transfer in the book, assigned by the book.
    pub id: u64,
    pub product_id: String,
    pub from_user: Identity,
    pub to_user: Identity,
    pub transfer_type: String,
    pub status: TransferStatus,
    pub initiated_at: u64,
    /// When the recipient confirmed; `None` while the transfer is pending.
    pub completed_at: Option<u64>,
    pub notes: String,
}

/// A [`Transfer`] as a mathematical value.
pub struct TransferView {
    pub id: u64,
    pub product_id: Seq<char>,
    pub from_user: Seq<u8>,
    pub to_user: Seq<u8>,
    pub transfer_type: Seq<char>,
    pub status: TransferStatus,
    pub initiated_at: u64,
    pub completed_at: Option<u64>,
    pub notes: Seq<char>,
}

impl View for Transfer {
    type V = TransferView;

    open spec fn view(&self) -> TransferView {
        TransferView {
            id: self.id,
            product_id: self.product_id@,
            from_user: self.from_user@,
            to_user: self.to_user@,
            transfer_type: self.transfer_type@,
            status: self.status,
            initiated_at: self.initiated_at,
            completed_at: self.completed_at,
            notes: self.notes@,
        }
    }
}

/// The number of fields of a stored transfer.
pub const TRANSFER_FIELDS: usize = 9;

/// The transfer that a list of fields holds, if it holds one.
pub open spec fn transfer_of_fields(fields: Seq<Seq<u8>>) -> Option<TransferView> {
    if fields.len() == TRANSFER_FIELDS && number_of(fields[0]) is Some && text_of(fields[1]) is Some
        && fields[2].len() <= MAX_IDENTITY_BYTES && fields[3].len() <= MAX_IDENTITY_BYTES
        && text_of(fields[4]) is Some && TransferStatus::of_field(fields[5]) is Some && number_of(
        fields[6],
    ) is Some && optional_number_of(fields[7]) is Some && text_of(fields[8]) is Some {
        Some(
            TransferView {
                id: number_of(fields[0])->0,
                product_id: text_of(fields[1])->0,
                from_user: fields[2],
                to_user: fields[3],
                transfer_type: text_of(fields[4])->0,
                status: TransferStatus::of_field(fields[5])->0,
                initiated_at: number_of(fields[6])->0,
                completed_at: optional_number_of(fields[7])->0,
                notes: text_of(fields[8])->0,
            },
        )
    } else {
        None
    }
}

/// The transfer that a stored record holds, if it holds one.
pub open spec fn decode_transfer(bytes: Seq<u8>) -> Option<TransferView> {
    match unframe(bytes) {
        Some(fields) => transfer_of_fields(fields),
        None => None,
    }
}

/// Whether the records are a book of `count` transfers: a transfer under each
/// id below `count` and under no other key, each transfer under its own id.
pub open spec fn transfer_books(records: Map<u64, Seq<u8>>, count: u64) -> bool {
    &&& forall|key: u64| records.contains_key(key) <==> key < count
    &&& forall|key: u64|
        key < count ==> {
            &&& decode_transfer(#[trigger] records[key]) is Some
            &&& decode_transfer(records[key])->0.id == key
        }
}

/// The book of `count` transfers that the records hold.
pub open spec fn transfers_booked(records: Map<u64, Seq<u8>>, count: u64) -> Seq<TransferView> {
    Seq::new(count as nat, |i: int| decode_transfer(records[i as u64])->0)
}

/// `transfer` with another id.
pub open spec fn renumbered(transfer: TransferView, id: u64) -> TransferView {
    TransferView { id, ..transfer }
}

/// The mathematical values of a list of transfers.
pub open spec fn transfer_views(transfers: Seq<Transfer>) -> Seq<TransferView> {
    Seq::new(transfers.len(), |i: int| transfers[i]@)
}

impl Transfer {
    /// The stored form of the transfer. Reading it back gives the same
    /// transfer.
    pub fn to_bytes(&self) -> (bytes: Vec<u8>)
        ensures
            decode_transfer(bytes@) == Some(self@),
    {
        let mut fields: Vec<Vec<u8>> = Vec::new();
        fields.push(number_field(self.id));
        fields.push(text_bytes(&self.product_id));
        fields.push(copy_bytes(self.from_user.as_bytes()));
        fields.push(copy_bytes(self.to_user.as_bytes()));
        fields.push(text_bytes(&self.transfer_type));
        fields.push(tag_field(self.status.tag()));
        fields.push(number_field(self.initiated_at));
        fields.push(optional_number_field(self.completed_at));
        fields.push(text_bytes(&self.notes));
        let bytes = frame_fields(&fields);
        proof {
            let views = field_views(fields@);
            assert(transfer_of_fields(views) == Some(self@));
        }
        bytes
    }

    /// Reads a transfer back from its stored form, or gives `None` when the
    /// bytes are not the stored form of any transfer.
    pub fn from_bytes(bytes: &Vec<u8>) -> (transfer: Option<Transfer>)
        ensures
            match transfer {
                Some(t) => decode_transfer(bytes@) == Some(t@),
                None => decode_transfer(bytes@) is None,
            },
    {
        let fields = unframe_fields(bytes)?;
        let ghost views = field_views(fields@);
        if fields.len() != TRANSFER_FIELDS {
            return None;
        }
        assert(forall|i: int| 0 <= i < 9 ==> views[i] == (#[trigger] fields@[i])@);
        let id = field_number(&fields[0])?;
        let product_id = field_text(&fields[1])?;
        let from_user = Identity::from_bytes(copy_bytes(&fields[2]))?;
        let to_user = Identity::from_bytes(copy_bytes(&fields[3]))?;
        let transfer_type = field_text(&fields[4])?;
        let status = TransferStatus::from_field(&fields[5])?;
        let initiated_at = field_number(&fields[6])?;
        let completed_at = field_optional_number(&fields[7])?;
        let notes = field_text(&fields[8])?;
        Some(
            Transfer {
                id,
                product_id,
                from_user,
                to_user,
                transfer_type,
                status,
                initiated_at,
                completed_at,
                notes,
            },
        )
    }
}

/// The book of transfers. The transfer at position `i` has the id `i`: ids
/// start at zero and rise by one with every transfer, so that every
/// transfer gets an id that no other has.
pub struct TransferBook {
    store: RecordStore,
    next_id: u64,
}

impl View for TransferBook {
    type V = Seq<TransferView>;

    closed spec fn view(&self) -> Seq<TransferView> {
        Seq::new(self.next_id as nat, |i: int| decode_transfer(self.store@[i as u64])->0)
    }
}

impl TransferBook {
    /// Whether the book is sound: it holds a transfer under each id below the
    /// next one and under no other, and each transfer carries its own id.
    pub closed spec fn wf(&self) -> bool {
        &&& forall|key: u64| self.store@.contains_key(key) <==> key < self.next_id
        &&& forall|key: u64|
            key < self.next_id ==> {
                &&& decode_transfer(#[trigger] self.store@[key]) is Some
                &&& decode_transfer(self.store@[key])->0.id == key
            }
    }

    /// An empty book on the region.
    pub(crate) fn new(region: Region) -> (book: TransferBook)
        ensures
            book.wf(),
            book@.len() == 0,
    {
        TransferBook { store: RecordStore::new(region), next_id: 0 }
    }

    /// The region that the book lives on.
    pub closed spec fn region(&self) -> RecordRegion {
        record_store_region(self.store)
    }

    /// Gives up the book and hands back the region that holds it.
    pub(crate) fn into_region(self) -> (region: RecordRegion)
        ensures
            region == self.region(),
    {
        self.store.into_region()
    }

    /// The book that the region holds, or `None` when what it holds is no
    /// sound book: an entry that is no transfer, a transfer
    /// under another id than its own, or a gap in the ids. What the region
    /// holds is not known here: `from_store` says what comes of each store.
    pub(crate) fn restore(region: RecordRegion) -> (book: Option<TransferBook>)
        ensures
            book matches Some(b) ==> b.wf() && b.region() == region,
    {
        TransferBook::from_store(RecordStore::reopen(region))
    }

    /// The book that a store holds, where it holds one: its entries are
    /// transfers under the ids from zero up to their number, each under its
    /// own id. Any other store holds no book.
    pub fn from_store(store: RecordStore) -> (book: Option<TransferBook>)
        ensures
            match book {
                Some(b) => {
                    &&& b.wf()
                    &&& b.region() == record_store_region(store)
                    &&& transfer_books(store@, b@.len() as u64)
                    &&& b@ == transfers_booked(store@, b@.len() as u64)
                },
                None => forall|count: u64| !transfer_books(store@, count),
            },
    {
        let items = store.entries();
        let mut i: usize = 0;
        while i < items.len()
            invariant
                i <= items@.len(),
                lists_from(store@, 0, items@),
                forall|j: int|
                    0 <= j < i ==> {
                        &&& (#[trigger] items@[j]).0 == j
                        &&& decode_transfer(items@[j].1@) is Some
                        &&& decode_transfer(items@[j].1@)->0.id == j
                    },
            decreases items@.len() - i,
        {
            let sound = match Transfer::from_bytes(&items[i].1) {
                Some(transfer) => items[i].0 == i as u64 && transfer.id == i as u64,
                None => false,
            };
            if !sound {
                proof {
                    assert forall|count: u64| !transfer_books(store@, count) by {
                        if transfer_books(store@, count) {
                            lemma_listing_is_dense(store@, 0, count, items@);
                            assert(items@[i as int].0 == i);
                            assert(store@[i as u64] == items@[i as int].1@);
                        }
                    }
                }
                return None;
            }
            i += 1;
        }
        let next_id = items.len() as u64;
        let book = TransferBook { store, next_id };
        proof {
            assert forall|key: u64| book.store@.contains_key(key) <==> key < next_id by {
                if key < next_id {
                    assert(book.store@.contains_key(items@[key as int].0));
                }
                if book.store@.contains_key(key) {
                    let at = choose|at: int|
                        0 <= at < items@.len() && (#[trigger] items@[at]).0 == key;
                    assert(items@[at].0 == at);
                }
            }
            assert forall|key: u64| key < next_id implies {
                &&& decode_transfer(#[trigger] book.store@[key]) is Some
                &&& decode_transfer(book.store@[key])->0.id == key
            } by {
                assert(book.store@[items@[key as int].0] == items@[key as int].1@);
            }
            assert(book@ =~= transfers_booked(store@, next_id));
        }
        Some(book)
    }

    /// The number of transfers, which is the id that the next transfer gets.
    pub fn len(&self) -> (count: u64)
        requires
            self.wf(),
        ensures
            count == self@.len(),
    {
        self.next_id
    }

    /// Adds the transfer under the next id, which it returns. The id that
    /// `transfer` came with is not used. The book is full once it holds
    /// `u64::MAX` transfers; then nothing is written.
    pub fn add(&mut self, transfer: Transfer) -> (result: Result<u64, LedgerError>)
        requires
            old(self).wf(),
        ensures
            final(self).wf(),
            match result {
                Ok(id) => id == old(self)@.len() && id < u64::MAX && final(self)@ == old(
                    self,
                )@.push(
                    renumbered(transfer@, id),
                ),
                Err(e) => e == LedgerError::StorageError && old(self)@.len() == u64::MAX
                    && final(self)@ == old(self)@,
            },
    {
        if self.next_id == u64::MAX {
            return Err(LedgerError::StorageError);
        }
        let id = self.next_id;
        let mut stored = transfer;
        stored.id = id;
        let bytes = stored.to_bytes();
        self.store.insert(id, bytes);
        self.next_id = id + 1;
        assert(final(self)@ =~= old(self)@.push(renumbered(transfer@, id)));
        Ok(id)
    }

    /// The transfer with this id, if there is one.
    pub fn get(&self, id: u64) -> (transfer: Option<Transfer>)
        requires
            self.wf(),
        ensures
            match transfer {
                Some(r) => id < self@.len() && r@ == self@[id as int],
                None => id >= self@.len(),
            },
    {
        match self.store.get(id) {
            Some(bytes) => Transfer::from_bytes(&bytes),
            None => None,
        }
    }

    /// Writes the transfer over the one that has its id.
    pub fn replace(&mut self, transfer: &Transfer)
        requires
            old(self).wf(),
            transfer.id < old(self)@.len(),
        ensures
            final(self).wf(),
            final(self)@ == old(self)@.update(transfer.id as int, transfer@),
    {
        let bytes = transfer.to_bytes();
        self.store.insert(transfer.id, bytes);
        assert(final(self)@ =~= old(self)@.update(transfer.id as int, transfer@));
    }

    /// Every transfer, in ascending id order.
    pub fn all(&self) -> (transfers: Vec<Transfer>)
        requires
            self.wf(),
        ensures
            transfer_views(transfers@) == self@,
    {
        let items = self.store.entries();
        proof {
            lemma_listing_is_dense(self.store@, 0, self.next_id, items@);
        }
        let mut transfers: Vec<Transfer> = Vec::new();
        let mut i: usize = 0;
        while i < items.len()
            invariant
                self.wf(),
                i <= items@.len(),
                items@.len() == self.next_id,
                transfers@.len() == i,
                forall|j: int|
                    0 <= j < items@.len() ==> (#[trigger] items@[j]).0 == j
                        && self.store@[items@[j].0] == items@[j].1@,
                forall|j: int| 0 <= j < i ==> (#[trigger] transfers@[j])@ == self@[j],
            decreases items@.len() - i,
        {
            match Transfer::from_bytes(&items[i].1) {
                Some(transfer) => {
                    transfers.push(transfer);
                },
                None => {
                    assert(decode_transfer(self.store@[items@[i as int].0]) is Some);
                },
            }
            i += 1;
        }
        assert(transfer_views(transfers@) =~= self@);
        transfers
    }

    /// Ids are positions: the transfer at position `i` of the book has the id
    /// `i`.
    pub proof fn lemma_ids_are_positions(&self)
        requires
            self.wf(),
        ensures
            forall|i: int| 0 <= i < self@.len() ==> (#[trigger] self@[i]).id == i,
    {
        assert forall|i: int| 0 <= i < self@.len() implies (#[trigger] self@[i]).id
            == i by {
            assert(decode_transfer(self.store@[i as u64])->0.id == i as u64);
        }
    }
}

/// The transfers that `user` sends or receives, in the order of
/// `transfers`.
pub open spec fn transfers_of_user(transfers: Seq<TransferView>, user: Seq<u8>) -> Seq<
    TransferView,
> {
    transfers.filter(|t: TransferView| t.from_user == user || t.to_user == user)
}

/// Keeps the transfers that `user` sends or receives, in their order.
pub fn select_user(transfers: Vec<Transfer>, user: &Identity) -> (kept: Vec<Transfer>)
    ensures
        transfer_views(kept@) == transfers_of_user(transfer_views(transfers@), user@),
{
    let mut marks: Vec<bool> = Vec::new();
    let mut i: usize = 0;
    while i < transfers.len()
        invariant
            i <= transfers@.len(),
            marks@.len() == i,
            forall|j: int|
                0 <= j < i ==> marks@[j] == ((#[trigger] transfers@[j])@.from_user == user@
                    || transfers@[j]@.to_user == user@),
        decreases transfers@.len() - i,
    {
        marks.push(transfers[i].from_user.same(user) || transfers[i].to_user.same(user));
        i += 1;
    }
    let ghost value = |t: Transfer| t@;
    let ghost test = |t: TransferView| t.from_user == user@ || t.to_user == user@;
    let ghost all = transfers@;
    let kept = keep_marked(transfers, &marks);
    proof {
        lemma_marked_values(all, marks@, value, test);
        assert(transfer_views(kept@) =~= kept@.map_values(value));
        assert(transfer_views(all) =~= all.map_values(value));
    }
    kept
}

impl Clone for Transfer {
    fn clone(&self) -> (copy: Transfer)
        ensures
            copy@ == self@,
    {
        Transfer {
            id: self.id,
            product_id: self.product_id.clone(),
            from_user: self.from_user.clone(),
            to_user: self.to_user.clone(),
            transfer_type: self.transfer_type.clone(),
            status: self.status,
            initiated_at: self.initiated_at,
            completed_at: self.completed_at,
            notes: self.notes.clone(),
        }
    }
}

} // verus!

//! The state of the ledger and the operations on it.
//!
//! Each operation that changes the state names the acting identity and the
//! current time, checks what it needs before it writes anything, and on a
//! refusal leaves the state as it was. Each change to a product or a
//! transfer appends exactly one event to the log, which carries the role
//! that the registry has for the actor at that time.

use crate::codec::text_bytes;
use crate::error::LedgerError;
use crate::events::TrackingEvent;
use crate::identity::{Identity, copy_bytes};
use crate::ledger::{
    Ledger, event_views, events_after, events_of_product, ids_are_positions, with_id,
};
use crate::model::{
    StateView, add_rating_refusal, add_report_refusal, after_add_rating, after_add_report,
    after_complete, after_create_product, after_record_event, after_register, after_resolve,
    after_transfer, after_update_status, complete_refusal, completed, completion_event,
    create_product_refusal, creation_event, empty_state, is_sound, lemma_sound_after_add_rating,
    lemma_sound_after_add_report, lemma_sound_after_complete, lemma_sound_after_create_product,
    lemma_sound_after_record_event, lemma_sound_after_register, lemma_sound_after_resolve,
    lemma_sound_after_transfer, lemma_sound_after_update_status, new_product, new_transfer,
    record_event_refusal, report_is_sound, resolve_refusal, role_of, status_event, transfer_event,
    transfer_is_sound, transfer_refusal, update_status_refusal, with_status,
};
use crate::products::{Product, ProductStatus, ProductView, product_key};
use crate::ratings::{MAX_SCORE, MIN_SCORE, Rating, plausible};
use crate::registry::Registration;
use crate::reports::{Report, ReportBook};
use crate::roles::UserRole;
use crate::regions::StableRegions;
use crate::store::{KeyedRegion, KeyedStore, RecordRegion, RecordStore};
use crate::table::{
    Stored, Table, keep_listed, lemma_listing_covers, lists_table, lists_where, record_views,
};
use crate::text::{decimal_text, generate_id, joined};
use crate::transfers::{
    Transfer, TransferBook, TransferStatus, select_user, transfer_views, transfers_of_user,
};
use crate::verification::{chain_is_valid, verify_chain};
use vstd::prelude::*;
use vstd::string::*;

verus! {

/// The number of regions of stable memory that a state lives on.
pub const STATE_REGIONS: usize = 6;

/// Everything the ledger keeps: the registry, the log of events, the
/// products, the transfers, the ratings and the reports.
pub struct State {
    users: Table<Registration>,
    ledger: Ledger,
    products: Table<Product>,
    transfers: TransferBook,
    ratings: Table<Rating>,
    reports: ReportBook,
}

/// The regions that a state has lived on, each with what the state has left
/// on it. Only a state gives them out, and only [`State::restore`] takes
/// them.
pub struct StateRegions {
    users: KeyedRegion,
    ledger: RecordRegion,
    products: KeyedRegion,
    transfers: RecordRegion,
    ratings: KeyedRegion,
    reports: RecordRegion,
}

impl View for State {
    type V = StateView;

    closed spec fn view(&self) -> StateView {
        StateView {
            users: self.users@,
            events: self.ledger@,
            products: self.products@,
            transfers: self.transfers@,
            ratings: self.ratings@,
            reports: self.reports@,
        }
    }
}

impl State {
    /// Whether the state is sound. Every operation keeps it so.
    pub closed spec fn wf(&self) -> bool {
        &&& self.users.wf()
        &&& self.ledger.wf()
        &&& self.products.wf()
        &&& self.transfers.wf()
        &&& self.ratings.wf()
        &&& self.reports.wf()
        &&& is_sound(self@)
    }

    /// A state that holds nothing, on the first [`STATE_REGIONS`] of the
    /// regions; it is refused where there are fewer. Its stores are made
    /// anew: what the regions held is given up.
    pub fn new(regions: StableRegions) -> (result: Result<State, LedgerError>)
        ensures
            match result {
                Ok(state) => regions@.len() >= STATE_REGIONS && state.wf() && state@
                    == empty_state(),
                Err(e) => e == LedgerError::StorageError && regions@.len() < STATE_REGIONS,
            },
    {
        let mut regions = regions;
        if regions.len() < STATE_REGIONS {
            return Err(LedgerError::StorageError);
        }
        let users = Table::new(regions.next());
        let ledger = Ledger::new(regions.next());
        let products = Table::new(regions.next());
        let transfers = TransferBook::new(regions.next());
        let ratings = Table::new(regions.next());
        let reports = ReportBook::new(regions.next());
        let state = State { users, ledger, products, transfers, ratings, reports };
        proof {
            assert(state@.events =~= Seq::empty());
            assert(state@.transfers =~= Seq::empty());
            assert(state@.reports =~= Seq::empty());
        }
        Ok(state)
    }

    /// The regions of a state whose parts live on these.
    pub closed spec fn regions_of(
        users: KeyedRegion,
        ledger: RecordRegion,
        products: KeyedRegion,
        transfers: RecordRegion,
        ratings: KeyedRegion,
        reports: RecordRegion,
    ) -> StateRegions {
        StateRegions { users, ledger, products, transfers, ratings, reports }
    }

    /// The regions that the state lives on.
    pub closed spec fn regions(&self) -> StateRegions {
        State::regions_of(
            self.users.region(),
            self.ledger.region(),
            self.products.region(),
            self.transfers.region(),
            self.ratings.region(),
            self.reports.region(),
        )
    }

    /// Gives up the state and hands back the regions that hold it, from
    /// which `restore` reads it again.
    pub fn into_regions(self) -> (regions: StateRegions)
        ensures
            regions == self.regions(),
    {
        StateRegions {
            users: self.users.into_region(),
            ledger: self.ledger.into_region(),
            products: self.products.into_region(),
            transfers: self.transfers.into_region(),
            ratings: self.ratings.into_region(),
            reports: self.reports.into_region(),
        }
    }

    /// The state that the regions hold, as the state that gave them out has
    /// left it there. Every stored record is read and checked: where one
    /// is not sound, nothing is accepted and the error says so. A state
    /// that is accepted lives on the regions. What the regions hold is not
    /// known here: `from_store` of each part and `assemble` say what comes
    /// of each content.
    pub fn restore(regions: StateRegions) -> (result: Result<State, LedgerError>)
        ensures
            match result {
                Ok(state) => state.wf() && state.regions() == regions,
                Err(e) => e == LedgerError::StorageError,
            },
    {
        let users = match Table::restore(regions.users) {
            Some(table) => table,
            None => {
                return Err(LedgerError::StorageError);
            },
        };
        let ledger = match Ledger::restore(regions.ledger) {
            Some(ledger) => ledger,
            None => {
                return Err(LedgerError::StorageError);
            },
        };
        let products = match Table::restore(regions.products) {
            Some(table) => table,
            None => {
                return Err(LedgerError::StorageError);
            },
        };
        let transfers = match TransferBook::restore(regions.transfers) {
            Some(book) => book,
            None => {
                return Err(LedgerError::StorageError);
            },
        };
        let ratings = match Table::restore(regions.ratings) {
            Some(table) => table,
            None => {
                return Err(LedgerError::StorageError);
            },
        };
        let reports = match ReportBook::restore(regions.reports) {
            Some(book) => book,
            None => {
                return Err(LedgerError::StorageError);
            },
        };
        State::assemble(users, ledger, products, transfers, ratings, reports)
    }

    /// The state that the first [`STATE_REGIONS`] of the regions hold, as
    /// the program has found them: a state that an earlier run of the
    /// program has left there, or the empty state where they held nothing.
    /// Every stored record is read and checked: where one is not sound, or
    /// the regions are too few, nothing is accepted and the error says so.
    /// What the regions hold is not known here: `from_store` of each part
    /// and `assemble` say what comes of each content.
    pub fn load(regions: StableRegions) -> (result: Result<State, LedgerError>)
        ensures
            match result {
                Ok(state) => regions@.len() >= STATE_REGIONS && state.wf(),
                Err(e) => e == LedgerError::StorageError,
            },
    {
        let mut regions = regions;
        if regions.len() < STATE_REGIONS {
            return Err(LedgerError::StorageError);
        }
        let users = match Table::from_store(KeyedStore::open(regions.next())) {
            Some(table) => table,
            None => {
                return Err(LedgerError::StorageError);
            },
        };
        let ledger = match Ledger::from_store(RecordStore::open(regions.next())) {
            Some(ledger) => ledger,
            None => {
                return Err(LedgerError::StorageError);
            },
        };
        let products = match Table::from_store(KeyedStore::open(regions.next())) {
            Some(table) => table,
            None => {
                return Err(LedgerError::StorageError);
            },
        };
        let transfers = match TransferBook::from_store(RecordStore::open(regions.next())) {
            Some(book) => book,
            None => {
                return Err(LedgerError::StorageError);
            },
        };
        let ratings = match Table::from_store(KeyedStore::open(regions.next())) {
            Some(table) => table,
            None => {
                return Err(LedgerError::StorageError);
            },
        };
        let reports = match ReportBook::from_store(RecordStore::open(regions.next())) {
            Some(book) => book,
            None => {
                return Err(LedgerError::StorageError);
            },
        };
        State::assemble(users, ledger, products, transfers, ratings, reports)
    }

    /// The state made of its parts, where they go together: every rating
    /// is plausible, every transfer has left an event, a transfer carries
    /// a completion time exactly when it is completed, and a report
    /// carries a finding exactly when it is resolved. Any other parts are
    /// refused.
    pub fn assemble(
        users: Table<Registration>,
        ledger: Ledger,
        products: Table<Product>,
        transfers: TransferBook,
        ratings: Table<Rating>,
        reports: ReportBook,
    ) -> (result: Result<State, LedgerError>)
        requires
            users.wf(),
            ledger.wf(),
            products.wf(),
            transfers.wf(),
            ratings.wf(),
            reports.wf(),
        ensures
            match result {
                Ok(state) => {
                    &&& state.wf()
                    &&& state@ == (StateView {
                        users: users@,
                        events: ledger@,
                        products: products@,
                        transfers: transfers@,
                        ratings: ratings@,
                        reports: reports@,
                    })
                    &&& is_sound(state@)
                    &&& state.regions() == State::regions_of(
                        users.region(),
                        ledger.region(),
                        products.region(),
                        transfers.region(),
                        ratings.region(),
                        reports.region(),
                    )
                },
                Err(e) => e == LedgerError::StorageError && !is_sound(
                    StateView {
                        users: users@,
                        events: ledger@,
                        products: products@,
                        transfers: transfers@,
                        ratings: ratings@,
                        reports: reports@,
                    },
                ),
            },
    {
        let ghost whole = StateView {
            users: users@,
            events: ledger@,
            products: products@,
            transfers: transfers@,
            ratings: ratings@,
            reports: reports@,
        };
        let kept = ratings.list();
        let ghost views = record_views(kept@);
        let mut i: usize = 0;
        while i < kept.len()
            invariant
                i <= kept@.len(),
                views == record_views(kept@),
                lists_table::<Rating>(ratings@, views),
                whole == (StateView {
                    users: users@,
                    events: ledger@,
                    products: products@,
                    transfers: transfers@,
                    ratings: ratings@,
                    reports: reports@,
                }),
                forall|j: int| 0 <= j < i ==> plausible((#[trigger] kept@[j])@),
            decreases kept@.len() - i,
        {
            let rating = &kept[i];
            let most: u128 = MAX_SCORE as u128 * rating.num_ratings as u128;
            if rating.num_ratings < 1 || rating.total_score < rating.num_ratings
                || rating.total_score as u128 > most {
                proof {
                    let who = Rating::key_of(views[i as int]);
                    assert(views[i as int] == kept@[i as int]@);
                    assert(ratings@.contains_key(who) && ratings@[who] == views[i as int]);
                    assert(whole.ratings.contains_key(who) && !plausible(whole.ratings[who]));
                }
                return Err(LedgerError::StorageError);
            }
            i += 1;
        }
        proof {
            assert forall|who: Seq<u8>| ratings@.contains_key(who) implies plausible(
                #[trigger] ratings@[who],
            ) by {
                lemma_listing_covers::<Rating>(ratings@, views, who);
                let at = choose|at: int|
                    0 <= at < views.len() && #[trigger] views[at] == ratings@[who];
                assert(views[at] == kept@[at]@);
            }
        }
        if transfers.len() > ledger.len() {
            return Err(LedgerError::StorageError);
        }
        let started = transfers.all();
        let mut i: usize = 0;
        while i < started.len()
            invariant
                i <= started@.len(),
                transfer_views(started@) == transfers@,
                whole == (StateView {
                    users: users@,
                    events: ledger@,
                    products: products@,
                    transfers: transfers@,
                    ratings: ratings@,
                    reports: reports@,
                }),
                forall|j: int| 0 <= j < i ==> transfer_is_sound(#[trigger] transfers@[j]),
            decreases started@.len() - i,
        {
            let transfer = &started[i];
            assert(transfer@ == transfer_views(started@)[i as int]);
            let completed = match transfer.status {
                TransferStatus::Completed => true,
                TransferStatus::Pending => false,
            };
            if completed != transfer.completed_at.is_some() {
                assert(!transfer_is_sound(whole.transfers[i as int]));
                return Err(LedgerError::StorageError);
            }
            i += 1;
        }
        assert(started@.len() == transfer_views(started@).len());
        let mut id: u64 = 0;
        while id < reports.len()
            invariant
                reports.wf(),
                whole == (StateView {
                    users: users@,
                    events: ledger@,
                    products: products@,
                    transfers: transfers@,
                    ratings: ratings@,
                    reports: reports@,
                }),
                id <= reports@.len(),
                forall|j: int| 0 <= j < id ==> report_is_sound(#[trigger] reports@[j]),
            decreases reports@.len() - id,
        {
            match reports.get(id) {
                Some(report) => {
                    if report.resolved != report.valid.is_some() {
                        assert(!report_is_sound(whole.reports[id as int]));
                        return Err(LedgerError::StorageError);
                    }
                },
                None => {},
            }
            id += 1;
        }
        Ok(State { users, ledger, products, transfers, ratings, reports })
    }

    /// What holds of every sound state: each record is kept under its own
    /// key, ids of events, transfers and reports are their positions, every
    /// kept rating is plausible, every transfer has left an event, a
    /// transfer carries a completion time exactly when it is completed, and
    /// a report carries a finding exactly when it is resolved.
    pub proof fn lemma_invariants(&self)
        requires
            self.wf(),
        ensures
            forall|who: Seq<u8>|
                self@.users.contains_key(who) ==> (#[trigger] self@.users[who]).identity == who,
            forall|key: Seq<u8>|
                self@.products.contains_key(key) ==> product_key(
                    (#[trigger] self@.products[key]).id,
                ) == key,
            forall|who: Seq<u8>|
                self@.ratings.contains_key(who) ==> (#[trigger] self@.ratings[who]).subject == who,
            ids_are_positions(self@.events),
            forall|i: int| 0 <= i < self@.transfers.len() ==> (#[trigger] self@.transfers[i]).id == i,
            forall|i: int|
                0 <= i < self@.reports.len() ==> (#[trigger] self@.reports[i]).report_id == i,
            is_sound(self@),
    {
        self.users.lemma_keys();
        self.products.lemma_keys();
        self.transfers.lemma_ids_are_positions();
        self.ratings.lemma_keys();
        self.ledger.lemma_ids_are_positions();
        self.reports.lemma_ids_are_positions();
    }

    /// Registers the caller with a role. An identity is registered once:
    /// a second registration is a conflict.
    pub fn register_user(&mut self, caller: &Identity, role: UserRole) -> (result: Result<
        (),
        LedgerError,
    >)
        requires
            old(self).wf(),
        ensures
            final(self).wf(),
            final(self)@ == after_register(old(self)@, caller@, role),
            match result {
                Ok(()) => !old(self)@.users.contains_key(caller@),
                Err(e) => e == LedgerError::Conflict && old(self)@.users.contains_key(caller@),
            },
    {
        let key = copy_bytes(caller.as_bytes());
        if self.users.contains(&key) {
            return Err(LedgerError::Conflict);
        }
        let registration = Registration { identity: caller.clone(), role };
        self.users.put(&registration);
        proof {
            lemma_sound_after_register(old(self)@, caller@, role);
        }
        Ok(())
    }

    /// The role that the identity is registered with, if it is registered.
    pub fn get_user_role(&self, who: &Identity) -> (role: Option<UserRole>)
        requires
            self.wf(),
        ensures
            role == role_of(self@, who@),
    {
        let key = copy_bytes(who.as_bytes());
        match self.users.get(&key) {
            Some(registration) => Some(registration.role),
            None => None,
        }
    }

    /// Records an event about a product and returns its id. The caller must
    /// be registered, and a supplier may record `PRODUCED` only.
    pub fn record_event(
        &mut self,
        caller: &Identity,
        now: u64,
        product_id: String,
        event_type: String,
        location: String,
        metadata: Vec<(String, String)>,
    ) -> (result: Result<u64, LedgerError>)
        requires
            old(self).wf(),
        ensures
            final(self).wf(),
            final(self)@ == after_record_event(
                old(self)@,
                caller@,
                now,
                product_id@,
                event_type@,
                location@,
                metadata.deep_view(),
            ),
            match record_event_refusal(old(self)@, caller@, event_type@) {
                Some(e) => result == Err::<u64, LedgerError>(e),
                None => result == Ok::<u64, LedgerError>(old(self)@.events.len() as u64),
            },
    {
        let role = match self.get_user_role(caller) {
            Some(role) => role,
            None => {
                return Err(LedgerError::Unauthorized);
            },
        };
        let produced = String::from_str("PRODUCED");
        if role == UserRole::Supplier && event_type != produced {
            return Err(LedgerError::ValidationError);
        }
        if self.ledger.len() == u64::MAX {
            return Err(LedgerError::StorageError);
        }
        let event = TrackingEvent {
            id: 0,
            product_id,
            user_id: caller.clone(),
            user_role: Some(role),
            event_type,
            description: String::new(),
            location,
            timestamp: now,
            metadata,
        };
        proof {
            lemma_sound_after_record_event(
                old(self)@,
                caller@,
                now,
                product_id@,
                event_type@,
                location@,
                metadata.deep_view(),
            );
        }
        self.ledger.append(event)
    }

    /// The events after the one with the id `cursor`, in ascending id order.
    /// A cursor at or beyond the last id gives none.
    pub fn get_events_since(&self, cursor: u64) -> (events: Vec<TrackingEvent>)
        requires
            self.wf(),
        ensures
            event_views(events@) == events_after(self@.events, cursor),
    {
        self.ledger.events_since(cursor)
    }

    /// The events about the product, in ascending id order; none when the
    /// product has no event.
    pub fn get_product_tracking_history(&self, product_id: &String) -> (events: Vec<
        TrackingEvent,
    >)
        requires
            self.wf(),
        ensures
            event_views(events@) == events_of_product(self@.events, product_id@),
    {
        self.ledger.history_of(product_id)
    }

    /// The events about the product, in ascending id order. A product with
    /// no event is not found.
    pub fn get_product_history(&self, product_id: &String) -> (result: Result<
        Vec<TrackingEvent>,
        LedgerError,
    >)
        requires
            self.wf(),
        ensures
            match result {
                Ok(events) => events@.len() > 0 && event_views(events@) == events_of_product(
                    self@.events,
                    product_id@,
                ),
                Err(e) => e == LedgerError::NotFound && events_of_product(
                    self@.events,
                    product_id@,
                ).len() == 0,
            },
    {
        let events = self.ledger.history_of(product_id);
        if events.len() == 0 {
            Err(LedgerError::NotFound)
        } else {
            Ok(events)
        }
    }

    /// Whether the custody chain of the product is valid. A product with no
    /// event is not found.
    pub fn verify_product(&self, product_id: &String) -> (result: Result<bool, LedgerError>)
        requires
            self.wf(),
        ensures
            match result {
                Ok(valid) => events_of_product(self@.events, product_id@).len() > 0 && valid
                    == chain_is_valid(events_of_product(self@.events, product_id@)),
                Err(e) => e == LedgerError::NotFound && events_of_product(
                    self@.events,
                    product_id@,
                ).len() == 0,
            },
    {
        let events = self.ledger.history_of(product_id);
        if events.len() == 0 {
            Err(LedgerError::NotFound)
        } else {
            Ok(verify_chain(&events))
        }
    }

    /// Creates a product that the caller supplies and owns, and records
    /// the creation. The product gets the id that `generate_id` gives for
    /// the caller and the time; a product that already has this id is a
    /// conflict.
    pub fn create_product(
        &mut self,
        caller: &Identity,
        now: u64,
        name: String,
        description: String,
        batch_number: String,
        expiry_date: Option<u64>,
        price_bits: u64,
        quantity: u32,
        category: String,
        origin: String,
        certifications: Vec<String>,
    ) -> (result: Result<Product, LedgerError>)
        requires
            old(self).wf(),
        ensures
            final(self).wf(),
            final(self)@ == after_create_product(
                old(self)@,
                caller@,
                now,
                new_product(
                    caller@,
                    now,
                    name@,
                    description@,
                    batch_number@,
                    expiry_date,
                    price_bits,
                    quantity,
                    category@,
                    origin@,
                    certifications.deep_view(),
                ),
            ),
            match create_product_refusal(old(self)@, caller@, now) {
                Some(e) => result matches Err(refusal) && refusal == e,
                None => result matches Ok(product) && product@ == new_product(
                    caller@,
                    now,
                    name@,
                    description@,
                    batch_number@,
                    expiry_date,
                    price_bits,
                    quantity,
                    category@,
                    origin@,
                    certifications.deep_view(),
                ),
            },
    {
        let role = self.get_user_role(caller);
        let product = Product {
            id: generate_id(now, caller),
            name,
            description,
            supplier_id: caller.clone(),
            current_owner: caller.clone(),
            status: ProductStatus::Created,
            created_at: now,
            updated_at: now,
            batch_number,
            expiry_date,
            price_bits,
            quantity,
            category,
            origin,
            certifications,
        };
        if self.products.contains(&product.key()) {
            return Err(LedgerError::Conflict);
        }
        if self.ledger.len() == u64::MAX {
            return Err(LedgerError::StorageError);
        }
        let mut metadata: Vec<(String, String)> = Vec::new();
        metadata.push((String::from_str("batch_number"), product.batch_number.clone()));
        metadata.push((String::from_str("quantity"), decimal_text(quantity as u64)));
        let event = TrackingEvent {
            id: 0,
            product_id: product.id.clone(),
            user_id: caller.clone(),
            user_role: role,
            event_type: String::from_str("PRODUCT_CREATED"),
            description: String::from_str("Product created by supplier"),
            location: product.origin.clone(),
            timestamp: now,
            metadata,
        };
        proof {
            let id = old(self)@.events.len() as u64;
            assert(event@.metadata =~= creation_event(id, role, product@).metadata);
            assert(with_id(event@, id) == creation_event(id, role, product@));
        }
        proof {
            lemma_sound_after_create_product(old(self)@, caller@, now, product@);
        }
        self.products.put(&product);
        let _ = self.ledger.append(event);
        Ok(product)
    }

    /// Sets the status of a product, which only its owner may do, and
    /// records the change. Any status may follow any other.
    pub fn update_product_status(
        &mut self,
        caller: &Identity,
        now: u64,
        product_id: String,
        new_status: ProductStatus,
        location: String,
        notes: String,
    ) -> (result: Result<Product, LedgerError>)
        requires
            old(self).wf(),
        ensures
            final(self).wf(),
            final(self)@ == after_update_status(
                old(self)@,
                caller@,
                now,
                product_id@,
                new_status,
                location@,
                notes@,
            ),
            match update_status_refusal(old(self)@, caller@, product_id@) {
                Some(e) => result matches Err(refusal) && refusal == e,
                None => result matches Ok(product) && product@ == with_status(
                    old(self)@.products[product_key(product_id@)],
                    new_status,
                    now,
                ),
            },
    {
        let key = text_bytes(&product_id);
        let mut product = match self.products.get(&key) {
            Some(product) => product,
            None => {
                return Err(LedgerError::NotFound);
            },
        };
        if !product.current_owner.same(caller) {
            return Err(LedgerError::Unauthorized);
        }
        let role = self.get_user_role(caller);
        if self.ledger.len() == u64::MAX {
            return Err(LedgerError::StorageError);
        }
        product.status = new_status;
        product.updated_at = now;
        let mut metadata: Vec<(String, String)> = Vec::new();
        metadata.push((String::from_str("new_status"), new_status.name()));
        metadata.push((String::from_str("notes"), notes));
        let event = TrackingEvent {
            id: 0,
            product_id,
            user_id: caller.clone(),
            user_role: role,
            event_type: String::from_str("STATUS_UPDATED"),
            description: joined("Product status updated to ", &new_status.name()),
            location,
            timestamp: now,
            metadata,
        };
        proof {
            let id = old(self)@.events.len() as u64;
            let wanted = status_event(
                id,
                role,
                caller@,
                now,
                product_id@,
                new_status,
                location@,
                notes@,
            );
            assert(event@.metadata =~= wanted.metadata);
            assert(with_id(event@, id) == wanted);
            lemma_sound_after_update_status(
                old(self)@,
                caller@,
                now,
                product_id@,
                new_status,
                location@,
                notes@,
            );
        }
        self.products.put(&product);
        let _ = self.ledger.append(event);
        Ok(product)
    }

    /// Starts the transfer of a product to a recipient, which only its
    /// owner may do, and records it. The transfer gets the next id of the
    /// book, which no other transfer has. The recipient owns the product
    /// from now on: completing the transfer later acknowledges the handoff
    /// and does not gate it.
    pub fn transfer_product(
        &mut self,
        caller: &Identity,
        now: u64,
        product_id: String,
        to_user: Identity,
        transfer_type: String,
        notes: String,
    ) -> (result: Result<Transfer, LedgerError>)
        requires
            old(self).wf(),
        ensures
            final(self).wf(),
            final(self)@ == after_transfer(
                old(self)@,
                caller@,
                now,
                product_id@,
                to_user@,
                transfer_type@,
                notes@,
            ),
            match transfer_refusal(old(self)@, caller@, product_id@) {
                Some(e) => result matches Err(refusal) && refusal == e,
                None => result matches Ok(transfer) && transfer.id == old(self)@.transfers.len()
                    && transfer@ == new_transfer(
                    transfer.id,
                    caller@,
                    now,
                    product_id@,
                    to_user@,
                    transfer_type@,
                    notes@,
                ),
            },
    {
        let key = text_bytes(&product_id);
        let mut product = match self.products.get(&key) {
            Some(product) => product,
            None => {
                return Err(LedgerError::NotFound);
            },
        };
        if !product.current_owner.same(caller) {
            return Err(LedgerError::Unauthorized);
        }
        let role = self.get_user_role(caller);
        if self.ledger.len() == u64::MAX {
            return Err(LedgerError::StorageError);
        }
        let transfer = Transfer {
            id: self.transfers.len(),
            product_id: product_id.clone(),
            from_user: caller.clone(),
            to_user: to_user.clone(),
            transfer_type: transfer_type.clone(),
            status: TransferStatus::Pending,
            initiated_at: now,
            completed_at: None,
            notes,
        };
        if transfer_type == String::from_str("TO_WAREHOUSE") {
            product.status = ProductStatus::InWarehouse;
        } else if transfer_type == String::from_str("TO_TRANSPORTER") {
            product.status = ProductStatus::InTransit;
        } else if transfer_type == String::from_str("TO_RETAILER") {
            product.status = ProductStatus::Delivered;
        }
        product.current_owner = to_user.clone();
        product.updated_at = now;
        let mut metadata: Vec<(String, String)> = Vec::new();
        metadata.push((String::from_str("transfer_type"), transfer_type.clone()));
        metadata.push((String::from_str("to_user"), to_user.to_text()));
        let event = TrackingEvent {
            id: 0,
            product_id,
            user_id: caller.clone(),
            user_role: role,
            event_type: String::from_str("PRODUCT_TRANSFERRED"),
            description: joined("Product transferred via ", &transfer_type),
            location: String::from_str("Unknown"),
            timestamp: now,
            metadata,
        };
        proof {
            let id = old(self)@.events.len() as u64;
            let wanted = transfer_event(id, role, transfer@);
            assert(event@.metadata =~= wanted.metadata);
            assert(with_id(event@, id) == wanted);
            lemma_sound_after_transfer(
                old(self)@,
                caller@,
                now,
                product_id@,
                to_user@,
                transfer_type@,
                notes@,
            );
        }
        self.products.put(&product);
        let _ = self.transfers.add(transfer.clone());
        let _ = self.ledger.append(event);
        Ok(transfer)
    }

    /// Completes a transfer, which only its recipient may do, and records
    /// it: the transfer is `Completed` from now on and carries the time. A
    /// recipient that completes again sets the time again.
    pub fn complete_transfer(&mut self, caller: &Identity, now: u64, transfer_id: u64) -> (result:
        Result<Transfer, LedgerError>)
        requires
            old(self).wf(),
        ensures
            final(self).wf(),
            final(self)@ == after_complete(old(self)@, caller@, now, transfer_id),
            match complete_refusal(old(self)@, caller@, transfer_id) {
                Some(e) => result matches Err(refusal) && refusal == e,
                None => result matches Ok(transfer) && transfer@ == completed(
                    old(self)@.transfers[transfer_id as int],
                    now,
                ),
            },
    {
        let mut transfer = match self.transfers.get(transfer_id) {
            Some(transfer) => transfer,
            None => {
                return Err(LedgerError::NotFound);
            },
        };
        if !transfer.to_user.same(caller) {
            return Err(LedgerError::Unauthorized);
        }
        let role = self.get_user_role(caller);
        if self.ledger.len() == u64::MAX {
            return Err(LedgerError::StorageError);
        }
        proof {
            self.transfers.lemma_ids_are_positions();
        }
        transfer.status = TransferStatus::Completed;
        transfer.completed_at = Some(now);
        let mut metadata: Vec<(String, String)> = Vec::new();
        metadata.push((String::from_str("transfer_id"), decimal_text(transfer_id)));
        let event = TrackingEvent {
            id: 0,
            product_id: transfer.product_id.clone(),
            user_id: caller.clone(),
            user_role: role,
            event_type: String::from_str("TRANSFER_COMPLETED"),
            description: String::from_str("Product transfer completed"),
            location: String::from_str("Unknown"),
            timestamp: now,
            metadata,
        };
        proof {
            let id = old(self)@.events.len() as u64;
            let wanted = completion_event(id, role, caller@, now, transfer_id, transfer@);
            assert(event@.metadata =~= wanted.metadata);
            assert(with_id(event@, id) == wanted);
            lemma_sound_after_complete(old(self)@, caller@, now, transfer_id);
        }
        self.transfers.replace(&transfer);
        let _ = self.ledger.append(event);
        Ok(transfer)
    }

    /// Adds a score to the rating of `target`. Anyone may rate anyone, any
    /// number of times.
    pub fn add_rating(&mut self, target: &Identity, score: u8) -> (result: Result<
        (),
        LedgerError,
    >)
        requires
            old(self).wf(),
        ensures
            final(self).wf(),
            final(self)@ == after_add_rating(old(self)@, target@, score),
            match add_rating_refusal(old(self)@, target@, score) {
                Some(e) => result == Err::<(), LedgerError>(e),
                None => result is Ok,
            },
    {
        if score < MIN_SCORE || score > MAX_SCORE {
            return Err(LedgerError::ValidationError);
        }
        let key = copy_bytes(target.as_bytes());
        let rating = match self.ratings.get(&key) {
            Some(rating) => {
                if rating.total_score > u64::MAX - score as u64 {
                    return Err(LedgerError::StorageError);
                }
                Rating {
                    subject: target.clone(),
                    total_score: rating.total_score + score as u64,
                    num_ratings: rating.num_ratings + 1,
                }
            },
            None => Rating { subject: target.clone(), total_score: score as u64, num_ratings: 1 },
        };
        proof {
            lemma_sound_after_add_rating(old(self)@, target@, score);
        }
        self.ratings.put(&rating);
        Ok(())
    }

    /// The rating of `target`: the sum and the number of its scores, or
    /// `None` while it has none. The average is the sum divided by the
    /// number, which is at least one.
    pub fn get_rating(&self, target: &Identity) -> (rating: Option<Rating>)
        requires
            self.wf(),
        ensures
            match rating {
                Some(r) => self@.ratings.contains_key(target@) && r@ == self@.ratings[target@]
                    && plausible(r@),
                None => !self@.ratings.contains_key(target@),
            },
    {
        let key = copy_bytes(target.as_bytes());
        self.ratings.get(&key)
    }

    /// Raises a report about an identity and returns its id. Any identity
    /// may report; the report starts unresolved.
    pub fn add_report(
        &mut self,
        caller: &Identity,
        now: u64,
        reported_entity: Identity,
        product_id: String,
        reason: String,
    ) -> (result: Result<u64, LedgerError>)
        requires
            old(self).wf(),
        ensures
            final(self).wf(),
            final(self)@ == after_add_report(
                old(self)@,
                caller@,
                now,
                reported_entity@,
                product_id@,
                reason@,
            ),
            match add_report_refusal(old(self)@) {
                Some(e) => result == Err::<u64, LedgerError>(e),
                None => result == Ok::<u64, LedgerError>(old(self)@.reports.len() as u64),
            },
    {
        let report = Report {
            report_id: 0,
            reporter: caller.clone(),
            reported_entity,
            product_id,
            reason,
            timestamp: now,
            resolved: false,
            valid: None,
        };
        proof {
            lemma_sound_after_add_report(
                old(self)@,
                caller@,
                now,
                reported_entity@,
                product_id@,
                reason@,
            );
        }
        self.reports.add(report)
    }

    /// The report with this id.
    pub fn get_report(&self, report_id: u64) -> (result: Result<Report, LedgerError>)
        requires
            self.wf(),
        ensures
            match result {
                Ok(report) => report_id < self@.reports.len() && report@
                    == self@.reports[report_id as int],
                Err(e) => e == LedgerError::NotFound && report_id >= self@.reports.len(),
            },
    {
        match self.reports.get(report_id) {
            Some(report) => Ok(report),
            None => Err(LedgerError::NotFound),
        }
    }

    /// Resolves a report with a finding, which only an auditor may do, and
    /// only once: resolving a resolved report is a conflict.
    pub fn resolve_report(&mut self, caller: &Identity, report_id: u64, valid: bool) -> (result:
        Result<(), LedgerError>)
        requires
            old(self).wf(),
        ensures
            final(self).wf(),
            final(self)@ == after_resolve(old(self)@, caller@, report_id, valid),
            match resolve_refusal(old(self)@, caller@, report_id) {
                Some(e) => result == Err::<(), LedgerError>(e),
                None => result is Ok,
            },
    {
        match self.get_user_role(caller) {
            Some(UserRole::Auditor) => {},
            _ => {
                return Err(LedgerError::Unauthorized);
            },
        }
        let mut report = match self.reports.get(report_id) {
            Some(report) => report,
            None => {
                return Err(LedgerError::NotFound);
            },
        };
        if report.resolved {
            return Err(LedgerError::Conflict);
        }
        proof {
            self.reports.lemma_ids_are_positions();
            lemma_sound_after_resolve(old(self)@, caller@, report_id, valid);
        }
        report.resolved = true;
        report.valid = Some(valid);
        self.reports.replace(&report);
        Ok(())
    }

    /// The product with this id.
    pub fn get_product(&self, product_id: &String) -> (result: Result<Product, LedgerError>)
        requires
            self.wf(),
        ensures
            match result {
                Ok(product) => self@.products.contains_key(product_key(product_id@)) && product@
                    == self@.products[product_key(product_id@)],
                Err(e) => e == LedgerError::NotFound && !self@.products.contains_key(
                    product_key(product_id@),
                ),
            },
    {
        let key = text_bytes(product_id);
        match self.products.get(&key) {
            Some(product) => Ok(product),
            None => Err(LedgerError::NotFound),
        }
    }

    /// The transfer with this id.
    pub fn get_transfer(&self, transfer_id: u64) -> (result: Result<Transfer, LedgerError>)
        requires
            self.wf(),
        ensures
            match result {
                Ok(transfer) => transfer_id < self@.transfers.len() && transfer@
                    == self@.transfers[transfer_id as int],
                Err(e) => e == LedgerError::NotFound && transfer_id >= self@.transfers.len(),
            },
    {
        match self.transfers.get(transfer_id) {
            Some(transfer) => Ok(transfer),
            None => Err(LedgerError::NotFound),
        }
    }

    /// Every product, in ascending order of the keys of their ids.
    pub fn get_all_products(&self) -> (products: Vec<Product>)
        requires
            self.wf(),
        ensures
            lists_table::<Product>(self@.products, record_views(products@)),
    {
        self.products.list()
    }

    /// The products that `owner` owns, in ascending order of the keys of
    /// their ids.
    pub fn get_products_by_owner(&self, owner: &Identity) -> (products: Vec<Product>)
        requires
            self.wf(),
        ensures
            lists_where::<Product>(
                self@.products,
                |p: ProductView| p.current_owner == owner@,
                record_views(products@),
            ),
    {
        let all = self.products.list();
        let mut marks: Vec<bool> = Vec::new();
        let mut i: usize = 0;
        while i < all.len()
            invariant
                i <= all@.len(),
                marks@.len() == i,
                forall|j: int|
                    0 <= j < i ==> marks@[j] == ((#[trigger] all@[j])@.current_owner == owner@),
            decreases all@.len() - i,
        {
            marks.push(all[i].current_owner.same(owner));
            i += 1;
        }
        keep_listed(
            all,
            &marks,
            Ghost(self@.products),
            Ghost(|p: ProductView| p.current_owner == owner@),
        )
    }

    /// The products with this status, in ascending order of the keys of
    /// their ids.
    pub fn get_products_by_status(&self, status: ProductStatus) -> (products: Vec<Product>)
        requires
            self.wf(),
        ensures
            lists_where::<Product>(
                self@.products,
                |p: ProductView| p.status == status,
                record_views(products@),
            ),
    {
        let all = self.products.list();
        let mut marks: Vec<bool> = Vec::new();
        let mut i: usize = 0;
        while i < all.len()
            invariant
                i <= all@.len(),
                marks@.len() == i,
                forall|j: int| 0 <= j < i ==> marks@[j] == ((#[trigger] all@[j])@.status == status),
            decreases all@.len() - i,
        {
            marks.push(all[i].status == status);
            i += 1;
        }
        keep_listed(all, &marks, Ghost(self@.products), Ghost(|p: ProductView| p.status == status))
    }

    /// The transfers that `user` sends or receives, in ascending order of
    /// their ids.
    pub fn get_transfers_by_user(&self, user: &Identity) -> (transfers: Vec<Transfer>)
        requires
            self.wf(),
        ensures
            transfer_views(transfers@) == transfers_of_user(self@.transfers, user@),
    {
        select_user(self.transfers.all(), user)
    }

    /// The numbers of products, of events and of transfers.
    pub fn get_statistics(&self) -> (counts: (u64, u64, u64))
        requires
            self.wf(),
        ensures
            counts.0 == self@.products.dom().len(),
            counts.1 == self@.events.len(),
            counts.2 == self@.transfers.len(),
    {
        (self.products.len(), self.ledger.len(), self.transfers.len())
    }
}

} // verus!

//! The ledger as mathematics: what the state is, when an operation is
//! refused, and what the state is after it.

use crate::error::LedgerError;
use crate::events::EventView;
use crate::identity::principal_text;
use crate::products::{ProductStatus, ProductView, product_key};
use crate::ratings::{MAX_SCORE, MIN_SCORE, RatingView, plausible};
use crate::registry::RegistrationView;
use crate::reports::ReportView;
use crate::roles::UserRole;
use crate::text::{decimal, record_id};
use crate::transfers::{TransferStatus, TransferView};
use vstd::prelude::*;

verus! {

/// The state of the ledger as a mathematical value.
pub struct StateView {
    /// The registrations, by identity.
    pub users: Map<Seq<u8>, RegistrationView>,
    /// The log: the event with the id `i` at position `i`.
    pub events: Seq<EventView>,
    /// The products, by the key of their id.
    pub products: Map<Seq<u8>, ProductView>,
    /// The transfers: the transfer with the id `i` at position `i`.
    pub transfers: Seq<TransferView>,
    /// The ratings, by the rated identity.
    pub ratings: Map<Seq<u8>, RatingView>,
    /// The reports: the report with the id `i` at position `i`.
    pub reports: Seq<ReportView>,
}

/// The state that holds nothing.
pub open spec fn empty_state() -> StateView {
    StateView {
        users: Map::empty(),
        events: Seq::empty(),
        products: Map::empty(),
        transfers: Seq::empty(),
        ratings: Map::empty(),
        reports: Seq::empty(),
    }
}

/// The role that an identity is registered with, if it is registered.
pub open spec fn role_of(state: StateView, who: Seq<u8>) -> Option<UserRole> {
    if state.users.contains_key(who) {
        Some(state.users[who].role)
    } else {
        None
    }
}

/// Why an event of this type cannot be recorded by this identity, if it
/// cannot.
pub open spec fn record_event_refusal(
    state: StateView,
    caller: Seq<u8>,
    event_type: Seq<char>,
) -> Option<LedgerError> {
    if role_of(state, caller) is None {
        Some(LedgerError::Unauthorized)
    } else if role_of(state, caller) == Some(UserRole::Supplier) && event_type != "PRODUCED"@ {
        Some(LedgerError::ValidationError)
    } else if state.events.len() >= u64::MAX {
        Some(LedgerError::StorageError)
    } else {
        None
    }
}

/// The product that `caller` creates at the time `now`.
pub open spec fn new_product(
    caller: Seq<u8>,
    now: u64,
    name: Seq<char>,
    description: Seq<char>,
    batch_number: Seq<char>,
    expiry_date: Option<u64>,
    price_bits: u64,
    quantity: u32,
    category: Seq<char>,
    origin: Seq<char>,
    certifications: Seq<Seq<char>>,
) -> ProductView {
    ProductView {
        id: record_id(now, caller),
        name,
        description,
        supplier_id: caller,
        current_owner: caller,
        status: ProductStatus::Created,
        created_at: now,
        updated_at: now,
        batch_number,
        expiry_date,
        price_bits,
        quantity,
        category,
        origin,
        certifications,
    }
}

/// The event that records the creation of a product.
pub open spec fn creation_event(
    id: u64,
    role: Option<UserRole>,
    product: ProductView,
) -> EventView {
    EventView {
        id,
        product_id: product.id,
        user_id: product.supplier_id,
        user_role: role,
        event_type: "PRODUCT_CREATED"@,
        description: "Product created by supplier"@,
        location: product.origin,
        timestamp: product.created_at,
        metadata: seq![
            ("batch_number"@, product.batch_number),
            ("quantity"@, decimal(product.quantity as nat)),
        ],
    }
}

/// Why `caller` cannot create a product at the time `now`, if it cannot.
pub open spec fn create_product_refusal(state: StateView, caller: Seq<u8>, now: u64) -> Option<
    LedgerError,
> {
    if state.products.contains_key(product_key(record_id(now, caller))) {
        Some(LedgerError::Conflict)
    } else if state.events.len() >= u64::MAX {
        Some(LedgerError::StorageError)
    } else {
        None
    }
}

/// Why `caller` cannot change the product, if it cannot: the product must
/// exist, and `caller` must own it.
pub open spec fn owner_refusal(state: StateView, caller: Seq<u8>, product_id: Seq<char>) -> Option<
    LedgerError,
> {
    if !state.products.contains_key(product_key(product_id)) {
        Some(LedgerError::NotFound)
    } else if state.products[product_key(product_id)].current_owner != caller {
        Some(LedgerError::Unauthorized)
    } else {
        None
    }
}

/// Why `caller` cannot set the status of the product, if it cannot.
pub open spec fn update_status_refusal(
    state: StateView,
    caller: Seq<u8>,
    product_id: Seq<char>,
) -> Option<LedgerError> {
    if owner_refusal(state, caller, product_id) is Some {
        owner_refusal(state, caller, product_id)
    } else if state.events.len() >= u64::MAX {
        Some(LedgerError::StorageError)
    } else {
        None
    }
}

/// The product with a new status, set at the time `now`.
pub open spec fn with_status(product: ProductView, status: ProductStatus, now: u64) -> ProductView {
    ProductView { status, updated_at: now, ..product }
}

/// The event that records a new status of a product.
pub open spec fn status_event(
    id: u64,
    role: Option<UserRole>,
    caller: Seq<u8>,
    now: u64,
    product_id: Seq<char>,
    status: ProductStatus,
    location: Seq<char>,
    notes: Seq<char>,
) -> EventView {
    EventView {
        id,
        product_id,
        user_id: caller,
        user_role: role,
        event_type: "STATUS_UPDATED"@,
        description: "Product status updated to "@ + status.spec_name(),
        location,
        timestamp: now,
        metadata: seq![("new_status"@, status.spec_name()), ("notes"@, notes)],
    }
}

/// The status of a product after a transfer of this type: a transfer to a
/// warehouse, a transporter or a retailer sets it, any other leaves it.
pub open spec fn status_after_transfer(
    transfer_type: Seq<char>,
    status: ProductStatus,
) -> ProductStatus {
    if transfer_type == "TO_WAREHOUSE"@ {
        ProductStatus::InWarehouse
    } else if transfer_type == "TO_TRANSPORTER"@ {
        ProductStatus::InTransit
    } else if transfer_type == "TO_RETAILER"@ {
        ProductStatus::Delivered
    } else {
        status
    }
}

/// Why `caller` cannot start a transfer of the product, if it cannot: the
/// product must exist, `caller` must own it, and the log must have room
/// for the event.
pub open spec fn transfer_refusal(
    state: StateView,
    caller: Seq<u8>,
    product_id: Seq<char>,
) -> Option<LedgerError> {
    if owner_refusal(state, caller, product_id) is Some {
        owner_refusal(state, caller, product_id)
    } else if state.events.len() >= u64::MAX {
        Some(LedgerError::StorageError)
    } else {
        None
    }
}

/// The transfer that `caller` starts at the time `now`, under the id that
/// the book gives it.
pub open spec fn new_transfer(
    id: u64,
    caller: Seq<u8>,
    now: u64,
    product_id: Seq<char>,
    to_user: Seq<u8>,
    transfer_type: Seq<char>,
    notes: Seq<char>,
) -> TransferView {
    TransferView {
        id,
        product_id,
        from_user: caller,
        to_user,
        transfer_type,
        status: TransferStatus::Pending,
        initiated_at: now,
        completed_at: None,
        notes,
    }
}

/// The product after the transfer has started: the recipient owns it from
/// then on.
pub open spec fn handed_over(product: ProductView, transfer: TransferView) -> ProductView {
    ProductView {
        current_owner: transfer.to_user,
        status: status_after_transfer(transfer.transfer_type, product.status),
        updated_at: transfer.initiated_at,
        ..product
    }
}

/// The event that records the start of a transfer.
pub open spec fn transfer_event(
    id: u64,
    role: Option<UserRole>,
    transfer: TransferView,
) -> EventView {
    EventView {
        id,
        product_id: transfer.product_id,
        user_id: transfer.from_user,
        user_role: role,
        event_type: "PRODUCT_TRANSFERRED"@,
        description: "Product transferred via "@ + transfer.transfer_type,
        location: "Unknown"@,
        timestamp: transfer.initiated_at,
        metadata: seq![
            ("transfer_type"@, transfer.transfer_type),
            ("to_user"@, principal_text(transfer.to_user)),
        ],
    }
}

/// Why `caller` cannot complete the transfer, if it cannot: the transfer
/// must exist, `caller` must be its recipient, and the log must have room
/// for the event.
pub open spec fn complete_refusal(
    state: StateView,
    caller: Seq<u8>,
    transfer_id: u64,
) -> Option<LedgerError> {
    if transfer_id >= state.transfers.len() {
        Some(LedgerError::NotFound)
    } else if state.transfers[transfer_id as int].to_user != caller {
        Some(LedgerError::Unauthorized)
    } else if state.events.len() >= u64::MAX {
        Some(LedgerError::StorageError)
    } else {
        None
    }
}

/// Whether a transfer is sound: it carries a completion time exactly when
/// it is completed.
pub open spec fn transfer_is_sound(transfer: TransferView) -> bool {
    transfer.status == TransferStatus::Completed <==> transfer.completed_at is Some
}

/// Whether a report is sound: it carries a finding exactly when it is
/// resolved.
pub open spec fn report_is_sound(report: ReportView) -> bool {
    report.resolved <==> report.valid is Some
}

/// Whether a state is sound: every kept rating is plausible, every
/// transfer has left an event, and every transfer and every report is
/// sound.
pub open spec fn is_sound(state: StateView) -> bool {
    &&& forall|who: Seq<u8>|
        state.ratings.contains_key(who) ==> plausible(#[trigger] state.ratings[who])
    &&& state.transfers.len() <= state.events.len()
    &&& forall|i: int|
        0 <= i < state.transfers.len() ==> transfer_is_sound(#[trigger] state.transfers[i])
    &&& forall|i: int| 0 <= i < state.reports.len() ==> report_is_sound(#[trigger] state.reports[i])
}

/// The transfer, completed at the time `now`.
pub open spec fn completed(transfer: TransferView, now: u64) -> TransferView {
    TransferView { status: TransferStatus::Completed, completed_at: Some(now), ..transfer }
}

/// The event that records the completion of a transfer.
pub open spec fn completion_event(
    id: u64,
    role: Option<UserRole>,
    caller: Seq<u8>,
    now: u64,
    transfer_id: u64,
    transfer: TransferView,
) -> EventView {
    EventView {
        id,
        product_id: transfer.product_id,
        user_id: caller,
        user_role: role,
        event_type: "TRANSFER_COMPLETED"@,
        description: "Product transfer completed"@,
        location: "Unknown"@,
        timestamp: now,
        metadata: seq![("transfer_id"@, decimal(transfer_id as nat))],
    }
}

/// The rating of `target` after one more score.
pub open spec fn rated(state: StateView, target: Seq<u8>, score: u8) -> RatingView {
    if state.ratings.contains_key(target) {
        RatingView {
            subject: target,
            total_score: (state.ratings[target].total_score + score) as u64,
            num_ratings: (state.ratings[target].num_ratings + 1) as u64,
        }
    } else {
        RatingView { subject: target, total_score: score as u64, num_ratings: 1 }
    }
}

/// Why the score cannot be added to the rating of `target`, if it cannot:
/// it must lie between [`MIN_SCORE`] and [`MAX_SCORE`], and the sum must
/// stay within `u64`.
pub open spec fn add_rating_refusal(state: StateView, target: Seq<u8>, score: u8) -> Option<
    LedgerError,
> {
    if score < MIN_SCORE || score > MAX_SCORE {
        Some(LedgerError::ValidationError)
    } else if state.ratings.contains_key(target) && state.ratings[target].total_score + score
        > u64::MAX {
        Some(LedgerError::StorageError)
    } else {
        None
    }
}

/// The report that `caller` raises at the time `now`.
pub open spec fn new_report(
    id: u64,
    caller: Seq<u8>,
    now: u64,
    reported_entity: Seq<u8>,
    product_id: Seq<char>,
    reason: Seq<char>,
) -> ReportView {
    ReportView {
        report_id: id,
        reporter: caller,
        reported_entity,
        product_id,
        reason,
        timestamp: now,
        resolved: false,
        valid: None,
    }
}

/// Why `caller` cannot resolve the report, if it cannot: it must be
/// registered as an auditor, the report must exist, and it must not have
/// been resolved before.
pub open spec fn resolve_refusal(state: StateView, caller: Seq<u8>, report_id: u64) -> Option<
    LedgerError,
> {
    if role_of(state, caller) != Some(UserRole::Auditor) {
        Some(LedgerError::Unauthorized)
    } else if report_id >= state.reports.len() {
        Some(LedgerError::NotFound)
    } else if state.reports[report_id as int].resolved {
        Some(LedgerError::Conflict)
    } else {
        None
    }
}

/// The report, resolved with the finding `valid`.
pub open spec fn resolved(report: ReportView, valid: bool) -> ReportView {
    ReportView { resolved: true, valid: Some(valid), ..report }
}

/// The state after `caller` has asked to be registered with a role.
pub open spec fn after_register(state: StateView, caller: Seq<u8>, role: UserRole) -> StateView {
    if state.users.contains_key(caller) {
        state
    } else {
        StateView {
            users: state.users.insert(caller, RegistrationView { identity: caller, role }),
            ..state
        }
    }
}

/// The event that `caller` records at the time `now`.
pub open spec fn recorded_event(
    id: u64,
    role: Option<UserRole>,
    caller: Seq<u8>,
    now: u64,
    product_id: Seq<char>,
    event_type: Seq<char>,
    location: Seq<char>,
    metadata: Seq<(Seq<char>, Seq<char>)>,
) -> EventView {
    EventView {
        id,
        product_id,
        user_id: caller,
        user_role: role,
        event_type,
        description: Seq::empty(),
        location,
        timestamp: now,
        metadata,
    }
}

/// The state after `caller` has asked to record an event.
pub open spec fn after_record_event(
    state: StateView,
    caller: Seq<u8>,
    now: u64,
    product_id: Seq<char>,
    event_type: Seq<char>,
    location: Seq<char>,
    metadata: Seq<(Seq<char>, Seq<char>)>,
) -> StateView {
    if record_event_refusal(state, caller, event_type) is Some {
        state
    } else {
        StateView {
            events: state.events.push(
                recorded_event(
                    state.events.len() as u64,
                    role_of(state, caller),
                    caller,
                    now,
                    product_id,
                    event_type,
                    location,
                    metadata,
                ),
            ),
            ..state
        }
    }
}

/// The state after `caller` has asked to create `product` at the time
/// `now`.
pub open spec fn after_create_product(
    state: StateView,
    caller: Seq<u8>,
    now: u64,
    product: ProductView,
) -> StateView {
    if create_product_refusal(state, caller, now) is Some {
        state
    } else {
        StateView {
            products: state.products.insert(product_key(product.id), product),
            events: state.events.push(
                creation_event(state.events.len() as u64, role_of(state, caller), product),
            ),
            ..state
        }
    }
}

/// The state after `caller` has asked to set the status of a product.
pub open spec fn after_update_status(
    state: StateView,
    caller: Seq<u8>,
    now: u64,
    product_id: Seq<char>,
    status: ProductStatus,
    location: Seq<char>,
    notes: Seq<char>,
) -> StateView {
    if update_status_refusal(state, caller, product_id) is Some {
        state
    } else {
        StateView {
            products: state.products.insert(
                product_key(product_id),
                with_status(state.products[product_key(product_id)], status, now),
            ),
            events: state.events.push(
                status_event(
                    state.events.len() as u64,
                    role_of(state, caller),
                    caller,
                    now,
                    product_id,
                    status,
                    location,
                    notes,
                ),
            ),
            ..state
        }
    }
}

/// The state after `caller` has asked to start a transfer at the time
/// `now`.
pub open spec fn after_transfer(
    state: StateView,
    caller: Seq<u8>,
    now: u64,
    product_id: Seq<char>,
    to_user: Seq<u8>,
    transfer_type: Seq<char>,
    notes: Seq<char>,
) -> StateView {
    let transfer = new_transfer(
        state.transfers.len() as u64,
        caller,
        now,
        product_id,
        to_user,
        transfer_type,
        notes,
    );
    if transfer_refusal(state, caller, product_id) is Some {
        state
    } else {
        StateView {
            products: state.products.insert(
                product_key(product_id),
                handed_over(state.products[product_key(product_id)], transfer),
            ),
            transfers: state.transfers.push(transfer),
            events: state.events.push(
                transfer_event(state.events.len() as u64, role_of(state, caller), transfer),
            ),
            ..state
        }
    }
}

/// The state after `caller` has asked to complete a transfer at the time
/// `now`.
pub open spec fn after_complete(
    state: StateView,
    caller: Seq<u8>,
    now: u64,
    transfer_id: u64,
) -> StateView {
    if complete_refusal(state, caller, transfer_id) is Some {
        state
    } else {
        StateView {
            transfers: state.transfers.update(
                transfer_id as int,
                completed(state.transfers[transfer_id as int], now),
            ),
            events: state.events.push(
                completion_event(
                    state.events.len() as u64,
                    role_of(state, caller),
                    caller,
                    now,
                    transfer_id,
                    completed(state.transfers[transfer_id as int], now),
                ),
            ),
            ..state
        }
    }
}

/// The state after a score has been offered for the rating of `target`.
pub open spec fn after_add_rating(state: StateView, target: Seq<u8>, score: u8) -> StateView {
    if add_rating_refusal(state, target, score) is Some {
        state
    } else {
        StateView { ratings: state.ratings.insert(target, rated(state, target, score)), ..state }
    }
}

/// Why a report cannot be added, if it cannot: the book must have room.
pub open spec fn add_report_refusal(state: StateView) -> Option<LedgerError> {
    if state.reports.len() >= u64::MAX {
        Some(LedgerError::StorageError)
    } else {
        None
    }
}

/// The state after `caller` has raised a report at the time `now`.
pub open spec fn after_add_report(
    state: StateView,
    caller: Seq<u8>,
    now: u64,
    reported_entity: Seq<u8>,
    product_id: Seq<char>,
    reason: Seq<char>,
) -> StateView {
    if add_report_refusal(state) is Some {
        state
    } else {
        StateView {
            reports: state.reports.push(
                new_report(
                    state.reports.len() as u64,
                    caller,
                    now,
                    reported_entity,
                    product_id,
                    reason,
                ),
            ),
            ..state
        }
    }
}

/// The state after `caller` has asked to resolve a report.
pub open spec fn after_resolve(
    state: StateView,
    caller: Seq<u8>,
    report_id: u64,
    valid: bool,
) -> StateView {
    if resolve_refusal(state, caller, report_id) is Some {
        state
    } else {
        StateView {
            reports: state.reports.update(
                report_id as int,
                resolved(state.reports[report_id as int], valid),
            ),
            ..state
        }
    }
}

/// Registering keeps a sound state sound.
pub proof fn lemma_sound_after_register(state: StateView, caller: Seq<u8>, role: UserRole)
    requires
        is_sound(state),
    ensures
        is_sound(after_register(state, caller, role)),
{
    let after = after_register(state, caller, role);
    assert(after.ratings == state.ratings && after.transfers == state.transfers && after.reports
        == state.reports && after.events == state.events);
}

/// Recording an event keeps a sound state sound.
pub proof fn lemma_sound_after_record_event(
    state: StateView,
    caller: Seq<u8>,
    now: u64,
    product_id: Seq<char>,
    event_type: Seq<char>,
    location: Seq<char>,
    metadata: Seq<(Seq<char>, Seq<char>)>,
)
    requires
        is_sound(state),
    ensures
        is_sound(
            after_record_event(state, caller, now, product_id, event_type, location, metadata),
        ),
{
    let after = after_record_event(state, caller, now, product_id, event_type, location, metadata);
    assert(after.ratings == state.ratings && after.transfers == state.transfers && after.reports
        == state.reports && after.events.len() >= state.events.len());
}

/// Creating a product keeps a sound state sound.
pub proof fn lemma_sound_after_create_product(
    state: StateView,
    caller: Seq<u8>,
    now: u64,
    product: ProductView,
)
    requires
        is_sound(state),
    ensures
        is_sound(after_create_product(state, caller, now, product)),
{
    let after = after_create_product(state, caller, now, product);
    assert(after.ratings == state.ratings && after.transfers == state.transfers && after.reports
        == state.reports && after.events.len() >= state.events.len());
}

/// Setting the status of a product keeps a sound state sound.
pub proof fn lemma_sound_after_update_status(
    state: StateView,
    caller: Seq<u8>,
    now: u64,
    product_id: Seq<char>,
    status: ProductStatus,
    location: Seq<char>,
    notes: Seq<char>,
)
    requires
        is_sound(state),
    ensures
        is_sound(after_update_status(state, caller, now, product_id, status, location, notes)),
{
    let after = after_update_status(state, caller, now, product_id, status, location, notes);
    assert(after.ratings == state.ratings && after.transfers == state.transfers && after.reports
        == state.reports && after.events.len() >= state.events.len());
}

/// Starting a transfer keeps a sound state sound: the new transfer is
/// pending and has no completion time, and it leaves an event.
pub proof fn lemma_sound_after_transfer(
    state: StateView,
    caller: Seq<u8>,
    now: u64,
    product_id: Seq<char>,
    to_user: Seq<u8>,
    transfer_type: Seq<char>,
    notes: Seq<char>,
)
    requires
        is_sound(state),
    ensures
        is_sound(after_transfer(state, caller, now, product_id, to_user, transfer_type, notes)),
{
    let after = after_transfer(state, caller, now, product_id, to_user, transfer_type, notes);
    assert(after.ratings == state.ratings && after.reports == state.reports);
    assert forall|i: int| 0 <= i < after.transfers.len() implies transfer_is_sound(
        #[trigger] after.transfers[i],
    ) by {
        if i < state.transfers.len() {
            assert(after.transfers[i] == state.transfers[i]);
        }
    }
}

/// Completing a transfer keeps a sound state sound: the transfer is
/// completed and carries the time.
pub proof fn lemma_sound_after_complete(
    state: StateView,
    caller: Seq<u8>,
    now: u64,
    transfer_id: u64,
)
    requires
        is_sound(state),
    ensures
        is_sound(after_complete(state, caller, now, transfer_id)),
{
    let after = after_complete(state, caller, now, transfer_id);
    assert(after.ratings == state.ratings && after.reports == state.reports);
    assert forall|i: int| 0 <= i < after.transfers.len() implies transfer_is_sound(
        #[trigger] after.transfers[i],
    ) by {
        if i != transfer_id {
            assert(after.transfers[i] == state.transfers[i]);
        }
    }
}

/// Adding a score keeps a sound state sound.
pub proof fn lemma_sound_after_add_rating(state: StateView, target: Seq<u8>, score: u8)
    requires
        is_sound(state),
    ensures
        is_sound(after_add_rating(state, target, score)),
{
    let after = after_add_rating(state, target, score);
    assert(after.transfers == state.transfers && after.reports == state.reports && after.events
        == state.events);
    assert forall|who: Seq<u8>| after.ratings.contains_key(who) implies plausible(
        #[trigger] after.ratings[who],
    ) by {
        if who != target {
            assert(state.ratings.contains_key(who) && after.ratings[who] == state.ratings[who]);
        } else if state.ratings.contains_key(target) {
            assert(plausible(state.ratings[target]));
        }
    }
}

/// Raising a report keeps a sound state sound: the new report is
/// unresolved and has no finding.
pub proof fn lemma_sound_after_add_report(
    state: StateView,
    caller: Seq<u8>,
    now: u64,
    reported_entity: Seq<u8>,
    product_id: Seq<char>,
    reason: Seq<char>,
)
    requires
        is_sound(state),
    ensures
        is_sound(after_add_report(state, caller, now, reported_entity, product_id, reason)),
{
    let after = after_add_report(state, caller, now, reported_entity, product_id, reason);
    assert(after.ratings == state.ratings && after.transfers == state.transfers && after.events
        == state.events);
    assert forall|i: int| 0 <= i < after.reports.len() implies report_is_sound(
        #[trigger] after.reports[i],
    ) by {
        if i < state.reports.len() {
            assert(after.reports[i] == state.reports[i]);
        }
    }
}

/// Resolving a report keeps a sound state sound: the report is resolved
/// and carries the finding.
pub proof fn lemma_sound_after_resolve(
    state: StateView,
    caller: Seq<u8>,
    report_id: u64,
    valid: bool,
)
    requires
        is_sound(state),
    ensures
        is_sound(after_resolve(state, caller, report_id, valid)),
{
    let after = after_resolve(state, caller, report_id, valid);
    assert(after.ratings == state.ratings && after.transfers == state.transfers && after.events
        == state.events);
    assert forall|i: int| 0 <= i < after.reports.len() implies report_is_sound(
        #[trigger] after.reports[i],
    ) by {
        if i != report_id {
            assert(after.reports[i] == state.reports[i]);
        }
    }
}

} // verus!

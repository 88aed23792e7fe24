//! What the operations guarantee, stated over the mathematical state and
//! proved from the definitions of the model.

use crate::error::LedgerError;
use crate::model::{
    StateView, add_rating_refusal, after_add_rating, after_add_report, after_complete,
    after_create_product, after_record_event, after_register, after_resolve, after_transfer,
    after_update_status, complete_refusal, create_product_refusal, is_sound,
    lemma_sound_after_add_rating, lemma_sound_after_add_report, lemma_sound_after_complete,
    lemma_sound_after_create_product, lemma_sound_after_record_event, lemma_sound_after_register,
    lemma_sound_after_resolve, lemma_sound_after_transfer, lemma_sound_after_update_status,
    new_transfer, rated, record_event_refusal, resolve_refusal, role_of, transfer_refusal,
    update_status_refusal,
};
use crate::products::{ProductStatus, ProductView, product_key};
use crate::ratings::{MAX_SCORE, MIN_SCORE, plausible};
use crate::roles::UserRole;
use crate::transfers::TransferStatus;
use vstd::prelude::*;
use vstd::utf8::*;

verus! {

/// Keys tell ids apart: two ids with one key are one id, so every product
/// has an entry of its own.
pub proof fn lemma_keys_tell_ids_apart(first: Seq<char>, second: Seq<char>)
    ensures
        product_key(first) == product_key(second) ==> first == second,
{
    encode_utf8_decode_utf8(first);
    encode_utf8_decode_utf8(second);
}

/// A role is assigned once: registering an identity that is registered
/// changes nothing, and registering one that is not gives it the role and
/// leaves every other registration as it was.
pub proof fn lemma_role_is_assigned_once(state: StateView, caller: Seq<u8>, role: UserRole)
    ensures
        state.users.contains_key(caller) ==> after_register(state, caller, role) == state,
        !state.users.contains_key(caller) ==> role_of(after_register(state, caller, role), caller)
            == Some(role),
        forall|other: Seq<u8>|
            other != caller ==> role_of(after_register(state, caller, role), other) == role_of(
                state,
                other,
            ),
{
}

/// A score outside the range is refused as invalid, and the refusal leaves
/// the state as it was.
pub proof fn lemma_score_out_of_range_is_refused(state: StateView, target: Seq<u8>, score: u8)
    requires
        score < MIN_SCORE || score > MAX_SCORE,
    ensures
        add_rating_refusal(state, target, score) == Some(LedgerError::ValidationError),
        after_add_rating(state, target, score) == state,
{
}

/// An accepted score adds itself to the sum and one to the number of the
/// ratings of the target, keeps the rating plausible, and leaves the
/// ratings of everyone else as they were.
pub proof fn lemma_accepted_score_is_counted(state: StateView, target: Seq<u8>, score: u8)
    requires
        add_rating_refusal(state, target, score) is None,
        state.ratings.contains_key(target) ==> plausible(state.ratings[target]),
    ensures
        after_add_rating(state, target, score).ratings[target] == rated(state, target, score),
        state.ratings.contains_key(target) ==> {
            &&& rated(state, target, score).total_score == state.ratings[target].total_score
                + score
            &&& rated(state, target, score).num_ratings == state.ratings[target].num_ratings + 1
        },
        !state.ratings.contains_key(target) ==> {
            &&& rated(state, target, score).total_score == score
            &&& rated(state, target, score).num_ratings == 1
        },
        plausible(rated(state, target, score)),
        forall|other: Seq<u8>|
            other != target ==> (after_add_rating(state, target, score).ratings.contains_key(other)
                <==> state.ratings.contains_key(other)) && after_add_rating(
                state,
                target,
                score,
            ).ratings[other] == state.ratings[other],
{
}

/// The state after the scores have been offered for the rating of
/// `target` one by one.
pub open spec fn after_scores(state: StateView, target: Seq<u8>, scores: Seq<u8>) -> StateView
    decreases scores.len(),
{
    if scores.len() == 0 {
        state
    } else {
        after_add_rating(after_scores(state, target, scores.drop_last()), target, scores.last())
    }
}

/// The sum of a list of scores.
pub open spec fn sum_of(scores: Seq<u8>) -> nat
    decreases scores.len(),
{
    if scores.len() == 0 {
        0
    } else {
        sum_of(scores.drop_last()) + scores.last() as nat
    }
}

/// Scores add up: where an identity without a rating is given scores that
/// all lie in the range, its rating holds their sum and their number, so
/// that its average is the average of the scores.
pub proof fn lemma_scores_add_up(state: StateView, target: Seq<u8>, scores: Seq<u8>)
    requires
        !state.ratings.contains_key(target),
        scores.len() > 0,
        forall|i: int| 0 <= i < scores.len() ==> MIN_SCORE <= #[trigger] scores[i] <= MAX_SCORE,
        MAX_SCORE * scores.len() <= u64::MAX,
    ensures
        after_scores(state, target, scores).ratings.contains_key(target),
        after_scores(state, target, scores).ratings[target].subject == target,
        after_scores(state, target, scores).ratings[target].total_score == sum_of(scores),
        after_scores(state, target, scores).ratings[target].num_ratings == scores.len(),
        sum_of(scores) <= MAX_SCORE * scores.len(),
    decreases scores.len(),
{
    let front = scores.drop_last();
    let before = after_scores(state, target, front);
    if front.len() > 0 {
        assert forall|i: int| 0 <= i < front.len() implies MIN_SCORE <= #[trigger] front[i]
            <= MAX_SCORE by {
            assert(front[i] == scores[i]);
        }
        lemma_scores_add_up(state, target, front);
    } else {
        assert(before == state);
        assert(sum_of(front) == 0);
    }
    assert(after_scores(state, target, scores) == after_add_rating(before, target, scores.last()));
    assert(add_rating_refusal(before, target, scores.last()) is None);
}

/// Who does not own a product cannot start a transfer of it: the request
/// is refused as unauthorized, and the product keeps its owner and its
/// status, as the whole state stays as it was.
pub proof fn lemma_non_owner_cannot_transfer(
    state: StateView,
    caller: Seq<u8>,
    now: u64,
    product_id: Seq<char>,
    to_user: Seq<u8>,
    transfer_type: Seq<char>,
    notes: Seq<char>,
)
    requires
        state.products.contains_key(product_key(product_id)),
        state.products[product_key(product_id)].current_owner != caller,
    ensures
        transfer_refusal(state, caller, product_id) == Some(LedgerError::Unauthorized),
        after_transfer(state, caller, now, product_id, to_user, transfer_type, notes) == state,
{
}

/// The owner of a product starts a transfer of it whenever the log has
/// room, whatever the time and whatever transfers there are. The transfer
/// is added to the others, which stay as they were, under an id that none
/// of them has.
pub proof fn lemma_owner_can_transfer(
    state: StateView,
    caller: Seq<u8>,
    now: u64,
    product_id: Seq<char>,
    to_user: Seq<u8>,
    transfer_type: Seq<char>,
    notes: Seq<char>,
)
    requires
        state.products.contains_key(product_key(product_id)),
        state.products[product_key(product_id)].current_owner == caller,
        state.events.len() < u64::MAX,
        is_sound(state),
        forall|i: int| 0 <= i < state.transfers.len() ==> (#[trigger] state.transfers[i]).id == i,
    ensures
        transfer_refusal(state, caller, product_id) is None,
        ({
            let after = after_transfer(
                state,
                caller,
                now,
                product_id,
                to_user,
                transfer_type,
                notes,
            );
            &&& after.transfers.len() == state.transfers.len() + 1
            &&& after.transfers.take(state.transfers.len() as int) == state.transfers
            &&& after.transfers.last() == new_transfer(
                state.transfers.len() as u64,
                caller,
                now,
                product_id,
                to_user,
                transfer_type,
                notes,
            )
            &&& forall|i: int|
                0 <= i < state.transfers.len() ==> (#[trigger] state.transfers[i]).id
                    != after.transfers.last().id
        }),
{
    let after = after_transfer(state, caller, now, product_id, to_user, transfer_type, notes);
    assert(after.transfers.take(state.transfers.len() as int) =~= state.transfers);
}

/// Who does not own a product cannot set its status either.
pub proof fn lemma_non_owner_cannot_update(
    state: StateView,
    caller: Seq<u8>,
    now: u64,
    product_id: Seq<char>,
    status: ProductStatus,
    location: Seq<char>,
    notes: Seq<char>,
)
    requires
        state.products.contains_key(product_key(product_id)),
        state.products[product_key(product_id)].current_owner != caller,
    ensures
        update_status_refusal(state, caller, product_id) == Some(LedgerError::Unauthorized),
        after_update_status(state, caller, now, product_id, status, location, notes) == state,
{
}

/// A transfer that is started hands the product to the recipient at once,
/// and is pending.
pub proof fn lemma_transfer_hands_over(
    state: StateView,
    caller: Seq<u8>,
    now: u64,
    product_id: Seq<char>,
    to_user: Seq<u8>,
    transfer_type: Seq<char>,
    notes: Seq<char>,
)
    requires
        transfer_refusal(state, caller, product_id) is None,
    ensures
        after_transfer(
            state,
            caller,
            now,
            product_id,
            to_user,
            transfer_type,
            notes,
        ).products[product_key(product_id)].current_owner == to_user,
        after_transfer(
            state,
            caller,
            now,
            product_id,
            to_user,
            transfer_type,
            notes,
        ).transfers.last().status == TransferStatus::Pending,
{
}

/// Only the named recipient completes a transfer: anyone else is refused
/// as unauthorized, and the state stays as it was.
pub proof fn lemma_only_recipient_completes(
    state: StateView,
    caller: Seq<u8>,
    now: u64,
    transfer_id: u64,
)
    requires
        transfer_id < state.transfers.len(),
        state.transfers[transfer_id as int].to_user != caller,
    ensures
        complete_refusal(state, caller, transfer_id) == Some(LedgerError::Unauthorized),
        after_complete(state, caller, now, transfer_id) == state,
{
}

/// A completion that is not refused leaves the transfer completed, with
/// the time of the completion, and changes nothing else of it.
pub proof fn lemma_completion_marks_the_transfer(
    state: StateView,
    caller: Seq<u8>,
    now: u64,
    transfer_id: u64,
)
    requires
        complete_refusal(state, caller, transfer_id) is None,
    ensures
        ({
            let before = state.transfers[transfer_id as int];
            let after = after_complete(state, caller, now, transfer_id).transfers[transfer_id as int];
            &&& after.status == TransferStatus::Completed
            &&& after.completed_at == Some(now)
            &&& after.id == before.id
            &&& after.product_id == before.product_id
            &&& after.from_user == before.from_user
            &&& after.to_user == before.to_user
        }),
{
}

/// Whether every transfer that is completed and carries its time in
/// `before` is still there in `after`, completed and with a time.
pub open spec fn keeps_completed(before: StateView, after: StateView) -> bool {
    forall|at: int|
        0 <= at < before.transfers.len() && (#[trigger] before.transfers[at]).status
            == TransferStatus::Completed && before.transfers[at].completed_at is Some ==> {
            &&& at < after.transfers.len()
            &&& after.transfers[at].status == TransferStatus::Completed
            &&& after.transfers[at].completed_at is Some
        }
}

/// A request to the ledger, with who asks and when.
pub enum Request {
    Register { caller: Seq<u8>, role: UserRole },
    RecordEvent {
        caller: Seq<u8>,
        now: u64,
        product_id: Seq<char>,
        event_type: Seq<char>,
        location: Seq<char>,
        metadata: Seq<(Seq<char>, Seq<char>)>,
    },
    CreateProduct { caller: Seq<u8>, now: u64, product: ProductView },
    UpdateStatus {
        caller: Seq<u8>,
        now: u64,
        product_id: Seq<char>,
        status: ProductStatus,
        location: Seq<char>,
        notes: Seq<char>,
    },
    Transfer {
        caller: Seq<u8>,
        now: u64,
        product_id: Seq<char>,
        to_user: Seq<u8>,
        transfer_type: Seq<char>,
        notes: Seq<char>,
    },
    Complete { caller: Seq<u8>, now: u64, transfer_id: u64 },
    AddRating { target: Seq<u8>, score: u8 },
    AddReport {
        caller: Seq<u8>,
        now: u64,
        reported_entity: Seq<u8>,
        product_id: Seq<char>,
        reason: Seq<char>,
    },
    Resolve { caller: Seq<u8>, report_id: u64, valid: bool },
}

/// The state after a request, accepted or refused.
pub open spec fn after_request(state: StateView, request: Request) -> StateView {
    match request {
        Request::Register { caller, role } => after_register(state, caller, role),
        Request::RecordEvent { caller, now, product_id, event_type, location, metadata } =>
            after_record_event(state, caller, now, product_id, event_type, location, metadata),
        Request::CreateProduct { caller, now, product } => after_create_product(
            state,
            caller,
            now,
            product,
        ),
        Request::UpdateStatus { caller, now, product_id, status, location, notes } =>
            after_update_status(state, caller, now, product_id, status, location, notes),
        Request::Transfer { caller, now, product_id, to_user, transfer_type, notes } =>
            after_transfer(state, caller, now, product_id, to_user, transfer_type, notes),
        Request::Complete { caller, now, transfer_id } => after_complete(
            state,
            caller,
            now,
            transfer_id,
        ),
        Request::AddRating { target, score } => after_add_rating(state, target, score),
        Request::AddReport { caller, now, reported_entity, product_id, reason } =>
            after_add_report(state, caller, now, reported_entity, product_id, reason),
        Request::Resolve { caller, report_id, valid } => after_resolve(
            state,
            caller,
            report_id,
            valid,
        ),
    }
}

/// The state after a list of requests, one after the other.
pub open spec fn after_requests(state: StateView, requests: Seq<Request>) -> StateView
    decreases requests.len(),
{
    if requests.len() == 0 {
        state
    } else {
        after_request(after_requests(state, requests.drop_last()), requests.last())
    }
}

/// A completed transfer stays completed and keeps a completion time: no
/// request, accepted or refused, takes a transfer out of `Completed` or
/// takes its time away.
pub proof fn lemma_completed_is_final(state: StateView, request: Request)
    ensures
        keeps_completed(state, after_request(state, request)),
{
}

/// A completed transfer stays completed and keeps a completion time
/// whatever is asked of the ledger later, and however often.
pub proof fn lemma_completed_stays_final(state: StateView, requests: Seq<Request>)
    ensures
        keeps_completed(state, after_requests(state, requests)),
    decreases requests.len(),
{
    if requests.len() > 0 {
        let before = after_requests(state, requests.drop_last());
        let after = after_requests(state, requests);
        lemma_completed_stays_final(state, requests.drop_last());
        lemma_completed_is_final(before, requests.last());
        assert forall|at: int|
            0 <= at < state.transfers.len() && (#[trigger] state.transfers[at]).status
                == TransferStatus::Completed && state.transfers[at].completed_at is Some implies {
            &&& at < after.transfers.len()
            &&& after.transfers[at].status == TransferStatus::Completed
            &&& after.transfers[at].completed_at is Some
        } by {
            assert(before.transfers[at].status == TransferStatus::Completed);
        }
    }
}

/// A sound state stays sound whatever is asked of the ledger: every
/// transfer carries a completion time exactly when it is completed, every
/// report a finding exactly when it is resolved, every rating stays
/// plausible, and every transfer has left an event.
pub proof fn lemma_sound_stays_sound(state: StateView, requests: Seq<Request>)
    requires
        is_sound(state),
    ensures
        is_sound(after_requests(state, requests)),
    decreases requests.len(),
{
    if requests.len() > 0 {
        let before = after_requests(state, requests.drop_last());
        lemma_sound_stays_sound(state, requests.drop_last());
        match requests.last() {
            Request::Register { caller, role } => lemma_sound_after_register(before, caller, role),
            Request::RecordEvent { caller, now, product_id, event_type, location, metadata } =>
                lemma_sound_after_record_event(
                    before,
                    caller,
                    now,
                    product_id,
                    event_type,
                    location,
                    metadata,
                ),
            Request::CreateProduct { caller, now, product } => lemma_sound_after_create_product(
                before,
                caller,
                now,
                product,
            ),
            Request::UpdateStatus { caller, now, product_id, status, location, notes } =>
                lemma_sound_after_update_status(
                    before,
                    caller,
                    now,
                    product_id,
                    status,
                    location,
                    notes,
                ),
            Request::Transfer { caller, now, product_id, to_user, transfer_type, notes } =>
                lemma_sound_after_transfer(
                    before,
                    caller,
                    now,
                    product_id,
                    to_user,
                    transfer_type,
                    notes,
                ),
            Request::Complete { caller, now, transfer_id } => lemma_sound_after_complete(
                before,
                caller,
                now,
                transfer_id,
            ),
            Request::AddRating { target, score } => lemma_sound_after_add_rating(
                before,
                target,
                score,
            ),
            Request::AddReport { caller, now, reported_entity, product_id, reason } =>
                lemma_sound_after_add_report(
                    before,
                    caller,
                    now,
                    reported_entity,
                    product_id,
                    reason,
                ),
            Request::Resolve { caller, report_id, valid } => lemma_sound_after_resolve(
                before,
                caller,
                report_id,
                valid,
            ),
        }
    }
}

/// Only an auditor resolves a report: anyone else is refused as
/// unauthorized, and every report stays as it was, an unresolved one
/// unresolved.
pub proof fn lemma_only_auditors_resolve(
    state: StateView,
    caller: Seq<u8>,
    report_id: u64,
    valid: bool,
)
    requires
        role_of(state, caller) != Some(UserRole::Auditor),
    ensures
        resolve_refusal(state, caller, report_id) == Some(LedgerError::Unauthorized),
        after_resolve(state, caller, report_id, valid) == state,
{
}

/// A resolution that is not refused marks the report as resolved with the
/// finding, and a resolved report cannot be resolved again.
pub proof fn lemma_resolution_is_final(
    state: StateView,
    caller: Seq<u8>,
    report_id: u64,
    valid: bool,
    again: bool,
)
    requires
        resolve_refusal(state, caller, report_id) is None,
    ensures
        after_resolve(state, caller, report_id, valid).reports[report_id as int].resolved,
        after_resolve(state, caller, report_id, valid).reports[report_id as int].valid == Some(
            valid,
        ),
        resolve_refusal(after_resolve(state, caller, report_id, valid), caller, report_id)
            == Some(LedgerError::Conflict),
        after_resolve(after_resolve(state, caller, report_id, valid), caller, report_id, again)
            == after_resolve(state, caller, report_id, valid),
{
}

/// Each change to a product or a transfer that is not refused appends
/// exactly one event to the log and leaves the events before it as they
/// were; a refused one leaves the log as it was.
pub proof fn lemma_one_event_per_change(
    state: StateView,
    caller: Seq<u8>,
    now: u64,
    product: ProductView,
    product_id: Seq<char>,
    status: ProductStatus,
    location: Seq<char>,
    notes: Seq<char>,
    to_user: Seq<u8>,
    transfer_type: Seq<char>,
    transfer_id: u64,
    event_type: Seq<char>,
    metadata: Seq<(Seq<char>, Seq<char>)>,
)
    ensures
        grows_by(
            state,
            after_create_product(state, caller, now, product),
            create_product_refusal(state, caller, now),
        ),
        grows_by(
            state,
            after_update_status(state, caller, now, product_id, status, location, notes),
            update_status_refusal(state, caller, product_id),
        ),
        grows_by(
            state,
            after_transfer(state, caller, now, product_id, to_user, transfer_type, notes),
            transfer_refusal(state, caller, product_id),
        ),
        grows_by(
            state,
            after_complete(state, caller, now, transfer_id),
            complete_refusal(state, caller, transfer_id),
        ),
        grows_by(
            state,
            after_record_event(state, caller, now, product_id, event_type, location, metadata),
            record_event_refusal(state, caller, event_type),
        ),
{
    let before = state.events;
    let count = before.len() as int;
    assert(after_create_product(state, caller, now, product).events.take(count) =~= before
        || create_product_refusal(state, caller, now) is Some);
    assert(after_update_status(
        state,
        caller,
        now,
        product_id,
        status,
        location,
        notes,
    ).events.take(count) =~= before || update_status_refusal(state, caller, product_id) is Some);
    assert(after_transfer(
        state,
        caller,
        now,
        product_id,
        to_user,
        transfer_type,
        notes,
    ).events.take(count) =~= before || transfer_refusal(state, caller, product_id) is Some);
    assert(after_complete(state, caller, now, transfer_id).events.take(count) =~= before
        || complete_refusal(state, caller, transfer_id) is Some);
    assert(after_record_event(
        state,
        caller,
        now,
        product_id,
        event_type,
        location,
        metadata,
    ).events.take(count) =~= before || record_event_refusal(state, caller, event_type) is Some);
}

/// Whether the log of `after` is the log of `before` with one more event
/// that carries the next id, where the operation was not refused, and the
/// whole state is as before where it was.
pub open spec fn grows_by(
    before: StateView,
    after: StateView,
    refusal: Option<LedgerError>,
) -> bool {
    match refusal {
        Some(_) => after == before,
        None => after.events.len() == before.events.len() + 1 && after.events.take(
            before.events.len() as int,
        ) == before.events && after.events.last().id == before.events.len(),
    }
}

} // verus!

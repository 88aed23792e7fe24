use supply_chain::error::LedgerError;
use supply_chain::identity::Identity;
use supply_chain::roles::UserRole;
use supply_chain::state::{State, STATE_REGIONS};
use supply_chain::regions::StableRegions;

fn who(byte: u8) -> Identity {
    Identity::from_bytes(vec![byte; 5]).unwrap()
}

fn average(state: &State, target: &Identity) -> Option<f64> {
    state.get_rating(target).map(|r| r.total_score as f64 / r.num_ratings as f64)
}

#[test]
fn scores_outside_one_to_five_are_refused() {
    let mut state = State::new(StableRegions::new()).ok().unwrap();
    let target = who(1);
    for score in [0u8, 6, 7, 100, 255] {
        assert_eq!(state.add_rating(&target, score), Err(LedgerError::ValidationError));
        assert!(state.get_rating(&target).is_none());
    }
    assert_eq!(state.add_rating(&target, 4), Ok(()));
    for score in [0u8, 6] {
        assert_eq!(state.add_rating(&target, score), Err(LedgerError::ValidationError));
    }
    let rating = state.get_rating(&target).unwrap();
    assert_eq!((rating.total_score, rating.num_ratings), (4, 1));
}

#[test]
fn the_average_of_five_three_four_is_four() {
    let mut state = State::new(StableRegions::new()).ok().unwrap();
    let target = who(1);
    assert_eq!(average(&state, &target), None);
    for score in [5u8, 3, 4] {
        assert_eq!(state.add_rating(&target, score), Ok(()));
    }
    let rating = state.get_rating(&target).unwrap();
    assert!(rating.subject.same(&target));
    assert_eq!(rating.total_score, 12);
    assert_eq!(rating.num_ratings, 3);
    assert_eq!(average(&state, &target), Some(4.0));
}

#[test]
fn every_score_from_one_to_five_counts() {
    let mut state = State::new(StableRegions::new()).ok().unwrap();
    let target = who(1);
    let mut total = 0u64;
    for (count, score) in [1u8, 2, 3, 4, 5, 5, 1].iter().enumerate() {
        assert_eq!(state.add_rating(&target, *score), Ok(()));
        total += *score as u64;
        let rating = state.get_rating(&target).unwrap();
        assert_eq!(rating.total_score, total);
        assert_eq!(rating.num_ratings, count as u64 + 1);
    }
    assert_eq!(average(&state, &target), Some(21.0 / 7.0));
}

#[test]
fn ratings_are_kept_per_identity() {
    let mut state = State::new(StableRegions::new()).ok().unwrap();
    let a = who(1);
    let b = who(2);
    state.add_rating(&a, 5).unwrap();
    state.add_rating(&b, 1).unwrap();
    state.add_rating(&a, 5).unwrap();
    assert_eq!(average(&state, &a), Some(5.0));
    assert_eq!(average(&state, &b), Some(1.0));
    assert_eq!(average(&state, &who(3)), None);
    // no registration is needed to rate or to be rated
    assert_eq!(state.get_user_role(&a), None);
}

#[test]
fn a_report_starts_unresolved() {
    let mut state = State::new(StableRegions::new()).ok().unwrap();
    let reporter = who(1);
    let id = state
        .add_report(&reporter, 500, who(2), "crate-7".to_string(), "seal broken".to_string())
        .unwrap();
    assert_eq!(id, 0);
    let next = state
        .add_report(&who(2), 501, reporter.clone(), "crate-7".to_string(), "lies".to_string())
        .unwrap();
    assert_eq!(next, 1);
    let report = state.get_report(0).unwrap();
    assert_eq!(report.report_id, 0);
    assert!(report.reporter.same(&reporter));
    assert!(report.reported_entity.same(&who(2)));
    assert_eq!(report.product_id, "crate-7");
    assert_eq!(report.reason, "seal broken");
    assert_eq!(report.timestamp, 500);
    assert!(!report.resolved);
    assert_eq!(report.valid, None);
    assert_eq!(state.get_report(1).unwrap().reason, "lies");
    assert_eq!(state.get_report(2).err(), Some(LedgerError::NotFound));
}

#[test]
fn only_an_auditor_resolves_a_report() {
    let mut state = State::new(StableRegions::new()).ok().unwrap();
    let auditor = who(9);
    let retailer = who(3);
    let stranger = who(4);
    state.register_user(&auditor, UserRole::Auditor).unwrap();
    state.register_user(&retailer, UserRole::Retailer).unwrap();
    state.add_report(&stranger, 1, who(2), "p".to_string(), "r".to_string()).unwrap();
    for caller in [&retailer, &stranger] {
        assert_eq!(state.resolve_report(caller, 0, true), Err(LedgerError::Unauthorized));
        let report = state.get_report(0).unwrap();
        assert!(!report.resolved);
        assert_eq!(report.valid, None);
    }
    // also where the report does not exist
    assert_eq!(state.resolve_report(&retailer, 7, true), Err(LedgerError::Unauthorized));
    assert_eq!(state.resolve_report(&auditor, 7, true), Err(LedgerError::NotFound));
    assert_eq!(state.resolve_report(&auditor, 0, false), Ok(()));
    let report = state.get_report(0).unwrap();
    assert!(report.resolved);
    assert_eq!(report.valid, Some(false));
    assert_eq!(report.reason, "r");
    assert_eq!(report.timestamp, 1);
}

#[test]
fn a_report_is_resolved_once() {
    let mut state = State::new(StableRegions::new()).ok().unwrap();
    let auditor = who(9);
    state.register_user(&auditor, UserRole::Auditor).unwrap();
    state.add_report(&who(1), 1, who(2), "p".to_string(), "r".to_string()).unwrap();
    state.add_report(&who(1), 2, who(3), "q".to_string(), "s".to_string()).unwrap();
    assert_eq!(state.resolve_report(&auditor, 1, true), Ok(()));
    assert_eq!(state.resolve_report(&auditor, 1, false), Err(LedgerError::Conflict));
    let report = state.get_report(1).unwrap();
    assert!(report.resolved);
    assert_eq!(report.valid, Some(true));
    let other = state.get_report(0).unwrap();
    assert!(!other.resolved);
    assert_eq!(other.valid, None);
}

#[test]
fn a_state_is_read_again_from_the_memory_it_was_kept_in() {
    let mut state = State::new(StableRegions::new()).ok().unwrap();
    let auditor = who(9);
    let farmer = who(1);
    state.register_user(&auditor, UserRole::Auditor).unwrap();
    state.register_user(&farmer, UserRole::Supplier).unwrap();
    let product = state
        .create_product(
            &farmer,
            10,
            "apples".to_string(),
            String::new(),
            "B".to_string(),
            None,
            0,
            3,
            String::new(),
            "Bozen".to_string(),
            Vec::new(),
        )
        .unwrap();
    let started = state
        .transfer_product(&farmer, 11, product.id.clone(), auditor.clone(), "X".to_string(), String::new())
        .unwrap();
    state.add_rating(&farmer, 5).unwrap();
    state.add_rating(&farmer, 2).unwrap();
    state.add_report(&farmer, 12, auditor.clone(), product.id.clone(), "r".to_string()).unwrap();
    state.resolve_report(&auditor, 0, true).unwrap();

    let mut state = State::restore(state.into_regions()).ok().unwrap();
    assert_eq!(state.get_statistics(), (1, 2, 1));
    assert_eq!(state.get_user_role(&auditor), Some(UserRole::Auditor));
    assert_eq!(state.get_user_role(&farmer), Some(UserRole::Supplier));
    assert_eq!(state.get_user_role(&who(7)), None);
    let stored = state.get_product(&product.id).unwrap();
    assert!(stored.current_owner.same(&auditor));
    assert_eq!(stored.name, "apples");
    assert_eq!(state.get_transfer(started.id).unwrap().initiated_at, 11);
    let rating = state.get_rating(&farmer).unwrap();
    assert_eq!((rating.total_score, rating.num_ratings), (7, 2));
    let report = state.get_report(0).unwrap();
    assert!(report.resolved);
    assert_eq!(report.valid, Some(true));
    let kinds: Vec<String> = state.get_events_since(0).into_iter().map(|e| e.event_type).collect();
    assert_eq!(kinds, vec!["PRODUCT_TRANSFERRED"]);
    // ids go on where they were
    let next = state
        .record_event(&auditor, 13, product.id.clone(), "AUDIT".to_string(), String::new(), Vec::new())
        .unwrap();
    assert_eq!(next, 2);
    assert_eq!(state.add_report(&farmer, 14, auditor.clone(), String::new(), String::new()), Ok(1));
}

#[test]
fn fresh_memory_restores_to_the_empty_state() {
    let state = State::load(StableRegions::new()).ok().unwrap();
    assert_eq!(state.get_statistics(), (0, 0, 0));
    assert!(state.get_events_since(0).is_empty());
    assert!(state.get_all_products().is_empty());
}

#[test]
fn states_do_not_share_their_memory() {
    let mut all = StableRegions::new();
    let mut first = State::new(all.take(STATE_REGIONS).unwrap()).ok().unwrap();
    let mut second = State::new(all.take(STATE_REGIONS).unwrap()).ok().unwrap();
    first.add_rating(&who(1), 3).unwrap();
    second.add_rating(&who(1), 5).unwrap();
    second.add_rating(&who(2), 5).unwrap();
    assert_eq!(first.get_rating(&who(1)).unwrap().total_score, 3);
    assert!(first.get_rating(&who(2)).is_none());
    assert_eq!(second.get_rating(&who(1)).unwrap().total_score, 5);
}

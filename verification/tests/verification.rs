use supply_chain::error::LedgerError;
use supply_chain::events::TrackingEvent;
use supply_chain::identity::Identity;
use supply_chain::roles::UserRole;
use supply_chain::state::State;
use supply_chain::verification::{order_by_time, step_allowed, verify_chain};
use supply_chain::regions::StableRegions;

fn who(byte: u8) -> Identity {
    Identity::from_bytes(vec![byte]).unwrap()
}

fn actors(state: &mut State) -> (Identity, Identity) {
    let farmer = who(1);
    let handler = who(2);
    state.register_user(&farmer, UserRole::Supplier).unwrap();
    state.register_user(&handler, UserRole::Warehouse).unwrap();
    (farmer, handler)
}

fn record(state: &mut State, caller: &Identity, now: u64, product: &str, kind: &str) -> u64 {
    state
        .record_event(
            caller,
            now,
            product.to_string(),
            kind.to_string(),
            "here".to_string(),
            Vec::new(),
        )
        .unwrap()
}

fn event(id: u64, timestamp: u64, kind: &str) -> TrackingEvent {
    TrackingEvent {
        id,
        product_id: "p".to_string(),
        user_id: who(1),
        user_role: Some(UserRole::Supplier),
        event_type: kind.to_string(),
        description: String::new(),
        location: String::new(),
        timestamp,
        metadata: Vec::new(),
    }
}

#[test]
fn a_full_chain_is_valid() {
    let mut state = State::new(StableRegions::new()).ok().unwrap();
    let (farmer, handler) = actors(&mut state);
    record(&mut state, &farmer, 1, "p", "PRODUCED");
    record(&mut state, &handler, 2, "p", "TRANSPORT");
    record(&mut state, &handler, 3, "p", "WAREHOUSE");
    record(&mut state, &handler, 4, "p", "RETAIL");
    assert_eq!(state.verify_product(&"p".to_string()), Ok(true));
}

#[test]
fn a_chain_that_skips_transport_is_invalid() {
    let mut state = State::new(StableRegions::new()).ok().unwrap();
    let (farmer, handler) = actors(&mut state);
    record(&mut state, &farmer, 1, "p", "PRODUCED");
    record(&mut state, &handler, 2, "p", "WAREHOUSE");
    assert_eq!(state.verify_product(&"p".to_string()), Ok(false));
}

#[test]
fn a_single_event_is_a_valid_chain() {
    let mut state = State::new(StableRegions::new()).ok().unwrap();
    let (farmer, _) = actors(&mut state);
    record(&mut state, &farmer, 1, "p", "PRODUCED");
    assert_eq!(state.verify_product(&"p".to_string()), Ok(true));
}

#[test]
fn a_single_event_of_any_type_is_a_valid_chain() {
    let mut state = State::new(StableRegions::new()).ok().unwrap();
    let (_, handler) = actors(&mut state);
    record(&mut state, &handler, 1, "p", "RETAIL");
    assert_eq!(state.verify_product(&"p".to_string()), Ok(true));
}

#[test]
fn verifying_an_unknown_product_is_not_found() {
    let mut state = State::new(StableRegions::new()).ok().unwrap();
    let (farmer, _) = actors(&mut state);
    assert_eq!(state.verify_product(&"p".to_string()), Err(LedgerError::NotFound));
    record(&mut state, &farmer, 1, "q", "PRODUCED");
    assert_eq!(state.verify_product(&"p".to_string()), Err(LedgerError::NotFound));
}

#[test]
fn timestamps_and_not_ids_give_the_order() {
    let mut state = State::new(StableRegions::new()).ok().unwrap();
    let (farmer, handler) = actors(&mut state);
    record(&mut state, &handler, 40, "p", "RETAIL");
    record(&mut state, &handler, 20, "p", "TRANSPORT");
    record(&mut state, &farmer, 10, "p", "PRODUCED");
    record(&mut state, &handler, 30, "p", "WAREHOUSE");
    assert_eq!(state.verify_product(&"p".to_string()), Ok(true));

    let mut other = State::new(StableRegions::new()).ok().unwrap();
    let (farmer, handler) = actors(&mut other);
    record(&mut other, &farmer, 10, "p", "PRODUCED");
    record(&mut other, &handler, 30, "p", "TRANSPORT");
    record(&mut other, &handler, 20, "p", "WAREHOUSE");
    assert_eq!(other.verify_product(&"p".to_string()), Ok(false));
}

#[test]
fn events_of_other_products_do_not_count() {
    let mut state = State::new(StableRegions::new()).ok().unwrap();
    let (farmer, handler) = actors(&mut state);
    record(&mut state, &farmer, 1, "p", "PRODUCED");
    record(&mut state, &handler, 2, "q", "RETAIL");
    record(&mut state, &handler, 3, "p", "TRANSPORT");
    assert_eq!(state.verify_product(&"p".to_string()), Ok(true));
    assert_eq!(state.verify_product(&"q".to_string()), Ok(true));
}

#[test]
fn equal_timestamps_keep_the_recorded_order() {
    let valid = vec![event(0, 5, "PRODUCED"), event(1, 5, "TRANSPORT"), event(2, 5, "WAREHOUSE")];
    assert!(verify_chain(&valid));
    assert_eq!(order_by_time(&valid), vec![0, 1, 2]);
    let invalid = vec![event(0, 5, "TRANSPORT"), event(1, 5, "PRODUCED")];
    assert!(!verify_chain(&invalid));
    assert_eq!(order_by_time(&invalid), vec![0, 1]);
}

#[test]
fn order_by_time_sorts_positions_by_timestamp() {
    let events = vec![
        event(0, 30, "a"),
        event(1, 10, "b"),
        event(2, 20, "c"),
        event(3, 10, "d"),
        event(4, 0, "e"),
    ];
    assert_eq!(order_by_time(&events), vec![4, 1, 3, 2, 0]);
    assert_eq!(order_by_time(&Vec::new()), Vec::<usize>::new());
}

#[test]
fn an_empty_history_is_a_valid_chain() {
    assert!(verify_chain(&Vec::new()));
}

#[test]
fn a_repeated_step_is_invalid() {
    let events = vec![event(0, 1, "PRODUCED"), event(1, 2, "PRODUCED")];
    assert!(!verify_chain(&events));
    let events = vec![
        event(0, 1, "PRODUCED"),
        event(1, 2, "TRANSPORT"),
        event(2, 3, "WAREHOUSE"),
        event(3, 4, "RETAIL"),
        event(4, 5, "RETAIL"),
    ];
    assert!(!verify_chain(&events));
}

#[test]
fn only_three_steps_are_allowed() {
    let kinds = ["PRODUCED", "TRANSPORT", "WAREHOUSE", "RETAIL", "produced", ""];
    for prev in kinds {
        for next in kinds {
            let expected = matches!(
                (prev, next),
                ("PRODUCED", "TRANSPORT") | ("TRANSPORT", "WAREHOUSE") | ("WAREHOUSE", "RETAIL")
            );
            assert_eq!(step_allowed(&prev.to_string(), &next.to_string()), expected);
        }
    }
}

use supply_chain::error::LedgerError;
use supply_chain::identity::Identity;
use supply_chain::roles::UserRole;
use supply_chain::state::State;
use supply_chain::regions::StableRegions;

fn who(byte: u8) -> Identity {
    Identity::from_bytes(vec![byte, 1, 2, 3]).unwrap()
}

fn record(
    state: &mut State,
    caller: &Identity,
    now: u64,
    product: &str,
    kind: &str,
) -> Result<u64, LedgerError> {
    state.record_event(
        caller,
        now,
        product.to_string(),
        kind.to_string(),
        "Rotterdam".to_string(),
        vec![("lot".to_string(), "7".to_string())],
    )
}

#[test]
fn appended_ids_start_at_zero_and_rise_by_one() {
    let mut state = State::new(StableRegions::new()).ok().unwrap();
    let carrier = who(1);
    assert_eq!(state.register_user(&carrier, UserRole::Transporter), Ok(()));
    for expected in 0..40u64 {
        assert_eq!(record(&mut state, &carrier, 100 + expected, "p", "TRANSPORT"), Ok(expected));
    }
    assert_eq!(state.get_statistics(), (0, 40, 0));
}

#[test]
fn refused_appends_use_no_id() {
    let mut state = State::new(StableRegions::new()).ok().unwrap();
    let carrier = who(1);
    let stranger = who(2);
    let farmer = who(3);
    state.register_user(&carrier, UserRole::Transporter).unwrap();
    state.register_user(&farmer, UserRole::Supplier).unwrap();
    assert_eq!(record(&mut state, &carrier, 1, "p", "TRANSPORT"), Ok(0));
    assert_eq!(record(&mut state, &stranger, 2, "p", "TRANSPORT"), Err(LedgerError::Unauthorized));
    assert_eq!(record(&mut state, &farmer, 3, "p", "TRANSPORT"), Err(LedgerError::ValidationError));
    assert_eq!(record(&mut state, &farmer, 4, "p", "PRODUCED"), Ok(1));
    assert_eq!(record(&mut state, &carrier, 5, "p", "TRANSPORT"), Ok(2));
    assert_eq!(state.get_events_since(0).len(), 2);
}

#[test]
fn events_since_returns_the_events_after_the_cursor() {
    let mut state = State::new(StableRegions::new()).ok().unwrap();
    let carrier = who(1);
    state.register_user(&carrier, UserRole::Transporter).unwrap();
    for i in 0..30u64 {
        record(&mut state, &carrier, 100 + i, "p", "TRANSPORT").unwrap();
    }
    let after = state.get_events_since(9);
    assert_eq!(after.len(), 20);
    for (offset, event) in after.iter().enumerate() {
        assert_eq!(event.id, 10 + offset as u64);
        assert_eq!(event.timestamp, 110 + offset as u64);
        assert_eq!(event.product_id, "p");
        assert_eq!(event.event_type, "TRANSPORT");
        assert_eq!(event.description, "");
        assert_eq!(event.location, "Rotterdam");
        assert!(event.user_id.same(&carrier));
        assert_eq!(event.user_role, Some(UserRole::Transporter));
        assert_eq!(event.metadata, vec![("lot".to_string(), "7".to_string())]);
    }
    let all_but_first = state.get_events_since(0);
    assert_eq!(all_but_first.len(), 29);
    assert_eq!(all_but_first[0].id, 1);
}

#[test]
fn events_since_a_cursor_at_or_beyond_the_end_is_empty() {
    let mut state = State::new(StableRegions::new()).ok().unwrap();
    assert!(state.get_events_since(0).is_empty());
    let carrier = who(1);
    state.register_user(&carrier, UserRole::Transporter).unwrap();
    for i in 0..3u64 {
        record(&mut state, &carrier, i, "p", "TRANSPORT").unwrap();
    }
    assert_eq!(state.get_events_since(1).len(), 1);
    assert!(state.get_events_since(2).is_empty());
    assert!(state.get_events_since(3).is_empty());
    assert!(state.get_events_since(1_000_000).is_empty());
    assert!(state.get_events_since(u64::MAX).is_empty());
}

#[test]
fn history_holds_the_events_of_one_product_in_id_order() {
    let mut state = State::new(StableRegions::new()).ok().unwrap();
    let carrier = who(1);
    state.register_user(&carrier, UserRole::Transporter).unwrap();
    record(&mut state, &carrier, 10, "apples", "TRANSPORT").unwrap();
    record(&mut state, &carrier, 11, "pears", "TRANSPORT").unwrap();
    record(&mut state, &carrier, 12, "apples", "WAREHOUSE").unwrap();
    record(&mut state, &carrier, 13, "apple", "RETAIL").unwrap();
    record(&mut state, &carrier, 14, "apples", "RETAIL").unwrap();
    let history = state.get_product_history(&"apples".to_string()).unwrap();
    let ids: Vec<u64> = history.iter().map(|e| e.id).collect();
    assert_eq!(ids, vec![0, 2, 4]);
    let kinds: Vec<&str> = history.iter().map(|e| e.event_type.as_str()).collect();
    assert_eq!(kinds, vec!["TRANSPORT", "WAREHOUSE", "RETAIL"]);
    let listed = state.get_product_tracking_history(&"pears".to_string());
    assert_eq!(listed.len(), 1);
    assert_eq!(listed[0].id, 1);
}

#[test]
fn history_of_a_product_without_events_is_not_found() {
    let mut state = State::new(StableRegions::new()).ok().unwrap();
    let carrier = who(1);
    state.register_user(&carrier, UserRole::Transporter).unwrap();
    record(&mut state, &carrier, 10, "apples", "TRANSPORT").unwrap();
    assert_eq!(
        state.get_product_history(&"pears".to_string()).err(),
        Some(LedgerError::NotFound)
    );
    assert!(state.get_product_tracking_history(&"pears".to_string()).is_empty());
}

#[test]
fn registering_twice_is_a_conflict() {
    let mut state = State::new(StableRegions::new()).ok().unwrap();
    let someone = who(9);
    assert_eq!(state.get_user_role(&someone), None);
    assert_eq!(state.register_user(&someone, UserRole::Warehouse), Ok(()));
    assert_eq!(state.register_user(&someone, UserRole::Auditor), Err(LedgerError::Conflict));
    assert_eq!(state.get_user_role(&someone), Some(UserRole::Warehouse));
    assert_eq!(state.get_user_role(&who(8)), None);
}

#[test]
fn metadata_keeps_its_order_and_any_text() {
    let mut state = State::new(StableRegions::new()).ok().unwrap();
    let carrier = who(1);
    state.register_user(&carrier, UserRole::Retailer).unwrap();
    let metadata = vec![
        ("z".to_string(), "last first".to_string()),
        ("a".to_string(), "".to_string()),
        ("température".to_string(), "4 °C — kühl 冷".to_string()),
        ("a".to_string(), "again".to_string()),
    ];
    let id = state
        .record_event(
            &carrier,
            77,
            "crate №5".to_string(),
            "RETAIL".to_string(),
            "Zürich".to_string(),
            metadata.clone(),
        )
        .unwrap();
    assert_eq!(id, 0);
    let events = state.get_events_since(u64::MAX);
    assert!(events.is_empty());
    let history = state.get_product_history(&"crate №5".to_string()).unwrap();
    assert_eq!(history.len(), 1);
    assert_eq!(history[0].metadata, metadata);
    assert_eq!(history[0].location, "Zürich");
    assert_eq!(history[0].timestamp, 77);
}

#[test]
fn error_messages_are_fixed() {
    assert_eq!(LedgerError::Unauthorized.message(), "unauthorized");
    assert_eq!(LedgerError::NotFound.message(), "not found");
    assert_eq!(LedgerError::ValidationError.message(), "validation error");
    assert_eq!(LedgerError::Conflict.message(), "conflict");
    assert_eq!(LedgerError::StorageError.message(), "storage error");
}

use supply_chain::error::LedgerError;
use supply_chain::identity::Identity;
use supply_chain::reporting::{Reporting, REPORTING_REGIONS};
use supply_chain::feedback::{Feedback, FEEDBACK_REGIONS};
use supply_chain::roles::UserRole;
use supply_chain::state::{State, STATE_REGIONS};
use supply_chain::transfers::TransferStatus;
use supply_chain::regions::StableRegions;
use supply_chain::users::{Directory, DIRECTORY_REGIONS};

fn who(byte: u8) -> Identity {
    Identity::from_bytes(vec![byte; 3]).unwrap()
}

#[test]
fn stable_memory_has_255_regions() {
    let mut all = StableRegions::new();
    assert_eq!(all.len(), 255);
    let front = all.take(6).unwrap();
    assert_eq!(front.len(), 6);
    assert_eq!(all.len(), 249);
    assert!(all.take(250).is_none());
    assert_eq!(all.len(), 249);
    let rest = all.take(249).unwrap();
    assert_eq!(rest.len(), 249);
    assert_eq!(all.len(), 0);
    assert_eq!(all.take(0).unwrap().len(), 0);
}

#[test]
fn too_few_regions_hold_no_state() {
    let mut all = StableRegions::new();
    let few = all.take(STATE_REGIONS - 1).unwrap();
    assert_eq!(State::load(few).err(), Some(LedgerError::StorageError));
    assert_eq!(Directory::load(all.take(0).unwrap()).err(), Some(LedgerError::StorageError));
    assert_eq!(Feedback::load(all.take(2).unwrap()).err(), Some(LedgerError::StorageError));
    assert_eq!(Reporting::load(all.take(2).unwrap()).err(), Some(LedgerError::StorageError));
}

#[test]
fn too_few_regions_make_no_state() {
    let mut all = StableRegions::new();
    let few = all.take(STATE_REGIONS - 1).unwrap();
    assert_eq!(State::new(few).err(), Some(LedgerError::StorageError));
    assert_eq!(Directory::new(all.take(1).unwrap()).err(), Some(LedgerError::StorageError));
    assert_eq!(Feedback::new(all.take(0).unwrap()).err(), Some(LedgerError::StorageError));
    assert_eq!(Reporting::new(all.take(2).unwrap()).err(), Some(LedgerError::StorageError));
    // just enough will do, and more than enough too
    assert!(State::new(all.take(STATE_REGIONS).unwrap()).is_ok());
    assert!(Directory::new(all.take(DIRECTORY_REGIONS).unwrap()).is_ok());
    assert!(Feedback::new(all.take(FEEDBACK_REGIONS + 1).unwrap()).is_ok());
    assert!(Reporting::new(all).is_ok());
}

#[test]
fn the_services_live_side_by_side_in_one_memory() {
    let mut all = StableRegions::new();
    let mut state = State::load(all.take(STATE_REGIONS).unwrap()).ok().unwrap();
    let mut directory = Directory::load(all.take(DIRECTORY_REGIONS).unwrap()).ok().unwrap();
    let mut feedback = Feedback::load(all.take(FEEDBACK_REGIONS).unwrap()).ok().unwrap();
    let mut reporting = Reporting::load(all.take(REPORTING_REGIONS).unwrap()).ok().unwrap();

    let ann = who(1);
    let bob = who(2);
    state.register_user(&ann, UserRole::Auditor).unwrap();
    directory
        .register_user(
            &ann,
            1,
            "ann".to_string(),
            String::new(),
            UserRole::Supplier,
            String::new(),
            String::new(),
            String::new(),
        )
        .unwrap();
    for i in 0..50u64 {
        state
            .record_event(&ann, i, "p".to_string(), "AUDIT".to_string(), String::new(), Vec::new())
            .unwrap();
        feedback
            .submit_rating(&ann, i, bob.clone(), None, None, 1 + (i % 5) as u8, String::new(), "q".to_string())
            .unwrap();
        reporting.generate_report(&ann, i, "t".to_string(), "QUALITY_METRICS".to_string(), 0, 1, true);
    }
    assert_eq!(state.get_statistics(), (0, 50, 0));
    assert_eq!(state.get_user_role(&ann), Some(UserRole::Auditor));
    assert_eq!(directory.get_user(&ann).unwrap().role, UserRole::Supplier);
    assert_eq!(directory.get_all_users().len(), 1);
    assert_eq!(feedback.get_user_ratings(&bob).len(), 50);
    assert_eq!(feedback.get_user_rating_stats(&bob).unwrap().rating_sum, 150);
    assert_eq!(reporting.get_public_reports().len(), 50);

    // each is read again from the regions it has lived on
    let state = State::restore(state.into_regions()).ok().unwrap();
    let feedback = Feedback::restore(feedback.into_regions()).ok().unwrap();
    assert_eq!(state.get_events_since(44).len(), 5);
    assert_eq!(feedback.get_user_rating_stats(&bob).unwrap().total_ratings, 50);
}

#[test]
fn a_state_is_read_again_with_its_transfers() {
    let farmer = who(1);
    let shop = who(2);
    let mut state = State::new(StableRegions::new()).ok().unwrap();
    let product = state
        .create_product(
            &farmer,
            10,
            "apples".to_string(),
            String::new(),
            "B".to_string(),
            None,
            0,
            1,
            String::new(),
            String::new(),
            Vec::new(),
        )
        .unwrap();
    let first = state
        .transfer_product(&farmer, 11, product.id.clone(), shop.clone(), "X".to_string(), String::new())
        .unwrap();
    let second = state
        .transfer_product(&shop, 11, product.id.clone(), farmer.clone(), "Y".to_string(), String::new())
        .unwrap();
    state.complete_transfer(&shop, 12, first.id).unwrap();
    state.add_report(&farmer, 13, shop.clone(), product.id.clone(), "r".to_string()).unwrap();

    let mut state = State::restore(state.into_regions()).ok().unwrap();
    assert_eq!(state.get_statistics(), (1, 4, 2));
    let done = state.get_transfer(first.id).unwrap();
    assert_eq!((done.status, done.completed_at), (TransferStatus::Completed, Some(12)));
    let open = state.get_transfer(second.id).unwrap();
    assert_eq!((open.status, open.completed_at), (TransferStatus::Pending, None));
    let report = state.get_report(0).unwrap();
    assert_eq!((report.resolved, report.valid), (false, None));
    // the next transfer gets the next id
    let third = state
        .transfer_product(&farmer, 14, product.id.clone(), shop.clone(), "X".to_string(), String::new())
        .unwrap();
    assert_eq!(third.id, 2);
}

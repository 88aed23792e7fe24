use supply_chain::error::LedgerError;
use supply_chain::identity::Identity;
use supply_chain::products::{Product, ProductStatus};
use supply_chain::roles::UserRole;
use supply_chain::state::State;
use supply_chain::transfers::{Transfer, TransferStatus};
use supply_chain::regions::StableRegions;

fn who(byte: u8) -> Identity {
    Identity::from_bytes(vec![byte, 0xca, 0xfe]).unwrap()
}

struct World {
    state: State,
    farmer: Identity,
    carrier: Identity,
    shop: Identity,
    stranger: Identity,
}

fn world() -> World {
    let mut state = State::new(StableRegions::new()).ok().unwrap();
    let farmer = who(1);
    let carrier = who(2);
    let shop = who(3);
    let stranger = who(4);
    state.register_user(&farmer, UserRole::Supplier).unwrap();
    state.register_user(&carrier, UserRole::Transporter).unwrap();
    state.register_user(&shop, UserRole::Retailer).unwrap();
    World { state, farmer, carrier, shop, stranger }
}

fn create(state: &mut State, caller: &Identity, now: u64, name: &str) -> Result<Product, LedgerError> {
    state.create_product(
        caller,
        now,
        name.to_string(),
        "fresh".to_string(),
        "B-17".to_string(),
        Some(9_000),
        2.5f64.to_bits(),
        120,
        "fruit".to_string(),
        "Bozen".to_string(),
        vec!["bio".to_string()],
    )
}

fn transfer(
    state: &mut State,
    caller: &Identity,
    now: u64,
    product: &str,
    to: &Identity,
    kind: &str,
) -> Result<Transfer, LedgerError> {
    state.transfer_product(
        caller,
        now,
        product.to_string(),
        to.clone(),
        kind.to_string(),
        "handle with care".to_string(),
    )
}

fn pair(key: &str, value: &str) -> (String, String) {
    (key.to_string(), value.to_string())
}

#[test]
fn a_created_product_belongs_to_its_creator() {
    let mut w = world();
    let product = create(&mut w.state, &w.farmer, 1000, "apples").unwrap();
    let id = format!("1000-{}", w.farmer.to_text());
    assert_eq!(product.id, id);
    assert_eq!(product.name, "apples");
    assert_eq!(product.description, "fresh");
    assert!(product.supplier_id.same(&w.farmer));
    assert!(product.current_owner.same(&w.farmer));
    assert_eq!(product.status, ProductStatus::Created);
    assert_eq!(product.created_at, 1000);
    assert_eq!(product.updated_at, 1000);
    assert_eq!(product.batch_number, "B-17");
    assert_eq!(product.expiry_date, Some(9_000));
    assert_eq!(f64::from_bits(product.price_bits), 2.5);
    assert_eq!(product.quantity, 120);
    assert_eq!(product.category, "fruit");
    assert_eq!(product.origin, "Bozen");
    assert_eq!(product.certifications, vec!["bio"]);

    let stored = w.state.get_product(&id).unwrap();
    assert_eq!(stored.id, id);
    assert_eq!(stored.name, "apples");
    assert!(stored.current_owner.same(&w.farmer));
    assert_eq!(stored.certifications, vec!["bio"]);
    assert_eq!(w.state.get_statistics(), (1, 1, 0));
}

#[test]
fn creating_a_product_records_one_event() {
    let mut w = world();
    let product = create(&mut w.state, &w.farmer, 1000, "apples").unwrap();
    let history = w.state.get_product_history(&product.id).unwrap();
    assert_eq!(history.len(), 1);
    let event = &history[0];
    assert_eq!(event.id, 0);
    assert_eq!(event.product_id, product.id);
    assert!(event.user_id.same(&w.farmer));
    assert_eq!(event.user_role, Some(UserRole::Supplier));
    assert_eq!(event.event_type, "PRODUCT_CREATED");
    assert_eq!(event.description, "Product created by supplier");
    assert_eq!(event.location, "Bozen");
    assert_eq!(event.timestamp, 1000);
    assert_eq!(event.metadata, vec![pair("batch_number", "B-17"), pair("quantity", "120")]);
}

#[test]
fn an_identity_without_a_role_acts_without_one() {
    let mut w = world();
    let product = create(&mut w.state, &w.stranger, 1, "x").unwrap();
    assert!(product.current_owner.same(&w.stranger));
    let history = w.state.get_product_history(&product.id).unwrap();
    assert_eq!(history.len(), 1);
    assert_eq!(history[0].user_role, None);
    assert!(history[0].user_id.same(&w.stranger));
    assert_eq!(w.state.get_statistics(), (1, 1, 0));
}

#[test]
fn a_second_product_with_the_same_id_is_a_conflict() {
    let mut w = world();
    let first = create(&mut w.state, &w.farmer, 1000, "apples").unwrap();
    assert_eq!(create(&mut w.state, &w.farmer, 1000, "pears").err(), Some(LedgerError::Conflict));
    assert_eq!(w.state.get_product(&first.id).unwrap().name, "apples");
    assert_eq!(w.state.get_statistics(), (1, 1, 0));
    // another time or another creator gives another id
    assert!(create(&mut w.state, &w.farmer, 1001, "pears").is_ok());
    assert!(create(&mut w.state, &w.carrier, 1000, "plums").is_ok());
    assert_eq!(w.state.get_statistics(), (3, 3, 0));
}

#[test]
fn an_unknown_product_is_not_found() {
    let w = world();
    assert_eq!(w.state.get_product(&"nothing".to_string()).err(), Some(LedgerError::NotFound));
    assert_eq!(w.state.get_transfer(0).err(), Some(LedgerError::NotFound));
}

#[test]
fn the_owner_sets_the_status() {
    let mut w = world();
    let product = create(&mut w.state, &w.farmer, 1000, "apples").unwrap();
    let updated = w
        .state
        .update_product_status(
            &w.farmer,
            2000,
            product.id.clone(),
            ProductStatus::Damaged,
            "Verona".to_string(),
            "hail".to_string(),
        )
        .unwrap();
    assert_eq!(updated.status, ProductStatus::Damaged);
    assert_eq!(updated.updated_at, 2000);
    assert_eq!(updated.created_at, 1000);
    assert!(updated.current_owner.same(&w.farmer));
    assert_eq!(updated.name, "apples");
    let stored = w.state.get_product(&product.id).unwrap();
    assert_eq!(stored.status, ProductStatus::Damaged);
    assert_eq!(stored.updated_at, 2000);

    let history = w.state.get_product_history(&product.id).unwrap();
    assert_eq!(history.len(), 2);
    let event = &history[1];
    assert_eq!(event.id, 1);
    assert_eq!(event.event_type, "STATUS_UPDATED");
    assert_eq!(event.description, "Product status updated to Damaged");
    assert_eq!(event.location, "Verona");
    assert_eq!(event.timestamp, 2000);
    assert_eq!(event.user_role, Some(UserRole::Supplier));
    assert_eq!(event.metadata, vec![pair("new_status", "Damaged"), pair("notes", "hail")]);
}

#[test]
fn any_status_may_follow_any_other() {
    let mut w = world();
    let product = create(&mut w.state, &w.farmer, 1000, "apples").unwrap();
    let order = [
        ProductStatus::Sold,
        ProductStatus::Created,
        ProductStatus::Lost,
        ProductStatus::Delivered,
        ProductStatus::InTransit,
        ProductStatus::InWarehouse,
        ProductStatus::InWarehouse,
    ];
    for (step, status) in order.iter().enumerate() {
        let updated = w
            .state
            .update_product_status(
                &w.farmer,
                2000 + step as u64,
                product.id.clone(),
                *status,
                String::new(),
                String::new(),
            )
            .unwrap();
        assert_eq!(updated.status, *status);
    }
    assert_eq!(w.state.get_statistics(), (1, 8, 0));
}

#[test]
fn only_the_owner_sets_the_status() {
    let mut w = world();
    let product = create(&mut w.state, &w.farmer, 1000, "apples").unwrap();
    for caller in [&w.carrier, &w.stranger] {
        let refused = w.state.update_product_status(
            caller,
            2000,
            product.id.clone(),
            ProductStatus::Sold,
            String::new(),
            String::new(),
        );
        assert_eq!(refused.err(), Some(LedgerError::Unauthorized));
    }
    let unknown = w.state.update_product_status(
        &w.farmer,
        2000,
        "nothing".to_string(),
        ProductStatus::Sold,
        String::new(),
        String::new(),
    );
    assert_eq!(unknown.err(), Some(LedgerError::NotFound));
    let stored = w.state.get_product(&product.id).unwrap();
    assert_eq!(stored.status, ProductStatus::Created);
    assert_eq!(stored.updated_at, 1000);
    assert_eq!(w.state.get_statistics(), (1, 1, 0));
}

#[test]
fn a_transfer_by_a_non_owner_is_refused_and_changes_nothing() {
    let mut w = world();
    let product = create(&mut w.state, &w.farmer, 1000, "apples").unwrap();
    let shop = w.shop.clone();
    for caller in [w.carrier.clone(), w.stranger.clone()] {
        let refused = transfer(&mut w.state, &caller, 2000, &product.id, &shop, "TO_RETAILER");
        assert_eq!(refused.err(), Some(LedgerError::Unauthorized));
    }
    let stored = w.state.get_product(&product.id).unwrap();
    assert!(stored.current_owner.same(&w.farmer));
    assert_eq!(stored.status, ProductStatus::Created);
    assert_eq!(stored.updated_at, 1000);
    assert_eq!(w.state.get_statistics(), (1, 1, 0));
    assert!(w.state.get_transfers_by_user(&w.shop).is_empty());
}

#[test]
fn a_transfer_of_an_unknown_product_is_not_found() {
    let mut w = world();
    let shop = w.shop.clone();
    for caller in [w.farmer.clone(), w.stranger.clone()] {
        let refused = transfer(&mut w.state, &caller, 2000, "nothing", &shop, "TO_RETAILER");
        assert_eq!(refused.err(), Some(LedgerError::NotFound));
        let refused = w.state.update_product_status(
            &caller,
            2000,
            "nothing".to_string(),
            ProductStatus::Sold,
            String::new(),
            String::new(),
        );
        assert_eq!(refused.err(), Some(LedgerError::NotFound));
        let refused = w.state.complete_transfer(&caller, 2000, 0);
        assert_eq!(refused.err(), Some(LedgerError::NotFound));
    }
    assert_eq!(w.state.get_statistics(), (0, 0, 0));
}

#[test]
fn events_carry_the_role_of_the_time() {
    let mut w = world();
    let product = create(&mut w.state, &w.farmer, 1000, "apples").unwrap();
    let farmer = w.farmer.clone();
    let stranger = w.stranger.clone();
    let shop = w.shop.clone();
    let started = transfer(&mut w.state, &farmer, 2000, &product.id, &stranger, "TO_WAREHOUSE")
        .unwrap();
    assert!(w.state.get_product(&product.id).unwrap().current_owner.same(&stranger));
    // the recipient has no role yet, and acts without one
    let done = w.state.complete_transfer(&stranger, 3000, started.id).unwrap();
    assert_eq!(done.status, TransferStatus::Completed);
    w.state.register_user(&stranger, UserRole::Warehouse).unwrap();
    transfer(&mut w.state, &stranger, 3001, &product.id, &shop, "TO_RETAILER").unwrap();
    let history = w.state.get_product_history(&product.id).unwrap();
    assert_eq!(history.len(), 4);
    assert_eq!(history[0].user_role, Some(UserRole::Supplier));
    assert_eq!(history[1].user_role, Some(UserRole::Supplier));
    assert_eq!(history[2].user_role, None);
    assert_eq!(history[3].user_role, Some(UserRole::Warehouse));
}

#[test]
fn a_transfer_hands_the_product_over_at_once() {
    let mut w = world();
    let product = create(&mut w.state, &w.farmer, 1000, "apples").unwrap();
    let farmer = w.farmer.clone();
    let carrier = w.carrier.clone();
    let started = transfer(&mut w.state, &farmer, 2000, &product.id, &carrier, "TO_TRANSPORTER")
        .unwrap();
    assert_eq!(started.id, 0);
    assert_eq!(started.product_id, product.id);
    assert!(started.from_user.same(&farmer));
    assert!(started.to_user.same(&carrier));
    assert_eq!(started.transfer_type, "TO_TRANSPORTER");
    assert_eq!(started.status, TransferStatus::Pending);
    assert_eq!(started.initiated_at, 2000);
    assert_eq!(started.completed_at, None);
    assert_eq!(started.notes, "handle with care");

    let stored = w.state.get_product(&product.id).unwrap();
    assert!(stored.current_owner.same(&carrier));
    assert!(stored.supplier_id.same(&farmer));
    assert_eq!(stored.status, ProductStatus::InTransit);
    assert_eq!(stored.updated_at, 2000);
    assert_eq!(stored.created_at, 1000);

    let history = w.state.get_product_history(&product.id).unwrap();
    assert_eq!(history.len(), 2);
    let event = &history[1];
    assert_eq!(event.event_type, "PRODUCT_TRANSFERRED");
    assert_eq!(event.description, "Product transferred via TO_TRANSPORTER");
    assert_eq!(event.location, "Unknown");
    assert_eq!(event.timestamp, 2000);
    assert!(event.user_id.same(&farmer));
    assert_eq!(event.user_role, Some(UserRole::Supplier));
    assert_eq!(
        event.metadata,
        vec![pair("transfer_type", "TO_TRANSPORTER"), pair("to_user", &carrier.to_text())]
    );

    // the former owner has lost the right to act, the new owner has it
    let shop = w.shop.clone();
    let again = transfer(&mut w.state, &farmer, 3000, &product.id, &shop, "TO_RETAILER");
    assert_eq!(again.err(), Some(LedgerError::Unauthorized));
    let onward = transfer(&mut w.state, &carrier, 3000, &product.id, &shop, "TO_RETAILER").unwrap();
    assert_eq!(onward.status, TransferStatus::Pending);
    let stored = w.state.get_product(&product.id).unwrap();
    assert!(stored.current_owner.same(&shop));
    assert_eq!(stored.status, ProductStatus::Delivered);
    assert_eq!(w.state.get_statistics(), (1, 3, 2));
}

#[test]
fn the_transfer_type_sets_the_status() {
    let cases = [
        ("TO_WAREHOUSE", ProductStatus::InWarehouse),
        ("TO_TRANSPORTER", ProductStatus::InTransit),
        ("TO_RETAILER", ProductStatus::Delivered),
        ("TO_CUSTOMER", ProductStatus::Created),
        ("to_warehouse", ProductStatus::Created),
        ("", ProductStatus::Created),
    ];
    for (kind, expected) in cases {
        let mut w = world();
        let product = create(&mut w.state, &w.farmer, 1000, "apples").unwrap();
        let farmer = w.farmer.clone();
        let shop = w.shop.clone();
        transfer(&mut w.state, &farmer, 2000, &product.id, &shop, kind).unwrap();
        let stored = w.state.get_product(&product.id).unwrap();
        assert_eq!(stored.status, expected);
        assert!(stored.current_owner.same(&shop));
    }
}

#[test]
fn transfers_at_one_time_get_ids_of_their_own() {
    let mut w = world();
    let apples = create(&mut w.state, &w.farmer, 1000, "apples").unwrap();
    let pears = create(&mut w.state, &w.farmer, 1001, "pears").unwrap();
    let farmer = w.farmer.clone();
    let shop = w.shop.clone();
    let first = transfer(&mut w.state, &farmer, 2000, &apples.id, &shop, "TO_RETAILER").unwrap();
    let second = transfer(&mut w.state, &farmer, 2000, &pears.id, &shop, "TO_RETAILER").unwrap();
    assert_eq!((first.id, second.id), (0, 1));
    assert_eq!(second.initiated_at, 2000);
    let stored = w.state.get_product(&pears.id).unwrap();
    assert!(stored.current_owner.same(&shop));
    assert_eq!(stored.status, ProductStatus::Delivered);
    assert_eq!(w.state.get_statistics(), (2, 4, 2));
    assert_eq!(w.state.get_transfer(0).unwrap().product_id, apples.id);
    assert_eq!(w.state.get_transfer(1).unwrap().product_id, pears.id);
    assert_eq!(w.state.get_transfer(2).err(), Some(LedgerError::NotFound));
    // the same product goes back and forth at one time
    let back = transfer(&mut w.state, &shop, 2000, &pears.id, &farmer, "RETURN").unwrap();
    let forth = transfer(&mut w.state, &farmer, 2000, &pears.id, &shop, "TO_RETAILER").unwrap();
    assert_eq!((back.id, forth.id), (2, 3));
    let done = w.state.complete_transfer(&farmer, 2000, back.id).unwrap();
    assert_eq!(done.status, TransferStatus::Completed);
    assert_eq!(w.state.get_transfer(3).unwrap().status, TransferStatus::Pending);
}

#[test]
fn only_the_recipient_completes_a_transfer() {
    let mut w = world();
    let product = create(&mut w.state, &w.farmer, 1000, "apples").unwrap();
    let farmer = w.farmer.clone();
    let shop = w.shop.clone();
    let started = transfer(&mut w.state, &farmer, 2000, &product.id, &shop, "TO_RETAILER").unwrap();
    for caller in [&w.farmer, &w.carrier, &w.stranger] {
        let refused = w.state.complete_transfer(caller, 3000, started.id);
        assert_eq!(refused.err(), Some(LedgerError::Unauthorized));
    }
    let stored = w.state.get_transfer(started.id).unwrap();
    assert_eq!(stored.status, TransferStatus::Pending);
    assert_eq!(stored.completed_at, None);
    assert_eq!(w.state.get_statistics(), (1, 2, 1));
    let unknown = w.state.complete_transfer(&w.shop, 3000, 1);
    assert_eq!(unknown.err(), Some(LedgerError::NotFound));
}

#[test]
fn the_recipient_completes_the_transfer() {
    let mut w = world();
    let product = create(&mut w.state, &w.farmer, 1000, "apples").unwrap();
    let farmer = w.farmer.clone();
    let shop = w.shop.clone();
    let started = transfer(&mut w.state, &farmer, 2000, &product.id, &shop, "TO_RETAILER").unwrap();
    let done = w.state.complete_transfer(&w.shop, 3000, started.id).unwrap();
    assert_eq!(done.id, started.id);
    assert_eq!(done.status, TransferStatus::Completed);
    assert_eq!(done.completed_at, Some(3000));
    assert_eq!(done.initiated_at, 2000);
    assert!(done.from_user.same(&farmer));
    assert!(done.to_user.same(&shop));
    assert_eq!(done.notes, "handle with care");
    let stored = w.state.get_transfer(started.id).unwrap();
    assert_eq!(stored.status, TransferStatus::Completed);
    assert_eq!(stored.completed_at, Some(3000));

    let history = w.state.get_product_history(&product.id).unwrap();
    assert_eq!(history.len(), 3);
    let event = &history[2];
    assert_eq!(event.id, 2);
    assert_eq!(event.event_type, "TRANSFER_COMPLETED");
    assert_eq!(event.description, "Product transfer completed");
    assert_eq!(event.location, "Unknown");
    assert_eq!(event.timestamp, 3000);
    assert!(event.user_id.same(&shop));
    assert_eq!(event.user_role, Some(UserRole::Retailer));
    assert_eq!(event.metadata, vec![pair("transfer_id", "0")]);
}

#[test]
fn a_completed_transfer_stays_completed() {
    let mut w = world();
    let product = create(&mut w.state, &w.farmer, 1000, "apples").unwrap();
    let farmer = w.farmer.clone();
    let shop = w.shop.clone();
    let carrier = w.carrier.clone();
    let started = transfer(&mut w.state, &farmer, 2000, &product.id, &shop, "TO_RETAILER").unwrap();
    w.state.complete_transfer(&shop, 3000, started.id).unwrap();
    // other operations, refused or not, leave it completed
    assert!(w.state.complete_transfer(&farmer, 3500, started.id).is_err());
    transfer(&mut w.state, &shop, 4000, &product.id, &carrier, "TO_TRANSPORTER").unwrap();
    w.state
        .update_product_status(
            &carrier,
            5000,
            product.id.clone(),
            ProductStatus::Lost,
            String::new(),
            String::new(),
        )
        .unwrap();
    let stored = w.state.get_transfer(started.id).unwrap();
    assert_eq!(stored.status, TransferStatus::Completed);
    assert_eq!(stored.completed_at, Some(3000));
    // the recipient may acknowledge again; the transfer stays completed
    let again = w.state.complete_transfer(&shop, 6000, started.id).unwrap();
    assert_eq!(again.status, TransferStatus::Completed);
    assert_eq!(again.completed_at, Some(6000));
}

#[test]
fn products_are_listed_by_owner_and_by_status() {
    let mut w = world();
    let farmer = w.farmer.clone();
    let shop = w.shop.clone();
    let a = create(&mut w.state, &farmer, 1003, "a").unwrap();
    let b = create(&mut w.state, &farmer, 1001, "b").unwrap();
    let c = create(&mut w.state, &farmer, 1002, "c").unwrap();
    let d = create(&mut w.state, &shop, 1000, "d").unwrap();
    transfer(&mut w.state, &farmer, 2000, &b.id, &shop, "TO_RETAILER").unwrap();

    let all: Vec<String> = w.state.get_all_products().into_iter().map(|p| p.id).collect();
    let mut sorted = vec![a.id.clone(), b.id.clone(), c.id.clone(), d.id.clone()];
    sorted.sort();
    assert_eq!(all, sorted);

    let of_farmer: Vec<String> =
        w.state.get_products_by_owner(&farmer).into_iter().map(|p| p.name).collect();
    assert_eq!(of_farmer, vec!["c", "a"]);
    let mut of_shop: Vec<String> =
        w.state.get_products_by_owner(&shop).into_iter().map(|p| p.name).collect();
    of_shop.sort();
    assert_eq!(of_shop, vec!["b", "d"]);
    assert!(w.state.get_products_by_owner(&w.stranger).is_empty());

    let delivered: Vec<String> = w
        .state
        .get_products_by_status(ProductStatus::Delivered)
        .into_iter()
        .map(|p| p.name)
        .collect();
    assert_eq!(delivered, vec!["b"]);
    assert_eq!(w.state.get_products_by_status(ProductStatus::Created).len(), 3);
    assert!(w.state.get_products_by_status(ProductStatus::Sold).is_empty());
}

#[test]
fn transfers_are_listed_for_sender_and_recipient() {
    let mut w = world();
    let farmer = w.farmer.clone();
    let shop = w.shop.clone();
    let carrier = w.carrier.clone();
    let a = create(&mut w.state, &farmer, 1000, "a").unwrap();
    let b = create(&mut w.state, &farmer, 1001, "b").unwrap();
    transfer(&mut w.state, &farmer, 2000, &a.id, &carrier, "TO_TRANSPORTER").unwrap();
    transfer(&mut w.state, &farmer, 2001, &b.id, &shop, "TO_RETAILER").unwrap();
    transfer(&mut w.state, &carrier, 2002, &a.id, &shop, "TO_RETAILER").unwrap();
    assert_eq!(w.state.get_transfers_by_user(&farmer).len(), 2);
    assert_eq!(w.state.get_transfers_by_user(&carrier).len(), 2);
    assert_eq!(w.state.get_transfers_by_user(&shop).len(), 2);
    assert!(w.state.get_transfers_by_user(&w.stranger).is_empty());
    let to_shop: Vec<(u64, u64)> = w
        .state
        .get_transfers_by_user(&shop)
        .into_iter()
        .map(|t| (t.id, t.initiated_at))
        .collect();
    assert_eq!(to_shop, vec![(1, 2001), (2, 2002)]);
    assert_eq!(w.state.get_statistics(), (2, 5, 3));
}

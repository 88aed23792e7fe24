use supply_chain::codec::{
    field_flag, field_number, field_optional_flag, field_optional_number, field_text, field_texts,
    flag_field, frame_fields, number_field, optional_flag_field, optional_number_field, tag_field,
    text_bytes, texts_field, unframe_fields, unzip_texts, zip_texts,
};
use supply_chain::events::TrackingEvent;
use supply_chain::identity::{bytes_equal, copy_bytes, Identity};
use supply_chain::lists::{keep_marked, reversed};
use supply_chain::products::{Product, ProductStatus};
use supply_chain::ratings::Rating;
use supply_chain::registry::Registration;
use supply_chain::reports::Report;
use supply_chain::roles::UserRole;
use supply_chain::table::Stored;
use supply_chain::text::{decimal_text, generate_id, joined};
use supply_chain::transfers::{Transfer, TransferStatus};

fn who(bytes: &[u8]) -> Identity {
    Identity::from_bytes(bytes.to_vec()).unwrap()
}

#[test]
fn a_framed_list_has_its_lengths_in_front() {
    let fields = vec![vec![1u8, 2], vec![], vec![9u8]];
    let bytes = frame_fields(&fields);
    let expected: Vec<u8> = vec![
        3, 0, 0, 0, 0, 0, 0, 0, // three fields
        2, 0, 0, 0, 0, 0, 0, 0, 1, 2, // the first
        0, 0, 0, 0, 0, 0, 0, 0, // the second
        1, 0, 0, 0, 0, 0, 0, 0, 9, // the third
    ];
    assert_eq!(bytes, expected);
    assert_eq!(unframe_fields(&bytes), Some(fields));
    assert_eq!(frame_fields(&Vec::new()), vec![0u8; 8]);
    assert_eq!(unframe_fields(&vec![0u8; 8]), Some(Vec::new()));
}

#[test]
fn bytes_that_are_no_framed_list_are_refused() {
    assert_eq!(unframe_fields(&Vec::new()), None);
    assert_eq!(unframe_fields(&vec![0u8; 7]), None);
    // one field announced, none there
    assert_eq!(unframe_fields(&vec![1, 0, 0, 0, 0, 0, 0, 0]), None);
    // a field longer than what is left
    let short = vec![1, 0, 0, 0, 0, 0, 0, 0, 5, 0, 0, 0, 0, 0, 0, 0, 1, 2];
    assert_eq!(unframe_fields(&short), None);
    // bytes behind the last field
    let long = vec![1, 0, 0, 0, 0, 0, 0, 0, 1, 0, 0, 0, 0, 0, 0, 0, 1, 2];
    assert_eq!(unframe_fields(&long), None);
    // a length that no memory holds
    let huge = vec![1, 0, 0, 0, 0, 0, 0, 0, 255, 255, 255, 255, 255, 255, 255, 255];
    assert_eq!(unframe_fields(&huge), None);
    let many = vec![255u8; 8];
    assert_eq!(unframe_fields(&many), None);
}

#[test]
fn number_fields_are_eight_bytes_least_significant_first() {
    assert_eq!(number_field(0x0102030405060708), vec![8, 7, 6, 5, 4, 3, 2, 1]);
    assert_eq!(field_number(&vec![8, 7, 6, 5, 4, 3, 2, 1]), Some(0x0102030405060708));
    assert_eq!(field_number(&number_field(u64::MAX)), Some(u64::MAX));
    assert_eq!(field_number(&vec![1, 2, 3]), None);
    assert_eq!(field_number(&vec![0; 9]), None);
    assert_eq!(optional_number_field(None), Vec::<u8>::new());
    assert_eq!(field_optional_number(&Vec::new()), Some(None));
    assert_eq!(field_optional_number(&optional_number_field(Some(5))), Some(Some(5)));
    assert_eq!(field_optional_number(&vec![1]), None);
}

#[test]
fn flag_fields_are_one_byte() {
    assert_eq!(flag_field(false), vec![0]);
    assert_eq!(flag_field(true), vec![1]);
    assert_eq!(tag_field(7), vec![7]);
    assert_eq!(field_flag(&vec![0]), Some(false));
    assert_eq!(field_flag(&vec![1]), Some(true));
    assert_eq!(field_flag(&vec![2]), None);
    assert_eq!(field_flag(&Vec::new()), None);
    assert_eq!(field_flag(&vec![1, 1]), None);
    assert_eq!(optional_flag_field(None), Vec::<u8>::new());
    assert_eq!(field_optional_flag(&Vec::new()), Some(None));
    assert_eq!(field_optional_flag(&vec![1]), Some(Some(true)));
    assert_eq!(field_optional_flag(&vec![0]), Some(Some(false)));
    assert_eq!(field_optional_flag(&vec![3]), None);
}

#[test]
fn text_fields_are_utf8() {
    assert_eq!(text_bytes(&"aé".to_string()), vec![0x61, 0xc3, 0xa9]);
    assert_eq!(field_text(&vec![0x61, 0xc3, 0xa9]), Some("aé".to_string()));
    assert_eq!(field_text(&Vec::new()), Some(String::new()));
    assert_eq!(field_text(&vec![0xc3]), None);
    assert_eq!(field_text(&vec![0xff, 0x61]), None);
    let list = vec!["one".to_string(), "".to_string(), "drei ü".to_string()];
    assert_eq!(field_texts(&texts_field(&list)), Some(list));
    assert_eq!(field_texts(&texts_field(&Vec::new())), Some(Vec::new()));
    assert_eq!(field_texts(&frame_fields(&vec![vec![0xffu8]])), None);
    assert_eq!(field_texts(&vec![1, 2, 3]), None);
}

#[test]
fn pairs_are_split_and_joined_position_by_position() {
    let pairs = vec![
        ("a".to_string(), "1".to_string()),
        ("b".to_string(), "2".to_string()),
        ("a".to_string(), "3".to_string()),
    ];
    let (keys, values) = unzip_texts(&pairs);
    assert_eq!(keys, vec!["a", "b", "a"]);
    assert_eq!(values, vec!["1", "2", "3"]);
    assert_eq!(zip_texts(&keys, &values), pairs);
}

#[test]
fn lists_are_reversed_and_selected_in_order() {
    assert_eq!(reversed(vec![1, 2, 3]), vec![3, 2, 1]);
    assert_eq!(reversed(Vec::<u8>::new()), Vec::<u8>::new());
    let kept = keep_marked(vec!['a', 'b', 'c', 'd'], &vec![true, false, true, true]);
    assert_eq!(kept, vec!['a', 'c', 'd']);
    assert_eq!(keep_marked(vec![1, 2], &vec![false, false]), Vec::<i32>::new());
}

#[test]
fn byte_strings_are_compared_and_copied() {
    assert!(bytes_equal(&vec![1, 2, 3], &vec![1, 2, 3]));
    assert!(!bytes_equal(&vec![1, 2, 3], &vec![1, 2, 4]));
    assert!(!bytes_equal(&vec![1, 2, 3], &vec![1, 2]));
    assert!(bytes_equal(&Vec::new(), &Vec::new()));
    assert_eq!(copy_bytes(&vec![5, 6]), vec![5, 6]);
}

#[test]
fn decimal_text_has_no_leading_zeros() {
    assert_eq!(decimal_text(0), "0");
    assert_eq!(decimal_text(7), "7");
    assert_eq!(decimal_text(10), "10");
    assert_eq!(decimal_text(909), "909");
    assert_eq!(decimal_text(1234567890), "1234567890");
    assert_eq!(decimal_text(u64::MAX), "18446744073709551615");
    assert_eq!(joined("via ", &"ship".to_string()), "via ship");
}

#[test]
fn identities_hold_at_most_29_bytes() {
    assert!(Identity::from_bytes(vec![0; 29]).is_some());
    assert!(Identity::from_bytes(vec![0; 30]).is_none());
    assert!(Identity::from_bytes(Vec::new()).is_some());
    let a = who(&[1, 2, 3]);
    assert_eq!(a.as_bytes(), &vec![1, 2, 3]);
    assert!(a.same(&who(&[1, 2, 3])));
    assert!(!a.same(&who(&[1, 2])));
    assert!(a.clone().same(&a));
}

#[test]
fn identities_have_the_text_of_their_principal() {
    assert_eq!(who(&[]).to_text(), "aaaaa-aa");
    assert_eq!(who(&[4]).to_text(), "2vxsx-fae");
    let canister = candid::Principal::from_text("rdmx6-jaaaa-aaaaa-aaadq-cai").unwrap();
    assert_eq!(who(canister.as_slice()).to_text(), "rdmx6-jaaaa-aaaaa-aaadq-cai");
    assert_eq!(generate_id(1700000000, &who(&[4])), "1700000000-2vxsx-fae");
    assert_eq!(generate_id(0, &who(&[])), "0-aaaaa-aa");
}

fn sample_event() -> TrackingEvent {
    TrackingEvent {
        id: 42,
        product_id: "crate-7".to_string(),
        user_id: who(&[9, 9]),
        user_role: Some(UserRole::Warehouse),
        event_type: "WAREHOUSE".to_string(),
        description: "stored cool".to_string(),
        location: "Köln".to_string(),
        timestamp: 1_700_000_000_000,
        metadata: vec![("shelf".to_string(), "B2".to_string()), ("t".to_string(), "4".to_string())],
    }
}

#[test]
fn an_event_is_read_back_from_its_stored_form() {
    let event = sample_event();
    let back = TrackingEvent::from_bytes(&event.to_bytes()).unwrap();
    assert_eq!(back.id, 42);
    assert_eq!(back.product_id, "crate-7");
    assert!(back.user_id.same(&who(&[9, 9])));
    assert_eq!(back.user_role, Some(UserRole::Warehouse));
    assert_eq!(back.event_type, "WAREHOUSE");
    assert_eq!(back.description, "stored cool");
    assert_eq!(back.location, "Köln");
    assert_eq!(back.timestamp, 1_700_000_000_000);
    assert_eq!(back.metadata, event.metadata);
}

#[test]
fn bytes_that_hold_no_event_are_refused() {
    assert!(TrackingEvent::from_bytes(&Vec::new()).is_none());
    assert!(TrackingEvent::from_bytes(&vec![1, 2, 3]).is_none());
    let mut bytes = sample_event().to_bytes();
    bytes.pop();
    assert!(TrackingEvent::from_bytes(&bytes).is_none());
    let mut bytes = sample_event().to_bytes();
    bytes.push(0);
    assert!(TrackingEvent::from_bytes(&bytes).is_none());
    // nine fields are one too few
    let fields: Vec<Vec<u8>> = (0..9).map(|_| number_field(1)).collect();
    assert!(TrackingEvent::from_bytes(&frame_fields(&fields)).is_none());
    // a role that does not exist
    let mut fields = unframe_fields(&sample_event().to_bytes()).unwrap();
    fields[3] = vec![5];
    assert!(TrackingEvent::from_bytes(&frame_fields(&fields)).is_none());
    // no role
    let mut fields = unframe_fields(&sample_event().to_bytes()).unwrap();
    fields[3] = Vec::new();
    assert_eq!(TrackingEvent::from_bytes(&frame_fields(&fields)).unwrap().user_role, None);
    // an identity that is too long
    let mut fields = unframe_fields(&sample_event().to_bytes()).unwrap();
    fields[2] = vec![0; 30];
    assert!(TrackingEvent::from_bytes(&frame_fields(&fields)).is_none());
    // more keys than values
    let mut fields = unframe_fields(&sample_event().to_bytes()).unwrap();
    fields[9] = texts_field(&vec!["B2".to_string()]);
    assert!(TrackingEvent::from_bytes(&frame_fields(&fields)).is_none());
}

#[test]
fn roles_and_statuses_have_their_tags() {
    let roles = [
        UserRole::Supplier,
        UserRole::Transporter,
        UserRole::Warehouse,
        UserRole::Retailer,
        UserRole::Auditor,
    ];
    for (tag, role) in roles.iter().enumerate() {
        assert_eq!(role.tag(), tag as u8);
        assert_eq!(UserRole::from_field(&vec![tag as u8]), Some(*role));
    }
    assert_eq!(UserRole::from_field(&vec![5]), None);
    assert_eq!(UserRole::from_field(&Vec::new()), None);
    assert_eq!(UserRole::optional_field(None), Vec::<u8>::new());
    assert_eq!(UserRole::optional_field(Some(UserRole::Auditor)), vec![4]);
    assert_eq!(UserRole::from_optional_field(&Vec::new()), Some(None));
    assert_eq!(UserRole::from_optional_field(&vec![3]), Some(Some(UserRole::Retailer)));
    assert_eq!(UserRole::from_optional_field(&vec![9]), None);
    let statuses = [
        (ProductStatus::Created, "Created"),
        (ProductStatus::InWarehouse, "InWarehouse"),
        (ProductStatus::InTransit, "InTransit"),
        (ProductStatus::Delivered, "Delivered"),
        (ProductStatus::Sold, "Sold"),
        (ProductStatus::Lost, "Lost"),
        (ProductStatus::Damaged, "Damaged"),
    ];
    for (tag, (status, name)) in statuses.iter().enumerate() {
        assert_eq!(status.tag(), tag as u8);
        assert_eq!(ProductStatus::from_field(&vec![tag as u8]), Some(*status));
        assert_eq!(status.name(), *name);
    }
    assert_eq!(ProductStatus::from_field(&vec![7]), None);
    assert_eq!(TransferStatus::Pending.tag(), 0);
    assert_eq!(TransferStatus::Completed.tag(), 1);
    assert_eq!(TransferStatus::from_field(&vec![1]), Some(TransferStatus::Completed));
    assert_eq!(TransferStatus::from_field(&vec![2]), None);
}

#[test]
fn a_product_is_read_back_from_its_stored_form() {
    let product = Product {
        id: "17-abc".to_string(),
        name: "Äpfel".to_string(),
        description: "rot".to_string(),
        supplier_id: who(&[1]),
        current_owner: who(&[2]),
        status: ProductStatus::InTransit,
        created_at: 5,
        updated_at: 6,
        batch_number: "B-1".to_string(),
        expiry_date: Some(99),
        price_bits: 12.5f64.to_bits(),
        quantity: u32::MAX,
        category: "fruit".to_string(),
        origin: "Bozen".to_string(),
        certifications: vec!["bio".to_string(), "fair".to_string()],
    };
    assert_eq!(product.key(), b"17-abc".to_vec());
    let back = Product::from_bytes(&product.to_bytes()).unwrap();
    assert_eq!(back.id, "17-abc");
    assert_eq!(back.name, "Äpfel");
    assert_eq!(back.description, "rot");
    assert!(back.supplier_id.same(&who(&[1])));
    assert!(back.current_owner.same(&who(&[2])));
    assert_eq!(back.status, ProductStatus::InTransit);
    assert_eq!(back.created_at, 5);
    assert_eq!(back.updated_at, 6);
    assert_eq!(back.batch_number, "B-1");
    assert_eq!(back.expiry_date, Some(99));
    assert_eq!(f64::from_bits(back.price_bits), 12.5);
    assert_eq!(back.quantity, u32::MAX);
    assert_eq!(back.category, "fruit");
    assert_eq!(back.origin, "Bozen");
    assert_eq!(back.certifications, vec!["bio", "fair"]);
    // a quantity beyond 32 bits is refused
    let mut fields = unframe_fields(&product.to_bytes()).unwrap();
    fields[11] = number_field(u32::MAX as u64 + 1);
    assert!(Product::from_bytes(&frame_fields(&fields)).is_none());
    assert!(Product::from_bytes(&vec![0; 8]).is_none());
}

#[test]
fn the_other_records_are_read_back_from_their_stored_form() {
    let transfer = Transfer {
        id: 9,
        product_id: "p".to_string(),
        from_user: who(&[1]),
        to_user: who(&[2]),
        transfer_type: "TO_RETAILER".to_string(),
        status: TransferStatus::Completed,
        initiated_at: 3,
        completed_at: Some(4),
        notes: "fragile".to_string(),
    };
    let back = Transfer::from_bytes(&transfer.to_bytes()).unwrap();
    assert_eq!(back.id, 9);
    assert_eq!(back.product_id, "p");
    assert!(back.from_user.same(&who(&[1])));
    assert!(back.to_user.same(&who(&[2])));
    assert_eq!(back.transfer_type, "TO_RETAILER");
    assert_eq!(back.status, TransferStatus::Completed);
    assert_eq!(back.initiated_at, 3);
    assert_eq!(back.completed_at, Some(4));
    assert_eq!(back.notes, "fragile");
    // a status that is none is refused
    let mut fields = unframe_fields(&transfer.to_bytes()).unwrap();
    fields[5] = vec![2];
    assert!(Transfer::from_bytes(&frame_fields(&fields)).is_none());

    let rating = Rating { subject: who(&[7]), total_score: 12, num_ratings: 3 };
    let back = Rating::from_bytes(&rating.to_bytes()).unwrap();
    assert!(back.subject.same(&who(&[7])));
    assert_eq!((back.total_score, back.num_ratings), (12, 3));
    assert_eq!(rating.key(), vec![7]);

    let registration = Registration { identity: who(&[8, 8]), role: UserRole::Auditor };
    let back = Registration::from_bytes(&registration.to_bytes()).unwrap();
    assert!(back.identity.same(&who(&[8, 8])));
    assert_eq!(back.role, UserRole::Auditor);
    assert_eq!(registration.key(), vec![8, 8]);

    let report = Report {
        report_id: 3,
        reporter: who(&[1]),
        reported_entity: who(&[2]),
        product_id: "p".to_string(),
        reason: "seal broken".to_string(),
        timestamp: 10,
        resolved: true,
        valid: Some(false),
    };
    let back = Report::from_bytes(&report.to_bytes()).unwrap();
    assert_eq!(back.report_id, 3);
    assert!(back.reporter.same(&who(&[1])));
    assert!(back.reported_entity.same(&who(&[2])));
    assert_eq!(back.product_id, "p");
    assert_eq!(back.reason, "seal broken");
    assert_eq!(back.timestamp, 10);
    assert!(back.resolved);
    assert_eq!(back.valid, Some(false));
    assert!(Report::from_bytes(&rating.to_bytes()).is_none());
    assert!(Rating::from_bytes(&report.to_bytes()).is_none());
}

use supply_chain::error::LedgerError;
use supply_chain::identity::Identity;
use supply_chain::roles::UserRole;
use supply_chain::table::Stored;
use supply_chain::users::{Directory, User, UserProfile};
use supply_chain::regions::StableRegions;

fn who(byte: u8) -> Identity {
    Identity::from_bytes(vec![byte, 7]).unwrap()
}

fn register(directory: &mut Directory, caller: &Identity, now: u64, name: &str, role: UserRole) -> Result<User, LedgerError> {
    directory.register_user(
        caller,
        now,
        name.to_string(),
        format!("{name}@example.org"),
        role,
        "ACME".to_string(),
        "Main St 1".to_string(),
        "+1 555".to_string(),
    )
}

#[test]
fn a_registered_user_is_verified_and_has_an_empty_profile() {
    let mut directory = Directory::new(StableRegions::new()).ok().unwrap();
    let ann = who(1);
    let user = register(&mut directory, &ann, 100, "ann", UserRole::Supplier).unwrap();
    assert!(user.id.same(&ann));
    assert_eq!(user.name, "ann");
    assert_eq!(user.email, "ann@example.org");
    assert_eq!(user.role, UserRole::Supplier);
    assert_eq!(user.company_name, "ACME");
    assert_eq!(user.address, "Main St 1");
    assert_eq!(user.phone, "+1 555");
    assert!(user.is_verified);
    assert_eq!(user.created_at, 100);
    assert_eq!(user.updated_at, 100);
    assert!(user.metadata.is_empty());
    let stored = directory.get_user(&ann).unwrap();
    assert_eq!(stored.name, "ann");
    assert_eq!(stored.created_at, 100);
    let profile = directory.get_user_profile(&ann).unwrap();
    assert!(profile.user.id.same(&ann));
    assert_eq!(profile.user.name, "ann");
    assert!(profile.certifications.is_empty());
    assert!(profile.compliance_documents.is_empty());
    assert_eq!(profile.business_license, None);
    assert_eq!(profile.tax_id, None);
}

#[test]
fn a_user_registers_once() {
    let mut directory = Directory::new(StableRegions::new()).ok().unwrap();
    let ann = who(1);
    register(&mut directory, &ann, 100, "ann", UserRole::Supplier).unwrap();
    let again = register(&mut directory, &ann, 200, "other", UserRole::Auditor);
    assert_eq!(again.err(), Some(LedgerError::Conflict));
    let stored = directory.get_user(&ann).unwrap();
    assert_eq!(stored.name, "ann");
    assert_eq!(stored.role, UserRole::Supplier);
    assert_eq!(directory.get_all_users().len(), 1);
}

#[test]
fn an_unknown_user_is_not_found() {
    let mut directory = Directory::new(StableRegions::new()).ok().unwrap();
    let nobody = who(9);
    assert_eq!(directory.get_user(&nobody).err(), Some(LedgerError::NotFound));
    assert_eq!(directory.get_user_profile(&nobody).err(), Some(LedgerError::NotFound));
    assert_eq!(directory.verify_user(&nobody, 1).err(), Some(LedgerError::NotFound));
    assert_eq!(
        directory.add_certification(&nobody, "x".to_string()).err(),
        Some(LedgerError::NotFound)
    );
    assert_eq!(
        directory.add_compliance_document(&nobody, "x".to_string()).err(),
        Some(LedgerError::NotFound)
    );
    assert_eq!(
        directory.update_user_profile(&nobody, 1, None, None, None, None, None).err(),
        Some(LedgerError::NotFound)
    );
    assert!(directory.get_all_users().is_empty());
}

#[test]
fn an_update_replaces_what_is_given_and_keeps_the_rest() {
    let mut directory = Directory::new(StableRegions::new()).ok().unwrap();
    let ann = who(1);
    register(&mut directory, &ann, 100, "ann", UserRole::Supplier).unwrap();
    directory.add_certification(&ann, "bio".to_string()).unwrap();
    let updated = directory
        .update_user_profile(
            &ann,
            200,
            Some("Ann B.".to_string()),
            None,
            Some("Bolt Ltd".to_string()),
            None,
            Some("".to_string()),
        )
        .unwrap();
    assert_eq!(updated.name, "Ann B.");
    assert_eq!(updated.email, "ann@example.org");
    assert_eq!(updated.company_name, "Bolt Ltd");
    assert_eq!(updated.address, "Main St 1");
    assert_eq!(updated.phone, "");
    assert_eq!(updated.updated_at, 200);
    assert_eq!(updated.created_at, 100);
    assert_eq!(updated.role, UserRole::Supplier);
    let stored = directory.get_user(&ann).unwrap();
    assert_eq!(stored.name, "Ann B.");
    assert_eq!(stored.updated_at, 200);
    let profile = directory.get_user_profile(&ann).unwrap();
    assert_eq!(profile.user.name, "Ann B.");
    assert_eq!(profile.user.company_name, "Bolt Ltd");
    assert_eq!(profile.user.updated_at, 200);
    assert_eq!(profile.certifications, vec!["bio"]);
}

#[test]
fn verifying_marks_the_user_and_not_the_profile() {
    let mut directory = Directory::new(StableRegions::new()).ok().unwrap();
    let ann = who(1);
    register(&mut directory, &ann, 100, "ann", UserRole::Supplier).unwrap();
    let verified = directory.verify_user(&ann, 300).unwrap();
    assert!(verified.is_verified);
    assert_eq!(verified.updated_at, 300);
    assert_eq!(directory.get_user(&ann).unwrap().updated_at, 300);
    assert_eq!(directory.get_user_profile(&ann).unwrap().user.updated_at, 100);
}

#[test]
fn documents_are_filed_in_order() {
    let mut directory = Directory::new(StableRegions::new()).ok().unwrap();
    let ann = who(1);
    register(&mut directory, &ann, 100, "ann", UserRole::Supplier).unwrap();
    directory.add_certification(&ann, "bio".to_string()).unwrap();
    let profile = directory.add_certification(&ann, "fair".to_string()).unwrap();
    assert_eq!(profile.certifications, vec!["bio", "fair"]);
    directory.add_compliance_document(&ann, "audit 2023".to_string()).unwrap();
    let profile = directory.add_compliance_document(&ann, "audit 2024".to_string()).unwrap();
    assert_eq!(profile.compliance_documents, vec!["audit 2023", "audit 2024"]);
    assert_eq!(profile.certifications, vec!["bio", "fair"]);
    let stored = directory.get_user_profile(&ann).unwrap();
    assert_eq!(stored.certifications, vec!["bio", "fair"]);
    assert_eq!(stored.compliance_documents, vec!["audit 2023", "audit 2024"]);
}

#[test]
fn users_are_listed_by_role_and_in_identity_order() {
    let mut directory = Directory::new(StableRegions::new()).ok().unwrap();
    register(&mut directory, &who(3), 1, "c", UserRole::Retailer).unwrap();
    register(&mut directory, &who(1), 2, "a", UserRole::Supplier).unwrap();
    register(&mut directory, &who(2), 3, "b", UserRole::Retailer).unwrap();
    let all: Vec<String> = directory.get_all_users().into_iter().map(|u| u.name).collect();
    assert_eq!(all, vec!["a", "b", "c"]);
    let retailers: Vec<String> = directory
        .get_users_by_role(UserRole::Retailer)
        .into_iter()
        .map(|u| u.name)
        .collect();
    assert_eq!(retailers, vec!["b", "c"]);
    assert!(directory.get_users_by_role(UserRole::Auditor).is_empty());
    assert_eq!(directory.get_verified_users().len(), 3);
}

#[test]
fn a_directory_is_read_again_from_its_memory() {
    let mut directory = Directory::new(StableRegions::new()).ok().unwrap();
    let ann = who(1);
    register(&mut directory, &ann, 100, "ann", UserRole::Warehouse).unwrap();
    directory.add_certification(&ann, "bio".to_string()).unwrap();
    let mut directory = Directory::restore(directory.into_regions()).ok().unwrap();
    assert_eq!(directory.get_user(&ann).unwrap().role, UserRole::Warehouse);
    assert_eq!(directory.get_user_profile(&ann).unwrap().certifications, vec!["bio"]);
    assert_eq!(
        register(&mut directory, &ann, 200, "ann", UserRole::Warehouse).err(),
        Some(LedgerError::Conflict)
    );
}

#[test]
fn users_and_profiles_are_read_back_from_their_stored_form() {
    let user = User {
        id: who(1),
        name: "ann".to_string(),
        email: "a@b".to_string(),
        role: UserRole::Transporter,
        company_name: "c".to_string(),
        address: "d".to_string(),
        phone: "e".to_string(),
        is_verified: false,
        created_at: 1,
        updated_at: 2,
        metadata: vec![("k".to_string(), "v".to_string())],
    };
    let back = User::from_bytes(&user.to_bytes()).unwrap();
    assert!(back.id.same(&who(1)));
    assert_eq!(back.name, "ann");
    assert_eq!(back.email, "a@b");
    assert_eq!(back.role, UserRole::Transporter);
    assert!(!back.is_verified);
    assert_eq!((back.created_at, back.updated_at), (1, 2));
    assert_eq!(back.metadata, user.metadata);
    assert_eq!(user.key(), vec![1, 7]);
    let copy = user.clone();
    assert_eq!(copy.metadata, user.metadata);
    assert_eq!(copy.phone, "e");

    let profile = UserProfile {
        user,
        certifications: vec!["x".to_string()],
        compliance_documents: Vec::new(),
        business_license: Some("".to_string()),
        tax_id: Some("DE 123".to_string()),
    };
    let back = UserProfile::from_bytes(&profile.to_bytes()).unwrap();
    assert_eq!(back.user.name, "ann");
    assert_eq!(back.certifications, vec!["x"]);
    assert!(back.compliance_documents.is_empty());
    assert_eq!(back.business_license, Some("".to_string()));
    assert_eq!(back.tax_id, Some("DE 123".to_string()));
    assert!(UserProfile::from_bytes(&profile.user.to_bytes()).is_none());
}

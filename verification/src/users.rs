//! The directory of participants: who they are, how to reach them, and the
//! documents they have filed.

use crate::codec::{
    copy_optional_text, copy_pairs, copy_texts, field_flag, field_number, field_optional_text,
    field_text, field_texts, field_views, flag_field, flag_of, frame_fields, number_field,
    number_of, optional_text_field, optional_text_of, optional_text_view, tag_field, text_bytes,
    text_of, texts_field, texts_of, unframe, unframe_fields, unzip_texts, zip_texts, zipped,
};
use crate::error::LedgerError;
use crate::identity::{Identity, MAX_IDENTITY_BYTES, copy_bytes};
use crate::roles::UserRole;
use crate::regions::StableRegions;
use crate::store::{KeyedRegion, KeyedStore};
use crate::table::{
    Stored, Table, keep_listed, lemma_listing_covers, lists_table, lists_where, record_views,
};
use vstd::prelude::*;

verus! {

/// A participant.
#[derive(Debug)]
pub struct User {
    pub id: Identity,
    pub name: String,
    pub email: String,
    pub role: UserRole,
    pub company_name: String,
    pub address: String,
    pub phone: String,
    pub is_verified: bool,
    pub created_at: u64,
    pub updated_at: u64,
    pub metadata: Vec<(String, String)>,
}

/// A [`User`] as a mathematical value.
pub struct UserView {
    pub id: Seq<u8>,
    pub name: Seq<char>,
    pub email: Seq<char>,
    pub role: UserRole,
    pub company_name: Seq<char>,
    pub address: Seq<char>,
    pub phone: Seq<char>,
    pub is_verified: bool,
    pub created_at: u64,
    pub updated_at: u64,
    pub metadata: Seq<(Seq<char>, Seq<char>)>,
}

impl View for User {
    type V = UserView;

    open spec fn view(&self) -> UserView {
        UserView {
            id: self.id@,
            name: self.name@,
            email: self.email@,
            role: self.role,
            company_name: self.company_name@,
            address: self.address@,
            phone: self.phone@,
            is_verified: self.is_verified,
            created_at: self.created_at,
            updated_at: self.updated_at,
            metadata: self.metadata.deep_view(),
        }
    }
}

/// A participant with the documents it has filed.
#[derive(Debug)]
pub struct UserProfile {
    /// The participant as it was when the profile was last written.
    pub user: User,
    pub certifications: Vec<String>,
    pub compliance_documents: Vec<String>,
    pub business_license: Option<String>,
    pub tax_id: Option<String>,
}

/// A [`UserProfile`] as a mathematical value.
pub struct ProfileView {
    pub user: UserView,
    pub certifications: Seq<Seq<char>>,
    pub compliance_documents: Seq<Seq<char>>,
    pub business_license: Option<Seq<char>>,
    pub tax_id: Option<Seq<char>>,
}

impl View for UserProfile {
    type V = ProfileView;

    open spec fn view(&self) -> ProfileView {
        ProfileView {
            user: self.user@,
            certifications: self.certifications.deep_view(),
            compliance_documents: self.compliance_documents.deep_view(),
            business_license: optional_text_view(self.business_license),
            tax_id: optional_text_view(self.tax_id),
        }
    }
}

/// The number of fields of a stored user.
pub const USER_FIELDS: usize = 12;

/// The number of fields of a stored profile.
pub const PROFILE_FIELDS: usize = 5;

/// The user that a list of fields holds, if it holds one.
pub open spec fn user_of_fields(fields: Seq<Seq<u8>>) -> Option<UserView> {
    if fields.len() == USER_FIELDS && fields[0].len() <= MAX_IDENTITY_BYTES && text_of(
        fields[1],
    ) is Some && text_of(fields[2]) is Some && UserRole::of_field(fields[3]) is Some && text_of(
        fields[4],
    ) is Some && text_of(fields[5]) is Some && text_of(fields[6]) is Some && flag_of(
        fields[7],
    ) is Some && number_of(fields[8]) is Some && number_of(fields[9]) is Some && texts_of(
        fields[10],
    ) is Some && texts_of(fields[11]) is Some && texts_of(fields[10])->0.len() == texts_of(
        fields[11],
    )->0.len() {
        Some(
            UserView {
                id: fields[0],
                name: text_of(fields[1])->0,
                email: text_of(fields[2])->0,
                role: UserRole::of_field(fields[3])->0,
                company_name: text_of(fields[4])->0,
                address: text_of(fields[5])->0,
                phone: text_of(fields[6])->0,
                is_verified: flag_of(fields[7])->0,
                created_at: number_of(fields[8])->0,
                updated_at: number_of(fields[9])->0,
                metadata: zipped(texts_of(fields[10])->0, texts_of(fields[11])->0),
            },
        )
    } else {
        None
    }
}

/// The user that a stored record holds, if it holds one.
pub open spec fn decode_user(bytes: Seq<u8>) -> Option<UserView> {
    match unframe(bytes) {
        Some(fields) => user_of_fields(fields),
        None => None,
    }
}

/// The profile that a list of fields holds, if it holds one.
pub open spec fn profile_of_fields(fields: Seq<Seq<u8>>) -> Option<ProfileView> {
    if fields.len() == PROFILE_FIELDS && decode_user(fields[0]) is Some && texts_of(
        fields[1],
    ) is Some && texts_of(fields[2]) is Some && optional_text_of(fields[3]) is Some
        && optional_text_of(fields[4]) is Some {
        Some(
            ProfileView {
                user: decode_user(fields[0])->0,
                certifications: texts_of(fields[1])->0,
                compliance_documents: texts_of(fields[2])->0,
                business_license: optional_text_of(fields[3])->0,
                tax_id: optional_text_of(fields[4])->0,
            },
        )
    } else {
        None
    }
}

/// The profile that a stored record holds, if it holds one.
pub open spec fn decode_profile(bytes: Seq<u8>) -> Option<ProfileView> {
    match unframe(bytes) {
        Some(fields) => profile_of_fields(fields),
        None => None,
    }
}

impl Stored for User {
    open spec fn decode(bytes: Seq<u8>) -> Option<UserView> {
        decode_user(bytes)
    }

    open spec fn key_of(record: UserView) -> Seq<u8> {
        record.id
    }

    fn to_bytes(&self) -> (bytes: Vec<u8>) {
        let (keys, values) = unzip_texts(&self.metadata);
        let mut fields: Vec<Vec<u8>> = Vec::new();
        fields.push(copy_bytes(self.id.as_bytes()));
        fields.push(text_bytes(&self.name));
        fields.push(text_bytes(&self.email));
        fields.push(tag_field(self.role.tag()));
        fields.push(text_bytes(&self.company_name));
        fields.push(text_bytes(&self.address));
        fields.push(text_bytes(&self.phone));
        fields.push(flag_field(self.is_verified));
        fields.push(number_field(self.created_at));
        fields.push(number_field(self.updated_at));
        fields.push(texts_field(&keys));
        fields.push(texts_field(&values));
        let bytes = frame_fields(&fields);
        proof {
            let views = field_views(fields@);
            assert(user_of_fields(views) == Some(self@));
        }
        bytes
    }

    fn from_bytes(bytes: &Vec<u8>) -> (record: Option<User>) {
        let fields = unframe_fields(bytes)?;
        let ghost views = field_views(fields@);
        if fields.len() != USER_FIELDS {
            return None;
        }
        assert(forall|i: int| 0 <= i < 12 ==> views[i] == (#[trigger] fields@[i])@);
        let id = Identity::from_bytes(copy_bytes(&fields[0]))?;
        let name = field_text(&fields[1])?;
        let email = field_text(&fields[2])?;
        let role = UserRole::from_field(&fields[3])?;
        let company_name = field_text(&fields[4])?;
        let address = field_text(&fields[5])?;
        let phone = field_text(&fields[6])?;
        let is_verified = field_flag(&fields[7])?;
        let created_at = field_number(&fields[8])?;
        let updated_at = field_number(&fields[9])?;
        let keys = field_texts(&fields[10])?;
        let values = field_texts(&fields[11])?;
        if keys.len() != values.len() {
            return None;
        }
        let metadata = zip_texts(&keys, &values);
        Some(
            User {
                id,
                name,
                email,
                role,
                company_name,
                address,
                phone,
                is_verified,
                created_at,
                updated_at,
                metadata,
            },
        )
    }

    fn key(&self) -> (key: Vec<u8>) {
        copy_bytes(self.id.as_bytes())
    }
}

impl Stored for UserProfile {
    open spec fn decode(bytes: Seq<u8>) -> Option<ProfileView> {
        decode_profile(bytes)
    }

    open spec fn key_of(record: ProfileView) -> Seq<u8> {
        record.user.id
    }

    fn to_bytes(&self) -> (bytes: Vec<u8>) {
        let mut fields: Vec<Vec<u8>> = Vec::new();
        fields.push(self.user.to_bytes());
        fields.push(texts_field(&self.certifications));
        fields.push(texts_field(&self.compliance_documents));
        fields.push(optional_text_field(&self.business_license));
        fields.push(optional_text_field(&self.tax_id));
        let bytes = frame_fields(&fields);
        proof {
            let views = field_views(fields@);
            assert(profile_of_fields(views) == Some(self@));
        }
        bytes
    }

    fn from_bytes(bytes: &Vec<u8>) -> (record: Option<UserProfile>) {
        let fields = unframe_fields(bytes)?;
        let ghost views = field_views(fields@);
        if fields.len() != PROFILE_FIELDS {
            return None;
        }
        assert(forall|i: int| 0 <= i < 5 ==> views[i] == (#[trigger] fields@[i])@);
        let user = User::from_bytes(&fields[0])?;
        let certifications = field_texts(&fields[1])?;
        let compliance_documents = field_texts(&fields[2])?;
        let business_license = field_optional_text(&fields[3])?;
        let tax_id = field_optional_text(&fields[4])?;
        Some(UserProfile { user, certifications, compliance_documents, business_license, tax_id })
    }

    fn key(&self) -> (key: Vec<u8>) {
        copy_bytes(self.user.id.as_bytes())
    }
}

impl Clone for User {
    fn clone(&self) -> (copy: User)
        ensures
            copy@ == self@,
    {
        User {
            id: self.id.clone(),
            name: self.name.clone(),
            email: self.email.clone(),
            role: self.role,
            company_name: self.company_name.clone(),
            address: self.address.clone(),
            phone: self.phone.clone(),
            is_verified: self.is_verified,
            created_at: self.created_at,
            updated_at: self.updated_at,
            metadata: copy_pairs(&self.metadata),
        }
    }
}

/// The number of regions of stable memory that a directory lives on.
pub const DIRECTORY_REGIONS: usize = 2;

/// The directory: the users and, for each user, its profile.
pub struct Directory {
    users: Table<User>,
    profiles: Table<UserProfile>,
}

/// The [`Directory`] as a mathematical value.
pub struct DirectoryView {
    /// The users, by identity.
    pub users: Map<Seq<u8>, UserView>,
    /// The profiles, by the identity of their user.
    pub profiles: Map<Seq<u8>, ProfileView>,
}

/// The user that registers at the time `now`. A user is verified from the
/// start.
pub open spec fn registered_user(
    caller: Seq<u8>,
    now: u64,
    name: Seq<char>,
    email: Seq<char>,
    role: UserRole,
    company_name: Seq<char>,
    address: Seq<char>,
    phone: Seq<char>,
) -> UserView {
    UserView {
        id: caller,
        name,
        email,
        role,
        company_name,
        address,
        phone,
        is_verified: true,
        created_at: now,
        updated_at: now,
        metadata: Seq::empty(),
    }
}

/// The profile of a user that has filed nothing yet.
pub open spec fn fresh_profile(user: UserView) -> ProfileView {
    ProfileView {
        user,
        certifications: Seq::empty(),
        compliance_documents: Seq::empty(),
        business_license: None,
        tax_id: None,
    }
}

/// The new text where one is given, the old one where none is.
pub open spec fn replaced(new: Option<Seq<char>>, old: Seq<char>) -> Seq<char> {
    match new {
        Some(text) => text,
        None => old,
    }
}

/// The user with the given details in place of the old ones, at the time
/// `now`.
pub open spec fn updated_user(
    user: UserView,
    now: u64,
    name: Option<Seq<char>>,
    email: Option<Seq<char>>,
    company_name: Option<Seq<char>>,
    address: Option<Seq<char>>,
    phone: Option<Seq<char>>,
) -> UserView {
    UserView {
        name: replaced(name, user.name),
        email: replaced(email, user.email),
        company_name: replaced(company_name, user.company_name),
        address: replaced(address, user.address),
        phone: replaced(phone, user.phone),
        updated_at: now,
        ..user
    }
}

/// The regions that a directory has lived on, each with what the directory has
/// left on it. Only a directory gives them out, and only
/// [`Directory::restore`] takes them.
pub struct DirectoryRegions {
    users: KeyedRegion,
    profiles: KeyedRegion,
}

impl View for Directory {
    type V = DirectoryView;

    closed spec fn view(&self) -> DirectoryView {
        DirectoryView { users: self.users@, profiles: self.profiles@ }
    }
}

impl Directory {
    /// Whether the directory is sound: each table is, and an identity has a
    /// profile exactly when it is a user.
    pub closed spec fn wf(&self) -> bool {
        &&& self.users.wf()
        &&& self.profiles.wf()
        &&& forall|who: Seq<u8>|
            self.users@.contains_key(who) <==> self.profiles@.contains_key(who)
    }

    /// A directory that holds nobody, on the first [`DIRECTORY_REGIONS`] of the regions;
    /// it is refused where there are fewer. Its stores are made anew:
    /// what the regions held is given up.
    pub fn new(regions: StableRegions) -> (result: Result<Directory, LedgerError>)
        ensures
            match result {
                Ok(directory) => {
                    &&& regions@.len() >= DIRECTORY_REGIONS
                    &&& directory.wf()
                    &&& directory@.users == Map::<Seq<u8>, UserView>::empty()
                    &&& directory@.profiles == Map::<Seq<u8>, ProfileView>::empty()
                },
                Err(e) => e == LedgerError::StorageError && regions@.len() < DIRECTORY_REGIONS,
            },
    {
        let mut regions = regions;
        if regions.len() < DIRECTORY_REGIONS {
            return Err(LedgerError::StorageError);
        }
        let users = Table::new(regions.next());
        let profiles = Table::new(regions.next());
        Ok(Directory { users, profiles })
    }

    /// The regions of a directory whose parts live on these.
    pub closed spec fn regions_of(users: KeyedRegion, profiles: KeyedRegion) -> DirectoryRegions {
        DirectoryRegions { users, profiles }
    }

    /// The regions that the directory lives on.
    pub closed spec fn regions(&self) -> DirectoryRegions {
        Directory::regions_of(self.users.region(), self.profiles.region())
    }

    /// Gives up the directory and hands back the regions that hold it, from
    /// which `restore` reads it again.
    pub fn into_regions(self) -> (regions: DirectoryRegions)
        ensures
            regions == self.regions(),
    {
        DirectoryRegions {
            users: self.users.into_region(),
            profiles: self.profiles.into_region(),
        }
    }

    /// The directory that the regions hold, as the directory that gave them out
    /// has left it there. Every stored record is read and checked: where
    /// one is not sound, nothing is accepted and the error says so. What is
    /// accepted lives on the regions. What the regions hold is not known
    /// here: `from_store` of
    /// each table and `assemble` say what comes of each content.
    pub fn restore(regions: DirectoryRegions) -> (result: Result<Directory, LedgerError>)
        ensures
            match result {
                Ok(directory) => directory.wf() && directory.regions() == regions,
                Err(e) => e == LedgerError::StorageError,
            },
    {
        let users = match Table::restore(regions.users) {
            Some(table) => table,
            None => {
                return Err(LedgerError::StorageError);
            },
        };
        let profiles = match Table::restore(regions.profiles) {
            Some(table) => table,
            None => {
                return Err(LedgerError::StorageError);
            },
        };
        Directory::assemble(users, profiles)
    }

    /// The directory that the first [`DIRECTORY_REGIONS`] of the regions hold, as
    /// the program has found them: what an earlier run of the program has
    /// left there, or nothing. Every stored record is read and checked:
    /// where one is not sound, or the regions are too few, nothing is
    /// accepted and the error says so. What the regions hold is not known
    /// here: `from_store` of
    /// each table and `assemble` say what comes of each content.
    pub fn load(regions: StableRegions) -> (result: Result<Directory, LedgerError>)
        ensures
            match result {
                Ok(directory) => regions@.len() >= DIRECTORY_REGIONS && directory.wf(),
                Err(e) => e == LedgerError::StorageError,
            },
    {
        let mut regions = regions;
        if regions.len() < DIRECTORY_REGIONS {
            return Err(LedgerError::StorageError);
        }
        let users = match Table::from_store(KeyedStore::open(regions.next())) {
            Some(table) => table,
            None => {
                return Err(LedgerError::StorageError);
            },
        };
        let profiles = match Table::from_store(KeyedStore::open(regions.next())) {
            Some(table) => table,
            None => {
                return Err(LedgerError::StorageError);
            },
        };
        Directory::assemble(users, profiles)
    }

    /// The directory made of its parts, where they go together: an
    /// identity has a profile exactly when it is a user. Parts with a user
    /// without a profile, or a profile without a user, are refused.
    pub fn assemble(users: Table<User>, profiles: Table<UserProfile>) -> (result: Result<
        Directory,
        LedgerError,
    >)
        requires
            users.wf(),
            profiles.wf(),
        ensures
            match result {
                Ok(directory) => {
                    &&& directory.wf()
                    &&& directory@ == (DirectoryView { users: users@, profiles: profiles@ })
                    &&& directory.regions() == Directory::regions_of(
                        users.region(),
                        profiles.region(),
                    )
                    &&& forall|who: Seq<u8>|
                        users@.contains_key(who) <==> profiles@.contains_key(who)
                },
                Err(e) => e == LedgerError::StorageError && exists|who: Seq<u8>|
                    #[trigger] users@.contains_key(who) != profiles@.contains_key(who),
            },
    {
        let listed_users = users.list();
        let ghost user_views = record_views(listed_users@);
        let mut i: usize = 0;
        while i < listed_users.len()
            invariant
                i <= listed_users@.len(),
                profiles.wf(),
                user_views == record_views(listed_users@),
                lists_table::<User>(users@, user_views),
                forall|j: int|
                    0 <= j < i ==> profiles@.contains_key((#[trigger] listed_users@[j])@.id),
            decreases listed_users@.len() - i,
        {
            if !profiles.contains(&listed_users[i].key()) {
                proof {
                    let who = listed_users@[i as int]@.id;
                    assert(user_views[i as int] == listed_users@[i as int]@);
                    assert(users@.contains_key(User::key_of(user_views[i as int])));
                    assert(users@.contains_key(who) != profiles@.contains_key(who));
                }
                return Err(LedgerError::StorageError);
            }
            i += 1;
        }
        let listed_profiles = profiles.list();
        let ghost profile_views = record_views(listed_profiles@);
        let mut k: usize = 0;
        while k < listed_profiles.len()
            invariant
                k <= listed_profiles@.len(),
                users.wf(),
                profile_views == record_views(listed_profiles@),
                lists_table::<UserProfile>(profiles@, profile_views),
                forall|j: int|
                    0 <= j < k ==> users@.contains_key((#[trigger] listed_profiles@[j])@.user.id),
            decreases listed_profiles@.len() - k,
        {
            if !users.contains(&listed_profiles[k].key()) {
                proof {
                    let who = listed_profiles@[k as int]@.user.id;
                    assert(profile_views[k as int] == listed_profiles@[k as int]@);
                    assert(profiles@.contains_key(UserProfile::key_of(profile_views[k as int])));
                    assert(users@.contains_key(who) != profiles@.contains_key(who));
                }
                return Err(LedgerError::StorageError);
            }
            k += 1;
        }
        proof {
            assert forall|who: Seq<u8>| users@.contains_key(who) <==> profiles@.contains_key(
                who,
            ) by {
                if users@.contains_key(who) {
                    lemma_listing_covers::<User>(users@, user_views, who);
                    let at = choose|at: int|
                        0 <= at < user_views.len() && #[trigger] user_views[at] == users@[who];
                    users.lemma_keys();
                    assert(user_views[at] == listed_users@[at]@);
                }
                if profiles@.contains_key(who) {
                    lemma_listing_covers::<UserProfile>(profiles@, profile_views, who);
                    let at = choose|at: int|
                        0 <= at < profile_views.len() && #[trigger] profile_views[at]
                            == profiles@[who];
                    profiles.lemma_keys();
                    assert(profile_views[at] == listed_profiles@[at]@);
                }
            }
        }
        Ok(Directory { users, profiles })
    }

    /// What holds of every sound directory: a user and a profile are kept
    /// under their own identity, and an identity has a profile exactly when
    /// it is a user.
    pub proof fn lemma_invariants(&self)
        requires
            self.wf(),
        ensures
            forall|who: Seq<u8>|
                self@.users.contains_key(who) ==> (#[trigger] self@.users[who]).id == who,
            forall|who: Seq<u8>|
                self@.profiles.contains_key(who) ==> (#[trigger] self@.profiles[who]).user.id
                    == who,
            forall|who: Seq<u8>|
                self@.users.contains_key(who) <==> self@.profiles.contains_key(who),
    {
        self.users.lemma_keys();
        self.profiles.lemma_keys();
    }

    /// Registers the caller as a user with an empty profile. An identity
    /// registers once: a second registration is a conflict.
    pub fn register_user(
        &mut self,
        caller: &Identity,
        now: u64,
        name: String,
        email: String,
        role: UserRole,
        company_name: String,
        address: String,
        phone: String,
    ) -> (result: Result<User, LedgerError>)
        requires
            old(self).wf(),
        ensures
            final(self).wf(),
            match result {
                Ok(user) => !old(self)@.users.contains_key(caller@) && user@ == registered_user(
                    caller@,
                    now,
                    name@,
                    email@,
                    role,
                    company_name@,
                    address@,
                    phone@,
                ) && final(self)@ == (DirectoryView {
                    users: old(self)@.users.insert(caller@, user@),
                    profiles: old(self)@.profiles.insert(caller@, fresh_profile(user@)),
                }),
                Err(e) => e == LedgerError::Conflict && old(self)@.users.contains_key(caller@)
                    && final(self)@ == old(self)@,
            },
    {
        let key = copy_bytes(caller.as_bytes());
        if self.users.contains(&key) {
            return Err(LedgerError::Conflict);
        }
        let user = User {
            id: caller.clone(),
            name,
            email,
            role,
            company_name,
            address,
            phone,
            is_verified: true,
            created_at: now,
            updated_at: now,
            metadata: Vec::new(),
        };
        let profile = UserProfile {
            user: user.clone(),
            certifications: Vec::new(),
            compliance_documents: Vec::new(),
            business_license: None,
            tax_id: None,
        };
        proof {
            assert(user@.metadata =~= Seq::empty());
            assert(profile@.certifications =~= Seq::empty());
            assert(profile@.compliance_documents =~= Seq::empty());
        }
        self.users.put(&user);
        self.profiles.put(&profile);
        Ok(user)
    }

    /// Replaces the details of the caller that are given and keeps the
    /// others, in the user and in its profile.
    pub fn update_user_profile(
        &mut self,
        caller: &Identity,
        now: u64,
        name: Option<String>,
        email: Option<String>,
        company_name: Option<String>,
        address: Option<String>,
        phone: Option<String>,
    ) -> (result: Result<User, LedgerError>)
        requires
            old(self).wf(),
        ensures
            final(self).wf(),
            match result {
                Ok(user) => old(self)@.users.contains_key(caller@) && user@ == updated_user(
                    old(self)@.users[caller@],
                    now,
                    optional_text_view(name),
                    optional_text_view(email),
                    optional_text_view(company_name),
                    optional_text_view(address),
                    optional_text_view(phone),
                ) && final(self)@ == (DirectoryView {
                    users: old(self)@.users.insert(caller@, user@),
                    profiles: old(self)@.profiles.insert(
                        caller@,
                        ProfileView { user: user@, ..old(self)@.profiles[caller@] },
                    ),
                }),
                Err(e) => e == LedgerError::NotFound && !old(self)@.users.contains_key(caller@)
                    && final(self)@ == old(self)@,
            },
    {
        let key = copy_bytes(caller.as_bytes());
        let mut user = match self.users.get(&key) {
            Some(user) => user,
            None => {
                return Err(LedgerError::NotFound);
            },
        };
        let mut profile = match self.profiles.get(&key) {
            Some(profile) => profile,
            None => {
                return Err(LedgerError::NotFound);
            },
        };
        if let Some(name) = name {
            user.name = name;
        }
        if let Some(email) = email {
            user.email = email;
        }
        if let Some(company_name) = company_name {
            user.company_name = company_name;
        }
        if let Some(address) = address {
            user.address = address;
        }
        if let Some(phone) = phone {
            user.phone = phone;
        }
        user.updated_at = now;
        profile.user = user.clone();
        self.users.put(&user);
        self.profiles.put(&profile);
        Ok(user)
    }

    /// Marks a user as verified, at the time `now`. The profile keeps the
    /// user as it was when the profile was last written.
    pub fn verify_user(&mut self, user_id: &Identity, now: u64) -> (result: Result<
        User,
        LedgerError,
    >)
        requires
            old(self).wf(),
        ensures
            final(self).wf(),
            match result {
                Ok(user) => old(self)@.users.contains_key(user_id@) && user@ == (UserView {
                    is_verified: true,
                    updated_at: now,
                    ..old(self)@.users[user_id@]
                }) && final(self)@ == (DirectoryView {
                    users: old(self)@.users.insert(user_id@, user@),
                    ..old(self)@
                }),
                Err(e) => e == LedgerError::NotFound && !old(self)@.users.contains_key(user_id@)
                    && final(self)@ == old(self)@,
            },
    {
        let key = copy_bytes(user_id.as_bytes());
        let mut user = match self.users.get(&key) {
            Some(user) => user,
            None => {
                return Err(LedgerError::NotFound);
            },
        };
        user.is_verified = true;
        user.updated_at = now;
        self.users.put(&user);
        Ok(user)
    }

    /// Files a certification in the profile of the caller, behind the ones
    /// that are there.
    pub fn add_certification(&mut self, caller: &Identity, certification: String) -> (result:
        Result<UserProfile, LedgerError>)
        requires
            old(self).wf(),
        ensures
            final(self).wf(),
            match result {
                Ok(profile) => old(self)@.profiles.contains_key(caller@) && profile@
                    == (ProfileView {
                    certifications: old(self)@.profiles[caller@].certifications.push(
                        certification@,
                    ),
                    ..old(self)@.profiles[caller@]
                }) && final(self)@ == (DirectoryView {
                    profiles: old(self)@.profiles.insert(caller@, profile@),
                    ..old(self)@
                }),
                Err(e) => e == LedgerError::NotFound && !old(self)@.profiles.contains_key(caller@)
                    && final(self)@ == old(self)@,
            },
    {
        let key = copy_bytes(caller.as_bytes());
        let mut profile = match self.profiles.get(&key) {
            Some(profile) => profile,
            None => {
                return Err(LedgerError::NotFound);
            },
        };
        let ghost before = profile@;
        profile.certifications.push(certification);
        assert(profile@.certifications =~= before.certifications.push(certification@));
        self.profiles.put(&profile);
        Ok(profile)
    }

    /// Files a compliance document in the profile of the caller, behind
    /// the ones that are there.
    pub fn add_compliance_document(&mut self, caller: &Identity, document: String) -> (result:
        Result<UserProfile, LedgerError>)
        requires
            old(self).wf(),
        ensures
            final(self).wf(),
            match result {
                Ok(profile) => old(self)@.profiles.contains_key(caller@) && profile@
                    == (ProfileView {
                    compliance_documents: old(self)@.profiles[caller@].compliance_documents.push(
                        document@,
                    ),
                    ..old(self)@.profiles[caller@]
                }) && final(self)@ == (DirectoryView {
                    profiles: old(self)@.profiles.insert(caller@, profile@),
                    ..old(self)@
                }),
                Err(e) => e == LedgerError::NotFound && !old(self)@.profiles.contains_key(caller@)
                    && final(self)@ == old(self)@,
            },
    {
        let key = copy_bytes(caller.as_bytes());
        let mut profile = match self.profiles.get(&key) {
            Some(profile) => profile,
            None => {
                return Err(LedgerError::NotFound);
            },
        };
        let ghost before = profile@;
        profile.compliance_documents.push(document);
        assert(profile@.compliance_documents =~= before.compliance_documents.push(document@));
        self.profiles.put(&profile);
        Ok(profile)
    }

    /// The user with this identity.
    pub fn get_user(&self, user_id: &Identity) -> (result: Result<User, LedgerError>)
        requires
            self.wf(),
        ensures
            match result {
                Ok(user) => self@.users.contains_key(user_id@) && user@ == self@.users[user_id@],
                Err(e) => e == LedgerError::NotFound && !self@.users.contains_key(user_id@),
            },
    {
        let key = copy_bytes(user_id.as_bytes());
        match self.users.get(&key) {
            Some(user) => Ok(user),
            None => Err(LedgerError::NotFound),
        }
    }

    /// The user that calls.
    pub fn get_current_user(&self, caller: &Identity) -> (result: Result<User, LedgerError>)
        requires
            self.wf(),
        ensures
            match result {
                Ok(user) => self@.users.contains_key(caller@) && user@ == self@.users[caller@],
                Err(e) => e == LedgerError::NotFound && !self@.users.contains_key(caller@),
            },
    {
        self.get_user(caller)
    }

    /// The profile of the user with this identity.
    pub fn get_user_profile(&self, user_id: &Identity) -> (result: Result<
        UserProfile,
        LedgerError,
    >)
        requires
            self.wf(),
        ensures
            match result {
                Ok(profile) => self@.profiles.contains_key(user_id@) && profile@
                    == self@.profiles[user_id@],
                Err(e) => e == LedgerError::NotFound && !self@.profiles.contains_key(user_id@),
            },
    {
        let key = copy_bytes(user_id.as_bytes());
        match self.profiles.get(&key) {
            Some(profile) => Ok(profile),
            None => Err(LedgerError::NotFound),
        }
    }

    /// Every user, in ascending order of the identities.
    pub fn get_all_users(&self) -> (users: Vec<User>)
        requires
            self.wf(),
        ensures
            lists_table::<User>(self@.users, record_views(users@)),
    {
        self.users.list()
    }

    /// The users with this role, in ascending order of the identities.
    pub fn get_users_by_role(&self, role: UserRole) -> (users: Vec<User>)
        requires
            self.wf(),
        ensures
            lists_where::<User>(self@.users, |u: UserView| u.role == role, record_views(users@)),
    {
        let all = self.users.list();
        let mut marks: Vec<bool> = Vec::new();
        let mut i: usize = 0;
        while i < all.len()
            invariant
                i <= all@.len(),
                marks@.len() == i,
                forall|j: int| 0 <= j < i ==> marks@[j] == ((#[trigger] all@[j])@.role == role),
            decreases all@.len() - i,
        {
            marks.push(all[i].role == role);
            i += 1;
        }
        keep_listed(all, &marks, Ghost(self@.users), Ghost(|u: UserView| u.role == role))
    }

    /// The users that are verified, in ascending order of the identities.
    pub fn get_verified_users(&self) -> (users: Vec<User>)
        requires
            self.wf(),
        ensures
            lists_where::<User>(self@.users, |u: UserView| u.is_verified, record_views(users@)),
    {
        let all = self.users.list();
        let mut marks: Vec<bool> = Vec::new();
        let mut i: usize = 0;
        while i < all.len()
            invariant
                i <= all@.len(),
                marks@.len() == i,
                forall|j: int| 0 <= j < i ==> marks@[j] == (#[trigger] all@[j])@.is_verified,
            decreases all@.len() - i,
        {
            marks.push(all[i].is_verified);
            i += 1;
        }
        keep_listed(all, &marks, Ghost(self@.users), Ghost(|u: UserView| u.is_verified))
    }
}

impl Clone for UserProfile {
    fn clone(&self) -> (copy: UserProfile)
        ensures
            copy@ == self@,
    {
        UserProfile {
            user: self.user.clone(),
            certifications: copy_texts(&self.certifications),
            compliance_documents: copy_texts(&self.compliance_documents),
            business_license: copy_optional_text(&self.business_license),
            tax_id: copy_optional_text(&self.tax_id),
        }
    }
}

} // verus!

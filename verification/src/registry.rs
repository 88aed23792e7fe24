//! The registry of identities: who takes part, and in which role.

use crate::codec::{field_views, frame_fields, tag_field, unframe, unframe_fields};
use crate::identity::{Identity, MAX_IDENTITY_BYTES, copy_bytes};
use crate::roles::UserRole;
use crate::table::Stored;
use vstd::prelude::*;

verus! {

/// The entry of one identity in the registry.
#[derive(Debug)]
pub struct Registration {
    pub identity: Identity,
    pub role: UserRole,
}

/// A [`Registration`] as a mathematical value.
pub struct RegistrationView {
    pub identity: Seq<u8>,
    pub role: UserRole,
}

impl View for Registration {
    type V = RegistrationView;

    open spec fn view(&self) -> RegistrationView {
        RegistrationView { identity: self.identity@, role: self.role }
    }
}

/// The number of fields of a stored registration.
pub const REGISTRATION_FIELDS: usize = 2;

/// The registration that a list of fields holds, if it holds one.
pub open spec fn registration_of_fields(fields: Seq<Seq<u8>>) -> Option<RegistrationView> {
    if fields.len() == REGISTRATION_FIELDS && fields[0].len() <= MAX_IDENTITY_BYTES
        && UserRole::of_field(fields[1]) is Some {
        Some(RegistrationView { identity: fields[0], role: UserRole::of_field(fields[1])->0 })
    } else {
        None
    }
}

/// The registration that a stored record holds, if it holds one.
pub open spec fn decode_registration(bytes: Seq<u8>) -> Option<RegistrationView> {
    match unframe(bytes) {
        Some(fields) => registration_of_fields(fields),
        None => None,
    }
}

impl Stored for Registration {
    open spec fn decode(bytes: Seq<u8>) -> Option<RegistrationView> {
        decode_registration(bytes)
    }

    open spec fn key_of(record: RegistrationView) -> Seq<u8> {
        record.identity
    }

    fn to_bytes(&self) -> (bytes: Vec<u8>) {
        let mut fields: Vec<Vec<u8>> = Vec::new();
        fields.push(copy_bytes(self.identity.as_bytes()));
        fields.push(tag_field(self.role.tag()));
        let bytes = frame_fields(&fields);
        proof {
            let views = field_views(fields@);
            assert(registration_of_fields(views) == Some(self@));
        }
        bytes
    }

    fn from_bytes(bytes: &Vec<u8>) -> (record: Option<Registration>) {
        let fields = unframe_fields(bytes)?;
        let ghost views = field_views(fields@);
        if fields.len() != REGISTRATION_FIELDS {
            return None;
        }
        assert(forall|i: int| 0 <= i < 2 ==> views[i] == (#[trigger] fields@[i])@);
        let identity = Identity::from_bytes(copy_bytes(&fields[0]))?;
        let role = UserRole::from_field(&fields[1])?;
        Some(Registration { identity, role })
    }

    fn key(&self) -> (key: Vec<u8>) {
        copy_bytes(self.identity.as_bytes())
    }
}

impl Clone for Registration {
    fn clone(&self) -> (copy: Registration)
        ensures
            copy@ == self@,
    {
        Registration {
            identity: self.identity.clone(),
            role: self.role,
        }
    }
}

} // verus!

use vstd::prelude::*;

verus! {

/// The role that an identity is registered with. An identity has exactly one
/// role, assigned once.
#[derive(Clone, Copy, Debug, PartialEq, Eq, Structural)]
pub enum UserRole {
    Supplier,
    Transporter,
    Warehouse,
    Retailer,
    Auditor,
}

impl UserRole {
    /// The byte that stands for the role in a stored record.
    pub open spec fn spec_tag(self) -> u8 {
        match self {
            UserRole::Supplier => 0,
            UserRole::Transporter => 1,
            UserRole::Warehouse => 2,
            UserRole::Retailer => 3,
            UserRole::Auditor => 4,
        }
    }

    /// The role that a one-byte field stands for.
    pub open spec fn of_field(field: Seq<u8>) -> Option<UserRole> {
        if field.len() != 1 {
            None
        } else if field[0] == 0 {
            Some(UserRole::Supplier)
        } else if field[0] == 1 {
            Some(UserRole::Transporter)
        } else if field[0] == 2 {
            Some(UserRole::Warehouse)
        } else if field[0] == 3 {
            Some(UserRole::Retailer)
        } else if field[0] == 4 {
            Some(UserRole::Auditor)
        } else {
            None
        }
    }

    /// The byte that stands for the role in a stored record.
    #[verifier::when_used_as_spec(spec_tag)]
    pub fn tag(self) -> (tag: u8)
        ensures
            tag == self.spec_tag(),
            UserRole::of_field(seq![tag]) == Some(self),
    {
        match self {
            UserRole::Supplier => 0,
            UserRole::Transporter => 1,
            UserRole::Warehouse => 2,
            UserRole::Retailer => 3,
            UserRole::Auditor => 4,
        }
    }

    /// The role or none that a field stands for: an empty field for none,
    /// the byte of the role for a role.
    pub open spec fn optional_of_field(field: Seq<u8>) -> Option<Option<UserRole>> {
        if field.len() == 0 {
            Some(None)
        } else if UserRole::of_field(field) is Some {
            Some(UserRole::of_field(field))
        } else {
            None
        }
    }

    /// The field that stands for a role or none.
    pub fn optional_field(role: Option<UserRole>) -> (field: Vec<u8>)
        ensures
            UserRole::optional_of_field(field@) == Some(role),
    {
        let mut field: Vec<u8> = Vec::new();
        match role {
            Some(role) => {
                field.push(role.tag());
                assert(field@ =~= seq![role.spec_tag()]);
            },
            None => {},
        }
        field
    }

    /// Reads the role or none that a field stands for.
    pub fn from_optional_field(field: &Vec<u8>) -> (role: Option<Option<UserRole>>)
        ensures
            role == UserRole::optional_of_field(field@),
    {
        if field.len() == 0 {
            Some(None)
        } else {
            match UserRole::from_field(field) {
                Some(role) => Some(Some(role)),
                None => None,
            }
        }
    }

    /// Reads the role that a field stands for.
    pub fn from_field(field: &Vec<u8>) -> (role: Option<UserRole>)
        ensures
            role == UserRole::of_field(field@),
    {
        if field.len() != 1 {
            None
        } else if field[0] == 0 {
            Some(UserRole::Supplier)
        } else if field[0] == 1 {
            Some(UserRole::Transporter)
        } else if field[0] == 2 {
            Some(UserRole::Warehouse)
        } else if field[0] == 3 {
            Some(UserRole::Retailer)
        } else if field[0] == 4 {
            Some(UserRole::Auditor)
        } else {
            None
        }
    }
}

} // verus!

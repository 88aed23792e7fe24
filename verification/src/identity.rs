use vstd::prelude::*;

verus! {

/// The longest identity, in bytes.
pub const MAX_IDENTITY_BYTES: usize = 29;

/// The textual form of an identity: what `candid::Principal::to_text`
/// gives for the principal with these bytes.
pub uninterp spec fn principal_text(bytes: Seq<u8>) -> Seq<char>;

/// The bytes of the principal that a text stands for, where it stands for
/// one: what `candid::Principal::from_text` gives for the text.
pub uninterp spec fn principal_of_text(text: Seq<char>) -> Option<Seq<u8>>;

/// A participant: an opaque byte string of at most
/// [`MAX_IDENTITY_BYTES`] bytes. Two identities are the same participant
/// exactly when their bytes are equal.
#[derive(Debug)]
pub struct Identity {
    bytes: Vec<u8>,
}

impl View for Identity {
    type V = Seq<u8>;

    closed spec fn view(&self) -> Seq<u8> {
        self.bytes@
    }
}

impl Identity {
    #[verifier::type_invariant]
    spec fn within_bound(self) -> bool {
        self.bytes@.len() <= MAX_IDENTITY_BYTES
    }

    /// The identity made of `bytes`, or `None` when they are too many.
    pub fn from_bytes(bytes: Vec<u8>) -> (id: Option<Identity>)
        ensures
            id is Some <==> bytes@.len() <= MAX_IDENTITY_BYTES,
            id matches Some(i) ==> i@ == bytes@,
    {
        if bytes.len() <= MAX_IDENTITY_BYTES {
            Some(Identity { bytes })
        } else {
            None
        }
    }

    /// The bytes of the identity.
    pub fn as_bytes(&self) -> (bytes: &Vec<u8>)
        ensures
            bytes@ == self@,
            bytes@.len() <= MAX_IDENTITY_BYTES,
    {
        proof {
            use_type_invariant(self);
        }
        &self.bytes
    }

    /// Whether both are the same participant.
    pub fn same(&self, other: &Identity) -> (b: bool)
        ensures
            b == (self@ == other@),
    {
        bytes_equal(&self.bytes, &other.bytes)
    }

    /// The identity that the text stands for, or `None` where it stands for
    /// none.
    pub fn from_text(text: &str) -> (id: Option<Identity>)
        ensures
            match id {
                Some(i) => principal_of_text(text@) == Some(i@) && i@.len() <= MAX_IDENTITY_BYTES,
                None => principal_of_text(text@) is None || principal_of_text(text@)->0.len()
                    > MAX_IDENTITY_BYTES,
            },
    {
        match principal_from_text(text) {
            Some(bytes) => Identity::from_bytes(bytes),
            None => None,
        }
    }

    /// The text that the platform shows for this identity.
    pub fn to_text(&self) -> (text: String)
        ensures
            text@ == principal_text(self@),
    {
        proof {
            use_type_invariant(self);
        }
        principal_to_text(&self.bytes)
    }
}

impl Clone for Identity {
    fn clone(&self) -> (copy: Identity)
        ensures
            copy@ == self@,
    {
        proof {
            use_type_invariant(self);
        }
        Identity { bytes: copy_bytes(&self.bytes) }
    }
}

/// Whether two byte strings are equal.
pub fn bytes_equal(a: &Vec<u8>, b: &Vec<u8>) -> (same: bool)
    ensures
        same == (a@ == b@),
{
    if a.len() != b.len() {
        return false;
    }
    let mut i: usize = 0;
    while i < a.len()
        invariant
            a@.len() == b@.len(),
            i <= a@.len(),
            forall|j: int| 0 <= j < i ==> a@[j] == b@[j],
        decreases a@.len() - i,
    {
        if a[i] != b[i] {
            return false;
        }
        i += 1;
    }
    assert(a@ =~= b@);
    true
}

/// A copy of a byte string.
pub fn copy_bytes(a: &Vec<u8>) -> (copy: Vec<u8>)
    ensures
        copy@ == a@,
{
    let mut out: Vec<u8> = Vec::new();
    let mut i: usize = 0;
    while i < a.len()
        invariant
            i <= a@.len(),
            out@ == a@.subrange(0, i as int),
        decreases a@.len() - i,
    {
        out.push(a[i]);
        assert(out@ =~= a@.subrange(0, i + 1));
        i += 1;
    }
    assert(out@ =~= a@);
    out
}

/// `candid::Principal::to_text` on the principal with these bytes: its
/// result depends on the bytes alone and is named [`principal_text`].
/// `Principal::from_slice` panics on more than 29 bytes, which `requires`
/// leaves out.
#[verifier::external_body]
fn principal_to_text(bytes: &Vec<u8>) -> (text: String)
    requires
        bytes@.len() <= MAX_IDENTITY_BYTES,
    ensures
        text@ == principal_text(bytes@),
{
    candid::Principal::from_slice(bytes.as_slice()).to_text()
}

/// `candid::Principal::from_text`, with the bytes of the principal that it
/// gives: whether it gives one and which depends on the text alone and is
/// named [`principal_of_text`].
#[verifier::external_body]
fn principal_from_text(text: &str) -> (bytes: Option<Vec<u8>>)
    ensures
        match bytes {
            Some(b) => principal_of_text(text@) == Some(b@),
            None => principal_of_text(text@) is None,
        },
{
    match candid::Principal::from_text(text) {
        Ok(principal) => Some(principal.as_slice().to_vec()),
        Err(_) => None,
    }
}

} // verus!

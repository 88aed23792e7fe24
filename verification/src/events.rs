use crate::codec::{
    copy_pairs, field_number, field_text, field_texts, field_views, frame_fields, number_field,
    number_of, text_bytes, text_of, texts_field, texts_of, unframe, unframe_fields,
    unzip_texts, zip_texts, zipped,
};
use crate::identity::{Identity, MAX_IDENTITY_BYTES, copy_bytes};
use crate::roles::UserRole;
use vstd::prelude::*;
use vstd::utf8::*;

verus! {

/// One entry of the custody log. Once appended it is never changed.
#[derive(Debug)]
pub struct TrackingEvent {
    /// The position of the event in the log, assigned by the ledger.
    pub id: u64,
    pub product_id: String,
    /// Who acted.
    pub user_id: Identity,
    /// The role that the actor had when acting, or `None` where it was not
    /// registered.
    pub user_role: Option<UserRole>,
    pub event_type: String,
    pub description: String,
    pub location: String,
    pub timestamp: u64,
    /// Free-form pairs of key and value, in the order given.
    pub metadata: Vec<(String, String)>,
}

/// A [`TrackingEvent`] as a mathematical value.
pub struct EventView {
    pub id: u64,
    pub product_id: Seq<char>,
    pub user_id: Seq<u8>,
    pub user_role: Option<UserRole>,
    pub event_type: Seq<char>,
    pub description: Seq<char>,
    pub location: Seq<char>,
    pub timestamp: u64,
    pub metadata: Seq<(Seq<char>, Seq<char>)>,
}

impl View for TrackingEvent {
    type V = EventView;

    open spec fn view(&self) -> EventView {
        EventView {
            id: self.id,
            product_id: self.product_id@,
            user_id: self.user_id@,
            user_role: self.user_role,
            event_type: self.event_type@,
            description: self.description@,
            location: self.location@,
            timestamp: self.timestamp,
            metadata: self.metadata.deep_view(),
        }
    }
}

/// The number of fields of a stored event.
pub const EVENT_FIELDS: usize = 10;

/// The event that a list of fields holds, if it holds one.
pub open spec fn event_of_fields(fields: Seq<Seq<u8>>) -> Option<EventView> {
    if fields.len() == EVENT_FIELDS && number_of(fields[0]) is Some && text_of(fields[1]) is Some
        && fields[2].len() <= MAX_IDENTITY_BYTES && UserRole::optional_of_field(fields[3]) is Some
        && text_of(fields[4]) is Some && text_of(fields[5]) is Some && text_of(fields[6]) is Some
        && number_of(fields[7]) is Some && texts_of(fields[8]) is Some && texts_of(
        fields[9],
    ) is Some && texts_of(fields[8])->0.len() == texts_of(fields[9])->0.len() {
        Some(
            EventView {
                id: number_of(fields[0])->0,
                product_id: text_of(fields[1])->0,
                user_id: fields[2],
                user_role: UserRole::optional_of_field(fields[3])->0,
                event_type: text_of(fields[4])->0,
                description: text_of(fields[5])->0,
                location: text_of(fields[6])->0,
                timestamp: number_of(fields[7])->0,
                metadata: zipped(texts_of(fields[8])->0, texts_of(fields[9])->0),
            },
        )
    } else {
        None
    }
}

/// The event that a stored record holds, if it holds one.
pub open spec fn decode_event(bytes: Seq<u8>) -> Option<EventView> {
    match unframe(bytes) {
        Some(fields) => event_of_fields(fields),
        None => None,
    }
}

impl TrackingEvent {
    /// The stored form of the event. Reading it back gives the same event.
    pub fn to_bytes(&self) -> (bytes: Vec<u8>)
        ensures
            decode_event(bytes@) == Some(self@),
    {
        let (keys, values) = unzip_texts(&self.metadata);
        let mut fields: Vec<Vec<u8>> = Vec::new();
        fields.push(number_field(self.id));
        fields.push(text_bytes(&self.product_id));
        fields.push(copy_bytes(self.user_id.as_bytes()));
        fields.push(UserRole::optional_field(self.user_role));
        fields.push(text_bytes(&self.event_type));
        fields.push(text_bytes(&self.description));
        fields.push(text_bytes(&self.location));
        fields.push(number_field(self.timestamp));
        fields.push(texts_field(&keys));
        fields.push(texts_field(&values));
        let bytes = frame_fields(&fields);
        proof {
            let views = field_views(fields@);
            assert(event_of_fields(views) == Some(self@));
        }
        bytes
    }

    /// Reads an event back from its stored form, or gives `None` when the
    /// bytes are not the stored form of any event.
    pub fn from_bytes(bytes: &Vec<u8>) -> (event: Option<TrackingEvent>)
        ensures
            match event {
                Some(e) => decode_event(bytes@) == Some(e@),
                None => decode_event(bytes@) is None,
            },
    {
        let fields = unframe_fields(bytes)?;
        let ghost views = field_views(fields@);
        if fields.len() != EVENT_FIELDS {
            return None;
        }
        assert(forall|i: int| 0 <= i < 10 ==> views[i] == (#[trigger] fields@[i])@);
        let id = field_number(&fields[0])?;
        let product_id = field_text(&fields[1])?;
        let user_id = Identity::from_bytes(copy_bytes(&fields[2]))?;
        let user_role = UserRole::from_optional_field(&fields[3])?;
        let event_type = field_text(&fields[4])?;
        let description = field_text(&fields[5])?;
        let location = field_text(&fields[6])?;
        let timestamp = field_number(&fields[7])?;
        let keys = field_texts(&fields[8])?;
        let values = field_texts(&fields[9])?;
        if keys.len() != values.len() {
            return None;
        }
        let metadata = zip_texts(&keys, &values);
        Some(
            TrackingEvent {
                id,
                product_id,
                user_id,
                user_role,
                event_type,
                description,
                location,
                timestamp,
                metadata,
            },
        )
    }
}

impl Clone for TrackingEvent {
    fn clone(&self) -> (copy: TrackingEvent)
        ensures
            copy@ == self@,
    {
        TrackingEvent {
            id: self.id,
            product_id: self.product_id.clone(),
            user_id: self.user_id.clone(),
            user_role: self.user_role,
            event_type: self.event_type.clone(),
            description: self.description.clone(),
            location: self.location.clone(),
            timestamp: self.timestamp,
            metadata: copy_pairs(&self.metadata),
        }
    }
}

} // verus!

//! Ratings: for each rated identity, the sum and the number of the scores
//! given to it.

use crate::codec::{
    field_number, field_views, frame_fields, number_field, number_of, unframe, unframe_fields,
};
use crate::identity::{Identity, MAX_IDENTITY_BYTES, copy_bytes};
use crate::table::Stored;
use vstd::prelude::*;

verus! {

/// The lowest score.
pub const MIN_SCORE: u8 = 1;

/// The highest score.
pub const MAX_SCORE: u8 = 5;

/// The scores given to one identity. The average is `total_score` divided by
/// `num_ratings`; a record with no rating is never kept.
#[derive(Debug)]
pub struct Rating {
    pub subject: Identity,
    pub total_score: u64,
    pub num_ratings: u64,
}

/// A [`Rating`] as a mathematical value.
pub struct RatingView {
    pub subject: Seq<u8>,
    pub total_score: u64,
    pub num_ratings: u64,
}

impl View for Rating {
    type V = RatingView;

    open spec fn view(&self) -> RatingView {
        RatingView {
            subject: self.subject@,
            total_score: self.total_score,
            num_ratings: self.num_ratings,
        }
    }
}

/// Whether the sum and the number can be those of scores between
/// [`MIN_SCORE`] and [`MAX_SCORE`], at least one of them.
pub open spec fn plausible(rating: RatingView) -> bool {
    &&& rating.num_ratings >= 1
    &&& MIN_SCORE * rating.num_ratings <= rating.total_score
    &&& rating.total_score <= MAX_SCORE * rating.num_ratings
}

/// The number of fields of a stored rating.
pub const RATING_FIELDS: usize = 3;

/// The rating that a list of fields holds, if it holds one.
pub open spec fn rating_of_fields(fields: Seq<Seq<u8>>) -> Option<RatingView> {
    if fields.len() == RATING_FIELDS && fields[0].len() <= MAX_IDENTITY_BYTES && number_of(
        fields[1],
    ) is Some && number_of(fields[2]) is Some {
        Some(
            RatingView {
                subject: fields[0],
                total_score: number_of(fields[1])->0,
                num_ratings: number_of(fields[2])->0,
            },
        )
    } else {
        None
    }
}

/// The rating that a stored record holds, if it holds one.
pub open spec fn decode_rating(bytes: Seq<u8>) -> Option<RatingView> {
    match unframe(bytes) {
        Some(fields) => rating_of_fields(fields),
        None => None,
    }
}

impl Stored for Rating {
    open spec fn decode(bytes: Seq<u8>) -> Option<RatingView> {
        decode_rating(bytes)
    }

    open spec fn key_of(record: RatingView) -> Seq<u8> {
        record.subject
    }

    fn to_bytes(&self) -> (bytes: Vec<u8>) {
        let mut fields: Vec<Vec<u8>> = Vec::new();
        fields.push(copy_bytes(self.subject.as_bytes()));
        fields.push(number_field(self.total_score));
        fields.push(number_field(self.num_ratings));
        let bytes = frame_fields(&fields);
        proof {
            let views = field_views(fields@);
            assert(rating_of_fields(views) == Some(self@));
        }
        bytes
    }

    fn from_bytes(bytes: &Vec<u8>) -> (record: Option<Rating>) {
        let fields = unframe_fields(bytes)?;
        let ghost views = field_views(fields@);
        if fields.len() != RATING_FIELDS {
            return None;
        }
        assert(forall|i: int| 0 <= i < 3 ==> views[i] == (#[trigger] fields@[i])@);
        let subject = Identity::from_bytes(copy_bytes(&fields[0]))?;
        let total_score = field_number(&fields[1])?;
        let num_ratings = field_number(&fields[2])?;
        Some(Rating { subject, total_score, num_ratings })
    }

    fn key(&self) -> (key: Vec<u8>) {
        copy_bytes(self.subject.as_bytes())
    }
}

impl Clone for Rating {
    fn clone(&self) -> (copy: Rating)
        ensures
            copy@ == self@,
    {
        Rating {
            subject: self.subject.clone(),
            total_score: self.total_score,
            num_ratings: self.num_ratings,
        }
    }
}

} // verus!

//! Feedback: the ratings that participants give each other after a
//! transaction, the statistics kept of them, and the complaints raised
//! about them.

use crate::codec::{
    copy_optional_text, field_flag, field_number, field_optional_text, field_text, field_views,
    flag_field, flag_of, frame_fields, number_field, number_of, optional_text_field,
    optional_text_of, optional_text_view, tag_field, text_bytes, text_of, unframe, unframe_fields,
};
use crate::error::LedgerError;
use crate::identity::{Identity, MAX_IDENTITY_BYTES, copy_bytes};
use crate::rating_stats::{StatsView, UserRatingStats, compute_stats, stats_of};
use crate::regions::StableRegions;
use crate::store::{KeyedRegion, KeyedStore};
use crate::table::{Stored, Table, keep_listed, lists_table, lists_where, record_views};
use crate::text::{generate_id, record_id};
use vstd::prelude::*;
use vstd::string::*;
use vstd::utf8::*;

verus! {

/// One rating that a participant has given to another.
#[derive(Debug)]
pub struct Rating {
    pub id: String,
    pub rater_id: Identity,
    pub rated_user_id: Identity,
    pub product_id: Option<String>,
    pub transaction_id: Option<String>,
    /// The number of stars, from one to five.
    pub rating: u8,
    pub review: String,
    /// What is rated: quality, delivery, communication, or all of it.
    pub category: String,
    pub created_at: u64,
    pub is_verified: bool,
}

/// A [`Rating`] as a mathematical value.
pub struct RatingView {
    pub id: Seq<char>,
    pub rater_id: Seq<u8>,
    pub rated_user_id: Seq<u8>,
    pub product_id: Option<Seq<char>>,
    pub transaction_id: Option<Seq<char>>,
    pub rating: u8,
    pub review: Seq<char>,
    pub category: Seq<char>,
    pub created_at: u64,
    pub is_verified: bool,
}

impl View for Rating {
    type V = RatingView;

    open spec fn view(&self) -> RatingView {
        RatingView {
            id: self.id@,
            rater_id: self.rater_id@,
            rated_user_id: self.rated_user_id@,
            product_id: optional_text_view(self.product_id),
            transaction_id: optional_text_view(self.transaction_id),
            rating: self.rating,
            review: self.review@,
            category: self.category@,
            created_at: self.created_at,
            is_verified: self.is_verified,
        }
    }
}

/// The number of fields of a stored rating.
pub const RATING_FIELDS: usize = 10;

/// The key under which the record with this id is kept.
pub open spec fn text_key(id: Seq<char>) -> Seq<u8> {
    encode_utf8(id)
}

/// The rating that a list of fields holds, if it holds one.
pub open spec fn rating_of_fields(fields: Seq<Seq<u8>>) -> Option<RatingView> {
    if fields.len() == RATING_FIELDS && text_of(fields[0]) is Some && fields[1].len()
        <= MAX_IDENTITY_BYTES && fields[2].len() <= MAX_IDENTITY_BYTES && optional_text_of(
        fields[3],
    ) is Some && optional_text_of(fields[4]) is Some && fields[5].len() == 1 && text_of(
        fields[6],
    ) is Some && text_of(fields[7]) is Some && number_of(fields[8]) is Some && flag_of(
        fields[9],
    ) is Some {
        Some(
            RatingView {
                id: text_of(fields[0])->0,
                rater_id: fields[1],
                rated_user_id: fields[2],
                product_id: optional_text_of(fields[3])->0,
                transaction_id: optional_text_of(fields[4])->0,
                rating: fields[5][0],
                review: text_of(fields[6])->0,
                category: text_of(fields[7])->0,
                created_at: number_of(fields[8])->0,
                is_verified: flag_of(fields[9])->0,
            },
        )
    } else {
        None
    }
}

/// The rating that a stored record holds, if it holds one.
pub open spec fn decode_rating(bytes: Seq<u8>) -> Option<RatingView> {
    match unframe(bytes) {
        Some(fields) => rating_of_fields(fields),
        None => None,
    }
}

impl Stored for Rating {
    open spec fn decode(bytes: Seq<u8>) -> Option<RatingView> {
        decode_rating(bytes)
    }

    open spec fn key_of(record: RatingView) -> Seq<u8> {
        text_key(record.id)
    }

    fn to_bytes(&self) -> (bytes: Vec<u8>) {
        let mut fields: Vec<Vec<u8>> = Vec::new();
        fields.push(text_bytes(&self.id));
        fields.push(copy_bytes(self.rater_id.as_bytes()));
        fields.push(copy_bytes(self.rated_user_id.as_bytes()));
        fields.push(optional_text_field(&self.product_id));
        fields.push(optional_text_field(&self.transaction_id));
        fields.push(tag_field(self.rating));
        fields.push(text_bytes(&self.review));
        fields.push(text_bytes(&self.category));
        fields.push(number_field(self.created_at));
        fields.push(flag_field(self.is_verified));
        let bytes = frame_fields(&fields);
        proof {
            let views = field_views(fields@);
            assert(rating_of_fields(views) == Some(self@));
        }
        bytes
    }

    fn from_bytes(bytes: &Vec<u8>) -> (record: Option<Rating>) {
        let fields = unframe_fields(bytes)?;
        let ghost views = field_views(fields@);
        if fields.len() != RATING_FIELDS {
            return None;
        }
        assert(forall|i: int| 0 <= i < 10 ==> views[i] == (#[trigger] fields@[i])@);
        let id = field_text(&fields[0])?;
        let rater_id = Identity::from_bytes(copy_bytes(&fields[1]))?;
        let rated_user_id = Identity::from_bytes(copy_bytes(&fields[2]))?;
        let product_id = field_optional_text(&fields[3])?;
        let transaction_id = field_optional_text(&fields[4])?;
        if fields[5].len() != 1 {
            return None;
        }
        let rating = fields[5][0];
        let review = field_text(&fields[6])?;
        let category = field_text(&fields[7])?;
        let created_at = field_number(&fields[8])?;
        let is_verified = field_flag(&fields[9])?;
        Some(
            Rating {
                id,
                rater_id,
                rated_user_id,
                product_id,
                transaction_id,
                rating,
                review,
                category,
                created_at,
                is_verified,
            },
        )
    }

    fn key(&self) -> (key: Vec<u8>) {
        text_bytes(&self.id)
    }
}

impl Clone for Rating {
    fn clone(&self) -> (copy: Rating)
        ensures
            copy@ == self@,
    {
        Rating {
            id: self.id.clone(),
            rater_id: self.rater_id.clone(),
            rated_user_id: self.rated_user_id.clone(),
            product_id: copy_optional_text(&self.product_id),
            transaction_id: copy_optional_text(&self.transaction_id),
            rating: self.rating,
            review: self.review.clone(),
            category: self.category.clone(),
            created_at: self.created_at,
            is_verified: self.is_verified,
        }
    }
}

/// A complaint about a rating.
#[derive(Debug)]
pub struct RatingReport {
    pub id: String,
    pub reporter_id: Identity,
    pub rating_id: String,
    pub reason: String,
    pub description: String,
    pub created_at: u64,
    /// `pending` until the complaint is resolved or dismissed.
    pub status: String,
}

/// A [`RatingReport`] as a mathematical value.
pub struct RatingReportView {
    pub id: Seq<char>,
    pub reporter_id: Seq<u8>,
    pub rating_id: Seq<char>,
    pub reason: Seq<char>,
    pub description: Seq<char>,
    pub created_at: u64,
    pub status: Seq<char>,
}

impl View for RatingReport {
    type V = RatingReportView;

    open spec fn view(&self) -> RatingReportView {
        RatingReportView {
            id: self.id@,
            reporter_id: self.reporter_id@,
            rating_id: self.rating_id@,
            reason: self.reason@,
            description: self.description@,
            created_at: self.created_at,
            status: self.status@,
        }
    }
}

/// The number of fields of a stored complaint.
pub const RATING_REPORT_FIELDS: usize = 7;

/// The complaint that a list of fields holds, if it holds one.
pub open spec fn rating_report_of_fields(fields: Seq<Seq<u8>>) -> Option<RatingReportView> {
    if fields.len() == RATING_REPORT_FIELDS && text_of(fields[0]) is Some && fields[1].len()
        <= MAX_IDENTITY_BYTES && text_of(fields[2]) is Some && text_of(fields[3]) is Some
        && text_of(fields[4]) is Some && number_of(fields[5]) is Some && text_of(
        fields[6],
    ) is Some {
        Some(
            RatingReportView {
                id: text_of(fields[0])->0,
                reporter_id: fields[1],
                rating_id: text_of(fields[2])->0,
                reason: text_of(fields[3])->0,
                description: text_of(fields[4])->0,
                created_at: number_of(fields[5])->0,
                status: text_of(fields[6])->0,
            },
        )
    } else {
        None
    }
}

/// The complaint that a stored record holds, if it holds one.
pub open spec fn decode_rating_report(bytes: Seq<u8>) -> Option<RatingReportView> {
    match unframe(bytes) {
        Some(fields) => rating_report_of_fields(fields),
        None => None,
    }
}

impl Stored for RatingReport {
    open spec fn decode(bytes: Seq<u8>) -> Option<RatingReportView> {
        decode_rating_report(bytes)
    }

    open spec fn key_of(record: RatingReportView) -> Seq<u8> {
        text_key(record.id)
    }

    fn to_bytes(&self) -> (bytes: Vec<u8>) {
        let mut fields: Vec<Vec<u8>> = Vec::new();
        fields.push(text_bytes(&self.id));
        fields.push(copy_bytes(self.reporter_id.as_bytes()));
        fields.push(text_bytes(&self.rating_id));
        fields.push(text_bytes(&self.reason));
        fields.push(text_bytes(&self.description));
        fields.push(number_field(self.created_at));
        fields.push(text_bytes(&self.status));
        let bytes = frame_fields(&fields);
        proof {
            let views = field_views(fields@);
            assert(rating_report_of_fields(views) == Some(self@));
        }
        bytes
    }

    fn from_bytes(bytes: &Vec<u8>) -> (record: Option<RatingReport>) {
        let fields = unframe_fields(bytes)?;
        let ghost views = field_views(fields@);
        if fields.len() != RATING_REPORT_FIELDS {
            return None;
        }
        assert(forall|i: int| 0 <= i < 7 ==> views[i] == (#[trigger] fields@[i])@);
        let id = field_text(&fields[0])?;
        let reporter_id = Identity::from_bytes(copy_bytes(&fields[1]))?;
        let rating_id = field_text(&fields[2])?;
        let reason = field_text(&fields[3])?;
        let description = field_text(&fields[4])?;
        let created_at = field_number(&fields[5])?;
        let status = field_text(&fields[6])?;
        Some(RatingReport { id, reporter_id, rating_id, reason, description, created_at, status })
    }

    fn key(&self) -> (key: Vec<u8>) {
        text_bytes(&self.id)
    }
}

/// The number of regions of stable memory that the feedback lives on.
pub const FEEDBACK_REGIONS: usize = 3;

/// The ratings, the statistics of each rated participant, and the
/// complaints about ratings.
pub struct Feedback {
    ratings: Table<Rating>,
    stats: Table<UserRatingStats>,
    reports: Table<RatingReport>,
}

/// The [`Feedback`] as a mathematical value.
pub struct FeedbackView {
    /// The ratings, by the key of their id.
    pub ratings: Map<Seq<u8>, RatingView>,
    /// The statistics, by the rated identity.
    pub stats: Map<Seq<u8>, StatsView>,
    /// The complaints, by the key of their id.
    pub reports: Map<Seq<u8>, RatingReportView>,
}

/// The rating that `caller` gives at the time `now`.
pub open spec fn new_rating(
    caller: Seq<u8>,
    now: u64,
    rated_user_id: Seq<u8>,
    product_id: Option<Seq<char>>,
    transaction_id: Option<Seq<char>>,
    rating: u8,
    review: Seq<char>,
    category: Seq<char>,
) -> RatingView {
    RatingView {
        id: record_id(now, caller),
        rater_id: caller,
        rated_user_id,
        product_id,
        transaction_id,
        rating,
        review,
        category,
        created_at: now,
        is_verified: false,
    }
}

/// Why `caller` cannot give this rating, if it cannot: the stars must lie
/// between one and five, and nobody rates itself.
pub open spec fn submit_refusal(caller: Seq<u8>, rated_user_id: Seq<u8>, rating: u8) -> Option<
    LedgerError,
> {
    if rating < 1 || rating > 5 {
        Some(LedgerError::ValidationError)
    } else if caller == rated_user_id {
        Some(LedgerError::ValidationError)
    } else {
        None
    }
}

/// Whether `stats` are what the statistics become when those of `user`
/// are taken anew at the time `now`: the statistics of the ratings that
/// `user` has received, in ascending order of the keys of their ids, where
/// there is one, and otherwise what they were.
pub open spec fn refreshed(
    before: Map<Seq<u8>, StatsView>,
    ratings: Map<Seq<u8>, RatingView>,
    user: Seq<u8>,
    now: u64,
    stats: Map<Seq<u8>, StatsView>,
) -> bool {
    exists|received: Seq<RatingView>|
        {
            &&& #[trigger] received_by(ratings, user, received)
            &&& stats == if received.len() == 0 {
                before
            } else {
                before.insert(user, stats_of(user, now, received))
            }
        }
}

/// Whether `received` are the ratings that `user` has received, each
/// once, in ascending order of the keys of their ids.
pub open spec fn received_by(
    ratings: Map<Seq<u8>, RatingView>,
    user: Seq<u8>,
    received: Seq<RatingView>,
) -> bool {
    lists_where::<Rating>(ratings, |r: RatingView| r.rated_user_id == user, received)
}

/// The complaint that `caller` raises at the time `now`.
pub open spec fn new_rating_report(
    caller: Seq<u8>,
    now: u64,
    rating_id: Seq<char>,
    reason: Seq<char>,
    description: Seq<char>,
) -> RatingReportView {
    RatingReportView {
        id: record_id(now, caller),
        reporter_id: caller,
        rating_id,
        reason,
        description,
        created_at: now,
        status: "pending"@,
    }
}

/// The regions that a feedback has lived on, each with what the feedback has
/// left on it. Only a feedback gives them out, and only
/// [`Feedback::restore`] takes them.
pub struct FeedbackRegions {
    ratings: KeyedRegion,
    stats: KeyedRegion,
    reports: KeyedRegion,
}

impl View for Feedback {
    type V = FeedbackView;

    closed spec fn view(&self) -> FeedbackView {
        FeedbackView { ratings: self.ratings@, stats: self.stats@, reports: self.reports@ }
    }
}

impl Feedback {
    /// Whether the feedback is sound: each table is.
    pub closed spec fn wf(&self) -> bool {
        &&& self.ratings.wf()
        &&& self.stats.wf()
        &&& self.reports.wf()
    }

    /// A feedback that holds nothing, on the first [`FEEDBACK_REGIONS`] of the regions;
    /// it is refused where there are fewer. Its stores are made anew:
    /// what the regions held is given up.
    pub fn new(regions: StableRegions) -> (result: Result<Feedback, LedgerError>)
        ensures
            match result {
                Ok(feedback) => {
                    &&& regions@.len() >= FEEDBACK_REGIONS
                    &&& feedback.wf()
                    &&& feedback@.ratings == Map::<Seq<u8>, RatingView>::empty()
                    &&& feedback@.stats == Map::<Seq<u8>, StatsView>::empty()
                    &&& feedback@.reports == Map::<Seq<u8>, RatingReportView>::empty()
                },
                Err(e) => e == LedgerError::StorageError && regions@.len() < FEEDBACK_REGIONS,
            },
    {
        let mut regions = regions;
        if regions.len() < FEEDBACK_REGIONS {
            return Err(LedgerError::StorageError);
        }
        let ratings = Table::new(regions.next());
        let stats = Table::new(regions.next());
        let reports = Table::new(regions.next());
        Ok(Feedback { ratings, stats, reports })
    }

    /// The regions of a feedback whose parts live on these.
    pub closed spec fn regions_of(ratings: KeyedRegion, stats: KeyedRegion, reports: KeyedRegion) -> FeedbackRegions {
        FeedbackRegions { ratings, stats, reports }
    }

    /// The regions that the feedback lives on.
    pub closed spec fn regions(&self) -> FeedbackRegions {
        Feedback::regions_of(self.ratings.region(), self.stats.region(), self.reports.region())
    }

    /// Gives up the feedback and hands back the regions that hold it, from
    /// which `restore` reads it again.
    pub fn into_regions(self) -> (regions: FeedbackRegions)
        ensures
            regions == self.regions(),
    {
        FeedbackRegions {
            ratings: self.ratings.into_region(),
            stats: self.stats.into_region(),
            reports: self.reports.into_region(),
        }
    }

    /// The feedback that the regions hold, as the feedback that gave them out
    /// has left it there. Every stored record is read and checked: where
    /// one is not sound, nothing is accepted and the error says so. What is
    /// accepted lives on the regions. What the regions hold is not known
    /// here: `from_store` of
    /// each table says what comes of each content.
    pub fn restore(regions: FeedbackRegions) -> (result: Result<Feedback, LedgerError>)
        ensures
            match result {
                Ok(feedback) => feedback.wf() && feedback.regions() == regions,
                Err(e) => e == LedgerError::StorageError,
            },
    {
        let ratings = match Table::restore(regions.ratings) {
            Some(table) => table,
            None => {
                return Err(LedgerError::StorageError);
            },
        };
        let stats = match Table::restore(regions.stats) {
            Some(table) => table,
            None => {
                return Err(LedgerError::StorageError);
            },
        };
        let reports = match Table::restore(regions.reports) {
            Some(table) => table,
            None => {
                return Err(LedgerError::StorageError);
            },
        };
        Ok(Feedback { ratings, stats, reports })
    }

    /// The feedback that the first [`FEEDBACK_REGIONS`] of the regions hold, as
    /// the program has found them: what an earlier run of the program has
    /// left there, or nothing. Every stored record is read and checked:
    /// where one is not sound, or the regions are too few, nothing is
    /// accepted and the error says so. What the regions hold is not known
    /// here: `from_store` of
    /// each table says what comes of each content.
    pub fn load(regions: StableRegions) -> (result: Result<Feedback, LedgerError>)
        ensures
            match result {
                Ok(feedback) => regions@.len() >= FEEDBACK_REGIONS && feedback.wf(),
                Err(e) => e == LedgerError::StorageError,
            },
    {
        let mut regions = regions;
        if regions.len() < FEEDBACK_REGIONS {
            return Err(LedgerError::StorageError);
        }
        let ratings = match Table::from_store(KeyedStore::open(regions.next())) {
            Some(table) => table,
            None => {
                return Err(LedgerError::StorageError);
            },
        };
        let stats = match Table::from_store(KeyedStore::open(regions.next())) {
            Some(table) => table,
            None => {
                return Err(LedgerError::StorageError);
            },
        };
        let reports = match Table::from_store(KeyedStore::open(regions.next())) {
            Some(table) => table,
            None => {
                return Err(LedgerError::StorageError);
            },
        };
        Ok(Feedback { ratings, stats, reports })
    }

    /// The ratings that `user` has received, in ascending order of the keys
    /// of their ids.
    pub fn get_user_ratings(&self, user_id: &Identity) -> (ratings: Vec<Rating>)
        requires
            self.wf(),
        ensures
            received_by(self@.ratings, user_id@, record_views(ratings@)),
    {
        let all = self.ratings.list();
        let mut marks: Vec<bool> = Vec::new();
        let mut i: usize = 0;
        while i < all.len()
            invariant
                i <= all@.len(),
                marks@.len() == i,
                forall|j: int|
                    0 <= j < i ==> marks@[j] == ((#[trigger] all@[j])@.rated_user_id == user_id@),
            decreases all@.len() - i,
        {
            marks.push(all[i].rated_user_id.same(user_id));
            i += 1;
        }
        keep_listed(
            all,
            &marks,
            Ghost(self@.ratings),
            Ghost(|r: RatingView| r.rated_user_id == user_id@),
        )
    }

    /// The ratings that `rater` has given, in ascending order of the keys
    /// of their ids.
    pub fn get_ratings_by_rater(&self, rater_id: &Identity) -> (ratings: Vec<Rating>)
        requires
            self.wf(),
        ensures
            lists_where::<Rating>(
                self@.ratings,
                |r: RatingView| r.rater_id == rater_id@,
                record_views(ratings@),
            ),
    {
        let all = self.ratings.list();
        let mut marks: Vec<bool> = Vec::new();
        let mut i: usize = 0;
        while i < all.len()
            invariant
                i <= all@.len(),
                marks@.len() == i,
                forall|j: int|
                    0 <= j < i ==> marks@[j] == ((#[trigger] all@[j])@.rater_id == rater_id@),
            decreases all@.len() - i,
        {
            marks.push(all[i].rater_id.same(rater_id));
            i += 1;
        }
        keep_listed(
            all,
            &marks,
            Ghost(self@.ratings),
            Ghost(|r: RatingView| r.rater_id == rater_id@),
        )
    }

    /// The ratings of this category, in ascending order of the keys of
    /// their ids.
    pub fn get_ratings_by_category(&self, category: &String) -> (ratings: Vec<Rating>)
        requires
            self.wf(),
        ensures
            lists_where::<Rating>(
                self@.ratings,
                |r: RatingView| r.category == category@,
                record_views(ratings@),
            ),
    {
        let all = self.ratings.list();
        let mut marks: Vec<bool> = Vec::new();
        let mut i: usize = 0;
        while i < all.len()
            invariant
                i <= all@.len(),
                marks@.len() == i,
                forall|j: int|
                    0 <= j < i ==> marks@[j] == ((#[trigger] all@[j])@.category == category@),
            decreases all@.len() - i,
        {
            marks.push(all[i].category == *category);
            i += 1;
        }
        keep_listed(
            all,
            &marks,
            Ghost(self@.ratings),
            Ghost(|r: RatingView| r.category == category@),
        )
    }

    /// The complaints that are pending, in ascending order of the keys of
    /// their ids.
    pub fn get_pending_reports(&self) -> (reports: Vec<RatingReport>)
        requires
            self.wf(),
        ensures
            lists_where::<RatingReport>(
                self@.reports,
                |r: RatingReportView| r.status == "pending"@,
                record_views(reports@),
            ),
    {
        let all = self.reports.list();
        let pending = String::from_str("pending");
        let mut marks: Vec<bool> = Vec::new();
        let mut i: usize = 0;
        while i < all.len()
            invariant
                i <= all@.len(),
                marks@.len() == i,
                pending@ == "pending"@,
                forall|j: int|
                    0 <= j < i ==> marks@[j] == ((#[trigger] all@[j])@.status == "pending"@),
            decreases all@.len() - i,
        {
            marks.push(all[i].status == pending);
            i += 1;
        }
        keep_listed(
            all,
            &marks,
            Ghost(self@.reports),
            Ghost(|r: RatingReportView| r.status == "pending"@),
        )
    }

    /// Takes the statistics of `user` anew at the time `now`, from the
    /// ratings that it has received. Where it has received none, nothing
    /// changes.
    pub fn update_rating_stats(&mut self, user_id: &Identity, now: u64)
        requires
            old(self).wf(),
        ensures
            final(self).wf(),
            final(self)@.ratings == old(self)@.ratings,
            final(self)@.reports == old(self)@.reports,
            refreshed(old(self)@.stats, old(self)@.ratings, user_id@, now, final(self)@.stats),
    {
        let received = self.get_user_ratings(user_id);
        if received.len() == 0 {
            return ;
        }
        let stats = compute_stats(user_id, now, &received);
        self.stats.put(&stats);
    }

    /// Gives a rating to a participant and takes its statistics anew. The
    /// rating gets the id that `generate_id` gives for the caller and the
    /// time, and takes the place of a rating that had this id.
    pub fn submit_rating(
        &mut self,
        caller: &Identity,
        now: u64,
        rated_user_id: Identity,
        product_id: Option<String>,
        transaction_id: Option<String>,
        rating: u8,
        review: String,
        category: String,
    ) -> (result: Result<Rating, LedgerError>)
        requires
            old(self).wf(),
        ensures
            final(self).wf(),
            match submit_refusal(caller@, rated_user_id@, rating) {
                Some(e) => result matches Err(refusal) && refusal == e && final(self)@ == old(
                    self,
                )@,
                None => result matches Ok(given) && given@ == new_rating(
                    caller@,
                    now,
                    rated_user_id@,
                    optional_text_view(product_id),
                    optional_text_view(transaction_id),
                    rating,
                    review@,
                    category@,
                ) && final(self)@.ratings == old(self)@.ratings.insert(text_key(given@.id), given@)
                    && final(self)@.reports == old(self)@.reports && refreshed(
                    old(self)@.stats,
                    final(self)@.ratings,
                    rated_user_id@,
                    now,
                    final(self)@.stats,
                ),
            },
    {
        if rating < 1 || rating > 5 {
            return Err(LedgerError::ValidationError);
        }
        if caller.same(&rated_user_id) {
            return Err(LedgerError::ValidationError);
        }
        let given = Rating {
            id: generate_id(now, caller),
            rater_id: caller.clone(),
            rated_user_id,
            product_id,
            transaction_id,
            rating,
            review,
            category,
            created_at: now,
            is_verified: false,
        };
        self.ratings.put(&given);
        self.update_rating_stats(&given.rated_user_id, now);
        Ok(given)
    }

    /// Marks a rating as verified.
    pub fn verify_rating(&mut self, rating_id: &String) -> (result: Result<Rating, LedgerError>)
        requires
            old(self).wf(),
        ensures
            final(self).wf(),
            match result {
                Ok(rating) => old(self)@.ratings.contains_key(text_key(rating_id@)) && rating@
                    == (RatingView {
                    is_verified: true,
                    ..old(self)@.ratings[text_key(rating_id@)]
                }) && final(self)@ == (FeedbackView {
                    ratings: old(self)@.ratings.insert(text_key(rating_id@), rating@),
                    ..old(self)@
                }),
                Err(e) => e == LedgerError::NotFound && !old(self)@.ratings.contains_key(
                    text_key(rating_id@),
                ) && final(self)@ == old(self)@,
            },
    {
        let key = text_bytes(rating_id);
        let mut rating = match self.ratings.get(&key) {
            Some(rating) => rating,
            None => {
                return Err(LedgerError::NotFound);
            },
        };
        rating.is_verified = true;
        self.ratings.put(&rating);
        Ok(rating)
    }

    /// Raises a complaint about a rating. The complaint gets the id that
    /// `generate_id` gives for the caller and the time, and starts pending.
    pub fn report_rating(
        &mut self,
        caller: &Identity,
        now: u64,
        rating_id: String,
        reason: String,
        description: String,
    ) -> (result: Result<RatingReport, LedgerError>)
        requires
            old(self).wf(),
        ensures
            final(self).wf(),
            match result {
                Ok(report) => old(self)@.ratings.contains_key(text_key(rating_id@)) && report@
                    == new_rating_report(caller@, now, rating_id@, reason@, description@)
                    && final(self)@ == (FeedbackView {
                    reports: old(self)@.reports.insert(text_key(report@.id), report@),
                    ..old(self)@
                }),
                Err(e) => e == LedgerError::NotFound && !old(self)@.ratings.contains_key(
                    text_key(rating_id@),
                ) && final(self)@ == old(self)@,
            },
    {
        let key = text_bytes(&rating_id);
        if !self.ratings.contains(&key) {
            return Err(LedgerError::NotFound);
        }
        let report = RatingReport {
            id: generate_id(now, caller),
            reporter_id: caller.clone(),
            rating_id,
            reason,
            description,
            created_at: now,
            status: String::from_str("pending"),
        };
        self.reports.put(&report);
        Ok(report)
    }

    /// The rating with this id.
    pub fn get_rating(&self, rating_id: &String) -> (result: Result<Rating, LedgerError>)
        requires
            self.wf(),
        ensures
            match result {
                Ok(rating) => self@.ratings.contains_key(text_key(rating_id@)) && rating@
                    == self@.ratings[text_key(rating_id@)],
                Err(e) => e == LedgerError::NotFound && !self@.ratings.contains_key(
                    text_key(rating_id@),
                ),
            },
    {
        let key = text_bytes(rating_id);
        match self.ratings.get(&key) {
            Some(rating) => Ok(rating),
            None => Err(LedgerError::NotFound),
        }
    }

    /// The statistics of `user`, as they were last taken.
    pub fn get_user_rating_stats(&self, user_id: &Identity) -> (result: Result<
        UserRatingStats,
        LedgerError,
    >)
        requires
            self.wf(),
        ensures
            match result {
                Ok(stats) => self@.stats.contains_key(user_id@) && stats@ == self@.stats[user_id@],
                Err(e) => e == LedgerError::NotFound && !self@.stats.contains_key(user_id@),
            },
    {
        let key = copy_bytes(user_id.as_bytes());
        match self.stats.get(&key) {
            Some(stats) => Ok(stats),
            None => Err(LedgerError::NotFound),
        }
    }

    /// The statistics of every rated participant, in ascending order of
    /// the identities.
    pub fn get_all_rating_stats(&self) -> (stats: Vec<UserRatingStats>)
        requires
            self.wf(),
        ensures
            lists_table::<UserRatingStats>(self@.stats, record_views(stats@)),
    {
        self.stats.list()
    }
}

impl Clone for RatingReport {
    fn clone(&self) -> (copy: RatingReport)
        ensures
            copy@ == self@,
    {
        RatingReport {
            id: self.id.clone(),
            reporter_id: self.reporter_id.clone(),
            rating_id: self.rating_id.clone(),
            reason: self.reason.clone(),
            description: self.description.clone(),
            created_at: self.created_at,
            status: self.status.clone(),
        }
    }
}

} // verus!

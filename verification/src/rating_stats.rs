//! The statistics of the ratings that one participant has received.

use crate::codec::{
    field_number, field_numbers, field_text, field_views, field_wide_number, frame_fields,
    number_field, number_of, numbers_field, numbers_of, text_bytes, text_of, unframe,
    unframe_fields, wide_number_field, wide_number_of,
};
use crate::identity::{Identity, MAX_IDENTITY_BYTES, copy_bytes};
use crate::feedback::{Rating, RatingView};
use crate::table::{Stored, record_views};
use vstd::prelude::*;

verus! {

/// The ratings of one category: the sum of their stars and their number.
#[derive(Debug)]
pub struct CategoryTotal {
    pub category: String,
    pub rating_sum: u128,
    pub count: u64,
}

/// A [`CategoryTotal`] as a mathematical value.
pub struct CategoryTotalView {
    pub category: Seq<char>,
    pub rating_sum: u128,
    pub count: u64,
}

impl View for CategoryTotal {
    type V = CategoryTotalView;

    open spec fn view(&self) -> CategoryTotalView {
        CategoryTotalView {
            category: self.category@,
            rating_sum: self.rating_sum,
            count: self.count,
        }
    }
}

/// The statistics of the ratings that one participant has received. The
/// average is `rating_sum` divided by `total_ratings`.
#[derive(Debug)]
pub struct UserRatingStats {
    pub user_id: Identity,
    pub total_ratings: u64,
    pub rating_sum: u128,
    /// The numbers of ratings with one, two, three, four and five stars.
    pub star_distribution: Vec<u64>,
    /// The totals of each category, in the order in which the categories
    /// first occur.
    pub category_totals: Vec<CategoryTotal>,
    pub last_updated: u64,
}

/// A [`UserRatingStats`] as a mathematical value.
pub struct StatsView {
    pub user_id: Seq<u8>,
    pub total_ratings: u64,
    pub rating_sum: u128,
    pub star_distribution: Seq<u64>,
    pub category_totals: Seq<CategoryTotalView>,
    pub last_updated: u64,
}

/// The mathematical values of a list of totals.
pub open spec fn total_views(totals: Seq<CategoryTotal>) -> Seq<CategoryTotalView> {
    Seq::new(totals.len(), |i: int| totals[i]@)
}

impl View for UserRatingStats {
    type V = StatsView;

    open spec fn view(&self) -> StatsView {
        StatsView {
            user_id: self.user_id@,
            total_ratings: self.total_ratings,
            rating_sum: self.rating_sum,
            star_distribution: self.star_distribution@,
            category_totals: total_views(self.category_totals@),
            last_updated: self.last_updated,
        }
    }
}

/// The number of fields of a stored total.
pub const TOTAL_FIELDS: usize = 3;

/// The number of fields of stored statistics.
pub const STATS_FIELDS: usize = 6;

/// The total that a list of fields holds, if it holds one.
pub open spec fn total_of_fields(fields: Seq<Seq<u8>>) -> Option<CategoryTotalView> {
    if fields.len() == TOTAL_FIELDS && text_of(fields[0]) is Some && wide_number_of(
        fields[1],
    ) is Some && number_of(fields[2]) is Some {
        Some(
            CategoryTotalView {
                category: text_of(fields[0])->0,
                rating_sum: wide_number_of(fields[1])->0,
                count: number_of(fields[2])->0,
            },
        )
    } else {
        None
    }
}

/// The total that a stored record holds, if it holds one.
pub open spec fn decode_total(bytes: Seq<u8>) -> Option<CategoryTotalView> {
    match unframe(bytes) {
        Some(fields) => total_of_fields(fields),
        None => None,
    }
}

/// The list of totals that a field holds, as a framed list of stored
/// totals.
pub open spec fn totals_of(field: Seq<u8>) -> Option<Seq<CategoryTotalView>> {
    match unframe(field) {
        Some(items) => if forall|i: int|
            0 <= i < items.len() ==> decode_total(#[trigger] items[i]) is Some {
            Some(Seq::new(items.len(), |i: int| decode_total(items[i])->0))
        } else {
            None
        },
        None => None,
    }
}

/// The statistics that a list of fields holds, if it holds them.
pub open spec fn stats_of_fields(fields: Seq<Seq<u8>>) -> Option<StatsView> {
    if fields.len() == STATS_FIELDS && fields[0].len() <= MAX_IDENTITY_BYTES && number_of(
        fields[1],
    ) is Some && wide_number_of(fields[2]) is Some && numbers_of(fields[3]) is Some && totals_of(
        fields[4],
    ) is Some && number_of(fields[5]) is Some {
        Some(
            StatsView {
                user_id: fields[0],
                total_ratings: number_of(fields[1])->0,
                rating_sum: wide_number_of(fields[2])->0,
                star_distribution: numbers_of(fields[3])->0,
                category_totals: totals_of(fields[4])->0,
                last_updated: number_of(fields[5])->0,
            },
        )
    } else {
        None
    }
}

/// The statistics that a stored record holds, if it holds them.
pub open spec fn decode_stats(bytes: Seq<u8>) -> Option<StatsView> {
    match unframe(bytes) {
        Some(fields) => stats_of_fields(fields),
        None => None,
    }
}

impl CategoryTotal {
    /// The stored form of the total. Reading it back gives the same total.
    pub fn to_bytes(&self) -> (bytes: Vec<u8>)
        ensures
            decode_total(bytes@) == Some(self@),
    {
        let mut fields: Vec<Vec<u8>> = Vec::new();
        fields.push(text_bytes(&self.category));
        fields.push(wide_number_field(self.rating_sum));
        fields.push(number_field(self.count));
        let bytes = frame_fields(&fields);
        proof {
            let views = field_views(fields@);
            assert(total_of_fields(views) == Some(self@));
        }
        bytes
    }

    /// Reads a total back from its stored form.
    pub fn from_bytes(bytes: &Vec<u8>) -> (total: Option<CategoryTotal>)
        ensures
            match total {
                Some(t) => decode_total(bytes@) == Some(t@),
                None => decode_total(bytes@) is None,
            },
    {
        let fields = unframe_fields(bytes)?;
        let ghost views = field_views(fields@);
        if fields.len() != TOTAL_FIELDS {
            return None;
        }
        assert(forall|i: int| 0 <= i < 3 ==> views[i] == (#[trigger] fields@[i])@);
        let category = field_text(&fields[0])?;
        let rating_sum = field_wide_number(&fields[1])?;
        let count = field_number(&fields[2])?;
        Some(CategoryTotal { category, rating_sum, count })
    }
}

/// The field that holds a list of totals.
pub fn totals_field(totals: &Vec<CategoryTotal>) -> (field: Vec<u8>)
    ensures
        totals_of(field@) == Some(total_views(totals@)),
{
    let mut items: Vec<Vec<u8>> = Vec::new();
    let mut i: usize = 0;
    while i < totals.len()
        invariant
            i <= totals@.len(),
            items@.len() == i,
            forall|j: int|
                0 <= j < i ==> decode_total((#[trigger] items@[j])@) == Some(totals@[j]@),
        decreases totals@.len() - i,
    {
        items.push(totals[i].to_bytes());
        i += 1;
    }
    let field = frame_fields(&items);
    proof {
        let views = field_views(items@);
        assert forall|j: int| 0 <= j < views.len() implies decode_total(
            #[trigger] views[j],
        ) is Some by {
            assert(decode_total(items@[j]@) == Some(totals@[j]@));
        }
        assert(Seq::new(views.len(), |j: int| decode_total(views[j])->0) =~= total_views(
            totals@,
        )) by {
            assert forall|j: int| 0 <= j < views.len() implies decode_total(views[j])->0
                == #[trigger] total_views(totals@)[j] by {
                assert(decode_total(items@[j]@) == Some(totals@[j]@));
            }
        }
    }
    field
}

/// Reads the list of totals that a field holds.
pub fn field_totals(field: &Vec<u8>) -> (totals: Option<Vec<CategoryTotal>>)
    ensures
        match totals {
            Some(list) => totals_of(field@) == Some(total_views(list@)),
            None => totals_of(field@) is None,
        },
{
    let items = unframe_fields(field)?;
    let ghost views = field_views(items@);
    let mut out: Vec<CategoryTotal> = Vec::new();
    let mut i: usize = 0;
    while i < items.len()
        invariant
            i <= items@.len(),
            out@.len() == i,
            views == field_views(items@),
            unframe(field@) == Some(views),
            forall|j: int| 0 <= j < i ==> decode_total(#[trigger] views[j]) is Some,
            forall|j: int| 0 <= j < i ==> (#[trigger] out@[j])@ == decode_total(views[j])->0,
        decreases items@.len() - i,
    {
        match CategoryTotal::from_bytes(&items[i]) {
            Some(total) => {
                out.push(total);
            },
            None => {
                assert(decode_total(views[i as int]) is None);
                return None;
            },
        }
        i += 1;
    }
    assert(total_views(out@) =~= Seq::new(views.len(), |j: int| decode_total(views[j])->0));
    Some(out)
}

impl Stored for UserRatingStats {
    open spec fn decode(bytes: Seq<u8>) -> Option<StatsView> {
        decode_stats(bytes)
    }

    open spec fn key_of(record: StatsView) -> Seq<u8> {
        record.user_id
    }

    fn to_bytes(&self) -> (bytes: Vec<u8>) {
        let mut fields: Vec<Vec<u8>> = Vec::new();
        fields.push(copy_bytes(self.user_id.as_bytes()));
        fields.push(number_field(self.total_ratings));
        fields.push(wide_number_field(self.rating_sum));
        fields.push(numbers_field(&self.star_distribution));
        fields.push(totals_field(&self.category_totals));
        fields.push(number_field(self.last_updated));
        let bytes = frame_fields(&fields);
        proof {
            let views = field_views(fields@);
            assert(stats_of_fields(views) == Some(self@));
        }
        bytes
    }

    fn from_bytes(bytes: &Vec<u8>) -> (record: Option<UserRatingStats>) {
        let fields = unframe_fields(bytes)?;
        let ghost views = field_views(fields@);
        if fields.len() != STATS_FIELDS {
            return None;
        }
        assert(forall|i: int| 0 <= i < 6 ==> views[i] == (#[trigger] fields@[i])@);
        let user_id = Identity::from_bytes(copy_bytes(&fields[0]))?;
        let total_ratings = field_number(&fields[1])?;
        let rating_sum = field_wide_number(&fields[2])?;
        let star_distribution = field_numbers(&fields[3])?;
        let category_totals = field_totals(&fields[4])?;
        let last_updated = field_number(&fields[5])?;
        Some(
            UserRatingStats {
                user_id,
                total_ratings,
                rating_sum,
                star_distribution,
                category_totals,
                last_updated,
            },
        )
    }

    fn key(&self) -> (key: Vec<u8>) {
        copy_bytes(self.user_id.as_bytes())
    }
}

/// The sum of the stars of a list of ratings.
pub open spec fn score_sum(ratings: Seq<RatingView>) -> nat
    decreases ratings.len(),
{
    if ratings.len() == 0 {
        0
    } else {
        score_sum(ratings.drop_last()) + ratings.last().rating as nat
    }
}

/// The ratings with this number of stars.
pub open spec fn with_stars(ratings: Seq<RatingView>, stars: int) -> Seq<RatingView> {
    ratings.filter(|r: RatingView| r.rating == stars)
}

/// The number of ratings with one star more than `position`: what stands
/// at this position of a star distribution.
pub open spec fn star_count(ratings: Seq<RatingView>, position: int) -> nat {
    with_stars(ratings, position + 1).len()
}

/// The ratings of this category.
pub open spec fn in_category(ratings: Seq<RatingView>, category: Seq<char>) -> Seq<RatingView> {
    ratings.filter(|r: RatingView| r.category == category)
}

/// The categories of a list of ratings, each once, in the order in which
/// they first occur.
pub open spec fn categories(ratings: Seq<RatingView>) -> Seq<Seq<char>>
    decreases ratings.len(),
{
    if ratings.len() == 0 {
        Seq::empty()
    } else if categories(ratings.drop_last()).contains(ratings.last().category) {
        categories(ratings.drop_last())
    } else {
        categories(ratings.drop_last()).push(ratings.last().category)
    }
}

/// The total of one category of a list of ratings.
pub open spec fn category_total(
    ratings: Seq<RatingView>,
    category: Seq<char>,
) -> CategoryTotalView {
    CategoryTotalView {
        category,
        rating_sum: score_sum(in_category(ratings, category)) as u128,
        count: in_category(ratings, category).len() as u64,
    }
}

/// The statistics of a list of ratings, taken at the time `now`.
pub open spec fn stats_of(user: Seq<u8>, now: u64, ratings: Seq<RatingView>) -> StatsView {
    StatsView {
        user_id: user,
        total_ratings: ratings.len() as u64,
        rating_sum: score_sum(ratings) as u128,
        star_distribution: Seq::new(5, |k: int| star_count(ratings, k) as u64),
        category_totals: Seq::new(
            categories(ratings).len(),
            |j: int| category_total(ratings, categories(ratings)[j]),
        ),
        last_updated: now,
    }
}

/// A list with one more rating has it among the ratings that pass a test
/// exactly where it passes.
proof fn lemma_filter_push(
    ratings: Seq<RatingView>,
    rating: RatingView,
    test: spec_fn(RatingView) -> bool,
)
    ensures
        ratings.push(rating).filter(test) == if test(rating) {
            ratings.filter(test).push(rating)
        } else {
            ratings.filter(test)
        },
        ratings.filter(test).len() <= ratings.len(),
{
    reveal(Seq::filter);
    assert(ratings.push(rating).drop_last() =~= ratings);
    ratings.lemma_filter_len(test);
}

/// The sum of a list with one more rating.
proof fn lemma_sum_push(ratings: Seq<RatingView>, rating: RatingView)
    ensures
        score_sum(ratings.push(rating)) == score_sum(ratings) + rating.rating,
        score_sum(ratings) <= 255 * ratings.len(),
    decreases ratings.len(),
{
    assert(ratings.push(rating).drop_last() =~= ratings);
    if ratings.len() > 0 {
        lemma_sum_push(ratings.drop_last(), ratings.last());
        assert(ratings.drop_last().push(ratings.last()) =~= ratings);
    }
}

/// The statistics of the ratings, taken at the time `now`.
pub fn compute_stats(user_id: &Identity, now: u64, ratings: &Vec<Rating>) -> (stats:
    UserRatingStats)
    ensures
        stats@ == stats_of(user_id@, now, record_views(ratings@)),
{
    let ghost all = record_views(ratings@);
    let mut sum: u128 = 0;
    let mut stars: Vec<u64> = Vec::new();
    stars.push(0);
    stars.push(0);
    stars.push(0);
    stars.push(0);
    stars.push(0);
    let mut totals: Vec<CategoryTotal> = Vec::new();
    let mut i: usize = 0;
    proof {
        reveal(Seq::filter);
        assert(all.take(0) =~= Seq::<RatingView>::empty());
    }
    while i < ratings.len()
        invariant
            i <= ratings@.len(),
            all == record_views(ratings@),
            sum == score_sum(all.take(i as int)),
            sum <= 255 * i,
            stars@.len() == 5,
            forall|k: int| 0 <= k < 5 ==> #[trigger] stars@[k] == star_count(all.take(i as int), k),
            totals@.len() == categories(all.take(i as int)).len(),
            forall|j: int|
                0 <= j < totals@.len() ==> (#[trigger] totals@[j])@ == category_total(
                    all.take(i as int),
                    categories(all.take(i as int))[j],
                ),
            forall|a: int, b: int|
                0 <= a < b < totals@.len() ==> #[trigger] categories(all.take(i as int))[a]
                    != #[trigger] categories(all.take(i as int))[b],
        decreases ratings@.len() - i,
    {
        let rating = &ratings[i];
        let ghost before = all.take(i as int);
        let ghost after = all.take(i + 1);
        let ghost view = rating@;
        let ghost names = categories(before);
        proof {
            assert(all[i as int] == view);
            assert(after =~= before.push(view));
            lemma_sum_push(before, view);
            assert forall|k: int| 0 <= k < 5 implies #[trigger] star_count(after, k) == if k + 1
                == view.rating {
                star_count(before, k) + 1
            } else {
                star_count(before, k)
            } && star_count(before, k) <= i by {
                lemma_filter_push(before, view, |r: RatingView| r.rating == k + 1);
            }
            assert forall|c: Seq<char>|
                #![trigger in_category(after, c)]
                in_category(after, c) == if view.category == c {
                    in_category(before, c).push(view)
                } else {
                    in_category(before, c)
                } && in_category(before, c).len() <= i && score_sum(
                    in_category(before, c).push(view),
                ) == score_sum(in_category(before, c)) + view.rating && score_sum(
                    in_category(before, c),
                ) <= 255 * in_category(before, c).len() by {
                lemma_filter_push(before, view, |r: RatingView| r.category == c);
                lemma_sum_push(in_category(before, c), view);
            }
        }
        sum = sum + rating.rating as u128;
        if 1 <= rating.rating && rating.rating <= 5 {
            let k = (rating.rating - 1) as usize;
            let count = stars[k];
            stars.set(k, count + 1);
        }
        let mut j: usize = 0;
        while j < totals.len() && totals[j].category != rating.category
            invariant
                j <= totals@.len(),
                totals@.len() == names.len(),
                forall|a: int| 0 <= a < j ==> names[a] != view.category,
                forall|a: int|
                    0 <= a < totals@.len() ==> (#[trigger] totals@[a])@ == category_total(
                        before,
                        names[a],
                    ),
                view == rating@,
            decreases totals@.len() - j,
        {
            j += 1;
        }
        let found = j < totals.len();
        proof {
            assert(after.drop_last() =~= before);
            assert(after.last() == view);
            if found {
                assert(totals@[j as int]@.category == names[j as int]);
            }
        }
        if found {
            let old_total = &totals[j];
            proof {
                let name = names[j as int];
                assert(in_category(after, name) == in_category(before, name).push(view));
                assert(old_total@ == category_total(before, name));
                assert(score_sum(in_category(before, name)) <= 255 * i);
            }
            let updated = CategoryTotal {
                category: old_total.category.clone(),
                rating_sum: old_total.rating_sum + rating.rating as u128,
                count: old_total.count + 1,
            };
            totals.set(j, updated);
            proof {
                assert(names.contains(view.category));
                assert(categories(after) == names);
                assert forall|a: int| 0 <= a < totals@.len() implies (#[trigger] totals@[a])@
                    == category_total(after, categories(after)[a]) by {
                    if a != j {
                        assert(names[a] != names[j as int]);
                    }
                }
            }
        } else {
            totals.push(
                CategoryTotal {
                    category: rating.category.clone(),
                    rating_sum: rating.rating as u128,
                    count: 1,
                },
            );
            proof {
                assert(!names.contains(view.category)) by {
                    if names.contains(view.category) {
                        let a = choose|a: int| 0 <= a < names.len() && names[a] == view.category;
                        assert(names[a] != view.category);
                    }
                }
                assert(categories(after) == names.push(view.category));
                assert(in_category(before, view.category).len() == 0) by {
                    lemma_absent_category(before, view.category);
                }
                assert(score_sum(in_category(before, view.category)) == 0);
                assert forall|a: int| 0 <= a < totals@.len() implies (#[trigger] totals@[a])@
                    == category_total(after, categories(after)[a]) by {
                    if a < names.len() {
                        assert(names[a] != view.category);
                    }
                }
            }
        }
        i += 1;
    }
    proof {
        assert(all.take(i as int) =~= all);
    }
    let stats = UserRatingStats {
        user_id: user_id.clone(),
        total_ratings: ratings.len() as u64,
        rating_sum: sum,
        star_distribution: stars,
        category_totals: totals,
        last_updated: now,
    };
    proof {
        let wanted = stats_of(user_id@, now, all);
        assert(stats@.star_distribution =~= wanted.star_distribution);
        assert(stats@.category_totals =~= wanted.category_totals);
    }
    stats
}

/// A category that is not among the categories of a list has no rating in
/// it.
proof fn lemma_absent_category(ratings: Seq<RatingView>, category: Seq<char>)
    requires
        !categories(ratings).contains(category),
    ensures
        in_category(ratings, category).len() == 0,
    decreases ratings.len(),
{
    reveal(Seq::filter);
    if ratings.len() > 0 {
        let front = ratings.drop_last();
        let names = categories(front);
        if names.contains(ratings.last().category) {
            assert(categories(ratings) == names);
        } else {
            let grown = names.push(ratings.last().category);
            assert(categories(ratings) == grown);
            assert(grown[names.len() as int] == ratings.last().category);
            assert(grown.contains(ratings.last().category));
            if names.contains(category) {
                let a = choose|a: int| 0 <= a < names.len() && names[a] == category;
                assert(grown[a] == category);
            }
        }
        lemma_absent_category(front, category);
    }
}

impl Clone for CategoryTotal {
    fn clone(&self) -> (copy: CategoryTotal)
        ensures
            copy@ == self@,
    {
        CategoryTotal {
            category: self.category.clone(),
            rating_sum: self.rating_sum,
            count: self.count,
        }
    }
}

impl Clone for UserRatingStats {
    fn clone(&self) -> (copy: UserRatingStats)
        ensures
            copy@ == self@,
    {
        let mut stars: Vec<u64> = Vec::new();
        let mut i: usize = 0;
        while i < self.star_distribution.len()
            invariant
                i <= self.star_distribution@.len(),
                stars@ == self.star_distribution@.take(i as int),
            decreases self.star_distribution@.len() - i,
        {
            stars.push(self.star_distribution[i]);
            assert(stars@ =~= self.star_distribution@.take(i + 1));
            i += 1;
        }
        assert(stars@ =~= self.star_distribution@);
        let mut totals: Vec<CategoryTotal> = Vec::new();
        let mut j: usize = 0;
        while j < self.category_totals.len()
            invariant
                j <= self.category_totals@.len(),
                totals@.len() == j,
                forall|k: int| 0 <= k < j ==> (#[trigger] totals@[k])@ == self.category_totals@[k]@,
            decreases self.category_totals@.len() - j,
        {
            totals.push(self.category_totals[j].clone());
            j += 1;
        }
        assert(total_views(totals@) =~= total_views(self.category_totals@));
        UserRatingStats {
            user_id: self.user_id.clone(),
            total_ratings: self.total_ratings,
            rating_sum: self.rating_sum,
            star_distribution: stars,
            category_totals: totals,
            last_updated: self.last_updated,
        }
    }
}

} // verus!

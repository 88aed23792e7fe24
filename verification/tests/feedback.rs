use supply_chain::error::LedgerError;
use supply_chain::identity::Identity;
use supply_chain::rating_stats::{compute_stats, CategoryTotal, UserRatingStats};
use supply_chain::feedback::{Rating, RatingReport, Feedback};
use supply_chain::table::Stored;
use supply_chain::regions::StableRegions;

fn who(byte: u8) -> Identity {
    Identity::from_bytes(vec![byte, 8]).unwrap()
}

fn submit(
    feedback: &mut Feedback,
    rater: &Identity,
    now: u64,
    rated: &Identity,
    stars: u8,
    category: &str,
) -> Result<Rating, LedgerError> {
    feedback.submit_rating(
        rater,
        now,
        rated.clone(),
        Some("crate-7".to_string()),
        None,
        stars,
        "as described".to_string(),
        category.to_string(),
    )
}

fn rating(id: &str, rated: &Identity, stars: u8, category: &str) -> Rating {
    Rating {
        id: id.to_string(),
        rater_id: who(200),
        rated_user_id: rated.clone(),
        product_id: None,
        transaction_id: None,
        rating: stars,
        review: String::new(),
        category: category.to_string(),
        created_at: 0,
        is_verified: false,
    }
}

fn totals(stats: &UserRatingStats) -> Vec<(String, u128, u64)> {
    stats
        .category_totals
        .iter()
        .map(|t| (t.category.clone(), t.rating_sum, t.count))
        .collect()
}

#[test]
fn a_submitted_rating_is_kept_unverified() {
    let mut feedback = Feedback::new(StableRegions::new()).ok().unwrap();
    let rater = who(1);
    let rated = who(2);
    let given = submit(&mut feedback, &rater, 500, &rated, 4, "quality").unwrap();
    assert_eq!(given.id, format!("500-{}", rater.to_text()));
    assert!(given.rater_id.same(&rater));
    assert!(given.rated_user_id.same(&rated));
    assert_eq!(given.product_id, Some("crate-7".to_string()));
    assert_eq!(given.transaction_id, None);
    assert_eq!(given.rating, 4);
    assert_eq!(given.review, "as described");
    assert_eq!(given.category, "quality");
    assert_eq!(given.created_at, 500);
    assert!(!given.is_verified);
    let stored = feedback.get_rating(&given.id).unwrap();
    assert_eq!(stored.rating, 4);
    assert_eq!(stored.product_id, Some("crate-7".to_string()));
    assert_eq!(feedback.get_rating(&"none".to_string()).err(), Some(LedgerError::NotFound));
}

#[test]
fn stars_outside_one_to_five_are_refused() {
    let mut feedback = Feedback::new(StableRegions::new()).ok().unwrap();
    for stars in [0u8, 6, 200] {
        let refused = submit(&mut feedback, &who(1), 500, &who(2), stars, "quality");
        assert_eq!(refused.err(), Some(LedgerError::ValidationError));
    }
    assert!(feedback.get_user_ratings(&who(2)).is_empty());
    assert_eq!(feedback.get_user_rating_stats(&who(2)).err(), Some(LedgerError::NotFound));
}

#[test]
fn nobody_rates_itself() {
    let mut feedback = Feedback::new(StableRegions::new()).ok().unwrap();
    let refused = submit(&mut feedback, &who(1), 500, &who(1), 5, "quality");
    assert_eq!(refused.err(), Some(LedgerError::ValidationError));
    assert!(feedback.get_user_ratings(&who(1)).is_empty());
    assert!(feedback.get_ratings_by_rater(&who(1)).is_empty());
}

#[test]
fn statistics_follow_every_submitted_rating() {
    let mut feedback = Feedback::new(StableRegions::new()).ok().unwrap();
    let rated = who(9);
    submit(&mut feedback, &who(1), 100, &rated, 5, "quality").unwrap();
    submit(&mut feedback, &who(2), 101, &rated, 3, "delivery").unwrap();
    submit(&mut feedback, &who(3), 102, &rated, 4, "quality").unwrap();
    submit(&mut feedback, &who(3), 103, &who(1), 1, "quality").unwrap();
    let stats = feedback.get_user_rating_stats(&rated).unwrap();
    assert!(stats.user_id.same(&rated));
    assert_eq!(stats.total_ratings, 3);
    assert_eq!(stats.rating_sum, 12);
    assert_eq!(stats.rating_sum as f64 / stats.total_ratings as f64, 4.0);
    assert_eq!(stats.star_distribution, vec![0, 0, 1, 1, 1]);
    assert_eq!(stats.last_updated, 102);
    let mut by_category = totals(&stats);
    by_category.sort();
    assert_eq!(
        by_category,
        vec![("delivery".to_string(), 3, 1), ("quality".to_string(), 9, 2)]
    );
    let other = feedback.get_user_rating_stats(&who(1)).unwrap();
    assert_eq!((other.total_ratings, other.rating_sum), (1, 1));
    assert_eq!(other.star_distribution, vec![1, 0, 0, 0, 0]);
    assert_eq!(feedback.get_all_rating_stats().len(), 2);
}

#[test]
fn statistics_are_computed_from_a_list_of_ratings() {
    let rated = who(9);
    let list = vec![
        rating("a", &rated, 5, "quality"),
        rating("b", &rated, 2, "delivery"),
        rating("c", &rated, 5, "overall"),
        rating("d", &rated, 1, "delivery"),
        rating("e", &rated, 5, "quality"),
        rating("f", &rated, 9, "delivery"),
        rating("g", &rated, 0, "odd"),
    ];
    let stats = compute_stats(&rated, 77, &list);
    assert_eq!(stats.total_ratings, 7);
    assert_eq!(stats.rating_sum, 27);
    assert_eq!(stats.star_distribution, vec![1, 1, 0, 0, 3]);
    assert_eq!(stats.last_updated, 77);
    assert_eq!(
        totals(&stats),
        vec![
            ("quality".to_string(), 10, 2),
            ("delivery".to_string(), 12, 3),
            ("overall".to_string(), 5, 1),
            ("odd".to_string(), 0, 1),
        ]
    );
    let empty = compute_stats(&rated, 1, &Vec::new());
    assert_eq!(empty.total_ratings, 0);
    assert_eq!(empty.rating_sum, 0);
    assert_eq!(empty.star_distribution, vec![0, 0, 0, 0, 0]);
    assert!(empty.category_totals.is_empty());
}

#[test]
fn statistics_stay_where_nothing_was_received() {
    let mut feedback = Feedback::new(StableRegions::new()).ok().unwrap();
    feedback.update_rating_stats(&who(1), 5);
    assert_eq!(feedback.get_user_rating_stats(&who(1)).err(), Some(LedgerError::NotFound));
    submit(&mut feedback, &who(2), 100, &who(1), 5, "quality").unwrap();
    feedback.update_rating_stats(&who(1), 900);
    let stats = feedback.get_user_rating_stats(&who(1)).unwrap();
    assert_eq!(stats.last_updated, 900);
    assert_eq!(stats.total_ratings, 1);
}

#[test]
fn a_rating_is_verified() {
    let mut feedback = Feedback::new(StableRegions::new()).ok().unwrap();
    let given = submit(&mut feedback, &who(1), 100, &who(2), 5, "quality").unwrap();
    let verified = feedback.verify_rating(&given.id).unwrap();
    assert!(verified.is_verified);
    assert_eq!(verified.rating, 5);
    assert!(feedback.get_rating(&given.id).unwrap().is_verified);
    assert_eq!(feedback.verify_rating(&"none".to_string()).err(), Some(LedgerError::NotFound));
}

#[test]
fn a_complaint_about_a_rating_starts_pending() {
    let mut feedback = Feedback::new(StableRegions::new()).ok().unwrap();
    let given = submit(&mut feedback, &who(1), 100, &who(2), 1, "quality").unwrap();
    let report = feedback
        .report_rating(&who(2), 200, given.id.clone(), "unfair".to_string(), "never met".to_string())
        .unwrap();
    assert_eq!(report.id, format!("200-{}", who(2).to_text()));
    assert!(report.reporter_id.same(&who(2)));
    assert_eq!(report.rating_id, given.id);
    assert_eq!(report.reason, "unfair");
    assert_eq!(report.description, "never met");
    assert_eq!(report.created_at, 200);
    assert_eq!(report.status, "pending");
    let pending = feedback.get_pending_reports();
    assert_eq!(pending.len(), 1);
    assert_eq!(pending[0].id, report.id);
    let missing = feedback.report_rating(&who(2), 201, "none".to_string(), String::new(), String::new());
    assert_eq!(missing.err(), Some(LedgerError::NotFound));
    assert_eq!(feedback.get_pending_reports().len(), 1);
}

#[test]
fn ratings_are_listed_by_rated_by_rater_and_by_category() {
    let mut feedback = Feedback::new(StableRegions::new()).ok().unwrap();
    submit(&mut feedback, &who(1), 100, &who(9), 5, "quality").unwrap();
    submit(&mut feedback, &who(2), 101, &who(9), 3, "delivery").unwrap();
    submit(&mut feedback, &who(1), 102, &who(8), 4, "quality").unwrap();
    assert_eq!(feedback.get_user_ratings(&who(9)).len(), 2);
    assert_eq!(feedback.get_user_ratings(&who(8)).len(), 1);
    assert!(feedback.get_user_ratings(&who(1)).is_empty());
    let by_first: Vec<u64> =
        feedback.get_ratings_by_rater(&who(1)).into_iter().map(|r| r.created_at).collect();
    assert_eq!(by_first, vec![100, 102]);
    let quality: Vec<u8> = feedback
        .get_ratings_by_category(&"quality".to_string())
        .into_iter()
        .map(|r| r.rating)
        .collect();
    assert_eq!(quality, vec![5, 4]);
    assert!(feedback.get_ratings_by_category(&"Quality".to_string()).is_empty());
}

#[test]
fn a_rating_with_the_id_of_another_takes_its_place() {
    let mut feedback = Feedback::new(StableRegions::new()).ok().unwrap();
    let first = submit(&mut feedback, &who(1), 100, &who(9), 5, "quality").unwrap();
    let second = submit(&mut feedback, &who(1), 100, &who(8), 2, "delivery").unwrap();
    assert_eq!(first.id, second.id);
    let stored = feedback.get_rating(&first.id).unwrap();
    assert!(stored.rated_user_id.same(&who(8)));
    assert_eq!(stored.rating, 2);
    // the statistics of the first are as they were last taken
    assert_eq!(feedback.get_user_rating_stats(&who(9)).unwrap().total_ratings, 1);
    assert_eq!(feedback.get_user_rating_stats(&who(8)).unwrap().rating_sum, 2);
}

#[test]
fn feedback_is_read_again_from_its_memory() {
    let mut feedback = Feedback::new(StableRegions::new()).ok().unwrap();
    let given = submit(&mut feedback, &who(1), 100, &who(9), 5, "quality").unwrap();
    feedback
        .report_rating(&who(9), 101, given.id.clone(), String::new(), String::new())
        .unwrap();
    let feedback = Feedback::restore(feedback.into_regions()).ok().unwrap();
    assert_eq!(feedback.get_rating(&given.id).unwrap().rating, 5);
    assert_eq!(feedback.get_user_rating_stats(&who(9)).unwrap().rating_sum, 5);
    assert_eq!(feedback.get_pending_reports().len(), 1);
}

#[test]
fn feedback_records_are_read_back_from_their_stored_form() {
    let given = Rating {
        id: "r".to_string(),
        rater_id: who(1),
        rated_user_id: who(2),
        product_id: Some("p".to_string()),
        transaction_id: Some("".to_string()),
        rating: 255,
        review: "ok".to_string(),
        category: "overall".to_string(),
        created_at: 9,
        is_verified: true,
    };
    let back = Rating::from_bytes(&given.to_bytes()).unwrap();
    assert_eq!(back.id, "r");
    assert_eq!(back.product_id, Some("p".to_string()));
    assert_eq!(back.transaction_id, Some("".to_string()));
    assert_eq!(back.rating, 255);
    assert!(back.is_verified);
    assert_eq!(given.clone().review, "ok");
    assert_eq!(given.key(), b"r".to_vec());

    let report = RatingReport {
        id: "x".to_string(),
        reporter_id: who(1),
        rating_id: "r".to_string(),
        reason: "a".to_string(),
        description: "b".to_string(),
        created_at: 3,
        status: "dismissed".to_string(),
    };
    let back = RatingReport::from_bytes(&report.to_bytes()).unwrap();
    assert_eq!(back.status, "dismissed");
    assert_eq!(back.rating_id, "r");
    assert_eq!(back.created_at, 3);

    let stats = UserRatingStats {
        user_id: who(3),
        total_ratings: 2,
        rating_sum: u128::MAX,
        star_distribution: vec![1, 0, 0, 0, 1, 7],
        category_totals: vec![CategoryTotal { category: "q".to_string(), rating_sum: 6, count: 2 }],
        last_updated: 4,
    };
    let back = UserRatingStats::from_bytes(&stats.to_bytes()).unwrap();
    assert_eq!(back.rating_sum, u128::MAX);
    assert_eq!(back.star_distribution, vec![1, 0, 0, 0, 1, 7]);
    assert_eq!(back.category_totals.len(), 1);
    assert_eq!(back.category_totals[0].category, "q");
    assert_eq!(back.category_totals[0].rating_sum, 6);
    assert_eq!(back.category_totals[0].count, 2);
    assert!(CategoryTotal::from_bytes(&stats.to_bytes()).is_none());
}

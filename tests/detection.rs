use goblin_core::dates::day_intervals;
use goblin_core::dates::{calculate_intervals, predict_next_date};
use goblin_core::detect::{detect_subscriptions, Expense};
use goblin_core::frequency::{detect_frequency, Frequency};
use goblin_core::payee::normalize_payee;

fn expense(id: i64, payee: &str, amount: i64, date: &str) -> Expense {
    Expense { id, payee: payee.to_string(), amount, date: date.to_string() }
}

fn monthly_expenses() -> Vec<Expense> {
    let dates = ["2025-05-31", "2025-05-01", "2025-04-01", "2025-03-02", "2025-01-31", "2025-01-01"];
    dates
        .iter()
        .enumerate()
        .map(|(i, d)| expense(10 + i as i64, "Netflix 4432", -9900, d))
        .collect()
}

#[test]
fn six_charges_thirty_days_apart_are_monthly() {
    let found = detect_subscriptions(7, &monthly_expenses(), &vec![]);
    assert_eq!(found.len(), 1);
    let c = &found[0];
    assert_eq!(c.account_id, 7);
    assert_eq!(c.payee_pattern, "netflix");
    assert_eq!(c.amount, -9900);
    assert_eq!(c.frequency, Frequency::Monthly);
    assert_eq!(c.confidence_ppm, 1_000_000);
    assert_eq!(c.last_charge_date, "2025-05-31");
    assert_eq!(c.next_charge_date.as_deref(), Some("2025-06-30"));
    assert_eq!(c.transaction_ids, vec![15, 14, 13, 12, 11, 10]);
}

#[test]
fn irregular_intervals_give_no_candidate() {
    let dates = ["2025-04-18", "2025-02-17", "2025-02-15", "2025-01-06", "2025-01-01"];
    let es: Vec<Expense> = dates.iter().enumerate().map(|(i, d)| expense(i as i64, "Gym", -5000, d)).collect();
    assert!(detect_subscriptions(1, &es, &vec![]).is_empty());
}

#[test]
fn frequency_of_irregular_intervals() {
    assert_eq!(detect_frequency(&vec![5, 40, 2, 60]), Some((Frequency::Monthly, 189179)));
}

#[test]
fn frequency_ranges() {
    assert_eq!(detect_frequency(&vec![7, 7, 7]), Some((Frequency::Weekly, 1_000_000)));
    assert_eq!(detect_frequency(&vec![14, 14]), Some((Frequency::Biweekly, 1_000_000)));
    assert_eq!(detect_frequency(&vec![365]), Some((Frequency::Yearly, 1_000_000)));
    assert_eq!(detect_frequency(&vec![20, 20]), None);
    assert_eq!(detect_frequency(&vec![]), None);
}

#[test]
fn frequency_confidence_is_reduced_by_spread() {
    // intervals 6 and 8: stddev 1, period 7 -> 1 - 1/7
    assert_eq!(detect_frequency(&vec![6, 8]), Some((Frequency::Weekly, 857142)));
}

#[test]
fn saved_pattern_is_excluded() {
    let saved = vec![("netflix".to_string(), -9900)];
    assert!(detect_subscriptions(7, &monthly_expenses(), &saved).is_empty());
    let other = vec![("netflix".to_string(), -100)];
    assert_eq!(detect_subscriptions(7, &monthly_expenses(), &other).len(), 1);
}

#[test]
fn single_charge_gives_nothing() {
    let es = vec![expense(1, "Spotify", -9900, "2025-01-01")];
    assert!(detect_subscriptions(1, &es, &vec![]).is_empty());
}

#[test]
fn income_is_ignored() {
    let es: Vec<Expense> = monthly_expenses().into_iter().map(|mut e| { e.amount = 9900; e }).collect();
    assert!(detect_subscriptions(1, &es, &vec![]).is_empty());
}

#[test]
fn candidates_sorted_by_confidence() {
    let mut es = Vec::new();
    for (i, d) in ["2025-01-01", "2025-01-08", "2025-01-15", "2025-01-22"].iter().enumerate() {
        es.push(expense(i as i64, "Kaffe Bar", -3000, d));
    }
    for (i, d) in ["2025-01-01", "2025-01-07", "2025-01-15"].iter().enumerate() {
        es.push(expense(100 + i as i64, "Bager", -2000, d));
    }
    let found = detect_subscriptions(1, &es, &vec![]);
    assert_eq!(found.len(), 2);
    assert_eq!(found[0].payee_pattern, "kaffe bar");
    assert_eq!(found[0].confidence_ppm, 1_000_000);
    assert_eq!(found[1].payee_pattern, "bager");
    assert_eq!(found[1].confidence_ppm, 857142);
}

#[test]
fn payee_normalization() {
    assert_eq!(normalize_payee("NETFLIX.COM 1234 Foo Bar Baz"), "netflixcom foo bar");
    assert_eq!(normalize_payee("  Føtex   Ålborg "), "føtex ålborg");
    assert_eq!(normalize_payee("12345"), "");
}

#[test]
fn intervals_skip_bad_dates_and_repeats() {
    let dates: Vec<String> = ["2025-01-01", "2025-01-01", "2025-01-11", "2025-02-31", "2025-03-01", "2025-02-01"]
        .iter()
        .map(|s| s.to_string())
        .collect();
    assert_eq!(calculate_intervals(&dates), vec![10]);
}

#[test]
fn next_date_offsets() {
    assert_eq!(predict_next_date("2025-01-31", Frequency::Monthly).as_deref(), Some("2025-03-02"));
    assert_eq!(predict_next_date("2024-12-31", Frequency::Weekly).as_deref(), Some("2025-01-07"));
    assert_eq!(predict_next_date("2024-01-01", Frequency::Yearly).as_deref(), Some("2024-12-31"));
    assert_eq!(predict_next_date("2025-01-01", Frequency::Biweekly).as_deref(), Some("2025-01-15"));
    assert_eq!(predict_next_date("not a date", Frequency::Weekly), None);
}

#[test]
fn day_number_differences() {
    assert_eq!(day_intervals(&vec![Some(1), Some(31), None, Some(40), Some(40), Some(50)]), vec![30, 10]);
    assert_eq!(day_intervals(&vec![Some(5)]), Vec::<i64>::new());
}

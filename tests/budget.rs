use goblin_core::budget::{covered_categories, spent_in_month, SpendRow};

fn links() -> Vec<(i64, Option<i64>)> {
    vec![(1, None), (2, Some(1)), (3, Some(1)), (4, Some(2)), (5, None)]
}

#[test]
fn covered_one_generation() {
    assert_eq!(covered_categories(&vec![1], &links(), 1), vec![1, 2, 3]);
}

#[test]
fn covered_two_generations() {
    assert_eq!(covered_categories(&vec![1, 5], &links(), 2), vec![1, 5, 2, 3, 4]);
}

#[test]
fn covered_no_children() {
    assert_eq!(covered_categories(&vec![5], &links(), 0), vec![5]);
    assert_eq!(covered_categories(&vec![5], &links(), 3), vec![5]);
}

fn row(c: Option<i64>, d: &str, a: i64) -> SpendRow {
    SpendRow { category_id: c, date: d.to_string(), amount: a }
}

#[test]
fn spending_in_month() {
    let rows = vec![
        row(Some(2), "2025-03-04", -1000),
        row(Some(3), "2025-03-31", -250),
        row(Some(3), "2025-04-01", -999),
        row(Some(9), "2025-03-10", -5),
        row(None, "2025-03-10", -7),
        row(Some(2), "2025-03-12", 400),
    ];
    assert_eq!(spent_in_month(&rows, &vec![1, 2, 3], "2025-03"), Some(1250));
    assert_eq!(spent_in_month(&rows, &vec![], "2025-03"), Some(0));
}

#[test]
fn spending_too_large() {
    let rows = vec![row(Some(1), "2025-01-01", i64::MIN), row(Some(1), "2025-01-02", -1)];
    assert_eq!(spent_in_month(&rows, &vec![1], "2025-01"), None);
}

use goblin_core::columns::{find_column_index, map_columns};
use goblin_core::error::{Field, ImportError};
use goblin_core::fields::{parse_danish_amount, parse_danish_date};
use goblin_core::ingest::parse_reconciled;
use goblin_core::text::trim_text;

#[test]
fn date_with_dashes() {
    assert_eq!(parse_danish_date("12-01-2026").unwrap(), "2026-01-12");
}

#[test]
fn date_with_slashes() {
    assert_eq!(parse_danish_date("31/12/2025").unwrap(), "2025-12-31");
}

#[test]
fn date_with_dots() {
    assert_eq!(parse_danish_date("01.06.2024").unwrap(), "2024-06-01");
}

#[test]
fn date_is_trimmed_and_padded() {
    assert_eq!(parse_danish_date("  1-2-33 ").unwrap(), "0033-02-01");
}

#[test]
fn date_day_not_checked_against_month() {
    assert_eq!(parse_danish_date("31-02-2025").unwrap(), "2025-02-31");
}

#[test]
fn date_empty_is_invalid() {
    assert!(matches!(parse_danish_date("   "), Err(ImportError::InvalidDate(t)) if t.is_empty()));
}

#[test]
fn date_bad_month_is_invalid() {
    assert!(matches!(parse_danish_date("01-13-2025"), Err(ImportError::InvalidDate(t)) if t == "01-13-2025"));
}

#[test]
fn date_bad_day_is_invalid() {
    assert!(parse_danish_date("00-01-2025").is_err());
    assert!(parse_danish_date("32-01-2025").is_err());
}

#[test]
fn date_needs_three_parts() {
    assert!(parse_danish_date("2025-01").is_err());
    assert!(parse_danish_date("1-1-1-1").is_err());
    assert!(parse_danish_date("a-b-c").is_err());
}

#[test]
fn amount_with_decimal_comma() {
    assert_eq!(parse_danish_amount("125,50").unwrap(), 12550);
}

#[test]
fn amount_negative() {
    assert_eq!(parse_danish_amount("-125,50").unwrap(), -12550);
}

#[test]
fn amount_with_thousands() {
    assert_eq!(parse_danish_amount("1.234,56").unwrap(), 123456);
}

#[test]
fn amount_negative_with_thousands() {
    assert_eq!(parse_danish_amount("-1.234,56").unwrap(), -123456);
}

#[test]
fn amount_whole() {
    assert_eq!(parse_danish_amount("1234").unwrap(), 123400);
}

#[test]
fn amount_rounds_half_away_from_zero() {
    assert_eq!(parse_danish_amount("0,125").unwrap(), 13);
    assert_eq!(parse_danish_amount("-0,125").unwrap(), -13);
    assert_eq!(parse_danish_amount("0,124").unwrap(), 12);
    assert_eq!(parse_danish_amount(",5").unwrap(), 50);
    assert_eq!(parse_danish_amount("+7,").unwrap(), 700);
}

#[test]
fn amount_empty_is_invalid() {
    assert!(matches!(parse_danish_amount(""), Err(ImportError::InvalidAmount(t)) if t.is_empty()));
}

#[test]
fn amount_text_is_invalid() {
    assert!(matches!(parse_danish_amount(" abc "), Err(ImportError::InvalidAmount(t)) if t == "abc"));
    assert!(parse_danish_amount("1,2,3").is_err());
    assert!(parse_danish_amount("-").is_err());
}

#[test]
fn amount_too_large_is_invalid() {
    assert!(parse_danish_amount("99999999999999999999").is_err());
}

#[test]
fn reconciled_words() {
    assert!(parse_reconciled(Some(" Ja ")));
    assert!(parse_reconciled(Some("YES")));
    assert!(parse_reconciled(Some("true")));
    assert!(parse_reconciled(Some("1")));
    assert!(!parse_reconciled(Some("nej")));
    assert!(!parse_reconciled(None));
}

#[test]
fn trim_removes_unicode_space() {
    assert_eq!(trim_text("\u{a0} x y \t"), "x y");
}

#[test]
fn missing_field_error_names_field() {
    let e = ImportError::MissingColumn(Field::Amount, vec!["Dato".to_string()]);
    assert!(matches!(e, ImportError::MissingColumn(Field::Amount, _)));
}

#[test]
fn columns_by_synonym() {
    let headers: Vec<String> = ["Bogført Dato", "Tekst", "Beløb i DKK", "Saldo", "Status", "Afstemt", "Underkategori", "Kategori"]
        .iter()
        .map(|s| s.to_string())
        .collect();
    let m = map_columns(&headers).unwrap();
    assert_eq!((m.date, m.payee, m.amount), (0, 1, 2));
    assert_eq!(m.balance, Some(3));
    assert_eq!(m.status, Some(4));
    assert_eq!(m.reconciled, Some(5));
    assert_eq!(m.subcategory, Some(6));
    // "underkategori" contains "kategori", and comes first
    assert_eq!(m.category, Some(6));
}

#[test]
fn columns_missing_date() {
    let headers = vec!["Tekst".to_string(), "Beløb".to_string()];
    assert!(matches!(map_columns(&headers), Err(ImportError::MissingColumn(Field::Date, h)) if h == headers));
}

#[test]
fn first_matching_column_wins() {
    let hs = vec![vec!['x'], vec!['a', 'm', 'o', 'u', 'n', 't', 's'], vec!['a', 'm', 'o', 'u', 'n', 't']];
    let names = vec![vec!['a', 'm', 'o', 'u', 'n', 't']];
    assert_eq!(find_column_index(&hs, &names), Some(1));
    assert_eq!(find_column_index(&hs, &vec![vec!['z']]), None);
}

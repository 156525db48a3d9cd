use goblin_core::detect::{detect_subscriptions, Expense};
use goblin_core::error::{Field, ImportError};
use goblin_core::frequency::Frequency;
use goblin_core::hash::generate_import_hash;
use goblin_core::ingest::{decode_input, prepare_import};
use goblin_core::models::{ImportResult, Transaction};
use goblin_core::session::{import_csv, import_csv_bytes, ImportSession, StoreReply, StoreRequest};
use sha2::{Digest, Sha256};

#[derive(Default)]
struct MemoryStore {
    transactions: Vec<Transaction>,
    categories: Vec<(i64, String, Option<i64>)>,
    log: Vec<(String, usize)>,
}

impl MemoryStore {
    fn run(&mut self, mut session: ImportSession) -> Result<ImportResult, ImportError> {
        let mut reply = StoreReply::Start;
        loop {
            match session.step(reply) {
                StoreRequest::CheckHash(h) => {
                    reply = StoreReply::HashChecked(
                        self.transactions.iter().any(|t| t.import_hash.as_deref() == Some(h.as_str())),
                    )
                }
                StoreRequest::FindOrCreateCategory(name, parent) => {
                    let found = self.categories.iter().find(|c| c.1 == name && c.2 == parent).map(|c| c.0);
                    let id = match found {
                        Some(id) => id,
                        None => {
                            let id = self.categories.len() as i64 + 1;
                            self.categories.push((id, name, parent));
                            id
                        }
                    };
                    reply = StoreReply::CategoryResolved(id);
                }
                StoreRequest::Insert(mut tx) => {
                    let id = self.transactions.len() as i64 + 1;
                    tx.id = Some(id);
                    self.transactions.push(tx);
                    reply = StoreReply::Inserted(id);
                }
                StoreRequest::LogImport(name, n) => {
                    self.log.push((name, n));
                    reply = StoreReply::Logged;
                }
                StoreRequest::Finished(result) => return Ok(result),
                StoreRequest::Aborted(e) => return Err(e),
            }
        }
    }

    fn expenses(&self, account_id: i64) -> Vec<Expense> {
        let mut es: Vec<Expense> = self
            .transactions
            .iter()
            .filter(|t| t.account_id == account_id && t.amount < 0)
            .map(|t| Expense { id: t.id.unwrap(), payee: t.payee.clone(), amount: t.amount, date: t.date.clone() })
            .collect();
        es.sort_by(|a, b| b.date.cmp(&a.date));
        es
    }
}

const TWO_ROWS: &str = "Dato;Kategori;Underkategori;Tekst;Beløb\n01-01-2025;Mad;Supermarked;Netto;-200,00\n01-02-2025;Mad;Supermarked;Netto;-200,00\n";

#[test]
fn end_to_end_categories_and_detection() {
    let mut store = MemoryStore::default();
    let result = store.run(import_csv(3, TWO_ROWS, "jan.csv").unwrap()).unwrap();
    assert_eq!(result, ImportResult { total_rows: 2, imported: 2, skipped_duplicates: 0 });
    assert_eq!(store.categories.len(), 2);
    assert_eq!(store.categories[0], (1, "Mad".to_string(), None));
    assert_eq!(store.categories[1], (2, "Supermarked".to_string(), Some(1)));
    assert!(store.transactions.iter().all(|t| t.category_id == Some(2)));
    assert_eq!(store.transactions[0].date, "2025-01-01");
    assert_eq!(store.transactions[0].payee, "Netto");
    assert_eq!(store.transactions[0].amount, -20000);
    assert_eq!(store.log, vec![("jan.csv".to_string(), 2)]);

    let third = "Dato;Kategori;Underkategori;Tekst;Beløb\n04-03-2025;Mad;Supermarked;Netto;-200,00\n";
    let result = store.run(import_csv(3, third, "mar.csv").unwrap()).unwrap();
    assert_eq!(result.imported, 1);
    assert_eq!(store.categories.len(), 2);

    let found = detect_subscriptions(3, &store.expenses(3), &vec![]);
    assert_eq!(found.len(), 1);
    assert_eq!(found[0].frequency, Frequency::Monthly);
    assert_eq!(found[0].confidence_ppm, 1_000_000);
    assert_eq!(found[0].payee_pattern, "netto");
    assert_eq!(found[0].last_charge_date, "2025-03-04");
    assert_eq!(found[0].next_charge_date.as_deref(), Some("2025-04-03"));
    assert_eq!(found[0].transaction_ids, vec![1, 2, 3]);
}

#[test]
fn reimport_skips_every_row() {
    let mut store = MemoryStore::default();
    store.run(import_csv(3, TWO_ROWS, "a.csv").unwrap()).unwrap();
    let again = store.run(import_csv(3, TWO_ROWS, "a.csv").unwrap()).unwrap();
    assert_eq!(again, ImportResult { total_rows: 2, imported: 0, skipped_duplicates: 2 });
    assert_eq!(store.transactions.len(), 2);
    assert_eq!(store.log.len(), 2);
}

#[test]
fn duplicate_rows_in_one_file_are_skipped() {
    let text = "Dato;Tekst;Beløb\n01-01-2025;Netto;-1,00\n01-01-2025;Netto;-1,00\n";
    let mut store = MemoryStore::default();
    let r = store.run(import_csv(1, text, "d.csv").unwrap()).unwrap();
    assert_eq!(r, ImportResult { total_rows: 2, imported: 1, skipped_duplicates: 1 });
    assert_eq!(store.transactions[0].category_id, None);
}

#[test]
fn comma_delimited_file() {
    let text = "Date,Description,Amount,Balance,Status,Reconciled\n05-01-2025,Shop,\"-12,50\",100,Booked,yes\n";
    let rows = prepare_import(text).unwrap();
    assert_eq!(rows.len(), 1);
    assert_eq!(rows[0].date, "2025-01-05");
    assert_eq!(rows[0].payee, "Shop");
    assert_eq!(rows[0].amount, -1250);
    assert_eq!(rows[0].balance, Some(10000));
    assert_eq!(rows[0].status.as_deref(), Some("Booked"));
    assert!(rows[0].is_reconciled);
    assert_eq!(rows[0].category, None);
}

#[test]
fn category_without_subcategory() {
    let text = "Dato;Kategori;Tekst;Beløb\n01-01-2025;Bolig;Husleje;-5.000,00\n";
    let mut store = MemoryStore::default();
    store.run(import_csv(1, text, "b.csv").unwrap()).unwrap();
    assert_eq!(store.categories, vec![(1, "Bolig".to_string(), None)]);
    assert_eq!(store.transactions[0].category_id, Some(1));
    assert_eq!(store.transactions[0].amount, -500000);
}

#[test]
fn missing_amount_column() {
    let text = "Dato;Tekst\n01-01-2025;Netto\n";
    match prepare_import(text) {
        Err(ImportError::MissingColumn(f, headers)) => {
            assert_eq!(f, Field::Amount);
            assert_eq!(headers, vec!["Dato;Tekst".to_string()]);
        }
        other => panic!("unexpected {:?}", other),
    }
}

#[test]
fn bad_date_row_fails_the_run() {
    let text = "Dato;Tekst;Beløb\n01-01-2025;Netto;-1,00\n2025/13/45;Netto;-1,00\n";
    assert!(matches!(prepare_import(text), Err(ImportError::InvalidDate(_))));
}

#[test]
fn bad_amount_row_fails_the_run() {
    let text = "Date,Payee,Amount\n01-01-2025,Netto,abc\n";
    assert!(matches!(prepare_import(text), Err(ImportError::InvalidAmount(t)) if t == "abc"));
}

#[test]
fn store_failure_aborts() {
    let mut session = import_csv(1, TWO_ROWS, "f.csv").unwrap();
    assert!(matches!(session.step(StoreReply::Start), StoreRequest::CheckHash(_)));
    match session.step(StoreReply::Failed("disk full".to_string())) {
        StoreRequest::Aborted(ImportError::Persistence(m)) => assert_eq!(m, "disk full"),
        other => panic!("unexpected {:?}", other),
    }
}

#[test]
fn windows_1252_input() {
    let bytes = b"Dato;Tekst;Bel\xf8b\n01-01-2025;F\xf8tex;-10,00\n";
    assert_eq!(decode_input(bytes), "Dato;Tekst;Beløb\n01-01-2025;Føtex;-10,00\n");
    let mut store = MemoryStore::default();
    let r = store.run(import_csv_bytes(1, bytes, "w.csv").unwrap()).unwrap();
    assert_eq!(r.imported, 1);
    assert_eq!(store.transactions[0].payee, "Føtex");
}

#[test]
fn utf8_input() {
    assert_eq!(decode_input("Beløb".as_bytes()), "Beløb");
}

#[test]
fn hash_is_sha256_of_fields() {
    let h = generate_import_hash("2025-01-01", "Netto", -20000, None);
    assert_eq!(h, "6714d2700a9b2e47b9012653c2de02d1c620de3589161e64c001828eaa1bb178");
    let with_balance = generate_import_hash("2025-01-01", "Netto", -20000, Some(150000));
    assert_eq!(with_balance, "f7cf6eb351c152307ea7aadf53e557f2d6aebfb1358ddb620227a6980651ce23");
    let mut hasher = Sha256::new();
    hasher.update("2025-01-01Netto".as_bytes());
    hasher.update((-20000i64).to_le_bytes());
    assert_eq!(h, format!("{:x}", hasher.finalize()));
}

#[test]
fn hash_is_deterministic_and_field_sensitive() {
    let a = generate_import_hash("2025-01-01", "Netto", -100, Some(5));
    assert_eq!(a, generate_import_hash("2025-01-01", "Netto", -100, Some(5)));
    assert_ne!(a, generate_import_hash("2025-01-02", "Netto", -100, Some(5)));
    assert_ne!(a, generate_import_hash("2025-01-01", "Nettp", -100, Some(5)));
    assert_ne!(a, generate_import_hash("2025-01-01", "Netto", -101, Some(5)));
    assert_ne!(a, generate_import_hash("2025-01-01", "Netto", -100, Some(6)));
    assert_ne!(a, generate_import_hash("2025-01-01", "Netto", -100, None));
}

#[test]
fn reply_out_of_order_aborts() {
    let mut session = import_csv(1, TWO_ROWS, "o.csv").unwrap();
    assert!(matches!(session.step(StoreReply::Logged), StoreRequest::Aborted(_)));
    assert!(matches!(session.step(StoreReply::Start), StoreRequest::Aborted(_)));
}

#[test]
fn empty_file_has_no_columns() {
    assert!(matches!(prepare_import(""), Err(ImportError::MissingColumn(Field::Date, h)) if h.is_empty()));
}

//! Records of the ledger that ingestion produces and reports.
use vstd::prelude::*;
use vstd::string::StringExecFns;

verus! {

/// A bank account.
#[derive(Clone, Debug)]
pub struct Account {
    pub id: Option<i64>,
    pub name: String,
    pub account_number: Option<String>,
    pub currency: String,
}

impl Default for Account {
    /// An unnamed, unsaved account in Danish kroner.
    fn default() -> (r: Account)
        ensures
            r.id is None,
            r.name@ == Seq::<char>::empty(),
            r.account_number is None,
            r.currency@ == seq!['D', 'K', 'K'],
    {
        let currency = String::from_str("DKK");
        proof {
            reveal_strlit("DKK");
        }
        Account { id: None, name: String::new(), account_number: None, currency }
    }
}

/// A spending category; `parent_id` links a subcategory to its category.
#[derive(Clone, Debug)]
pub struct Category {
    pub id: Option<i64>,
    pub name: String,
    pub parent_id: Option<i64>,
}

/// A ledger transaction. Amounts are in minor units (øre); `date` is `YYYY-MM-DD`.
#[derive(Clone, Debug)]
pub struct Transaction {
    pub id: Option<i64>,
    pub account_id: i64,
    pub category_id: Option<i64>,
    pub date: String,
    pub payee: String,
    pub amount: i64,
    pub balance_snapshot: Option<i64>,
    pub status: Option<String>,
    pub is_reconciled: bool,
    pub import_hash: Option<String>,
}

/// One entry of the import log.
#[derive(Clone, Debug)]
pub struct ImportLog {
    pub id: Option<i64>,
    pub filename: String,
    pub import_date: Option<String>,
    pub records_added: i64,
}

/// A transaction with the names of its category and that category's parent.
#[derive(Clone, Debug)]
pub struct TransactionWithCategory {
    pub transaction: Transaction,
    pub category_name: Option<String>,
    pub parent_category_name: Option<String>,
}

/// Counts of one ingestion run.
#[derive(Clone, Copy, Debug, PartialEq, Eq, Structural)]
pub struct ImportResult {
    pub total_rows: usize,
    pub imported: usize,
    pub skipped_duplicates: usize,
}

} // verus!

//! An ingestion run as a state machine over the transaction store and category resolver.
//!
//! The caller performs each `StoreRequest` that `step` returns and hands back the store's
//! answer as a `StoreReply`, starting with `StoreReply::Start`, until `Finished` or
//! `Aborted` comes back.
use vstd::prelude::*;
use crate::error::ImportError;
use crate::ingest::{
    attempt_ok, decode_input, input_text, plans_attempt, prepare_error,
    prepare_import, prepared_from, PlannedRow,
};
use crate::models::{ImportResult, Transaction};

verus! {

/// What the session asks of the store next.
#[derive(Debug)]
pub enum StoreRequest {
    /// Does a transaction with this import hash exist?
    CheckHash(String),
    /// Find or create the category with this name under this parent (`None`: top level).
    FindOrCreateCategory(String, Option<i64>),
    /// Store this transaction.
    Insert(Transaction),
    /// Append an import-log entry: file name and number of transactions added.
    LogImport(String, usize),
    /// The run is over.
    Finished(ImportResult),
    /// The run stopped; rows stored before stay stored.
    Aborted(ImportError),
}

/// The store's answer to the last request.
#[derive(Debug)]
pub enum StoreReply {
    /// No request yet: begin the run.
    Start,
    HashChecked(bool),
    CategoryResolved(i64),
    Inserted(i64),
    Logged,
    /// The store failed; its message.
    Failed(String),
}

/// Which answer the session waits for.
#[derive(Clone, Copy, Debug, PartialEq, Eq, Structural)]
pub enum Phase {
    Ready,
    AwaitHash,
    AwaitParent,
    AwaitChild,
    AwaitInsert,
    AwaitLog,
    Done,
}

pub struct ImportSession {
    pub account_id: i64,
    pub filename: String,
    pub rows: Vec<PlannedRow>,
    /// Index of the row in progress.
    pub pos: usize,
    pub imported: usize,
    pub skipped: usize,
    pub phase: Phase,
    /// Category id resolved for the row in progress.
    pub category_id: Option<i64>,
    /// For each finished row, whether the store already held its hash.
    pub replies: Ghost<Seq<bool>>,
}

pub open spec fn count_present(rs: Seq<bool>) -> nat
    decreases rs.len(),
{
    if rs.len() == 0 {
        0
    } else {
        count_present(rs.drop_last()) + if rs.last() {
            1nat
        } else {
            0nat
        }
    }
}

pub open spec fn count_absent(rs: Seq<bool>) -> nat
    decreases rs.len(),
{
    if rs.len() == 0 {
        0
    } else {
        count_absent(rs.drop_last()) + if rs.last() {
            0nat
        } else {
            1nat
        }
    }
}

proof fn lemma_counts_push(rs: Seq<bool>, b: bool)
    ensures
        count_present(rs.push(b)) == count_present(rs) + if b {
            1nat
        } else {
            0nat
        },
        count_absent(rs.push(b)) == count_absent(rs) + if b {
            0nat
        } else {
            1nat
        },
{
    assert(rs.push(b).drop_last() =~= rs);
}

/// The transaction that a planned row becomes.
pub open spec fn transaction_of(account_id: i64, p: PlannedRow, category_id: Option<i64>) -> Transaction {
    Transaction {
        id: None,
        account_id,
        category_id,
        date: p.date,
        payee: p.payee,
        amount: p.amount,
        balance_snapshot: p.balance,
        status: p.status,
        is_reconciled: p.is_reconciled,
        import_hash: Some(p.import_hash),
    }
}

fn clone_opt(o: &Option<String>) -> (r: Option<String>)
    ensures
        r == *o,
{
    match o {
        Some(s) => Some(s.clone()),
        None => None,
    }
}

impl ImportSession {
    pub open spec fn wf(&self) -> bool {
        &&& self.pos <= self.rows@.len()
        &&& self.replies@.len() == self.pos
        &&& self.imported == count_absent(self.replies@)
        &&& self.skipped == count_present(self.replies@)
        &&& self.imported + self.skipped == self.pos
        &&& (self.phase == Phase::AwaitHash || self.phase == Phase::AwaitParent || self.phase
            == Phase::AwaitChild || self.phase == Phase::AwaitInsert) ==> self.pos
            < self.rows@.len()
        &&& self.phase == Phase::AwaitParent ==> self.rows@[self.pos as int].category is Some
        &&& self.phase == Phase::AwaitChild ==> self.rows@[self.pos as int].subcategory is Some
        &&& self.phase == Phase::AwaitLog ==> self.pos == self.rows@.len()
    }

    /// The request that starts the row at `pos`, or the log entry after the last row.
    pub open spec fn row_request(&self) -> StoreRequest {
        if self.pos < self.rows@.len() {
            StoreRequest::CheckHash(self.rows@[self.pos as int].import_hash)
        } else {
            StoreRequest::LogImport(self.filename, self.imported)
        }
    }

    pub open spec fn row_phase(&self) -> Phase {
        if self.pos < self.rows@.len() {
            Phase::AwaitHash
        } else {
            Phase::AwaitLog
        }
    }

    /// The insert request for the row in progress.
    pub open spec fn insert_request(&self, category_id: Option<i64>) -> StoreRequest {
        StoreRequest::Insert(transaction_of(self.account_id, self.rows@[self.pos as int], category_id))
    }

    /// A session over planned rows, before its first step.
    pub fn new(account_id: i64, filename: &str, rows: Vec<PlannedRow>) -> (r: ImportSession)
        ensures
            r.wf(),
            r.account_id == account_id,
            r.filename@ == filename@,
            r.rows == rows,
            r.pos == 0,
            r.phase == Phase::Ready,
            r.replies@ == Seq::<bool>::empty(),
    {
        ImportSession {
            account_id,
            filename: filename.to_string(),
            rows,
            pos: 0,
            imported: 0,
            skipped: 0,
            phase: Phase::Ready,
            category_id: None,
            replies: Ghost(Seq::empty()),
        }
    }

    fn begin_row(&mut self) -> (r: StoreRequest)
        requires
            old(self).pos <= old(self).rows@.len(),
            old(self).phase != Phase::Done,
        ensures
            final(self).phase == old(self).row_phase(),
            r == old(self).row_request(),
            final(self).rows == old(self).rows,
            final(self).filename == old(self).filename,
            final(self).account_id == old(self).account_id,
            final(self).pos == old(self).pos,
            final(self).imported == old(self).imported,
            final(self).skipped == old(self).skipped,
            final(self).replies == old(self).replies,
    {
        if self.pos < self.rows.len() {
            self.phase = Phase::AwaitHash;
            StoreRequest::CheckHash(self.rows[self.pos].import_hash.clone())
        } else {
            self.phase = Phase::AwaitLog;
            StoreRequest::LogImport(self.filename.clone(), self.imported)
        }
    }

    fn insert_row(&mut self, category_id: Option<i64>) -> (r: StoreRequest)
        requires
            old(self).pos < old(self).rows@.len(),
        ensures
            final(self).phase == Phase::AwaitInsert,
            r == old(self).insert_request(category_id),
            final(self).rows == old(self).rows,
            final(self).filename == old(self).filename,
            final(self).account_id == old(self).account_id,
            final(self).pos == old(self).pos,
            final(self).imported == old(self).imported,
            final(self).skipped == old(self).skipped,
            final(self).replies == old(self).replies,
    {
        let p = &self.rows[self.pos];
        let tx = Transaction {
            id: None,
            account_id: self.account_id,
            category_id,
            date: p.date.clone(),
            payee: p.payee.clone(),
            amount: p.amount,
            balance_snapshot: p.balance,
            status: clone_opt(&p.status),
            is_reconciled: p.is_reconciled,
            import_hash: Some(p.import_hash.clone()),
        };
        self.phase = Phase::AwaitInsert;
        StoreRequest::Insert(tx)
    }

    fn abort(&mut self, msg: String) -> (r: StoreRequest)
        requires
            old(self).wf(),
        ensures
            final(self).wf(),
            final(self).phase == Phase::Done,
            r matches StoreRequest::Aborted(ImportError::Persistence(m)) && m == msg,
            final(self).rows == old(self).rows,
            final(self).account_id == old(self).account_id,
            final(self).filename == old(self).filename,
            final(self).pos == old(self).pos,
            final(self).imported == old(self).imported,
            final(self).skipped == old(self).skipped,
    {
        self.phase = Phase::Done;
        StoreRequest::Aborted(ImportError::Persistence(msg))
    }

    /// Takes the store's answer to the last request and returns the next request.
    pub fn step(&mut self, reply: StoreReply) -> (r: StoreRequest)
        requires
            old(self).wf(),
        ensures
            final(self).wf(),
            final(self).rows == old(self).rows,
            final(self).account_id == old(self).account_id,
            final(self).filename == old(self).filename,
            old(self).phase == Phase::Done ==> r is Aborted && final(self).phase == Phase::Done,
            old(self).phase != Phase::Done ==> match reply {
                StoreReply::Failed(msg) => final(self).phase == Phase::Done && (r matches StoreRequest::Aborted(
                    ImportError::Persistence(m),
                ) && m == msg),
                StoreReply::Start => if old(self).phase == Phase::Ready {
                    final(self).replies == old(self).replies && final(self).pos == old(self).pos
                        && r == old(self).row_request() && final(self).phase == old(self).row_phase()
                } else {
                    r is Aborted && final(self).phase == Phase::Done
                },
                StoreReply::HashChecked(found) => if old(self).phase == Phase::AwaitHash {
                    let row = old(self).rows@[old(self).pos as int];
                    if found {
                        &&& final(self).pos == old(self).pos + 1
                        &&& final(self).replies@ == old(self).replies@.push(true)
                        &&& r == final(self).row_request()
                        &&& final(self).phase == final(self).row_phase()
                    } else {
                        &&& final(self).pos == old(self).pos
                        &&& final(self).replies == old(self).replies
                        &&& match row.category {
                            Some(c) => r == StoreRequest::FindOrCreateCategory(c, None)
                                && final(self).phase == Phase::AwaitParent,
                            None => r == old(self).insert_request(None) && final(self).phase
                                == Phase::AwaitInsert,
                        }
                    }
                } else {
                    r is Aborted && final(self).phase == Phase::Done
                },
                StoreReply::CategoryResolved(id) => if old(self).phase == Phase::AwaitParent {
                    let row = old(self).rows@[old(self).pos as int];
                    &&& final(self).pos == old(self).pos
                    &&& final(self).replies == old(self).replies
                    &&& match row.subcategory {
                        Some(c) => r == StoreRequest::FindOrCreateCategory(c, Some(id))
                            && final(self).phase == Phase::AwaitChild,
                        None => r == old(self).insert_request(Some(id)) && final(self).phase
                            == Phase::AwaitInsert,
                    }
                } else if old(self).phase == Phase::AwaitChild {
                    &&& final(self).pos == old(self).pos
                    &&& final(self).replies == old(self).replies
                    &&& r == old(self).insert_request(Some(id))
                    &&& final(self).phase == Phase::AwaitInsert
                } else {
                    r is Aborted && final(self).phase == Phase::Done
                },
                StoreReply::Inserted(_) => if old(self).phase == Phase::AwaitInsert {
                    &&& final(self).pos == old(self).pos + 1
                    &&& final(self).replies@ == old(self).replies@.push(false)
                    &&& r == final(self).row_request()
                    &&& final(self).phase == final(self).row_phase()
                } else {
                    r is Aborted && final(self).phase == Phase::Done
                },
                StoreReply::Logged => if old(self).phase == Phase::AwaitLog {
                    &&& final(self).phase == Phase::Done
                    &&& r == StoreRequest::Finished(
                        ImportResult {
                            total_rows: old(self).rows@.len() as usize,
                            imported: old(self).imported,
                            skipped_duplicates: old(self).skipped,
                        },
                    )
                } else {
                    r is Aborted && final(self).phase == Phase::Done
                },
            },
    {
        if self.phase == Phase::Done {
            return StoreRequest::Aborted(ImportError::Persistence(String::new()));
        }
        match reply {
            StoreReply::Failed(msg) => self.abort(msg),
            StoreReply::Start => {
                if self.phase == Phase::Ready {
                    self.begin_row()
                } else {
                    self.abort(String::new())
                }
            },
            StoreReply::HashChecked(found) => {
                if self.phase != Phase::AwaitHash {
                    return self.abort(String::new());
                }
                if found {
                    let n = self.rows.len();
                    assert(self.pos < n);
                    proof {
                        lemma_counts_push(self.replies@, true);
                    }
                    self.skipped = self.skipped + 1;
                    self.pos = self.pos + 1;
                    self.replies = Ghost(self.replies@.push(true));
                    self.begin_row()
                } else {
                    let cat = clone_opt(&self.rows[self.pos].category);
                    match cat {
                        Some(c) => {
                            self.phase = Phase::AwaitParent;
                            StoreRequest::FindOrCreateCategory(c, None)
                        },
                        None => self.insert_row(None),
                    }
                }
            },
            StoreReply::CategoryResolved(id) => {
                if self.phase == Phase::AwaitParent {
                    let sub = clone_opt(&self.rows[self.pos].subcategory);
                    match sub {
                        Some(c) => {
                            self.phase = Phase::AwaitChild;
                            StoreRequest::FindOrCreateCategory(c, Some(id))
                        },
                        None => self.insert_row(Some(id)),
                    }
                } else if self.phase == Phase::AwaitChild {
                    self.insert_row(Some(id))
                } else {
                    self.abort(String::new())
                }
            },
            StoreReply::Inserted(_) => {
                if self.phase != Phase::AwaitInsert {
                    return self.abort(String::new());
                }
                let n = self.rows.len();
                assert(self.pos < n);
                proof {
                    lemma_counts_push(self.replies@, false);
                }
                self.imported = self.imported + 1;
                self.pos = self.pos + 1;
                self.replies = Ghost(self.replies@.push(false));
                self.begin_row()
            },
            StoreReply::Logged => {
                if self.phase != Phase::AwaitLog {
                    return self.abort(String::new());
                }
                self.phase = Phase::Done;
                StoreRequest::Finished(
                    ImportResult {
                        total_rows: self.rows.len(),
                        imported: self.imported,
                        skipped_duplicates: self.skipped,
                    },
                )
            },
        }
    }
}

/// Starts an import of a file's text into an account; the rows are all parsed before the
/// session asks anything of the store.
pub fn import_csv(account_id: i64, text: &str, filename: &str) -> (r: Result<ImportSession, ImportError>)
    ensures
        match r {
            Ok(s) => s.wf() && s.phase == Phase::Ready && s.pos == 0 && s.account_id == account_id
                && s.filename@ == filename@ && prepared_from(s.rows@, text@),
            Err(e) => prepare_error(text@, e),
        },
{
    match prepare_import(text) {
        Ok(rows) => Ok(ImportSession::new(account_id, filename, rows)),
        Err(e) => Err(e),
    }
}

/// Starts an import of a file's raw bytes (UTF-8, or else Windows-1252).
pub fn import_csv_bytes(account_id: i64, bytes: &[u8], filename: &str) -> (r: Result<
    ImportSession,
    ImportError,
>)
    ensures
        match r {
            Ok(s) => s.wf() && s.phase == Phase::Ready && s.pos == 0 && s.account_id == account_id
                && s.filename@ == filename@ && prepared_from(s.rows@, input_text(bytes@)),
            Err(e) => prepare_error(input_text(bytes@), e),
        },
{
    let text = decode_input(bytes);
    import_csv(account_id, text.as_str(), filename)
}

/// The import hashes of the rows, in order.
pub open spec fn row_hashes(rows: Seq<PlannedRow>) -> Seq<Seq<char>> {
    rows.map_values(|p: PlannedRow| p.import_hash@)
}

/// What a store that holds `stored` answers to the hash checks of a run over rows with
/// these hashes, when it stores each row that it did not hold.
pub open spec fn honest_replies(hashes: Seq<Seq<char>>, stored: Set<Seq<char>>) -> Seq<bool>
    decreases hashes.len(),
{
    if hashes.len() == 0 {
        Seq::empty()
    } else {
        let pre = hashes.drop_last();
        honest_replies(pre, stored).push(stored.contains(hashes.last()) || pre.contains(hashes.last()))
    }
}

/// The hashes such a store holds after the run.
pub open spec fn stored_after(hashes: Seq<Seq<char>>, stored: Set<Seq<char>>) -> Set<Seq<char>> {
    stored.union(hashes.to_set())
}

proof fn lemma_all_present(hashes: Seq<Seq<char>>, stored: Set<Seq<char>>)
    requires
        forall|i: int| 0 <= i < hashes.len() ==> stored.contains(#[trigger] hashes[i]),
    ensures
        count_absent(honest_replies(hashes, stored)) == 0,
        count_present(honest_replies(hashes, stored)) == hashes.len(),
        honest_replies(hashes, stored).len() == hashes.len(),
    decreases hashes.len(),
{
    if hashes.len() > 0 {
        let pre = hashes.drop_last();
        assert forall|i: int| 0 <= i < pre.len() implies stored.contains(#[trigger] pre[i]) by {
            assert(pre[i] == hashes[i]);
        }
        lemma_all_present(pre, stored);
        assert(stored.contains(hashes[hashes.len() - 1]));
        lemma_counts_push(honest_replies(pre, stored), true);
    }
}

/// Importing the same file twice: once a run has stored every row it did not already hold,
/// a second run over the same rows finds every hash, so it imports nothing and counts every
/// row as a skipped duplicate.
pub proof fn lemma_reimport_imports_nothing(hashes: Seq<Seq<char>>, stored: Set<Seq<char>>)
    ensures
        count_absent(honest_replies(hashes, stored_after(hashes, stored))) == 0,
        count_present(honest_replies(hashes, stored_after(hashes, stored))) == hashes.len(),
{
    let after = stored_after(hashes, stored);
    assert forall|i: int| 0 <= i < hashes.len() implies after.contains(#[trigger] hashes[i]) by {
        assert(hashes.contains(hashes[i]));
    }
    lemma_all_present(hashes, after);
}

proof fn lemma_same_attempt_same_hashes(p1: Seq<PlannedRow>, p2: Seq<PlannedRow>, text: Seq<char>, d: u8)
    requires
        plans_attempt(p1, text, d),
        plans_attempt(p2, text, d),
    ensures
        row_hashes(p1) == row_hashes(p2),
{
    assert forall|i: int| 0 <= i < p1.len() implies #[trigger] p1[i].import_hash@
        == p2[i].import_hash@ by {
        assert(p1[i].date@ == p2[i].date@);
        assert(p1[i].amount as int == p2[i].amount as int);
    }
    assert(row_hashes(p1) =~= row_hashes(p2));
}

/// The rows prepared from one text always carry the same import hashes.
pub proof fn lemma_same_text_same_hashes(p1: Seq<PlannedRow>, p2: Seq<PlannedRow>, text: Seq<char>)
    requires
        prepared_from(p1, text),
        prepared_from(p2, text),
    ensures
        row_hashes(p1) == row_hashes(p2),
{
    if attempt_ok(text, 59u8) {
        lemma_same_attempt_same_hashes(p1, p2, text, 59u8);
    } else {
        lemma_same_attempt_same_hashes(p1, p2, text, 44u8);
    }
}

/// A session over a file's rows, answered by a store that already holds every row of it
/// (as after a first import of the same file), ends having imported nothing and skipped
/// every row.
pub proof fn lemma_reimport_session(s: ImportSession, stored: Set<Seq<char>>)
    requires
        s.wf(),
        s.phase == Phase::AwaitLog,
        s.replies@ == honest_replies(
            row_hashes(s.rows@),
            stored_after(row_hashes(s.rows@), stored),
        ),
    ensures
        s.imported == 0,
        s.skipped == s.rows@.len(),
{
    lemma_reimport_imports_nothing(row_hashes(s.rows@), stored);
}

} // verus!

//! From raw file bytes to planned rows: decoding, delimited-text reading, field parsing.
use vstd::prelude::*;
use vstd::utf8::{decode_utf8, valid_utf8};
use crate::columns::{column_map, map_columns, missing_field, ColumnMap};
use crate::dates::texts_view;
use crate::error::ImportError;
use crate::fields::{
    amount_of, date_text, is_invalid_amount, is_invalid_date, parse_danish_amount,
    parse_danish_date,
};
use crate::hash::{generate_import_hash, import_hash_of};
use crate::text::{chars_equal, chars_of, lower_of, lowercase, trim_seq, trim_text};

verus! {

/// Relies on `std::str::from_utf8`: text exactly for valid UTF-8, and then its decoding.
#[verifier::external_body]
fn utf8_text(bytes: &[u8]) -> (r: Option<String>)
    ensures
        match r {
            Some(s) => valid_utf8(bytes@) && s@ == decode_utf8(bytes@),
            None => !valid_utf8(bytes@),
        },
{
    match std::str::from_utf8(bytes) {
        Ok(s) => Some(s.to_string()),
        Err(_) => None,
    }
}

/// The text that encoding_rs's Windows-1252 decoder (with BOM sniffing) makes of the bytes.
pub uninterp spec fn windows_1252_text_of(bytes: Seq<u8>) -> Seq<char>;

/// Relies on `encoding_rs::WINDOWS_1252.decode`: the text depends on the bytes alone.
#[verifier::external_body]
fn windows_1252_text(bytes: &[u8]) -> (r: String)
    ensures
        r@ == windows_1252_text_of(bytes@),
{
    let (text, _encoding, _had_errors) = encoding_rs::WINDOWS_1252.decode(bytes);
    text.into_owned()
}

/// The text of an input file: UTF-8 when the bytes are valid UTF-8, else Windows-1252.
pub open spec fn input_text(bytes: Seq<u8>) -> Seq<char> {
    if valid_utf8(bytes) {
        decode_utf8(bytes)
    } else {
        windows_1252_text_of(bytes)
    }
}

/// Decodes an input file: strict UTF-8 first, Windows-1252 otherwise.
pub fn decode_input(bytes: &[u8]) -> (r: String)
    ensures
        r@ == input_text(bytes@),
{
    match utf8_text(bytes) {
        Some(s) => s,
        None => windows_1252_text(bytes),
    }
}

pub open spec fn rows_view(rows: Seq<Vec<String>>) -> Seq<Seq<Seq<char>>> {
    rows.map_values(|r: Vec<String>| texts_view(r@))
}

/// The records that the `csv` crate reads from `text` (this delimiter, no header
/// handling, records of any length, fields trimmed), up to the first that fails to read;
/// and whether one failed.
pub uninterp spec fn csv_records_of(text: Seq<char>, delimiter: u8) -> (Seq<Seq<Seq<char>>>, bool);

/// Relies on `csv::ReaderBuilder` and `Reader::records`: the result depends on the text and
/// the delimiter alone.
#[verifier::external_body]
fn read_records(text: &str, delimiter: u8) -> (r: (Vec<Vec<String>>, bool))
    ensures
        csv_records_of(text@, delimiter) == (rows_view(r.0@), r.1),
{
    let mut reader = csv::ReaderBuilder::new().delimiter(delimiter).has_headers(false).flexible(
        true,
    ).trim(csv::Trim::All).from_reader(text.as_bytes());
    let mut rows: Vec<Vec<String>> = Vec::new();
    for record in reader.records() {
        match record {
            Ok(rec) => rows.push(rec.iter().map(|f| f.to_string()).collect()),
            Err(_) => return (rows, true),
        }
    }
    (rows, false)
}

/// A row ready to be stored: parsed fields, category names and its import hash.
#[derive(Clone, Debug)]
pub struct PlannedRow {
    pub date: String,
    pub payee: String,
    pub amount: i64,
    pub balance: Option<i64>,
    pub status: Option<String>,
    pub is_reconciled: bool,
    pub category: Option<String>,
    pub subcategory: Option<String>,
    pub import_hash: String,
}

/// The field in column `i`, or empty text when the row is shorter.
pub open spec fn field_text(row: Seq<Seq<char>>, i: usize) -> Seq<char> {
    if i < row.len() {
        row[i as int]
    } else {
        Seq::empty()
    }
}

/// The field of an optional column, when the column exists and the row reaches it.
pub open spec fn opt_field(row: Seq<Seq<char>>, col: Option<usize>) -> Option<Seq<char>> {
    match col {
        Some(i) => if i < row.len() {
            Some(row[i as int])
        } else {
            None
        },
        None => None,
    }
}

/// The trimmed text of an optional field, unless it is empty.
pub open spec fn opt_text_field(row: Seq<Seq<char>>, col: Option<usize>) -> Option<Seq<char>> {
    match opt_field(row, col) {
        Some(t) => if trim_seq(t).len() > 0 {
            Some(trim_seq(t))
        } else {
            None
        },
        None => None,
    }
}

/// The balance of a row: its amount when it parses, none otherwise.
pub open spec fn balance_field(row: Seq<Seq<char>>, col: Option<usize>) -> Option<i64> {
    match opt_field(row, col) {
        Some(t) => match amount_of(t) {
            Some(v) => Some(v as i64),
            None => None,
        },
        None => None,
    }
}

/// The words that mark a transaction as reconciled.
pub open spec fn is_yes_word(t: Seq<char>) -> bool {
    t == seq!['j', 'a'] || t == seq!['y', 'e', 's'] || t == seq!['t', 'r', 'u', 'e'] || t
        == seq!['1']
}

pub open spec fn reconciled_field(row: Seq<Seq<char>>, col: Option<usize>) -> bool {
    match opt_field(row, col) {
        Some(t) => is_yes_word(lower_of(trim_seq(t))),
        None => false,
    }
}

pub open spec fn opt_view(o: Option<String>) -> Option<Seq<char>> {
    match o {
        Some(s) => Some(s@),
        None => None,
    }
}

/// The row parses under the column map.
pub open spec fn row_ok(row: Seq<Seq<char>>, m: ColumnMap) -> bool {
    date_text(field_text(row, m.date)) is Some && amount_of(field_text(row, m.amount)) is Some
}

/// `p` is what `row` gives under the column map.
pub open spec fn plans_row(p: PlannedRow, row: Seq<Seq<char>>, m: ColumnMap) -> bool {
    &&& date_text(field_text(row, m.date)) == Some(p.date@)
    &&& p.payee@ == trim_seq(field_text(row, m.payee))
    &&& amount_of(field_text(row, m.amount)) == Some(p.amount as int)
    &&& p.balance == balance_field(row, m.balance)
    &&& opt_view(p.status) == opt_text_field(row, m.status)
    &&& p.is_reconciled == reconciled_field(row, m.reconciled)
    &&& opt_view(p.category) == opt_text_field(row, m.category)
    &&& opt_view(p.subcategory) == opt_text_field(row, m.subcategory)
    &&& p.import_hash@ == import_hash_of(p.date@, p.payee@, p.amount, p.balance)
}

/// The error that the first bad field of a row gives.
pub open spec fn row_error(e: ImportError, row: Seq<Seq<char>>, m: ColumnMap) -> bool {
    if date_text(field_text(row, m.date)) is None {
        is_invalid_date(e, trim_seq(field_text(row, m.date)))
    } else {
        amount_of(field_text(row, m.amount)) is None && is_invalid_amount(
            e,
            trim_seq(field_text(row, m.amount)),
        )
    }
}

fn field_at(row: &Vec<String>, i: usize) -> (r: &str)
    ensures
        r@ == field_text(texts_view(row@), i),
{
    if i < row.len() {
        row[i].as_str()
    } else {
        proof {
            reveal_strlit("");
        }
        assert(""@ =~= Seq::<char>::empty());
        ""
    }
}

fn opt_field_at(row: &Vec<String>, col: Option<usize>) -> (r: Option<&str>)
    ensures
        match r {
            Some(t) => opt_field(texts_view(row@), col) == Some(t@),
            None => opt_field(texts_view(row@), col) is None,
        },
{
    match col {
        Some(i) => if i < row.len() {
            Some(row[i].as_str())
        } else {
            None
        },
        None => None,
    }
}

fn opt_text_at(row: &Vec<String>, col: Option<usize>) -> (r: Option<String>)
    ensures
        opt_view(r) == opt_text_field(texts_view(row@), col),
{
    match opt_field_at(row, col) {
        Some(t) => {
            let s = trim_text(t);
            if s.as_str().unicode_len() > 0 {
                Some(s)
            } else {
                None
            }
        },
        None => None,
    }
}

/// Whether a lower-cased, trimmed field marks a transaction as reconciled.
pub fn is_yes_text(t: &str) -> (r: bool)
    ensures
        r == is_yes_word(t@),
{
    let cs = chars_of(t);
    let ja = vec!['j', 'a'];
    let yes = vec!['y', 'e', 's'];
    let tru = vec!['t', 'r', 'u', 'e'];
    let one = vec!['1'];
    assert(ja@ =~= seq!['j', 'a']);
    assert(yes@ =~= seq!['y', 'e', 's']);
    assert(tru@ =~= seq!['t', 'r', 'u', 'e']);
    assert(one@ =~= seq!['1']);
    chars_equal(cs.as_slice(), ja.as_slice()) || chars_equal(cs.as_slice(), yes.as_slice())
        || chars_equal(cs.as_slice(), tru.as_slice()) || chars_equal(cs.as_slice(), one.as_slice())
}

/// Reads the reconciled flag: `ja`, `yes`, `true` or `1` in any case; absence is `false`.
pub fn parse_reconciled(field: Option<&str>) -> (r: bool)
    ensures
        r == match field {
            Some(t) => is_yes_word(lower_of(trim_seq(t@))),
            None => false,
        },
{
    match field {
        Some(t) => {
            let trimmed = trim_text(t);
            let lower = lowercase(trimmed.as_str());
            is_yes_text(lower.as_str())
        },
        None => false,
    }
}

/// Parses one data row under a column map.
pub fn plan_row(row: &Vec<String>, m: &ColumnMap) -> (r: Result<PlannedRow, ImportError>)
    ensures
        match r {
            Ok(p) => plans_row(p, texts_view(row@), *m),
            Err(e) => !row_ok(texts_view(row@), *m) && row_error(e, texts_view(row@), *m),
        },
{
    let date = match parse_danish_date(field_at(row, m.date)) {
        Ok(d) => d,
        Err(e) => return Err(e),
    };
    let payee = trim_text(field_at(row, m.payee));
    let amount = match parse_danish_amount(field_at(row, m.amount)) {
        Ok(a) => a,
        Err(e) => return Err(e),
    };
    let balance = match opt_field_at(row, m.balance) {
        Some(t) => match parse_danish_amount(t) {
            Ok(b) => Some(b),
            Err(_) => None,
        },
        None => None,
    };
    let status = opt_text_at(row, m.status);
    let category = opt_text_at(row, m.category);
    let subcategory = opt_text_at(row, m.subcategory);
    let is_reconciled = parse_reconciled(opt_field_at(row, m.reconciled));
    let import_hash = generate_import_hash(date.as_str(), payee.as_str(), amount, balance);
    Ok(
        PlannedRow {
            date,
            payee,
            amount,
            balance,
            status,
            is_reconciled,
            category,
            subcategory,
            import_hash,
        },
    )
}

pub open spec fn lower_all(hs: Seq<Seq<char>>) -> Seq<Seq<char>> {
    hs.map_values(|h: Seq<char>| lower_of(h))
}

/// The first record, which names the columns (empty when there is none).
pub open spec fn header_row(rows: Seq<Seq<Seq<char>>>) -> Seq<Seq<char>> {
    if rows.len() > 0 {
        rows[0]
    } else {
        Seq::empty()
    }
}

/// Reading the text with this delimiter succeeds: mandatory columns found, every data row
/// parses, no record fails to read.
pub open spec fn attempt_ok(text: Seq<char>, delimiter: u8) -> bool {
    let (rows, failed) = csv_records_of(text, delimiter);
    let hs = lower_all(header_row(rows));
    &&& missing_field(hs) is None
    &&& forall|i: int| 1 <= i < rows.len() ==> row_ok(#[trigger] rows[i], column_map(hs))
    &&& !failed
}

/// `plans` are the data rows of the text read with this delimiter.
pub open spec fn plans_attempt(plans: Seq<PlannedRow>, text: Seq<char>, delimiter: u8) -> bool {
    let (rows, failed) = csv_records_of(text, delimiter);
    let m = column_map(lower_all(header_row(rows)));
    &&& plans.len() + 1 == rows.len()
    &&& forall|i: int| 0 <= i < plans.len() ==> plans_row(#[trigger] plans[i], rows[i + 1], m)
}

/// `e` is the error of reading the text with this delimiter: an unreadable header, else a
/// missing mandatory column, else the first data row that does not parse, else the record
/// that failed to read.
pub open spec fn attempt_error(text: Seq<char>, delimiter: u8, e: ImportError) -> bool {
    let (rows, failed) = csv_records_of(text, delimiter);
    let hs = lower_all(header_row(rows));
    let m = column_map(hs);
    if rows.len() == 0 && failed {
        e matches ImportError::CsvSyntax(n) && n == 0
    } else {
        match missing_field(hs) {
            Some(f) => match e {
                ImportError::MissingColumn(g, h) => g == f && texts_view(h@) == header_row(rows),
                _ => false,
            },
            None => (exists|k: int|
                1 <= k < rows.len() && (forall|i: int| 1 <= i < k ==> row_ok(#[trigger] rows[i], m))
                    && !row_ok(rows[k], m) && row_error(e, rows[k], m)) || ((forall|i: int|
                1 <= i < rows.len() ==> row_ok(#[trigger] rows[i], m)) && failed && (
            e matches ImportError::CsvSyntax(n) && n == rows.len())),
        }
    }
}

/// Reads all rows of the text with one delimiter.
fn try_delimiter(text: &str, delimiter: u8) -> (r: Result<Vec<PlannedRow>, ImportError>)
    ensures
        match r {
            Ok(plans) => attempt_ok(text@, delimiter) && plans_attempt(plans@, text@, delimiter),
            Err(e) => !attempt_ok(text@, delimiter) && attempt_error(text@, delimiter, e),
        },
{
    let (rows, failed) = read_records(text, delimiter);
    let ghost rv = rows_view(rows@);
    if rows.len() == 0 && failed {
        return Err(ImportError::CsvSyntax(0));
    }
    let empty: Vec<String> = Vec::new();
    let header: &Vec<String> = if rows.len() > 0 {
        &rows[0]
    } else {
        &empty
    };
    assert(texts_view(header@) =~= header_row(rv));
    assert(crate::columns::lowered_headers(header@) =~= lower_all(header_row(rv)));
    let m = match map_columns(header) {
        Ok(m) => m,
        Err(e) => return Err(e),
    };
    let ghost hs = lower_all(header_row(rv));
    let mut plans: Vec<PlannedRow> = Vec::new();
    let mut i: usize = 1;
    while i < rows.len()
        invariant
            1 <= i <= rows@.len() || rows@.len() == 0,
            rv == rows_view(rows@),
            m == column_map(hs),
            hs == lower_all(header_row(rv)),
            missing_field(hs) is None,
            csv_records_of(text@, delimiter) == (rv, failed),
            plans@.len() + 1 == i,
            forall|k: int| 1 <= k < i ==> row_ok(#[trigger] rv[k], m),
            forall|k: int| 0 <= k < plans@.len() ==> plans_row(#[trigger] plans@[k], rv[k + 1], m),
        decreases rows@.len() - i,
    {
        assert(rv[i as int] == texts_view(rows@[i as int]@));
        match plan_row(&rows[i], &m) {
            Ok(p) => {
                plans.push(p);
            },
            Err(e) => {
                assert(!row_ok(rv[i as int], m));
                return Err(e);
            },
        }
        i = i + 1;
    }
    if failed {
        return Err(ImportError::CsvSyntax(rows.len()));
    }
    Ok(plans)
}

pub const SEMICOLON: u8 = 59;

pub const COMMA: u8 = 44;

/// `plans` are the rows of the text: read with `;` when that works, else with `,`.
pub open spec fn prepared_from(plans: Seq<PlannedRow>, text: Seq<char>) -> bool {
    if attempt_ok(text, 59u8) {
        plans_attempt(plans, text, 59u8)
    } else {
        attempt_ok(text, 44u8) && plans_attempt(plans, text, 44u8)
    }
}

/// Neither delimiter works, and `e` is the error of the `,` attempt.
pub open spec fn prepare_error(text: Seq<char>, e: ImportError) -> bool {
    !attempt_ok(text, 59u8) && !attempt_ok(text, 44u8) && attempt_error(text, 44u8, e)
}

/// Parses a whole file's text: with `;` as delimiter, or, when that attempt fails, with `,`.
/// On failure, the error is that of the `,` attempt.
pub fn prepare_import(text: &str) -> (r: Result<Vec<PlannedRow>, ImportError>)
    ensures
        match r {
            Ok(plans) => prepared_from(plans@, text@),
            Err(e) => prepare_error(text@, e),
        },
{
    match try_delimiter(text, SEMICOLON) {
        Ok(plans) => Ok(plans),
        Err(_) => try_delimiter(text, COMMA),
    }
}

} // verus!

//! Maps the logical fields of a row to header columns by synonym.
use vstd::prelude::*;
use crate::error::{Field, ImportError};
use crate::text::{chars_of, contains_chars, has_substring, lower_of, lowercase};

verus! {

/// The header names, in lower case, that a field is recognised by (as substrings).
pub open spec fn synonyms(f: Field) -> Seq<Seq<char>> {
    match f {
        Field::Date => seq![seq!['d', 'a', 't', 'o'], seq!['d', 'a', 't', 'e']],
        Field::Category => seq![
            seq!['k', 'a', 't', 'e', 'g', 'o', 'r', 'i'],
            seq!['c', 'a', 't', 'e', 'g', 'o', 'r', 'y'],
        ],
        Field::Subcategory => seq![
            seq!['u', 'n', 'd', 'e', 'r', 'k', 'a', 't', 'e', 'g', 'o', 'r', 'i'],
            seq!['s', 'u', 'b', 'c', 'a', 't', 'e', 'g', 'o', 'r', 'y'],
        ],
        Field::Payee => seq![
            seq!['t', 'e', 'k', 's', 't'],
            seq!['t', 'e', 'x', 't'],
            seq!['d', 'e', 's', 'c', 'r', 'i', 'p', 't', 'i', 'o', 'n'],
            seq!['p', 'a', 'y', 'e', 'e'],
        ],
        Field::Amount => seq![
            seq!['b', 'e', 'l', 'ø', 'b'],
            seq!['b', 'e', 'l', 'o', 'b'],
            seq!['b', 'e', 'l'],
            seq!['a', 'm', 'o', 'u', 'n', 't'],
        ],
        Field::Balance => seq![seq!['s', 'a', 'l', 'd', 'o'], seq!['b', 'a', 'l', 'a', 'n', 'c', 'e']],
        Field::Status => seq![seq!['s', 't', 'a', 't', 'u', 's']],
        Field::Reconciled => seq![
            seq!['a', 'f', 's', 't', 'e', 'm', 't'],
            seq!['r', 'e', 'c', 'o', 'n', 'c', 'i', 'l', 'e', 'd'],
        ],
    }
}

/// The synonyms of `f` as character vectors.
pub fn synonym_list(f: Field) -> (r: Vec<Vec<char>>)
    ensures
        r@.map_values(|v: Vec<char>| v@) == synonyms(f),
{
    let r = match f {
        Field::Date => vec![vec!['d', 'a', 't', 'o'], vec!['d', 'a', 't', 'e']],
        Field::Category => vec![
            vec!['k', 'a', 't', 'e', 'g', 'o', 'r', 'i'],
            vec!['c', 'a', 't', 'e', 'g', 'o', 'r', 'y'],
        ],
        Field::Subcategory => vec![
            vec!['u', 'n', 'd', 'e', 'r', 'k', 'a', 't', 'e', 'g', 'o', 'r', 'i'],
            vec!['s', 'u', 'b', 'c', 'a', 't', 'e', 'g', 'o', 'r', 'y'],
        ],
        Field::Payee => vec![
            vec!['t', 'e', 'k', 's', 't'],
            vec!['t', 'e', 'x', 't'],
            vec!['d', 'e', 's', 'c', 'r', 'i', 'p', 't', 'i', 'o', 'n'],
            vec!['p', 'a', 'y', 'e', 'e'],
        ],
        Field::Amount => vec![
            vec!['b', 'e', 'l', 'ø', 'b'],
            vec!['b', 'e', 'l', 'o', 'b'],
            vec!['b', 'e', 'l'],
            vec!['a', 'm', 'o', 'u', 'n', 't'],
        ],
        Field::Balance => vec![vec!['s', 'a', 'l', 'd', 'o'], vec!['b', 'a', 'l', 'a', 'n', 'c', 'e']],
        Field::Status => vec![vec!['s', 't', 'a', 't', 'u', 's']],
        Field::Reconciled => vec![
            vec!['a', 'f', 's', 't', 'e', 'm', 't'],
            vec!['r', 'e', 'c', 'o', 'n', 'c', 'i', 'l', 'e', 'd'],
        ],
    };
    assert(r@.map_values(|v: Vec<char>| v@) =~= synonyms(f));
    r
}

/// Some synonym in `names` occurs in the header `h`.
pub open spec fn header_matches(h: Seq<char>, names: Seq<Seq<char>>) -> bool {
    exists|j: int| 0 <= j < names.len() && has_substring(h, #[trigger] names[j])
}

/// The first header that one of `names` occurs in.
pub open spec fn first_match(hs: Seq<Seq<char>>, names: Seq<Seq<char>>) -> Option<int>
    decreases hs.len(),
{
    if hs.len() == 0 {
        None
    } else {
        match first_match(hs.drop_last(), names) {
            Some(i) => Some(i),
            None => if header_matches(hs.last(), names) {
                Some(hs.len() - 1)
            } else {
                None
            },
        }
    }
}

proof fn lemma_first_match_prefix(hs: Seq<Seq<char>>, names: Seq<Seq<char>>, n: int)
    requires
        0 <= n <= hs.len(),
        first_match(hs.subrange(0, n), names) is Some,
    ensures
        first_match(hs, names) == first_match(hs.subrange(0, n), names),
    decreases hs.len() - n,
{
    if n < hs.len() {
        let h1 = hs.subrange(0, n + 1);
        assert(h1.drop_last() =~= hs.subrange(0, n));
        lemma_first_match_prefix(hs, names, n + 1);
        assert(hs.subrange(0, n + 1) =~= h1);
    } else {
        assert(hs.subrange(0, n) =~= hs);
    }
}

/// Index of the first of the (lower-cased) headers that one of `names` occurs in.
pub fn find_column_index(headers: &Vec<Vec<char>>, names: &Vec<Vec<char>>) -> (r: Option<usize>)
    ensures
        r == (match first_match(
            headers@.map_values(|v: Vec<char>| v@),
            names@.map_values(|v: Vec<char>| v@),
        ) {
            Some(i) => Some(i as usize),
            None => None,
        }),
{
    let ghost hs = headers@.map_values(|v: Vec<char>| v@);
    let ghost ns = names@.map_values(|v: Vec<char>| v@);
    let mut i: usize = 0;
    assert(hs.subrange(0, 0) =~= Seq::<Seq<char>>::empty());
    while i < headers.len()
        invariant
            i <= headers@.len(),
            hs == headers@.map_values(|v: Vec<char>| v@),
            ns == names@.map_values(|v: Vec<char>| v@),
            first_match(hs.subrange(0, i as int), ns) is None,
        decreases headers@.len() - i,
    {
        assert(hs.subrange(0, i + 1).drop_last() =~= hs.subrange(0, i as int));
        assert(hs.subrange(0, i + 1).last() == headers@[i as int]@);
        let mut j: usize = 0;
        while j < names.len()
            invariant
                i < headers@.len(),
                j <= names@.len(),
                ns == names@.map_values(|v: Vec<char>| v@),
                hs == headers@.map_values(|v: Vec<char>| v@),
                first_match(hs.subrange(0, i as int), ns) is None,
                hs.subrange(0, i + 1).drop_last() == hs.subrange(0, i as int),
                hs.subrange(0, i + 1).last() == headers@[i as int]@,
                forall|k: int| 0 <= k < j ==> !has_substring(headers@[i as int]@, #[trigger] ns[k]),
            decreases names@.len() - j,
        {
            if contains_chars(&headers[i], &names[j]) {
                proof {
                    assert(has_substring(headers@[i as int]@, ns[j as int]));
                    assert(header_matches(hs[i as int], ns));
                    assert(first_match(hs.subrange(0, i + 1), ns) == Some(i as int));
                    lemma_first_match_prefix(hs, ns, i + 1);
                }
                return Some(i);
            }
            j = j + 1;
        }
        i = i + 1;
    }
    assert(hs.subrange(0, i as int) =~= hs);
    None
}

/// Where each field stands in a row.
#[derive(Clone, Copy, Debug)]
pub struct ColumnMap {
    pub date: usize,
    pub payee: usize,
    pub amount: usize,
    pub category: Option<usize>,
    pub subcategory: Option<usize>,
    pub balance: Option<usize>,
    pub status: Option<usize>,
    pub reconciled: Option<usize>,
}

pub open spec fn column_of(hs: Seq<Seq<char>>, f: Field) -> Option<usize> {
    match first_match(hs, synonyms(f)) {
        Some(i) => Some(i as usize),
        None => None,
    }
}

/// The first mandatory field that no header names.
pub open spec fn missing_field(hs: Seq<Seq<char>>) -> Option<Field> {
    if column_of(hs, Field::Date) is None {
        Some(Field::Date)
    } else if column_of(hs, Field::Payee) is None {
        Some(Field::Payee)
    } else if column_of(hs, Field::Amount) is None {
        Some(Field::Amount)
    } else {
        None
    }
}

/// The map that the lower-cased headers `hs` give, when all mandatory fields are found.
pub open spec fn column_map_of(hs: Seq<Seq<char>>, m: ColumnMap) -> bool {
    &&& column_of(hs, Field::Date) == Some(m.date)
    &&& column_of(hs, Field::Payee) == Some(m.payee)
    &&& column_of(hs, Field::Amount) == Some(m.amount)
    &&& column_of(hs, Field::Category) == m.category
    &&& column_of(hs, Field::Subcategory) == m.subcategory
    &&& column_of(hs, Field::Balance) == m.balance
    &&& column_of(hs, Field::Status) == m.status
    &&& column_of(hs, Field::Reconciled) == m.reconciled
}

pub open spec fn index_or_zero(o: Option<usize>) -> usize {
    match o {
        Some(i) => i,
        None => 0,
    }
}

/// The column map of lower-cased headers in which every mandatory field is found.
pub open spec fn column_map(hs: Seq<Seq<char>>) -> ColumnMap {
    ColumnMap {
        date: index_or_zero(column_of(hs, Field::Date)),
        payee: index_or_zero(column_of(hs, Field::Payee)),
        amount: index_or_zero(column_of(hs, Field::Amount)),
        category: column_of(hs, Field::Category),
        subcategory: column_of(hs, Field::Subcategory),
        balance: column_of(hs, Field::Balance),
        status: column_of(hs, Field::Status),
        reconciled: column_of(hs, Field::Reconciled),
    }
}

fn locate(headers: &Vec<Vec<char>>, f: Field) -> (r: Option<usize>)
    ensures
        r == column_of(headers@.map_values(|v: Vec<char>| v@), f),
{
    let names = synonym_list(f);
    find_column_index(headers, &names)
}

/// Maps fields to columns of lower-cased headers; on failure, the first mandatory field missing.
pub fn map_lowered_columns(headers: &Vec<Vec<char>>) -> (r: Result<ColumnMap, Field>)
    ensures
        match r {
            Ok(m) => missing_field(headers@.map_values(|v: Vec<char>| v@)) is None && column_map_of(
                headers@.map_values(|v: Vec<char>| v@),
                m,
            ),
            Err(f) => missing_field(headers@.map_values(|v: Vec<char>| v@)) == Some(f),
        },
{
    let date = locate(headers, Field::Date);
    let category = locate(headers, Field::Category);
    let subcategory = locate(headers, Field::Subcategory);
    let payee = locate(headers, Field::Payee);
    let amount = locate(headers, Field::Amount);
    let balance = locate(headers, Field::Balance);
    let status = locate(headers, Field::Status);
    let reconciled = locate(headers, Field::Reconciled);
    let date = match date {
        Some(i) => i,
        None => return Err(Field::Date),
    };
    let payee = match payee {
        Some(i) => i,
        None => return Err(Field::Payee),
    };
    let amount = match amount {
        Some(i) => i,
        None => return Err(Field::Amount),
    };
    Ok(ColumnMap { date, payee, amount, category, subcategory, balance, status, reconciled })
}

/// The headers in lower case, as character vectors.
pub open spec fn lowered_headers(headers: Seq<String>) -> Seq<Seq<char>> {
    headers.map_values(|h: String| lower_of(h@))
}

/// Lower-cases each header.
pub fn lower_headers(headers: &Vec<String>) -> (r: Vec<Vec<char>>)
    ensures
        r@.map_values(|v: Vec<char>| v@) == lowered_headers(headers@),
{
    let mut r: Vec<Vec<char>> = Vec::new();
    let mut i: usize = 0;
    while i < headers.len()
        invariant
            i <= headers@.len(),
            r@.map_values(|v: Vec<char>| v@) == lowered_headers(headers@.subrange(0, i as int)),
        decreases headers@.len() - i,
    {
        let low = lowercase(headers[i].as_str());
        let cs = chars_of(low.as_str());
        let ghost before = r@.map_values(|v: Vec<char>| v@);
        r.push(cs);
        assert(lowered_headers(headers@.subrange(0, i + 1)) =~= lowered_headers(
            headers@.subrange(0, i as int),
        ).push(lower_of(headers@[i as int]@)));
        assert(r@.map_values(|v: Vec<char>| v@) =~= before.push(lower_of(headers@[i as int]@)));
        i = i + 1;
    }
    assert(headers@.subrange(0, i as int) =~= headers@);
    r
}

/// Maps the fields of a header row to its columns (case-insensitive synonym match).
pub fn map_columns(headers: &Vec<String>) -> (r: Result<ColumnMap, ImportError>)
    ensures
        match r {
            Ok(m) => missing_field(lowered_headers(headers@)) is None && column_map_of(
                lowered_headers(headers@),
                m,
            ) && m == column_map(lowered_headers(headers@)),
            Err(e) => match e {
                ImportError::MissingColumn(f, hs) => missing_field(lowered_headers(headers@))
                    == Some(f) && hs@ == headers@,
                _ => false,
            },
        },
{
    let lowered = lower_headers(headers);
    match map_lowered_columns(&lowered) {
        Ok(m) => Ok(m),
        Err(f) => Err(ImportError::MissingColumn(f, headers.clone())),
    }
}

} // verus!

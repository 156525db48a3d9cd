//! Recurring-payment detection over one account's expenses.
use vstd::prelude::*;
use crate::dates::{calculate_intervals, intervals_of, next_date_of, predict_next_date, texts_view};
use crate::frequency::{classify, detect_frequency, Frequency, MIN_CONFIDENCE_PPM};
use crate::payee::{normalize_payee, payee_pattern};
use crate::text::chars_of;

verus! {

/// One charge of a bucket: the transaction's id and its ISO date.
pub struct Occurrence {
    pub id: i64,
    pub date: String,
}

pub open spec fn occ_view(o: Occurrence) -> (i64, Seq<char>) {
    (o.id, o.date@)
}

pub open spec fn occs_view(s: Seq<Occurrence>) -> Seq<(i64, Seq<char>)> {
    s.map_values(|o: Occurrence| occ_view(o))
}

/// Strict lexicographic order of texts (the order of `str`'s `<`).
pub open spec fn text_lt(a: Seq<char>, b: Seq<char>) -> bool
    decreases a.len(),
{
    if b.len() == 0 {
        false
    } else if a.len() == 0 {
        true
    } else if a[0] != b[0] {
        (a[0] as u32) < (b[0] as u32)
    } else {
        text_lt(a.drop_first(), b.drop_first())
    }
}

/// Inserts `x` after every element whose date is not later than its own.
pub open spec fn insert_by_date(t: Seq<(i64, Seq<char>)>, x: (i64, Seq<char>)) -> Seq<
    (i64, Seq<char>),
>
    decreases t.len(),
{
    if t.len() == 0 {
        seq![x]
    } else if text_lt(x.1, t.last().1) {
        insert_by_date(t.drop_last(), x).push(t.last())
    } else {
        t.push(x)
    }
}

/// Stable sort by date, ascending.
pub open spec fn sort_by_date(s: Seq<(i64, Seq<char>)>) -> Seq<(i64, Seq<char>)>
    decreases s.len(),
{
    if s.len() == 0 {
        Seq::empty()
    } else {
        insert_by_date(sort_by_date(s.drop_last()), s.last())
    }
}

/// Each date is not before the one preceding it.
pub open spec fn by_date_asc(s: Seq<(i64, Seq<char>)>) -> bool {
    forall|i: int| 0 <= i < s.len() - 1 ==> !text_lt(#[trigger] s[i + 1].1, s[i].1)
}

proof fn lemma_text_lt_asymmetric(a: Seq<char>, b: Seq<char>)
    requires
        text_lt(a, b),
    ensures
        !text_lt(b, a),
    decreases a.len(),
{
    if a.len() > 0 && b.len() > 0 && a[0] == b[0] {
        lemma_text_lt_asymmetric(a.drop_first(), b.drop_first());
    }
}

proof fn lemma_insert_by_date_sorted(t: Seq<(i64, Seq<char>)>, x: (i64, Seq<char>))
    requires
        by_date_asc(t),
    ensures
        by_date_asc(insert_by_date(t, x)),
        t.len() > 0 ==> insert_by_date(t, x).last() == x || insert_by_date(t, x).last()
            == t.last(),
        insert_by_date(t, x).len() == t.len() + 1,
    decreases t.len(),
{
    let r = insert_by_date(t, x);
    if t.len() > 0 && text_lt(x.1, t.last().1) {
        let u = t.drop_last();
        assert forall|i: int| 0 <= i < u.len() - 1 implies !text_lt(#[trigger] u[i + 1].1, u[i].1) by {
            assert(u[i + 1] == t[i + 1] && u[i] == t[i]);
        }
        lemma_insert_by_date_sorted(u, x);
        let v = insert_by_date(u, x);
        lemma_text_lt_asymmetric(x.1, t.last().1);
        assert forall|i: int| 0 <= i < r.len() - 1 implies !text_lt(#[trigger] r[i + 1].1, r[i].1) by {
            if i == r.len() - 2 {
                assert(r[i] == v.last());
                assert(r[i + 1] == t.last());
                if u.len() > 0 && v.last() != x {
                    assert(t[t.len() - 2] == u.last());
                    let k = t.len() - 2;
                    assert(!text_lt(t[k + 1].1, t[k].1));
                    assert(t[k + 1] == t.last());
                }
            } else {
                assert(r[i] == v[i] && r[i + 1] == v[i + 1]);
            }
        }
    } else if t.len() > 0 {
        assert forall|i: int| 0 <= i < r.len() - 1 implies !text_lt(#[trigger] r[i + 1].1, r[i].1) by {
            if i == r.len() - 2 {
                assert(r[i] == t.last() && r[i + 1] == x);
            } else {
                assert(r[i] == t[i] && r[i + 1] == t[i + 1]);
            }
        }
    }
}

/// Sorting puts a bucket's occurrences in ascending date order.
pub proof fn lemma_sort_by_date_ascending(s: Seq<(i64, Seq<char>)>)
    ensures
        by_date_asc(sort_by_date(s)),
    decreases s.len(),
{
    if s.len() > 0 {
        lemma_sort_by_date_ascending(s.drop_last());
        lemma_insert_by_date_sorted(sort_by_date(s.drop_last()), s.last());
    }
}

proof fn lemma_text_lt_suffix(a: Seq<char>, b: Seq<char>, i: int)
    requires
        0 <= i <= a.len(),
        i <= b.len(),
        forall|k: int| 0 <= k < i ==> a[k] == b[k],
    ensures
        text_lt(a, b) == text_lt(
            a.subrange(i, a.len() as int),
            b.subrange(i, b.len() as int),
        ),
    decreases i,
{
    if i > 0 {
        lemma_text_lt_suffix(a.drop_first(), b.drop_first(), i - 1);
        assert(a.drop_first().subrange(i - 1, a.len() - 1) =~= a.subrange(i, a.len() as int));
        assert(b.drop_first().subrange(i - 1, b.len() - 1) =~= b.subrange(i, b.len() as int));
    } else {
        assert(a.subrange(0, a.len() as int) =~= a);
        assert(b.subrange(0, b.len() as int) =~= b);
    }
}

/// Whether text `a` sorts strictly before text `b`.
pub fn text_less(a: &Vec<char>, b: &Vec<char>) -> (r: bool)
    ensures
        r == text_lt(a@, b@),
{
    let mut i: usize = 0;
    while i < a.len() && i < b.len() && a[i] == b[i]
        invariant
            i <= a@.len(),
            i <= b@.len(),
            forall|k: int| 0 <= k < i ==> a@[k] == b@[k],
        decreases a@.len() - i,
    {
        i = i + 1;
    }
    proof {
        lemma_text_lt_suffix(a@, b@, i as int);
    }
    let ghost sa = a@.subrange(i as int, a@.len() as int);
    let ghost sb = b@.subrange(i as int, b@.len() as int);
    if i == b.len() {
        assert(sb.len() == 0);
        false
    } else if i == a.len() {
        assert(sa.len() == 0 && sb.len() > 0);
        true
    } else {
        assert(sa[0] == a@[i as int] && sb[0] == b@[i as int]);
        (a[i] as u32) < (b[i] as u32)
    }
}

proof fn lemma_insert_by_date_at(t: Seq<(i64, Seq<char>)>, x: (i64, Seq<char>), p: int)
    requires
        0 <= p <= t.len(),
        forall|k: int| p <= k < t.len() ==> text_lt(x.1, #[trigger] t[k].1),
        p == 0 || !text_lt(x.1, t[p - 1].1),
    ensures
        insert_by_date(t, x) == t.insert(p, x),
    decreases t.len(),
{
    if t.len() == 0 {
        assert(t.insert(p, x) =~= seq![x]);
    } else if p == t.len() {
        assert(t.insert(p, x) =~= t.push(x));
    } else {
        let u = t.drop_last();
        assert(text_lt(x.1, t[t.len() - 1].1));
        assert forall|k: int| p <= k < u.len() implies text_lt(x.1, #[trigger] u[k].1) by {
            assert(u[k] == t[k]);
        }
        assert(p > 0 ==> u[p - 1] == t[p - 1]);
        lemma_insert_by_date_at(u, x, p);
        assert(u.insert(p, x).push(t.last()) =~= t.insert(p, x));
    }
}

/// Inserts an occurrence into date-sorted occurrences, after those of the same date.
fn insert_occurrence(t: &mut Vec<Occurrence>, x: Occurrence)
    ensures
        occs_view(final(t)@) == insert_by_date(occs_view(old(t)@), occ_view(x)),
        final(t)@.len() == old(t)@.len() + 1,
{
    let xd = chars_of(x.date.as_str());
    let mut p: usize = t.len();
    let ghost tv = occs_view(t@);
    loop
        invariant
            p <= t@.len(),
            tv == occs_view(t@),
            xd@ == x.date@,
            forall|k: int| p <= k < t@.len() ==> text_lt(x.date@, #[trigger] tv[k].1),
        ensures
            p <= t@.len(),
            forall|k: int| p <= k < t@.len() ==> text_lt(x.date@, #[trigger] tv[k].1),
            p == 0 || !text_lt(x.date@, tv[p - 1].1),
        decreases p,
    {
        if p == 0 {
            break;
        }
        let pd = chars_of(t[p - 1].date.as_str());
        assert(pd@ == tv[p - 1].1);
        if !text_less(&xd, &pd) {
            break;
        }
        p = p - 1;
    }
    proof {
        lemma_insert_by_date_at(tv, occ_view(x), p as int);
    }
    t.insert(p, x);
    assert(occs_view(t@) =~= tv.insert(p as int, occ_view(x)));
}

/// Sorts occurrences by date, ascending; occurrences of one date keep their order.
pub fn sort_occurrences(s: Vec<Occurrence>) -> (r: Vec<Occurrence>)
    ensures
        occs_view(r@) == sort_by_date(occs_view(s@)),
        r@.len() == s@.len(),
{
    let mut r: Vec<Occurrence> = Vec::new();
    let mut rest = s;
    let ghost all = occs_view(rest@);
    let ghost n = rest@.len();
    assert(all.subrange(0, 0) =~= Seq::<(i64, Seq<char>)>::empty());
    assert(all.subrange(0, n as int) =~= all);
    while rest.len() > 0
        invariant
            rest@.len() <= n,
            r@.len() + rest@.len() == n,
            all.len() == n,
            occs_view(rest@) == all.subrange(n - rest@.len(), n as int),
            occs_view(r@) == sort_by_date(all.subrange(0, n - rest@.len())),
        decreases rest@.len(),
    {
        let ghost k = n - rest@.len();
        let ghost before = rest@;
        let x = rest.remove(0);
        proof {
            assert(occs_view(before)[0] == occ_view(x));
            assert(all.subrange(0, k + 1).drop_last() =~= all.subrange(0, k));
            assert(all.subrange(0, k + 1).last() == all[k]);
        }
        insert_occurrence(&mut r, x);
        assert(rest@ =~= before.subrange(1, before.len() as int));
        assert(occs_view(rest@) =~= occs_view(before).subrange(1, before.len() as int));
        assert(occs_view(rest@) =~= all.subrange(n - rest@.len(), n as int));
    }
    assert(all.subrange(0, n as int) =~= all);
    r
}

/// An expense as the transaction store lists it for one account, newest first.
pub struct Expense {
    pub id: i64,
    pub payee: String,
    pub amount: i64,
    pub date: String,
}

/// The bucket an expense belongs to: normalized payee and exact amount.
pub open spec fn expense_key(e: Expense) -> (Seq<char>, i64) {
    (payee_pattern(e.payee@), e.amount)
}

/// The distinct buckets of the expenses (amount below zero), in order of first appearance.
pub open spec fn bucket_keys(es: Seq<Expense>) -> Seq<(Seq<char>, i64)>
    decreases es.len(),
{
    if es.len() == 0 {
        Seq::empty()
    } else {
        let r = bucket_keys(es.drop_last());
        let e = es.last();
        if e.amount >= 0 || r.contains(expense_key(e)) {
            r
        } else {
            r.push(expense_key(e))
        }
    }
}

/// Id and date of each expense of bucket `k`, in input order.
pub open spec fn members(es: Seq<Expense>, k: (Seq<char>, i64)) -> Seq<(i64, Seq<char>)>
    decreases es.len(),
{
    if es.len() == 0 {
        Seq::empty()
    } else {
        let r = members(es.drop_last(), k);
        let e = es.last();
        if e.amount < 0 && expense_key(e) == k {
            r.push((e.id, e.date@))
        } else {
            r
        }
    }
}

/// A detected recurring payment.
pub struct SubscriptionCandidate {
    pub account_id: i64,
    pub payee_pattern: String,
    pub amount: i64,
    pub frequency: Frequency,
    pub last_charge_date: String,
    pub next_charge_date: Option<String>,
    /// Confidence in millionths (1000000 is certainty).
    pub confidence_ppm: u32,
    pub transaction_ids: Vec<i64>,
}

/// The mathematical content of a candidate.
pub struct CandidateModel {
    pub account_id: i64,
    pub payee_pattern: Seq<char>,
    pub amount: i64,
    pub frequency: Frequency,
    pub last_charge_date: Seq<char>,
    pub next_charge_date: Option<Seq<char>>,
    pub confidence_ppm: u32,
    pub transaction_ids: Seq<i64>,
}

pub open spec fn opt_text(o: Option<String>) -> Option<Seq<char>> {
    match o {
        Some(s) => Some(s@),
        None => None,
    }
}

impl View for SubscriptionCandidate {
    type V = CandidateModel;

    open spec fn view(&self) -> CandidateModel {
        CandidateModel {
            account_id: self.account_id,
            payee_pattern: self.payee_pattern@,
            amount: self.amount,
            frequency: self.frequency,
            last_charge_date: self.last_charge_date@,
            next_charge_date: opt_text(self.next_charge_date),
            confidence_ppm: self.confidence_ppm,
            transaction_ids: self.transaction_ids@,
        }
    }
}

pub open spec fn cands_view(s: Seq<SubscriptionCandidate>) -> Seq<CandidateModel> {
    s.map_values(|c: SubscriptionCandidate| c@)
}

/// The candidate that a bucket's date-sorted occurrences give, if any.
pub open spec fn candidate_of(account_id: i64, k: (Seq<char>, i64), sorted: Seq<(i64, Seq<char>)>) -> Option<
    CandidateModel,
> {
    let xs = intervals_of(sorted.map_values(|o: (i64, Seq<char>)| o.1));
    match classify(xs) {
        Some((f, c)) => if c >= MIN_CONFIDENCE_PPM {
            Some(
                CandidateModel {
                    account_id,
                    payee_pattern: k.0,
                    amount: k.1,
                    frequency: f,
                    last_charge_date: sorted.last().1,
                    next_charge_date: next_date_of(sorted.last().1, f),
                    confidence_ppm: c,
                    transaction_ids: sorted.map_values(|o: (i64, Seq<char>)| o.0),
                },
            )
        } else {
            None
        },
        None => None,
    }
}

/// Analyzes one bucket whose occurrences are sorted by date.
pub fn analyze_bucket(account_id: i64, pattern: &String, amount: i64, sorted: &Vec<Occurrence>) -> (r:
    Option<SubscriptionCandidate>)
    requires
        sorted@.len() <= u32::MAX,
    ensures
        match r {
            Some(c) => candidate_of(account_id, (pattern@, amount), occs_view(sorted@)) == Some(c@),
            None => candidate_of(account_id, (pattern@, amount), occs_view(sorted@)) is None,
        },
{
    let ghost sv = occs_view(sorted@);
    let mut dates: Vec<String> = Vec::new();
    let mut ids: Vec<i64> = Vec::new();
    let mut i: usize = 0;
    while i < sorted.len()
        invariant
            i <= sorted@.len(),
            sv == occs_view(sorted@),
            texts_view(dates@) == sv.subrange(0, i as int).map_values(|o: (i64, Seq<char>)| o.1),
            ids@ == sv.subrange(0, i as int).map_values(|o: (i64, Seq<char>)| o.0),
        decreases sorted@.len() - i,
    {
        let d = sorted[i].date.clone();
        assert(sv[i as int] == occ_view(sorted@[i as int]));
        assert(d@ == sv[i as int].1);
        let ghost before = dates@;
        dates.push(d);
        assert(texts_view(dates@) =~= texts_view(before).push(d@));
        assert(sv.subrange(0, i + 1).map_values(|o: (i64, Seq<char>)| o.1) =~= sv.subrange(
            0,
            i as int,
        ).map_values(|o: (i64, Seq<char>)| o.1).push(sv[i as int].1));
        ids.push(sorted[i].id);
        i = i + 1;
        assert(texts_view(dates@) =~= sv.subrange(0, i as int).map_values(
            |o: (i64, Seq<char>)| o.1,
        ));
        assert(ids@ =~= sv.subrange(0, i as int).map_values(|o: (i64, Seq<char>)| o.0));
    }
    assert(sv.subrange(0, i as int) =~= sv);
    let xs = calculate_intervals(&dates);
    match detect_frequency(&xs) {
        Some((f, c)) => {
            if c < MIN_CONFIDENCE_PPM {
                return None;
            }
            let last = sorted[sorted.len() - 1].date.clone();
            let next = predict_next_date(last.as_str(), f);
            Some(
                SubscriptionCandidate {
                    account_id,
                    payee_pattern: pattern.clone(),
                    amount,
                    frequency: f,
                    last_charge_date: last,
                    next_charge_date: next,
                    confidence_ppm: c,
                    transaction_ids: ids,
                },
            )
        },
        None => None,
    }
}

pub open spec fn keys_view(ks: Seq<(String, i64)>) -> Seq<(Seq<char>, i64)> {
    ks.map_values(|k: (String, i64)| (k.0@, k.1))
}

fn patterns_of(es: &Vec<Expense>) -> (r: Vec<String>)
    ensures
        r@.len() == es@.len(),
        forall|i: int| 0 <= i < es@.len() ==> (#[trigger] r@[i])@ == payee_pattern(es@[i].payee@),
{
    let mut r: Vec<String> = Vec::new();
    let mut i: usize = 0;
    while i < es.len()
        invariant
            i <= es@.len(),
            r@.len() == i,
            forall|k: int| 0 <= k < i ==> (#[trigger] r@[k])@ == payee_pattern(es@[k].payee@),
        decreases es@.len() - i,
    {
        r.push(normalize_payee(es[i].payee.as_str()));
        i = i + 1;
    }
    r
}

fn has_key(ks: &Vec<(String, i64)>, p: &String, a: i64) -> (r: bool)
    ensures
        r == keys_view(ks@).contains((p@, a)),
{
    let ghost kv = keys_view(ks@);
    let mut i: usize = 0;
    while i < ks.len()
        invariant
            i <= ks@.len(),
            kv == keys_view(ks@),
            forall|k: int| 0 <= k < i ==> kv[k] != (p@, a),
        decreases ks@.len() - i,
    {
        if ks[i].1 == a && ks[i].0 == *p {
            assert(kv[i as int] == (p@, a));
            return true;
        }
        i = i + 1;
    }
    false
}

fn collect_keys(es: &Vec<Expense>, pats: &Vec<String>) -> (r: Vec<(String, i64)>)
    requires
        pats@.len() == es@.len(),
        forall|i: int| 0 <= i < es@.len() ==> (#[trigger] pats@[i])@ == payee_pattern(es@[i].payee@),
    ensures
        keys_view(r@) == bucket_keys(es@),
{
    let mut r: Vec<(String, i64)> = Vec::new();
    let mut i: usize = 0;
    while i < es.len()
        invariant
            i <= es@.len(),
            pats@.len() == es@.len(),
            forall|k: int| 0 <= k < es@.len() ==> (#[trigger] pats@[k])@ == payee_pattern(es@[k].payee@),
            keys_view(r@) == bucket_keys(es@.subrange(0, i as int)),
        decreases es@.len() - i,
    {
        assert(es@.subrange(0, i + 1).drop_last() =~= es@.subrange(0, i as int));
        assert(es@.subrange(0, i + 1).last() == es@[i as int]);
        assert(pats@[i as int]@ == payee_pattern(es@[i as int].payee@));
        if es[i].amount < 0 && !has_key(&r, &pats[i], es[i].amount) {
            let ghost before = keys_view(r@);
            r.push((pats[i].clone(), es[i].amount));
            assert(keys_view(r@) =~= before.push((pats@[i as int]@, es@[i as int].amount)));
        }
        i = i + 1;
    }
    assert(es@.subrange(0, i as int) =~= es@);
    r
}

fn collect_members(es: &Vec<Expense>, pats: &Vec<String>, p: &String, a: i64) -> (r: Vec<Occurrence>)
    requires
        pats@.len() == es@.len(),
        forall|i: int| 0 <= i < es@.len() ==> (#[trigger] pats@[i])@ == payee_pattern(es@[i].payee@),
    ensures
        occs_view(r@) == members(es@, (p@, a)),
        r@.len() <= es@.len(),
{
    let mut r: Vec<Occurrence> = Vec::new();
    let mut i: usize = 0;
    while i < es.len()
        invariant
            i <= es@.len(),
            r@.len() <= i,
            pats@.len() == es@.len(),
            forall|k: int| 0 <= k < es@.len() ==> (#[trigger] pats@[k])@ == payee_pattern(es@[k].payee@),
            occs_view(r@) == members(es@.subrange(0, i as int), (p@, a)),
        decreases es@.len() - i,
    {
        assert(es@.subrange(0, i + 1).drop_last() =~= es@.subrange(0, i as int));
        assert(es@.subrange(0, i + 1).last() == es@[i as int]);
        assert(pats@[i as int]@ == payee_pattern(es@[i as int].payee@));
        if es[i].amount < 0 && es[i].amount == a && pats[i] == *p {
            let ghost before = occs_view(r@);
            r.push(Occurrence { id: es[i].id, date: es[i].date.clone() });
            assert(occs_view(r@) =~= before.push((es@[i as int].id, es@[i as int].date@)));
        }
        i = i + 1;
    }
    assert(es@.subrange(0, i as int) =~= es@);
    r
}

/// The candidates of the buckets `keys`, in order, leaving out saved patterns.
pub open spec fn emitted(
    account_id: i64,
    es: Seq<Expense>,
    saved: Seq<(Seq<char>, i64)>,
    keys: Seq<(Seq<char>, i64)>,
) -> Seq<CandidateModel>
    decreases keys.len(),
{
    if keys.len() == 0 {
        Seq::empty()
    } else {
        let r = emitted(account_id, es, saved, keys.drop_last());
        let k = keys.last();
        let occ = sort_by_date(members(es, k));
        if saved.contains(k) || occ.len() < 2 {
            r
        } else {
            match candidate_of(account_id, k, occ) {
                Some(c) => r.push(c),
                None => r,
            }
        }
    }
}

/// Inserts `x` after every candidate whose confidence is not below its own.
pub open spec fn insert_by_confidence(t: Seq<CandidateModel>, x: CandidateModel) -> Seq<CandidateModel>
    decreases t.len(),
{
    if t.len() == 0 {
        seq![x]
    } else if x.confidence_ppm > t.last().confidence_ppm {
        insert_by_confidence(t.drop_last(), x).push(t.last())
    } else {
        t.push(x)
    }
}

/// Stable sort by confidence, descending.
pub open spec fn sort_by_confidence(s: Seq<CandidateModel>) -> Seq<CandidateModel>
    decreases s.len(),
{
    if s.len() == 0 {
        Seq::empty()
    } else {
        insert_by_confidence(sort_by_confidence(s.drop_last()), s.last())
    }
}

/// What detection reports for an account's expenses, given its saved patterns.
pub open spec fn detection(account_id: i64, es: Seq<Expense>, saved: Seq<(Seq<char>, i64)>) -> Seq<
    CandidateModel,
> {
    sort_by_confidence(emitted(account_id, es, saved, bucket_keys(es)))
}

proof fn lemma_insert_by_confidence_at(t: Seq<CandidateModel>, x: CandidateModel, p: int)
    requires
        0 <= p <= t.len(),
        forall|k: int| p <= k < t.len() ==> x.confidence_ppm > (#[trigger] t[k]).confidence_ppm,
        p == 0 || x.confidence_ppm <= t[p - 1].confidence_ppm,
    ensures
        insert_by_confidence(t, x) == t.insert(p, x),
    decreases t.len(),
{
    if t.len() == 0 {
        assert(t.insert(p, x) =~= seq![x]);
    } else if p == t.len() {
        assert(t.insert(p, x) =~= t.push(x));
    } else {
        let u = t.drop_last();
        assert(x.confidence_ppm > t[t.len() - 1].confidence_ppm);
        assert forall|k: int| p <= k < u.len() implies x.confidence_ppm > (
        #[trigger] u[k]).confidence_ppm by {
            assert(u[k] == t[k]);
        }
        assert(p > 0 ==> u[p - 1] == t[p - 1]);
        lemma_insert_by_confidence_at(u, x, p);
        assert(u.insert(p, x).push(t.last()) =~= t.insert(p, x));
    }
}

fn insert_candidate(t: &mut Vec<SubscriptionCandidate>, x: SubscriptionCandidate)
    ensures
        cands_view(final(t)@) == insert_by_confidence(cands_view(old(t)@), x@),
{
    let mut p: usize = t.len();
    let ghost tv = cands_view(t@);
    loop
        invariant
            p <= t@.len(),
            tv == cands_view(t@),
            forall|k: int| p <= k < t@.len() ==> x.confidence_ppm > (#[trigger] tv[k]).confidence_ppm,
        ensures
            p <= t@.len(),
            forall|k: int| p <= k < t@.len() ==> x.confidence_ppm > (#[trigger] tv[k]).confidence_ppm,
            p == 0 || x.confidence_ppm <= tv[p - 1].confidence_ppm,
        decreases p,
    {
        if p == 0 || x.confidence_ppm <= t[p - 1].confidence_ppm {
            break;
        }
        p = p - 1;
    }
    proof {
        lemma_insert_by_confidence_at(tv, x@, p as int);
    }
    t.insert(p, x);
    assert(cands_view(t@) =~= tv.insert(p as int, x@));
}

pub open spec fn saved_view(saved: Seq<(String, i64)>) -> Seq<(Seq<char>, i64)> {
    saved.map_values(|k: (String, i64)| (k.0@, k.1))
}

/// Detects recurring payments among one account's expenses (amount below zero), leaving
/// out buckets that match a saved pattern; the result is ordered by confidence, highest
/// first.
pub fn detect_subscriptions(account_id: i64, expenses: &Vec<Expense>, saved: &Vec<(String, i64)>) -> (r:
    Vec<SubscriptionCandidate>)
    requires
        expenses@.len() <= u32::MAX,
    ensures
        cands_view(r@) == detection(account_id, expenses@, saved_view(saved@)),
{
    let pats = patterns_of(expenses);
    let keys = collect_keys(expenses, &pats);
    let ghost kv = keys_view(keys@);
    let ghost sv = saved_view(saved@);
    let mut found: Vec<SubscriptionCandidate> = Vec::new();
    let ghost mut emitted_so_far: Seq<CandidateModel> = Seq::empty();
    let mut b: usize = 0;
    assert(kv.subrange(0, 0) =~= Seq::<(Seq<char>, i64)>::empty());
    while b < keys.len()
        invariant
            b <= keys@.len(),
            kv == keys_view(keys@),
            kv == bucket_keys(expenses@),
            sv == saved_view(saved@),
            expenses@.len() <= u32::MAX,
            pats@.len() == expenses@.len(),
            forall|i: int| 0 <= i < expenses@.len() ==> (#[trigger] pats@[i])@ == payee_pattern(
                expenses@[i].payee@,
            ),
            emitted_so_far == emitted(account_id, expenses@, sv, kv.subrange(0, b as int)),
            cands_view(found@) == sort_by_confidence(emitted_so_far),
        decreases keys@.len() - b,
    {
        let ghost k = kv[b as int];
        assert(kv.subrange(0, b + 1).drop_last() =~= kv.subrange(0, b as int));
        assert(kv.subrange(0, b + 1).last() == k);
        let p = &keys[b].0;
        let a = keys[b].1;
        let saved_hit = has_key(saved, p, a);
        if !saved_hit {
            let occ = collect_members(expenses, &pats, p, a);
            let sorted = sort_occurrences(occ);
            assert(sorted@.len() <= expenses@.len());
            if sorted.len() >= 2 {
                assert(occs_view(sorted@).len() == sorted@.len());
                match analyze_bucket(account_id, p, a, &sorted) {
                    Some(c) => {
                        proof {
                            emitted_so_far = emitted_so_far.push(c@);
                            assert(emitted_so_far.drop_last() =~= emitted(
                                account_id,
                                expenses@,
                                sv,
                                kv.subrange(0, b as int),
                            ));
                        }
                        insert_candidate(&mut found, c);
                    },
                    None => {},
                }
            }
        }
        b = b + 1;
    }
    assert(kv.subrange(0, b as int) =~= kv);
    found
}

proof fn lemma_emitted_not_saved(
    account_id: i64,
    es: Seq<Expense>,
    saved: Seq<(Seq<char>, i64)>,
    keys: Seq<(Seq<char>, i64)>,
    i: int,
)
    requires
        0 <= i < emitted(account_id, es, saved, keys).len(),
    ensures
        !saved.contains(
            (
                emitted(account_id, es, saved, keys)[i].payee_pattern,
                emitted(account_id, es, saved, keys)[i].amount,
            ),
        ),
    decreases keys.len(),
{
    let r = emitted(account_id, es, saved, keys.drop_last());
    if i < r.len() {
        lemma_emitted_not_saved(account_id, es, saved, keys.drop_last(), i);
    }
}

proof fn lemma_insert_by_confidence_elements(t: Seq<CandidateModel>, x: CandidateModel, i: int)
    requires
        0 <= i < insert_by_confidence(t, x).len(),
    ensures
        insert_by_confidence(t, x)[i] == x || t.contains(insert_by_confidence(t, x)[i]),
        insert_by_confidence(t, x).len() == t.len() + 1,
    decreases t.len(),
{
    if t.len() > 0 && x.confidence_ppm > t.last().confidence_ppm {
        let u = t.drop_last();
        let v = insert_by_confidence(u, x);
        if i < v.len() {
            lemma_insert_by_confidence_elements(u, x, i);
            if v[i] != x {
                let j = choose|j: int| 0 <= j < u.len() && u[j] == v[i];
                assert(t[j] == u[j]);
            }
        } else {
            lemma_insert_by_confidence_elements(u, x, 0);
            assert(t[t.len() - 1] == t.last());
        }
    } else if t.len() > 0 {
        if i < t.len() {
            assert(t.push(x)[i] == t[i]);
        }
    }
}

proof fn lemma_sorted_elements(s: Seq<CandidateModel>, i: int)
    requires
        0 <= i < sort_by_confidence(s).len(),
    ensures
        s.contains(sort_by_confidence(s)[i]),
    decreases s.len(),
{
    let u = s.drop_last();
    let t = sort_by_confidence(u);
    lemma_insert_by_confidence_elements(t, s.last(), i);
    let c = sort_by_confidence(s)[i];
    if c != s.last() {
        let j = choose|j: int| 0 <= j < t.len() && t[j] == c;
        lemma_sorted_elements(u, j);
        let k = choose|k: int| 0 <= k < u.len() && u[k] == c;
        assert(s[k] == u[k]);
    } else {
        assert(s[s.len() - 1] == s.last());
    }
}

pub open spec fn by_confidence_desc(s: Seq<CandidateModel>) -> bool {
    forall|i: int, j: int|
        0 <= i < j < s.len() ==> #[trigger] s[i].confidence_ppm >= #[trigger] s[j].confidence_ppm
}

proof fn lemma_insert_keeps_order(t: Seq<CandidateModel>, x: CandidateModel)
    requires
        by_confidence_desc(t),
    ensures
        by_confidence_desc(insert_by_confidence(t, x)),
    decreases t.len(),
{
    let r = insert_by_confidence(t, x);
    if t.len() > 0 && x.confidence_ppm > t.last().confidence_ppm {
        let u = t.drop_last();
        assert forall|i: int, j: int| 0 <= i < j < u.len() implies #[trigger] u[i].confidence_ppm
            >= #[trigger] u[j].confidence_ppm by {
            assert(u[i] == t[i] && u[j] == t[j]);
        }
        lemma_insert_keeps_order(u, x);
        let v = insert_by_confidence(u, x);
        assert forall|i: int, j: int| 0 <= i < j < r.len() implies #[trigger] r[i].confidence_ppm
            >= #[trigger] r[j].confidence_ppm by {
            if j == r.len() - 1 {
                lemma_insert_by_confidence_elements(u, x, i);
                assert(r[i] == v[i]);
                if v[i] != x {
                    let k = choose|k: int| 0 <= k < u.len() && u[k] == v[i];
                    assert(t[k] == u[k]);
                    assert(t[k].confidence_ppm >= t[t.len() - 1].confidence_ppm);
                }
            } else {
                assert(r[i] == v[i] && r[j] == v[j]);
            }
        }
    } else if t.len() > 0 {
        assert forall|i: int, j: int| 0 <= i < j < r.len() implies #[trigger] r[i].confidence_ppm
            >= #[trigger] r[j].confidence_ppm by {
            if j == r.len() - 1 {
                assert(r[j] == x);
                assert(r[i] == t[i]);
                assert(t[i].confidence_ppm >= t[t.len() - 1].confidence_ppm || i == t.len() - 1);
            } else {
                assert(r[i] == t[i] && r[j] == t[j]);
            }
        }
    }
}

proof fn lemma_sort_keeps_order(s: Seq<CandidateModel>)
    ensures
        by_confidence_desc(sort_by_confidence(s)),
    decreases s.len(),
{
    if s.len() > 0 {
        lemma_sort_keeps_order(s.drop_last());
        lemma_insert_keeps_order(sort_by_confidence(s.drop_last()), s.last());
    }
}

/// Detection output is ordered by confidence, highest first.
pub proof fn lemma_detection_by_confidence(
    account_id: i64,
    es: Seq<Expense>,
    saved: Seq<(Seq<char>, i64)>,
)
    ensures
        by_confidence_desc(detection(account_id, es, saved)),
{
    lemma_sort_keeps_order(emitted(account_id, es, saved, bucket_keys(es)));
}

/// A bucket whose normalized payee and amount match a saved pattern never appears in the
/// detection output, however regular its charges.
pub proof fn lemma_saved_patterns_excluded(
    account_id: i64,
    es: Seq<Expense>,
    saved: Seq<(Seq<char>, i64)>,
    i: int,
)
    requires
        0 <= i < detection(account_id, es, saved).len(),
    ensures
        !saved.contains(
            (
                detection(account_id, es, saved)[i].payee_pattern,
                detection(account_id, es, saved)[i].amount,
            ),
        ),
{
    let e = emitted(account_id, es, saved, bucket_keys(es));
    lemma_sorted_elements(e, i);
    let c = detection(account_id, es, saved)[i];
    let j = choose|j: int| 0 <= j < e.len() && e[j] == c;
    lemma_emitted_not_saved(account_id, es, saved, bucket_keys(es), j);
}

} // verus!

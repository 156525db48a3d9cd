//! Budget roll-up: which categories a budget covers and what was spent in them.
use vstd::prelude::*;

verus! {

/// Ids of the categories whose parent is `p`, in list order (`links` holds id and parent).
pub open spec fn kids(links: Seq<(i64, Option<i64>)>, p: i64) -> Seq<i64>
    decreases links.len(),
{
    if links.len() == 0 {
        Seq::empty()
    } else if links.last().1 == Some(p) {
        kids(links.drop_last(), p).push(links.last().0)
    } else {
        kids(links.drop_last(), p)
    }
}

/// The children of each parent in turn.
pub open spec fn children_of(links: Seq<(i64, Option<i64>)>, parents: Seq<i64>) -> Seq<i64>
    decreases parents.len(),
{
    if parents.len() == 0 {
        Seq::empty()
    } else {
        children_of(links, parents.drop_last()) + kids(links, parents.last())
    }
}

/// The roots, then their children, down to `depth` generations.
pub open spec fn covered(roots: Seq<i64>, links: Seq<(i64, Option<i64>)>, depth: nat) -> Seq<i64>
    decreases depth,
{
    if depth == 0 {
        roots
    } else {
        roots + covered(children_of(links, roots), links, (depth - 1) as nat)
    }
}

fn push_kids(out: &mut Vec<i64>, links: &Vec<(i64, Option<i64>)>, p: i64)
    ensures
        final(out)@ == old(out)@ + kids(links@, p),
{
    let ghost start = out@;
    let mut i: usize = 0;
    assert(links@.subrange(0, 0) =~= Seq::<(i64, Option<i64>)>::empty());
    while i < links.len()
        invariant
            i <= links@.len(),
            out@ == start + kids(links@.subrange(0, i as int), p),
        decreases links@.len() - i,
    {
        let ghost pre = links@.subrange(0, i + 1);
        assert(pre.drop_last() =~= links@.subrange(0, i as int));
        assert(pre.last() == links@[i as int]);
        let ghost before = out@;
        if links[i].1 == Some(p) {
            out.push(links[i].0);
            assert(out@ =~= start + kids(pre, p));
        } else {
            assert(out@ =~= start + kids(pre, p));
        }
        i = i + 1;
    }
    assert(links@.subrange(0, i as int) =~= links@);
}

/// The children of each parent in turn.
pub fn children(links: &Vec<(i64, Option<i64>)>, parents: &Vec<i64>) -> (r: Vec<i64>)
    ensures
        r@ == children_of(links@, parents@),
{
    let mut out: Vec<i64> = Vec::new();
    let mut i: usize = 0;
    assert(parents@.subrange(0, 0) =~= Seq::<i64>::empty());
    while i < parents.len()
        invariant
            i <= parents@.len(),
            out@ == children_of(links@, parents@.subrange(0, i as int)),
        decreases parents@.len() - i,
    {
        let ghost pre = parents@.subrange(0, i + 1);
        assert(pre.drop_last() =~= parents@.subrange(0, i as int));
        assert(pre.last() == parents@[i as int]);
        push_kids(&mut out, links, parents[i]);
        i = i + 1;
    }
    assert(parents@.subrange(0, i as int) =~= parents@);
    out
}

/// Category ids a budget covers: its own categories, then their children, down to
/// `depth` generations (`depth` 1 takes immediate children only).
pub fn covered_categories(roots: &Vec<i64>, links: &Vec<(i64, Option<i64>)>, depth: usize) -> (r:
    Vec<i64>)
    ensures
        r@ == covered(roots@, links@, depth as nat),
    decreases depth,
{
    let mut out: Vec<i64> = Vec::new();
    let mut i: usize = 0;
    while i < roots.len()
        invariant
            i <= roots@.len(),
            out@ == roots@.subrange(0, i as int),
        decreases roots@.len() - i,
    {
        out.push(roots[i]);
        i = i + 1;
        assert(out@ =~= roots@.subrange(0, i as int));
    }
    assert(out@ =~= roots@);
    if depth == 0 {
        return out;
    }
    let next = children(links, roots);
    let deeper = covered_categories(&next, links, depth - 1);
    let ghost mid = out@;
    let mut j: usize = 0;
    while j < deeper.len()
        invariant
            j <= deeper@.len(),
            out@ == mid + deeper@.subrange(0, j as int),
        decreases deeper@.len() - j,
    {
        out.push(deeper[j]);
        j = j + 1;
        assert(out@ =~= mid + deeper@.subrange(0, j as int));
    }
    assert(deeper@.subrange(0, j as int) =~= deeper@);
    out
}

/// A spending row: category, ISO date and signed amount.
pub struct SpendRow {
    pub category_id: Option<i64>,
    pub date: String,
    pub amount: i64,
}

pub open spec fn in_month(date: Seq<char>, month: Seq<char>) -> bool {
    month.len() <= date.len() && date.subrange(0, month.len() as int) == month
}

pub open spec fn counts_toward(row: SpendRow, ids: Seq<i64>, month: Seq<char>) -> bool {
    &&& row.amount < 0
    &&& in_month(row.date@, month)
    &&& match row.category_id {
        Some(c) => ids.contains(c),
        None => false,
    }
}

/// Total of the absolute amounts of expenses in the categories during the month.
pub open spec fn spent(rows: Seq<SpendRow>, ids: Seq<i64>, month: Seq<char>) -> int
    decreases rows.len(),
{
    if rows.len() == 0 {
        0
    } else {
        spent(rows.drop_last(), ids, month) + if counts_toward(rows.last(), ids, month) {
            -rows.last().amount
        } else {
            0
        }
    }
}

fn contains_id(ids: &Vec<i64>, c: i64) -> (r: bool)
    ensures
        r == ids@.contains(c),
{
    let mut i: usize = 0;
    while i < ids.len()
        invariant
            i <= ids@.len(),
            forall|k: int| 0 <= k < i ==> ids@[k] != c,
        decreases ids@.len() - i,
    {
        if ids[i] == c {
            return true;
        }
        i = i + 1;
    }
    false
}

fn starts_with(date: &Vec<char>, month: &Vec<char>) -> (r: bool)
    ensures
        r == in_month(date@, month@),
{
    if month.len() > date.len() {
        return false;
    }
    let mut i: usize = 0;
    while i < month.len()
        invariant
            month@.len() <= date@.len(),
            i <= month@.len(),
            forall|k: int| 0 <= k < i ==> date@[k] == month@[k],
        decreases month@.len() - i,
    {
        if date[i] != month[i] {
            assert(date@.subrange(0, month@.len() as int)[i as int] == date@[i as int]);
            return false;
        }
        i = i + 1;
    }
    assert(date@.subrange(0, month@.len() as int) =~= month@);
    true
}

/// What was spent in the categories `ids` during `month` (a `YYYY-MM` prefix of the
/// dates), when the total fits in `i64`.
pub fn spent_in_month(rows: &Vec<SpendRow>, ids: &Vec<i64>, month: &str) -> (r: Option<i64>)
    ensures
        match r {
            Some(v) => v == spent(rows@, ids@, month@),
            None => spent(rows@, ids@, month@) > i64::MAX,
        },
{
    let m = crate::text::chars_of(month);
    let mut total: i128 = 0;
    let mut i: usize = 0;
    let n = rows.len();
    assert(rows@.subrange(0, 0) =~= Seq::<SpendRow>::empty());
    while i < rows.len()
        invariant
            i <= rows@.len() == n,
            m@ == month@,
            total == spent(rows@.subrange(0, i as int), ids@, month@),
            0 <= total <= i * 0x8000000000000000,
        decreases rows@.len() - i,
    {
        let ghost pre = rows@.subrange(0, i + 1);
        assert(pre.drop_last() =~= rows@.subrange(0, i as int));
        assert(pre.last() == rows@[i as int]);
        let row = &rows[i];
        let d = crate::text::chars_of(row.date.as_str());
        let hit = row.amount < 0 && starts_with(&d, &m) && match row.category_id {
            Some(c) => contains_id(ids, c),
            None => false,
        };
        if hit {
            total = total + (0 - row.amount as i128);
        }
        i = i + 1;
    }
    assert(rows@.subrange(0, i as int) =~= rows@);
    if total > 9223372036854775807 {
        None
    } else {
        Some(total as i64)
    }
}

} // verus!

//! Frequency classification and confidence scoring over interval statistics.
//!
//! Statistics are kept exact: with `n` intervals, sum `s` and sum of squares `q`, the mean
//! is `s / n` and the population variance is `(n * q - s * s) / n^2`. Confidence,
//! `clamp(1 - stddev / period, 0, 1)`, is reported in millionths, rounded down.
use vstd::prelude::*;

verus! {

/// How often a recurring payment comes.
#[derive(Clone, Copy, Debug, PartialEq, Eq, Structural)]
pub enum Frequency {
    Weekly,
    Biweekly,
    Monthly,
    Yearly,
}

pub open spec fn period_of(f: Frequency) -> nat {
    match f {
        Frequency::Weekly => 7,
        Frequency::Biweekly => 14,
        Frequency::Monthly => 30,
        Frequency::Yearly => 365,
    }
}

impl Frequency {
    /// Reference period in days, which is also the offset to the next charge.
    pub fn period_days(&self) -> (r: i64)
        ensures
            r == period_of(*self),
    {
        match self {
            Frequency::Weekly => 7,
            Frequency::Biweekly => 14,
            Frequency::Monthly => 30,
            Frequency::Yearly => 365,
        }
    }
}

/// The label whose inclusive range of mean interval holds `s / n`.
pub open spec fn frequency_of(n: nat, s: nat) -> Option<Frequency> {
    if n == 0 {
        None
    } else if 25 * n <= s <= 35 * n {
        Some(Frequency::Monthly)
    } else if 355 * n <= s <= 375 * n {
        Some(Frequency::Yearly)
    } else if 6 * n <= s <= 8 * n {
        Some(Frequency::Weekly)
    } else if 12 * n <= s <= 16 * n {
        Some(Frequency::Biweekly)
    } else {
        None
    }
}

pub open spec fn sum_of(xs: Seq<i64>) -> int
    decreases xs.len(),
{
    if xs.len() == 0 {
        0
    } else {
        sum_of(xs.drop_last()) + xs.last()
    }
}

pub open spec fn sum_sq_of(xs: Seq<i64>) -> int
    decreases xs.len(),
{
    if xs.len() == 0 {
        0
    } else {
        sum_sq_of(xs.drop_last()) + xs.last() * xs.last()
    }
}

/// `n^2` times the population variance.
pub open spec fn spread(n: int, s: int, q: int) -> int {
    if n * q >= s * s {
        n * q - s * s
    } else {
        0
    }
}

pub open spec fn is_ceil_sqrt(x: int, r: int) -> bool {
    r >= 0 && r * r >= x && (r == 0 || (r - 1) * (r - 1) < x)
}

/// The least `r` with `r * r >= x`.
pub open spec fn ceil_sqrt(x: int) -> int {
    choose|r: int| is_ceil_sqrt(x, r)
}

pub open spec fn ceil_div(a: int, b: int) -> int {
    (a + b - 1) / b
}

/// Confidence in millionths: `floor(10^6 * (1 - sqrt(d) / (n * period)))`, at least 0, where
/// `d = spread(n, s, q)`.
pub open spec fn confidence_ppm(n: int, s: int, q: int, period: int) -> int {
    let d = spread(n, s, q);
    let scale = n * period;
    if d > scale * scale {
        0
    } else {
        1000000 - ceil_div(ceil_sqrt(1000000000000 * d), scale)
    }
}

/// Candidates are kept from this confidence on (0.6).
pub const MIN_CONFIDENCE_PPM: u32 = 600000;

/// Frequency and confidence of an interval list, when its mean falls in a range.
pub open spec fn classify(xs: Seq<i64>) -> Option<(Frequency, u32)> {
    match frequency_of(xs.len(), sum_of(xs) as nat) {
        Some(f) => Some(
            (
                f,
                confidence_ppm(xs.len() as int, sum_of(xs), sum_sq_of(xs), period_of(f) as int) as u32,
            ),
        ),
        None => None,
    }
}

proof fn lemma_ceil_sqrt_unique(x: int, r: int)
    requires
        is_ceil_sqrt(x, r),
    ensures
        ceil_sqrt(x) == r,
{
    let c = ceil_sqrt(x);
    assert(is_ceil_sqrt(x, c));
    if c < r {
        assert((r - 1) * (r - 1) >= c * c) by (nonlinear_arith)
            requires
                0 <= c <= r - 1,
        ;
    } else if r < c {
        assert((c - 1) * (c - 1) >= r * r) by (nonlinear_arith)
            requires
                0 <= r <= c - 1,
        ;
    }
}

/// Least `r` with `r * r >= x`, for `x < 2^122`.
fn ceil_sqrt_u128(x: u128) -> (r: u128)
    requires
        x < 0x4000000000000000000000000000000,
    ensures
        is_ceil_sqrt(x as int, r as int),
        r <= 0x4000000000000000,
{
    let mut lo: u128 = 0;
    let mut hi: u128 = 0x4000000000000000;
    assert(hi * hi == 0x10000000000000000000000000000000);
    while lo < hi
        invariant
            lo <= hi <= 0x4000000000000000,
            hi * hi >= x,
            lo == 0 || (lo - 1) * (lo - 1) < x,
        decreases hi - lo,
    {
        let mid = lo + (hi - lo) / 2;
        assert(mid * mid <= 0x10000000000000000000000000000000) by (nonlinear_arith)
            requires
                mid <= 0x4000000000000000,
        ;
        if mid * mid >= x {
            hi = mid;
        } else {
            lo = mid + 1;
        }
    }
    lo
}

/// Sum of the intervals, with each positive and at most `n` of them below `2^32`.
fn sum_intervals(xs: &Vec<i64>) -> (r: u128)
    requires
        xs@.len() <= u32::MAX,
        forall|i: int| 0 <= i < xs@.len() ==> xs@[i] > 0,
    ensures
        r == sum_of(xs@),
{
    let mut s: u128 = 0;
    let mut i: usize = 0;
    while i < xs.len()
        invariant
            i <= xs@.len() <= u32::MAX,
            forall|k: int| 0 <= k < xs@.len() ==> xs@[k] > 0,
            s == sum_of(xs@.subrange(0, i as int)),
            s <= i * 0x8000000000000000,
        decreases xs@.len() - i,
    {
        assert(xs@.subrange(0, i + 1).drop_last() =~= xs@.subrange(0, i as int));
        s = s + xs[i] as u128;
        i = i + 1;
    }
    assert(xs@.subrange(0, i as int) =~= xs@);
    s
}

proof fn lemma_sum_bounds(xs: Seq<i64>, k: int)
    requires
        0 <= k < xs.len(),
        forall|i: int| 0 <= i < xs.len() ==> xs[i] > 0,
    ensures
        xs[k] <= sum_of(xs),
        sum_of(xs) >= 0,
    decreases xs.len(),
{
    let ys = xs.drop_last();
    assert forall|i: int| 0 <= i < ys.len() implies ys[i] > 0 by {
        assert(ys[i] == xs[i]);
    }
    if ys.len() > 0 {
        if k < ys.len() {
            lemma_sum_bounds(ys, k);
            assert(ys[k] == xs[k]);
        } else {
            lemma_sum_bounds(ys, 0);
        }
    } else {
        assert(sum_of(ys) == 0);
    }
}

/// Sum of squares, given that the sum `s` is at most `375 * n`.
fn sum_sq_intervals(xs: &Vec<i64>, s: u128) -> (r: u128)
    requires
        xs@.len() <= u32::MAX,
        forall|i: int| 0 <= i < xs@.len() ==> xs@[i] > 0,
        s == sum_of(xs@),
        s <= 375 * xs@.len(),
    ensures
        r == sum_sq_of(xs@),
        r <= s * s,
        s * s <= 0x10000000000000000000000,
{
    let mut q: u128 = 0;
    let mut t: u128 = 0;
    let mut i: usize = 0;
    assert(s * s <= 0x10000000000000000000000) by (nonlinear_arith)
        requires
            s <= 375 * 0xffffffff,
    ;
    while i < xs.len()
        invariant
            i <= xs@.len() <= u32::MAX,
            forall|k: int| 0 <= k < xs@.len() ==> xs@[k] > 0,
            s == sum_of(xs@),
            s * s <= 0x10000000000000000000000,
            t == sum_of(xs@.subrange(0, i as int)),
            q == sum_sq_of(xs@.subrange(0, i as int)),
            t <= s,
            q <= t * t,
        decreases xs@.len() - i,
    {
        let ghost pre = xs@.subrange(0, i + 1);
        assert(pre.drop_last() =~= xs@.subrange(0, i as int));
        proof {
            lemma_sum_bounds(xs@, i as int);
            let rest = xs@.subrange(i as int, xs@.len() as int);
            assert(xs@ =~= xs@.subrange(0, i as int) + rest);
            lemma_sum_split(xs@.subrange(0, i as int), rest);
            lemma_sum_bounds(rest, 0);
            assert(rest[0] == xs@[i as int]);
        }
        let x = xs[i] as u128;
        assert(t + x <= s);
        assert(q + x * x <= (t + x) * (t + x)) by (nonlinear_arith)
            requires
                q <= t * t,
                x > 0,
        ;
        assert((t + x) * (t + x) <= s * s) by (nonlinear_arith)
            requires
                t + x <= s,
        ;
        q = q + x * x;
        t = t + x;
        i = i + 1;
    }
    assert(xs@.subrange(0, i as int) =~= xs@);
    q
}

proof fn lemma_sum_split(a: Seq<i64>, b: Seq<i64>)
    ensures
        sum_of(a + b) == sum_of(a) + sum_of(b),
    decreases b.len(),
{
    if b.len() > 0 {
        assert((a + b).drop_last() =~= a + b.drop_last());
        lemma_sum_split(a, b.drop_last());
    } else {
        assert(a + b =~= a);
    }
}

proof fn lemma_constant_sums(xs: Seq<i64>, p: int)
    requires
        forall|i: int| 0 <= i < xs.len() ==> xs[i] == p,
    ensures
        sum_of(xs) == xs.len() * p,
        sum_sq_of(xs) == xs.len() * (p * p),
    decreases xs.len(),
{
    if xs.len() > 0 {
        let ys = xs.drop_last();
        assert forall|i: int| 0 <= i < ys.len() implies ys[i] == p by {
            assert(ys[i] == xs[i]);
        }
        lemma_constant_sums(ys, p);
        assert(xs.last() == p);
        assert(sum_of(xs) == ys.len() * p + p);
        assert(ys.len() * p + p == xs.len() * p) by (nonlinear_arith)
            requires
                xs.len() == ys.len() + 1,
        ;
        assert(ys.len() * (p * p) + p * p == xs.len() * (p * p)) by (nonlinear_arith)
            requires
                xs.len() == ys.len() + 1,
        ;
    }
}

/// Charges exactly one reference period apart are classified with that period's label and
/// full confidence.
pub proof fn lemma_regular_intervals_full_confidence(xs: Seq<i64>, f: Frequency)
    requires
        xs.len() > 0,
        forall|i: int| 0 <= i < xs.len() ==> xs[i] == period_of(f),
    ensures
        classify(xs) == Some((f, 1000000u32)),
{
    let n = xs.len() as int;
    let p = period_of(f) as int;
    lemma_constant_sums(xs, p);
    assert(n * (n * (p * p)) == (n * p) * (n * p)) by (nonlinear_arith);
    assert(spread(n, n * p, n * (p * p)) == 0);
    lemma_ceil_sqrt_unique(0, 0);
    assert(1000000000000 * 0 == 0);
    assert(n * p > 0) by (nonlinear_arith)
        requires
            n > 0,
            p > 0,
    ;
    assert((0 + n * p - 1) / (n * p) == 0) by (nonlinear_arith)
        requires
            n * p > 0,
    ;
    assert(0 <= 1 * n * p * (n * p)) by (nonlinear_arith)
        requires
            n * p > 0,
    ;
    match f {
        Frequency::Weekly => {
            assert(6 * n <= n * 7 <= 8 * n);
        },
        Frequency::Biweekly => {
            assert(12 * n <= n * 14 <= 16 * n);
            assert(!(25 * n <= n * 14)) by (nonlinear_arith)
                requires
                    n > 0,
            ;
            assert(!(n * 14 <= 8 * n)) by (nonlinear_arith)
                requires
                    n > 0,
            ;
        },
        Frequency::Monthly => {
            assert(25 * n <= n * 30 <= 35 * n);
        },
        Frequency::Yearly => {
            assert(355 * n <= n * 365 <= 375 * n);
            assert(!(n * 365 <= 35 * n)) by (nonlinear_arith)
                requires
                    n > 0,
            ;
        },
    }
}

/// Frequency label and confidence (in millionths) of a list of positive day intervals.
pub fn detect_frequency(xs: &Vec<i64>) -> (r: Option<(Frequency, u32)>)
    requires
        xs@.len() <= u32::MAX,
        forall|i: int| 0 <= i < xs@.len() ==> xs@[i] > 0,
    ensures
        r == classify(xs@),
{
    let n = xs.len() as u128;
    if n == 0 {
        return None;
    }
    let s = sum_intervals(xs);
    let f = if 25 * n <= s && s <= 35 * n {
        Frequency::Monthly
    } else if 355 * n <= s && s <= 375 * n {
        Frequency::Yearly
    } else if 6 * n <= s && s <= 8 * n {
        Frequency::Weekly
    } else if 12 * n <= s && s <= 16 * n {
        Frequency::Biweekly
    } else {
        return None;
    };
    let q = sum_sq_intervals(xs, s);
    assert(n * q <= 0xffffffff * 0x10000000000000000000000) by (nonlinear_arith)
        requires
            n <= 0xffffffff,
            q <= s * s,
            s * s <= 0x10000000000000000000000,
    ;
    let d: u128 = if n * q >= s * s {
        n * q - s * s
    } else {
        0
    };
    let period = f.period_days() as u128;
    assert(1 <= period <= 365);
    assert(n * period <= 0xffffffff * 365) by (nonlinear_arith)
        requires
            n <= 0xffffffff,
            period <= 365,
    ;
    let scale = n * period;
    assert(scale * scale <= 0x400000000000000000000) by (nonlinear_arith)
        requires
            scale == n * period,
            n <= 0xffffffff,
            period <= 365,
    ;
    let ppm: u128 = if d > scale * scale {
        0
    } else {
        assert(1000000000000 * d <= 1000000000000 * (scale * scale)) by (nonlinear_arith)
            requires
                d <= scale * scale,
        ;
        let x = 1000000000000 * d;
        let root = ceil_sqrt_u128(x);
        proof {
            lemma_ceil_sqrt_unique(x as int, root as int);
            let big = 1000000 * scale;
            assert(big * big == x + 1000000000000 * (scale * scale - d)) by (nonlinear_arith)
                requires
                    big == 1000000 * scale,
                    x == 1000000000000 * d,
            ;
            if root > big {
                assert((root - 1) * (root - 1) >= big * big) by (nonlinear_arith)
                    requires
                        root - 1 >= big >= 0,
                ;
            }
        }
        assert(scale > 0) by (nonlinear_arith)
            requires
                scale == n * period,
                n > 0,
                period > 0,
        ;
        assert(root + scale <= 1000001 * scale);
        let loss = (root + scale - 1) / scale;
        assert(loss <= 1000000) by (nonlinear_arith)
            requires
                loss as int == (root + scale - 1) as int / scale as int,
                root <= 1000000 * scale,
                scale > 0,
        ;
        1000000 - loss
    };
    Some((f, ppm as u32))
}

} // verus!

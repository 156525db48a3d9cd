//! Parsers for the date and amount fields of a bank export.
use vstd::prelude::*;
use crate::error::ImportError;
use crate::text::{chars_of, string_of, trim_chars, trim_seq};

verus! {

pub open spec fn is_digit(c: char) -> bool {
    '0' <= c && c <= '9'
}

pub open spec fn all_digits(s: Seq<char>) -> bool {
    forall|i: int| 0 <= i < s.len() ==> is_digit(#[trigger] s[i])
}

pub open spec fn digit_val(c: char) -> nat {
    (c as u32 - '0' as u32) as nat
}

/// The number that a string of decimal digits denotes.
pub open spec fn digits_value(s: Seq<char>) -> nat
    decreases s.len(),
{
    if s.len() == 0 {
        0
    } else {
        digits_value(s.drop_last()) * 10 + digit_val(s.last())
    }
}

/// What `u32::from_str` accepts: an optional `+`, then one or more digits, at most `u32::MAX`.
pub open spec fn u32_of(s: Seq<char>) -> Option<u32> {
    let d = if s.len() > 0 && s[0] == '+' {
        s.drop_first()
    } else {
        s
    };
    if d.len() > 0 && all_digits(d) && digits_value(d) <= u32::MAX {
        Some(digits_value(d) as u32)
    } else {
        None
    }
}

pub open spec fn is_date_sep(c: char) -> bool {
    c == '-' || c == '/' || c == '.'
}

/// The pieces of `s` between date separators (`-`, `/`, `.`), as `str::split` yields them.
pub open spec fn split_date(s: Seq<char>) -> Seq<Seq<char>>
    decreases s.len(),
{
    if s.len() == 0 {
        seq![Seq::empty()]
    } else {
        let r = split_date(s.drop_last());
        if is_date_sep(s.last()) {
            r.push(Seq::empty())
        } else {
            r.update(r.len() - 1, r.last().push(s.last()))
        }
    }
}

/// Day, month and year of a day-month-year date field, when it is one.
pub open spec fn date_fields(s: Seq<char>) -> Option<(u32, u32, u32)> {
    let t = trim_seq(s);
    let p = split_date(t);
    if t.len() == 0 || p.len() != 3 {
        None
    } else {
        match (u32_of(p[0]), u32_of(p[1]), u32_of(p[2])) {
            (Some(d), Some(m), Some(y)) => if 1 <= m <= 12 && 1 <= d <= 31 {
                Some((d, m, y))
            } else {
                None
            },
            _ => None,
        }
    }
}

pub open spec fn digit_char(d: nat) -> char {
    seq!['0', '1', '2', '3', '4', '5', '6', '7', '8', '9'][d as int]
}

/// Decimal notation of `n`, without leading zeros.
pub open spec fn decimal(n: nat) -> Seq<char>
    decreases n,
{
    if n < 10 {
        seq![digit_char(n)]
    } else {
        decimal(n / 10).push(digit_char(n % 10))
    }
}

/// `s` with zeros put before it up to width `w`.
pub open spec fn zero_pad(s: Seq<char>, w: nat) -> Seq<char> {
    if s.len() >= w {
        s
    } else {
        Seq::new((w - s.len()) as nat, |_i: int| '0') + s
    }
}

/// `YYYY-MM-DD`, each part zero-padded.
pub open spec fn iso_date(d: u32, m: u32, y: u32) -> Seq<char> {
    zero_pad(decimal(y as nat), 4) + seq!['-'] + zero_pad(decimal(m as nat), 2) + seq!['-']
        + zero_pad(decimal(d as nat), 2)
}

fn digit_char_of(d: u32) -> (c: char)
    requires
        d < 10,
    ensures
        c == digit_char(d as nat),
{
    let table = ['0', '1', '2', '3', '4', '5', '6', '7', '8', '9'];
    assert(table@ == seq!['0', '1', '2', '3', '4', '5', '6', '7', '8', '9']);
    table[d as usize]
}

fn push_decimal(out: &mut Vec<char>, n: u32)
    ensures
        final(out)@ == old(out)@ + decimal(n as nat),
    decreases n,
{
    let c = digit_char_of(n % 10);
    if n >= 10 {
        push_decimal(out, n / 10);
        out.push(c);
        assert(final(out)@ =~= old(out)@ + decimal(n as nat));
    } else {
        out.push(c);
        assert(final(out)@ =~= old(out)@ + decimal(n as nat));
    }
}

fn push_padded(out: &mut Vec<char>, n: u32, w: usize)
    ensures
        final(out)@ == old(out)@ + zero_pad(decimal(n as nat), w as nat),
{
    let mut digits: Vec<char> = Vec::new();
    push_decimal(&mut digits, n);
    assert(digits@ =~= decimal(n as nat));
    let ghost start = out@;
    if digits.len() < w {
        let fill = w - digits.len();
        let mut i: usize = 0;
        while i < fill
            invariant
                i <= fill,
                out@ == start + Seq::new(i as nat, |_k: int| '0'),
            decreases fill - i,
        {
            out.push('0');
            i = i + 1;
            assert(out@ =~= start + Seq::new(i as nat, |_k: int| '0'));
        }
    }
    let ghost mid = out@;
    let mut j: usize = 0;
    while j < digits.len()
        invariant
            j <= digits@.len(),
            out@ == mid + digits@.subrange(0, j as int),
        decreases digits@.len() - j,
    {
        out.push(digits[j]);
        j = j + 1;
        assert(out@ =~= mid + digits@.subrange(0, j as int));
    }
    assert(digits@.subrange(0, j as int) =~= digits@);
    assert(out@ =~= start + zero_pad(decimal(n as nat), w as nat));
}

proof fn lemma_digits_value_grows(s: Seq<char>, c: char)
    requires
        is_digit(c),
    ensures
        digits_value(s.push(c)) >= digits_value(s),
        digits_value(s.push(c)) == digits_value(s) * 10 + digit_val(c),
{
    assert(s.push(c).drop_last() =~= s);
}

/// Value of the digits `s[lo..hi]`, when all are digits and the value is at most `cap`.
pub fn parse_digits(s: &Vec<char>, lo: usize, hi: usize, cap: u64) -> (r: Option<u64>)
    requires
        lo <= hi <= s@.len(),
    ensures
        r == (if all_digits(s@.subrange(lo as int, hi as int)) && digits_value(
            s@.subrange(lo as int, hi as int),
        ) <= cap {
            Some(digits_value(s@.subrange(lo as int, hi as int)) as u64)
        } else {
            None
        }),
{
    let mut acc: u64 = 0;
    let mut over = false;
    let mut i: usize = lo;
    while i < hi
        invariant
            lo <= i <= hi <= s@.len(),
            all_digits(s@.subrange(lo as int, i as int)),
            over ==> digits_value(s@.subrange(lo as int, i as int)) > cap,
            !over ==> acc == digits_value(s@.subrange(lo as int, i as int)) && acc <= cap,
        decreases hi - i,
    {
        let c = s[i];
        if !('0' <= c && c <= '9') {
            assert(s@.subrange(lo as int, hi as int)[i - lo] == c);
            return None;
        }
        let d = (c as u32 - '0' as u32) as u64;
        proof {
            lemma_digits_value_grows(s@.subrange(lo as int, i as int), c);
            assert(s@.subrange(lo as int, i as int).push(c) =~= s@.subrange(lo as int, i + 1));
        }
        if !over {
            if d > cap || acc > (cap - d) / 10 {
                over = true;
                assert(acc * 10 + d > cap) by (nonlinear_arith)
                    requires
                        d > cap || acc > (cap - d) / 10,
                ;
            } else {
                assert(acc * 10 + d <= cap) by (nonlinear_arith)
                    requires
                        acc <= (cap - d) / 10,
                        d <= cap,
                ;
                acc = acc * 10 + d;
            }
        }
        i = i + 1;
    }
    if over {
        None
    } else {
        Some(acc)
    }
}

/// Parses a field as `u32::from_str` does.
pub fn parse_u32_chars(p: &Vec<char>) -> (r: Option<u32>)
    ensures
        r == u32_of(p@),
{
    let lo: usize = if p.len() > 0 && p[0] == '+' {
        1
    } else {
        0
    };
    let ghost d = if p@.len() > 0 && p@[0] == '+' {
        p@.drop_first()
    } else {
        p@
    };
    assert(d =~= p@.subrange(lo as int, p@.len() as int));
    if lo == p.len() {
        return None;
    }
    match parse_digits(p, lo, p.len(), 4294967295u64) {
        Some(v) => Some(v as u32),
        None => None,
    }
}

pub open spec fn pieces_view(parts: Seq<Vec<char>>) -> Seq<Seq<char>> {
    parts.map_values(|v: Vec<char>| v@)
}

/// Splits `t` at each date separator.
fn split_date_chars(t: &Vec<char>) -> (r: Vec<Vec<char>>)
    ensures
        pieces_view(r@) == split_date(t@),
{
    let mut parts: Vec<Vec<char>> = Vec::new();
    let mut cur: Vec<char> = Vec::new();
    let mut i: usize = 0;
    assert(t@.subrange(0, 0) =~= Seq::<char>::empty());
    assert(pieces_view(parts@).push(cur@) =~= seq![Seq::<char>::empty()]);
    while i < t.len()
        invariant
            i <= t@.len(),
            split_date(t@.subrange(0, i as int)) == pieces_view(parts@).push(cur@),
        decreases t@.len() - i,
    {
        let c = t[i];
        let ghost before = pieces_view(parts@).push(cur@);
        assert(t@.subrange(0, i + 1).drop_last() =~= t@.subrange(0, i as int));
        assert(t@.subrange(0, i + 1).last() == c);
        if c == '-' || c == '/' || c == '.' {
            let done = cur;
            parts.push(done);
            cur = Vec::new();
            assert(pieces_view(parts@).push(cur@) =~= before.push(Seq::empty()));
        } else {
            cur.push(c);
            assert(pieces_view(parts@).push(cur@) =~= before.update(
                before.len() - 1,
                before.last().push(c),
            ));
        }
        i = i + 1;
    }
    assert(t@.subrange(0, i as int) =~= t@);
    parts.push(cur);
    assert(pieces_view(parts@) =~= split_date(t@));
    parts
}

/// The ISO form of a day-month-year date field, when it is one.
pub open spec fn date_text(s: Seq<char>) -> Option<Seq<char>> {
    match date_fields(s) {
        Some((d, m, y)) => Some(iso_date(d, m, y)),
        None => None,
    }
}

pub open spec fn is_invalid_date(e: ImportError, t: Seq<char>) -> bool {
    match e {
        ImportError::InvalidDate(x) => x@ == t,
        _ => false,
    }
}

/// Reads a `DD-MM-YYYY` date (separators `-`, `/` or `.`) and writes it as `YYYY-MM-DD`.
pub fn parse_danish_date(s: &str) -> (r: Result<String, ImportError>)
    ensures
        match r {
            Ok(v) => date_text(s@) == Some(v@),
            Err(e) => date_text(s@) is None && is_invalid_date(e, trim_seq(s@)),
        },
{
    let all = chars_of(s);
    let t = trim_chars(&all);
    let bad = ImportError::InvalidDate(string_of(t.as_slice()));
    if t.len() == 0 {
        return Err(bad);
    }
    let parts = split_date_chars(&t);
    if parts.len() != 3 {
        return Err(bad);
    }
    assert(pieces_view(parts@)[0] == parts@[0]@);
    assert(pieces_view(parts@)[1] == parts@[1]@);
    assert(pieces_view(parts@)[2] == parts@[2]@);
    let day = parse_u32_chars(&parts[0]);
    let month = parse_u32_chars(&parts[1]);
    let year = parse_u32_chars(&parts[2]);
    match (day, month, year) {
        (Some(d), Some(m), Some(y)) => {
            if m < 1 || m > 12 || d < 1 || d > 31 {
                return Err(bad);
            }
            let mut out: Vec<char> = Vec::new();
            push_padded(&mut out, y, 4);
            out.push('-');
            push_padded(&mut out, m, 2);
            out.push('-');
            push_padded(&mut out, d, 2);
            assert(out@ =~= iso_date(d, m, y));
            Ok(string_of(out.as_slice()))
        },
        _ => Err(bad),
    }
}

/// The amount text with `.` removed and `,` turned into `.`.
pub open spec fn clean_amount(s: Seq<char>) -> Seq<char>
    decreases s.len(),
{
    if s.len() == 0 {
        Seq::empty()
    } else {
        let r = clean_amount(s.drop_last());
        if s.last() == '.' {
            r
        } else if s.last() == ',' {
            r.push('.')
        } else {
            r.push(s.last())
        }
    }
}

pub open spec fn sign_len(t: Seq<char>) -> int {
    if t.len() > 0 && (t[0] == '+' || t[0] == '-') {
        1
    } else {
        0
    }
}

/// The fraction digits of `b` when its integer part ends at `k`.
pub open spec fn frac_part(b: Seq<char>, k: int) -> Seq<char> {
    if k < b.len() {
        b.subrange(k + 1, b.len() as int)
    } else {
        Seq::empty()
    }
}

/// `k` splits the unsigned number `b` into digits, an optional `.`, and digits,
/// with at least one digit in all.
pub open spec fn point_at(b: Seq<char>, k: int) -> bool {
    &&& 0 <= k <= b.len()
    &&& k == b.len() || b[k] == '.'
    &&& all_digits(b.subrange(0, k))
    &&& all_digits(frac_part(b, k))
    &&& k + frac_part(b, k).len() > 0
}

pub open spec fn frac_digit(f: Seq<char>, i: int) -> nat {
    if i < f.len() {
        digit_val(f[i])
    } else {
        0
    }
}

/// Hundredths of the fraction `f`, rounded half away from zero.
pub open spec fn frac_cents(f: Seq<char>) -> nat {
    10 * frac_digit(f, 0) + frac_digit(f, 1) + if frac_digit(f, 2) >= 5 {
        1nat
    } else {
        0nat
    }
}

/// Minor units that a decimal number denotes, rounded to the nearest hundredth.
pub open spec fn minor_units(t: Seq<char>) -> Option<int> {
    match unsigned_minor(t.subrange(sign_len(t), t.len() as int)) {
        Some(m) => if m > i64::MAX {
            None
        } else if sign_len(t) == 1 && t[0] == '-' {
            Some(-m)
        } else {
            Some(m as int)
        },
        None => None,
    }
}

/// Minor units of a Danish amount field (`.` groups thousands, `,` marks decimals).
pub open spec fn amount_of(s: Seq<char>) -> Option<int> {
    let t = trim_seq(s);
    if t.len() == 0 {
        None
    } else {
        minor_units(clean_amount(t))
    }
}

pub open spec fn is_invalid_amount(e: ImportError, t: Seq<char>) -> bool {
    match e {
        ImportError::InvalidAmount(x) => x@ == t,
        _ => false,
    }
}

fn clean_amount_chars(t: &Vec<char>) -> (r: Vec<char>)
    ensures
        r@ == clean_amount(t@),
{
    let mut r: Vec<char> = Vec::new();
    let mut i: usize = 0;
    while i < t.len()
        invariant
            i <= t@.len(),
            r@ == clean_amount(t@.subrange(0, i as int)),
        decreases t@.len() - i,
    {
        let c = t[i];
        assert(t@.subrange(0, i + 1).drop_last() =~= t@.subrange(0, i as int));
        if c == ',' {
            r.push('.');
        } else if c != '.' {
            r.push(c);
        }
        i = i + 1;
    }
    assert(t@.subrange(0, i as int) =~= t@);
    r
}

proof fn lemma_point_unique(b: Seq<char>, k: int, j: int)
    requires
        point_at(b, k),
        point_at(b, j),
    ensures
        k == j,
{
    if k < j {
        assert(b.subrange(0, j)[k] == b[k]);
    } else if j < k {
        assert(b.subrange(0, k)[j] == b[j]);
    }
}

/// Whether `c[lo..hi]` holds only digits.
fn digits_only(c: &Vec<char>, lo: usize, hi: usize) -> (r: bool)
    requires
        lo <= hi <= c@.len(),
    ensures
        r == all_digits(c@.subrange(lo as int, hi as int)),
{
    let mut i: usize = lo;
    while i < hi
        invariant
            lo <= i <= hi <= c@.len(),
            forall|j: int| lo <= j < i ==> is_digit(#[trigger] c@[j]),
        decreases hi - i,
    {
        if !('0' <= c[i] && c[i] <= '9') {
            assert(c@.subrange(lo as int, hi as int)[i - lo] == c@[i as int]);
            return false;
        }
        i = i + 1;
    }
    assert forall|j: int| 0 <= j < hi - lo implies is_digit(
        #[trigger] c@.subrange(lo as int, hi as int)[j],
    ) by {
        assert(c@.subrange(lo as int, hi as int)[j] == c@[lo + j]);
    }
    true
}

/// Index of the first `.` at or after `lo`, or the length when there is none.
fn first_point(c: &Vec<char>, lo: usize) -> (k: usize)
    requires
        lo <= c@.len(),
    ensures
        lo <= k <= c@.len(),
        k == c@.len() || c@[k as int] == '.',
        forall|i: int| lo <= i < k ==> c@[i] != '.',
{
    let mut k: usize = lo;
    while k < c.len() && c[k] != '.'
        invariant
            lo <= k <= c@.len(),
            forall|i: int| lo <= i < k ==> c@[i] != '.',
        decreases c@.len() - k,
    {
        k = k + 1;
    }
    k
}

fn digit_at(c: &Vec<char>, i: usize) -> (d: u64)
    requires
        i < c@.len() ==> is_digit(c@[i as int]),
    ensures
        d == (if i < c@.len() { digit_val(c@[i as int]) } else { 0 }),
        d <= 9,
{
    if i < c.len() {
        (c[i] as u32 - '0' as u32) as u64
    } else {
        0
    }
}

/// The unsigned minor units that `b` denotes, when it is a decimal number.
pub open spec fn unsigned_minor(b: Seq<char>) -> Option<nat> {
    if exists|k: int| point_at(b, k) {
        let k = choose|k: int| point_at(b, k);
        Some(digits_value(b.subrange(0, k)) * 100 + frac_cents(frac_part(b, k)))
    } else {
        None
    }
}

/// Minor units of the unsigned number `c[lo..]`, when it is one and fits in `i64`.
fn unsigned_minor_chars(c: &Vec<char>, lo: usize) -> (r: Option<u64>)
    requires
        lo <= c@.len(),
    ensures
        match unsigned_minor(c@.subrange(lo as int, c@.len() as int)) {
            Some(m) => if m <= i64::MAX {
                r == Some(m as u64)
            } else {
                r is None
            },
            None => r is None,
        },
{
    let n = c.len();
    let ghost b = c@.subrange(lo as int, n as int);
    let k = first_point(c, lo);
    let ghost kb = k - lo;
    assert(b.subrange(0, kb) =~= c@.subrange(lo as int, k as int));
    let frac_lo: usize = if k < n {
        k + 1
    } else {
        n
    };
    assert(frac_part(b, kb) =~= c@.subrange(frac_lo as int, n as int));
    proof {
        assert forall|j: int| point_at(b, j) implies j == kb by {
            if j < kb {
                assert(b[j] == c@[lo + j]);
            } else if j > kb {
                assert(b.subrange(0, j)[kb] == b[kb]);
            }
        }
    }
    let frac_ok = digits_only(c, frac_lo, n);
    if !frac_ok || (k == lo && frac_lo == n) {
        assert(!point_at(b, kb));
        return None;
    }
    let whole = parse_digits(c, lo, k, 92233720368547758u64);
    let w = match whole {
        Some(w) => w,
        None => {
            proof {
                if exists|j: int| point_at(b, j) {
                    assert(point_at(b, kb));
                    assert(digits_value(b.subrange(0, kb)) * 100 > i64::MAX);
                }
            }
            return None;
        },
    };
    assert(point_at(b, kb));
    let ghost f = frac_part(b, kb);
    let d0 = digit_at(c, frac_lo);
    let d1 = if n - frac_lo > 1 {
        digit_at(c, frac_lo + 1)
    } else {
        0
    };
    let d2 = if n - frac_lo > 2 {
        digit_at(c, frac_lo + 2)
    } else {
        0
    };
    assert(d0 == frac_digit(f, 0) && d1 == frac_digit(f, 1) && d2 == frac_digit(f, 2));
    let up: u64 = if d2 >= 5 {
        1
    } else {
        0
    };
    let m: u64 = w * 100 + 10 * d0 + d1 + up;
    if m > 9223372036854775807u64 {
        return None;
    }
    Some(m)
}

/// Reads a Danish amount (`-1.234,56`) as a signed number of minor units.
pub fn parse_danish_amount(s: &str) -> (r: Result<i64, ImportError>)
    ensures
        match r {
            Ok(v) => amount_of(s@) == Some(v as int),
            Err(e) => amount_of(s@) is None && is_invalid_amount(e, trim_seq(s@)),
        },
{
    let all = chars_of(s);
    let t = trim_chars(&all);
    let bad = ImportError::InvalidAmount(string_of(t.as_slice()));
    if t.len() == 0 {
        return Err(bad);
    }
    let c = clean_amount_chars(&t);
    let sl: usize = if c.len() > 0 && (c[0] == '+' || c[0] == '-') {
        1
    } else {
        0
    };
    match unsigned_minor_chars(&c, sl) {
        Some(m) => {
            if sl == 1 && c[0] == '-' {
                Ok(-(m as i64))
            } else {
                Ok(m as i64)
            }
        },
        None => Err(bad),
    }
}

} // verus!

//! Payee normalization: the pattern that groups recurring charges.
use vstd::prelude::*;
use crate::text::{chars_of, is_whitespace, is_ws, lower_of, lowercase, string_of};

verus! {

/// What `char::is_alphabetic` says of a character.
pub uninterp spec fn alphabetic_of(c: char) -> bool;

/// Relies on `char::is_alphabetic`: the Unicode `Alphabetic` property of the character.
#[verifier::external_body]
fn is_alphabetic(c: char) -> (r: bool)
    ensures
        r == alphabetic_of(c),
{
    c.is_alphabetic()
}

/// The letters and white space of `s`, in order.
pub open spec fn keep_letters(s: Seq<char>) -> Seq<char>
    decreases s.len(),
{
    if s.len() == 0 {
        Seq::empty()
    } else if alphabetic_of(s.last()) || is_ws(s.last()) {
        keep_letters(s.drop_last()).push(s.last())
    } else {
        keep_letters(s.drop_last())
    }
}

/// The maximal runs of non-white-space characters, as `str::split_whitespace` yields them.
pub open spec fn words(s: Seq<char>) -> Seq<Seq<char>>
    decreases s.len(),
{
    if s.len() == 0 {
        Seq::empty()
    } else {
        let r = words(s.drop_last());
        if is_ws(s.last()) {
            r
        } else if s.len() > 1 && !is_ws(s[s.len() - 2]) {
            r.update(r.len() - 1, r.last().push(s.last()))
        } else {
            r.push(seq![s.last()])
        }
    }
}

/// The words joined by single spaces.
pub open spec fn join_words(ws: Seq<Seq<char>>) -> Seq<char>
    decreases ws.len(),
{
    if ws.len() == 0 {
        Seq::empty()
    } else if ws.len() == 1 {
        ws[0]
    } else {
        join_words(ws.drop_last()) + seq![' '] + ws.last()
    }
}

pub open spec fn take_upto(ws: Seq<Seq<char>>, k: nat) -> Seq<Seq<char>> {
    if ws.len() <= k {
        ws
    } else {
        ws.subrange(0, k as int)
    }
}

/// The first three words of `s`, joined by single spaces.
pub open spec fn first_three_words_of(s: Seq<char>) -> Seq<char> {
    join_words(take_upto(words(s), 3))
}

/// The normalized pattern of a payee: lower case, letters and white space only, first three
/// words.
pub open spec fn payee_pattern(p: Seq<char>) -> Seq<char> {
    first_three_words_of(keep_letters(lower_of(p)))
}

pub open spec fn words_view(ws: Seq<Vec<char>>) -> Seq<Seq<char>> {
    ws.map_values(|w: Vec<char>| w@)
}

/// Splits `s` into its white-space separated words.
pub fn split_words(s: &Vec<char>) -> (r: Vec<Vec<char>>)
    ensures
        words_view(r@) == words(s@),
{
    let mut done: Vec<Vec<char>> = Vec::new();
    let mut cur: Vec<char> = Vec::new();
    let mut in_word = false;
    let mut i: usize = 0;
    assert(s@.subrange(0, 0) =~= Seq::<char>::empty());
    while i < s.len()
        invariant
            i <= s@.len(),
            in_word == (i > 0 && !is_ws(s@[i - 1])),
            words(s@.subrange(0, i as int)) == if in_word {
                words_view(done@).push(cur@)
            } else {
                words_view(done@)
            },
        decreases s@.len() - i,
    {
        let c = s[i];
        let ghost pre = s@.subrange(0, i + 1);
        assert(pre.drop_last() =~= s@.subrange(0, i as int));
        assert(pre.last() == c);
        assert(i > 0 ==> pre[i - 1] == s@[i - 1]);
        if is_whitespace(c) {
            if in_word {
                let w = cur;
                done.push(w);
                cur = Vec::new();
                assert(words_view(done@) =~= words(s@.subrange(0, i as int)));
            }
            in_word = false;
        } else {
            if in_word {
                let ghost before = words_view(done@).push(cur@);
                cur.push(c);
                assert(words_view(done@).push(cur@) =~= before.update(
                    before.len() - 1,
                    before.last().push(c),
                ));
            } else {
                cur = Vec::new();
                cur.push(c);
                assert(cur@ =~= seq![c]);
                in_word = true;
            }
        }
        i = i + 1;
    }
    assert(s@.subrange(0, i as int) =~= s@);
    if in_word {
        done.push(cur);
    }
    assert(words_view(done@) =~= words(s@));
    done
}

/// The first three words of the text, joined by single spaces.
pub fn first_three_words(s: &Vec<char>) -> (r: Vec<char>)
    ensures
        r@ == first_three_words_of(s@),
{
    let ws = split_words(s);
    let k: usize = if ws.len() <= 3 {
        ws.len()
    } else {
        3
    };
    let ghost all = words_view(ws@);
    let ghost taken = take_upto(all, 3);
    assert(taken =~= all.subrange(0, k as int));
    let mut out: Vec<char> = Vec::new();
    let mut j: usize = 0;
    assert(all.subrange(0, 0) =~= Seq::<Seq<char>>::empty());
    while j < k
        invariant
            j <= k <= ws@.len(),
            all == words_view(ws@),
            out@ == join_words(all.subrange(0, j as int)),
        decreases k - j,
    {
        let ghost before = out@;
        let ghost sub = all.subrange(0, j + 1);
        assert(sub.drop_last() =~= all.subrange(0, j as int));
        assert(sub.last() == ws@[j as int]@);
        if j > 0 {
            out.push(' ');
        }
        let w = &ws[j];
        let mut m: usize = 0;
        let ghost mid = out@;
        while m < w.len()
            invariant
                m <= w@.len(),
                out@ == mid + w@.subrange(0, m as int),
            decreases w@.len() - m,
        {
            out.push(w[m]);
            m = m + 1;
            assert(out@ =~= mid + w@.subrange(0, m as int));
        }
        assert(w@.subrange(0, m as int) =~= w@);
        if j == 0 {
            assert(sub.len() == 1);
            assert(out@ =~= join_words(sub));
        } else {
            assert(out@ =~= before + seq![' '] + w@);
        }
        j = j + 1;
    }
    out
}

/// The letters and white space of the text.
pub fn keep_letters_chars(s: &Vec<char>) -> (r: Vec<char>)
    ensures
        r@ == keep_letters(s@),
{
    let mut r: Vec<char> = Vec::new();
    let mut i: usize = 0;
    while i < s.len()
        invariant
            i <= s@.len(),
            r@ == keep_letters(s@.subrange(0, i as int)),
        decreases s@.len() - i,
    {
        let c = s[i];
        assert(s@.subrange(0, i + 1).drop_last() =~= s@.subrange(0, i as int));
        if is_alphabetic(c) || is_whitespace(c) {
            r.push(c);
        }
        i = i + 1;
    }
    assert(s@.subrange(0, i as int) =~= s@);
    r
}

/// Normalizes a payee for grouping: lower case, letters and white space only, first three
/// words joined by single spaces.
pub fn normalize_payee(payee: &str) -> (r: String)
    ensures
        r@ == payee_pattern(payee@),
{
    let lower = lowercase(payee);
    let cs = chars_of(lower.as_str());
    let letters = keep_letters_chars(&cs);
    let pattern = first_three_words(&letters);
    string_of(pattern.as_slice())
}

} // verus!

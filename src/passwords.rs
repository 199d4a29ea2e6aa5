//! Counting candidate passwords: numbers whose decimal digits never decrease
//! from left to right and that hold a pair of equal adjacent digits which is
//! not part of a longer run.

use vstd::prelude::*;

verus! {

/// The decimal digits of `n`, most significant first, with no leading zeros
/// (zero itself is the single digit 0).
pub open spec fn digits(n: u32) -> Seq<u32>
    decreases n,
{
    if n < 10 {
        seq![n]
    } else {
        digits((n / 10) as u32).push((n % 10) as u32)
    }
}

/// Whether each digit of `d` is at most the one after it.
pub open spec fn never_decreases(d: Seq<u32>) -> bool {
    forall|i: int| 0 <= i && i + 1 < d.len() ==> #[trigger] d[i] <= d[i + 1]
}

/// Whether `d[i]` and `d[i + 1]` are equal and form a run of exactly two.
pub open spec fn exact_pair_at(d: Seq<u32>, i: int) -> bool {
    &&& 0 <= i
    &&& i + 1 < d.len()
    &&& d[i] == d[i + 1]
    &&& (i == 0 || d[i - 1] != d[i])
    &&& (i + 2 == d.len() || d[i + 2] != d[i])
}

/// Whether `d` holds a run of exactly two equal digits.
pub open spec fn has_exact_pair(d: Seq<u32>) -> bool {
    exists|i: int| exact_pair_at(d, i)
}

/// Whether `n` is a candidate password.
pub open spec fn is_match(n: u32) -> bool {
    never_decreases(digits(n)) && has_exact_pair(digits(n))
}

/// The candidate passwords in `start..end`, in increasing order.
pub open spec fn matches_in(start: u32, end: u32) -> Seq<u32>
    decreases end - start,
{
    if end <= start {
        Seq::empty()
    } else {
        let rest = matches_in(start, (end - 1) as u32);
        if is_match((end - 1) as u32) {
            rest.push((end - 1) as u32)
        } else {
            rest
        }
    }
}

/// The decimal digits of `n`, most significant first.
fn digits_of(n: u32) -> (r: Vec<u32>)
    ensures
        r@ == digits(n),
    decreases n,
{
    if n < 10 {
        vec![n]
    } else {
        let mut d = digits_of(n / 10);
        d.push(n % 10);
        d
    }
}

/// Whether `n` is a candidate password.
fn is_candidate(n: u32) -> (r: bool)
    ensures
        r == is_match(n),
{
    let d = digits_of(n);
    let len = d.len();
    assert(len >= 1);
    let mut i: usize = 0;
    while i + 1 < len
        invariant
            d@ == digits(n),
            len == d@.len(),
            i < len,
            forall|j: int| 0 <= j < i && j + 1 < d@.len() ==> #[trigger] d@[j] <= d@[j + 1],
        decreases len - i,
    {
        if d[i] > d[i + 1] {
            return false;
        }
        i = i + 1;
    }
    let mut i: usize = 0;
    while i + 1 < len
        invariant
            d@ == digits(n),
            len == d@.len(),
            i < len,
            never_decreases(d@),
            forall|j: int| 0 <= j < i ==> !exact_pair_at(d@, j),
        decreases len - i,
    {
        if d[i] == d[i + 1] && (i == 0 || d[i - 1] != d[i]) && (i + 2 == len || d[i + 2]
            != d[i]) {
            assert(exact_pair_at(d@, i as int));
            return true;
        }
        i = i + 1;
    }
    assert forall|j: int| !exact_pair_at(d@, j) by {
        if 0 <= j && j + 1 < d@.len() {
            assert(j < i);
        }
    }
    false
}

/// The candidate passwords in `range`, in increasing order.
pub fn find_matches(range: std::ops::Range<u32>) -> (r: Vec<u32>)
    ensures
        r@ == matches_in(range.start, range.end),
{
    let start = range.start;
    let end = range.end;
    let mut results: Vec<u32> = Vec::new();
    if end <= start {
        return results;
    }
    let mut i: u32 = start;
    while i < end
        invariant
            start <= i <= end,
            results@ == matches_in(start, i),
        decreases end - i,
    {
        if is_candidate(i) {
            results.push(i);
        }
        i = i + 1;
    }
    results
}

} // verus!

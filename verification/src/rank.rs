//! Presentation rules of the command line: ranking by AQI, the history sparkline, and how
//! many cities a country ranking looks at.

use vstd::prelude::*;
use crate::text::string_from_chars;

verus! {

/// `r` lists each position `0..n` exactly once.
pub open spec fn is_ordering_of(r: Seq<usize>, n: nat) -> bool {
    &&& r.len() == n
    &&& forall|i: int| 0 <= i < n ==> r[i] < n
    &&& forall|i: int, j: int| 0 <= i < j < n ==> r[i] != r[j]
}

/// Positions `r` put their values in non-increasing order, equal values keeping their order.
pub open spec fn ranks_descending(v: Seq<u32>, r: Seq<usize>) -> bool {
    &&& forall|i: int, j: int| 0 <= i < j < r.len() ==> v[r[i] as int] >= v[r[j] as int]
    &&& forall|i: int, j: int| 0 <= i < j < r.len() && v[r[i] as int] == v[r[j] as int] ==> r[i] < r[j]
}

/// Order in which results are listed: highest AQI first, ties in input order (as a
/// stable sort by descending AQI lists them).
pub fn rank_descending(aqis: &Vec<u32>) -> (r: Vec<usize>)
    ensures
        is_ordering_of(r@, aqis@.len()),
        ranks_descending(aqis@, r@),
{
    let mut r: Vec<usize> = Vec::new();
    let mut k: usize = 0;
    while k < aqis.len()
        invariant
            k <= aqis@.len(),
            is_ordering_of(r@, k as nat),
            ranks_descending(aqis@, r@),
        decreases aqis@.len() - k,
    {
        let x = aqis[k];
        let mut p: usize = 0;
        while p < r.len() && aqis[r[p]] >= x
            invariant
                p <= r@.len(),
                k < aqis@.len(),
                r@.len() == k,
                forall|i: int| 0 <= i < r@.len() ==> r@[i] < k,
                forall|i: int| 0 <= i < p ==> aqis@[r@[i] as int] >= x,
            decreases r@.len() - p,
        {
            p = p + 1;
        }
        let ghost old_r = r@;
        proof {
            assert forall|j: int| p <= j < old_r.len() implies aqis@[old_r[j] as int] < x by {
                assert(aqis@[old_r[p as int] as int] < x);
                if j > p {
                    assert(aqis@[old_r[p as int] as int] >= aqis@[old_r[j] as int]);
                }
            }
        }
        r.insert(p, k);
        proof {
            assert(r@ == old_r.insert(p as int, k));
            assert forall|i: int, j: int| 0 <= i < j < r@.len() implies r@[i] != r@[j] by {
                if i < p && j < p {
                } else if i < p && j == p {
                    assert(old_r[i] < k);
                } else if i < p && j > p {
                    assert(r@[j] == old_r[j - 1]);
                } else if i == p {
                    assert(r@[j] == old_r[j - 1]);
                    assert(old_r[j - 1] < k);
                } else {
                    assert(r@[i] == old_r[i - 1]);
                    assert(r@[j] == old_r[j - 1]);
                }
            }
            assert forall|i: int, j: int| 0 <= i < j < r@.len() implies aqis@[r@[i] as int] >= aqis@[r@[j] as int] by {
                if j < p {
                } else if j == p {
                } else if i < p {
                    assert(r@[j] == old_r[j - 1]);
                } else if i == p {
                    assert(r@[j] == old_r[j - 1]);
                } else {
                    assert(r@[i] == old_r[i - 1]);
                    assert(r@[j] == old_r[j - 1]);
                }
            }
            assert forall|i: int, j: int| 0 <= i < j < r@.len() && aqis@[r@[i] as int] == aqis@[r@[j] as int]
                implies r@[i] < r@[j] by {
                if j < p {
                } else if j == p {
                    assert(old_r[i] < k);
                } else if i < p {
                    assert(r@[j] == old_r[j - 1]);
                } else if i == p {
                    assert(r@[j] == old_r[j - 1]);
                    assert(aqis@[old_r[j - 1] as int] < x);
                } else {
                    assert(r@[i] == old_r[i - 1]);
                    assert(r@[j] == old_r[j - 1]);
                }
            }
        }
        k = k + 1;
    }
    r
}

/// Number of filled cells of the history sparkline for an AQI.
pub open spec fn sparkline_blocks(aqi: int) -> int {
    if aqi <= 25 {
        1
    } else if aqi <= 50 {
        2
    } else if aqi <= 100 {
        3
    } else if aqi <= 150 {
        4
    } else {
        5
    }
}

/// Five-cell sparkline: `sparkline_blocks(aqi)` full blocks, light shade for the rest.
pub open spec fn spec_sparkline(aqi: int) -> Seq<char> {
    Seq::new(sparkline_blocks(aqi) as nat, |i: int| '\u{2588}') + Seq::new(
        (5 - sparkline_blocks(aqi)) as nat,
        |i: int| '\u{2591}',
    )
}

/// Five-cell bar of a day's AQI in the history view (0-25: one block, ..., above 150: five).
pub fn sparkline(aqi: u32) -> (s: String)
    ensures
        s@ == spec_sparkline(aqi as int),
        s@.len() == 5,
{
    let blocks: u32 = if aqi <= 25 {
        1
    } else if aqi <= 50 {
        2
    } else if aqi <= 100 {
        3
    } else if aqi <= 150 {
        4
    } else {
        5
    };
    let mut out: Vec<char> = Vec::new();
    let mut i: u32 = 0;
    while i < 5
        invariant
            0 <= i <= 5,
            blocks == sparkline_blocks(aqi as int),
            out@ == spec_sparkline(aqi as int).take(i as int),
        decreases 5 - i,
    {
        if i < blocks {
            out.push('\u{2588}');
        } else {
            out.push('\u{2591}');
        }
        i = i + 1;
        assert(out@ == spec_sparkline(aqi as int).take(i as int));
    }
    assert(spec_sparkline(aqi as int).take(5) == spec_sparkline(aqi as int));
    string_from_chars(&out)
}

/// How many cities of a country are fetched to rank `count` of them: at least 5 and at most 15,
/// doubled.
pub fn top_fetch_count(count: usize) -> (n: usize)
    ensures
        n == 2 * (if count < 5 { 5 } else if count > 15 { 15 } else { count as int }),
{
    let c = if count < 5 { 5 } else if count > 15 { 15 } else { count };
    c * 2
}

/// Mean of two AQIs, rounded down, when both are known; the one known otherwise.
pub open spec fn spec_average_aqi(a: Option<u32>, b: Option<u32>) -> Option<u32> {
    match (a, b) {
        (Some(x), Some(y)) => Some(((x + y) / 2) as u32),
        (Some(x), None) => Some(x),
        (None, Some(y)) => Some(y),
        (None, None) => None,
    }
}

/// Average AQI of the two providers in the comparison view.
pub fn average_aqi(a: Option<u32>, b: Option<u32>) -> (r: Option<u32>)
    requires
        a is Some && b is Some ==> a.unwrap() + b.unwrap() <= u32::MAX,
    ensures
        r == spec_average_aqi(a, b),
{
    match (a, b) {
        (Some(x), Some(y)) => Some((x + y) / 2),
        (Some(x), None) => Some(x),
        (None, Some(y)) => Some(y),
        (None, None) => None,
    }
}

/// The average lies between the two values it averages.
pub proof fn law_average_between(a: u32, b: u32)
    ensures
        ({
            let m = spec_average_aqi(Some(a), Some(b)).unwrap();
            &&& (a <= b ==> a <= m <= b)
            &&& (b <= a ==> b <= m <= a)
        }),
{
}

/// A higher AQI never draws a shorter sparkline.
pub proof fn law_sparkline_monotone(a: int, b: int)
    requires
        a <= b,
    ensures
        sparkline_blocks(a) <= sparkline_blocks(b),
        1 <= sparkline_blocks(b) <= 5,
{
}

} // verus!

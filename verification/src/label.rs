//! Short labels of the graph nodes drawn on the report map.

use vstd::prelude::*;
use crate::text::{chars_of, string_from_chars};

verus! {

/// Whether the code point `u` has the Unicode `White_Space` property (what `char::is_whitespace`
/// tests).
pub open spec fn white_space_code(u: u32) -> bool {
    ||| u == 0x20
    ||| 0x09 <= u <= 0x0d
    ||| u == 0x85
    ||| u == 0xa0
    ||| u == 0x1680
    ||| 0x2000 <= u <= 0x200a
    ||| u == 0x2028
    ||| u == 0x2029
    ||| u == 0x202f
    ||| u == 0x205f
    ||| u == 0x3000
}

/// Whether `c` is white space.
pub open spec fn spec_is_whitespace(c: char) -> bool {
    white_space_code(c as u32)
}

/// The part of `s` before its first `c` (all of `s` when it holds none).
pub open spec fn before_first(s: Seq<char>, c: char) -> Seq<char>
    decreases s.len(),
{
    if s.len() == 0 {
        s
    } else if s[0] == c {
        Seq::empty()
    } else {
        seq![s[0]] + before_first(s.drop_first(), c)
    }
}

/// `s` without its leading white space.
pub open spec fn trim_start(s: Seq<char>) -> Seq<char>
    decreases s.len(),
{
    if s.len() > 0 && spec_is_whitespace(s[0]) {
        trim_start(s.drop_first())
    } else {
        s
    }
}

/// `s` without its trailing white space.
pub open spec fn trim_end(s: Seq<char>) -> Seq<char>
    decreases s.len(),
{
    if s.len() > 0 && spec_is_whitespace(s.last()) {
        trim_end(s.drop_last())
    } else {
        s
    }
}

/// `s` without leading and trailing white space.
pub open spec fn spec_trim(s: Seq<char>) -> Seq<char> {
    trim_end(trim_start(s))
}

/// The part of `s` after its last `c` (all of `s` when it holds none).
pub open spec fn after_last(s: Seq<char>, c: char) -> Seq<char>
    decreases s.len(),
{
    if s.len() == 0 {
        s
    } else if s.last() == c {
        Seq::empty()
    } else {
        after_last(s.drop_last(), c).push(s.last())
    }
}

/// The label of a node named `name`: the name up to its first `(`, trimmed; a name holding a
/// `-` (a numbered duplicate such as `Moscow-58`) becomes `#` and what follows its last `-`.
pub open spec fn spec_node_label(name: Seq<char>) -> Seq<char> {
    let short = spec_trim(before_first(name, '('));
    if short.contains('-') {
        seq!['#'] + after_last(short, '-')
    } else {
        short
    }
}

proof fn lemma_before_first(s: Seq<char>, c: char, k: int)
    requires
        0 <= k <= s.len(),
        forall|j: int| 0 <= j < k ==> s[j] != c,
        k == s.len() || s[k] == c,
    ensures
        before_first(s, c) == s.take(k),
    decreases s.len(),
{
    if s.len() == 0 {
        assert(s.take(k) =~= s);
    } else if s[0] == c {
        assert(k == 0);
        assert(s.take(0) =~= Seq::<char>::empty());
    } else {
        let d = s.drop_first();
        assert forall|j: int| 0 <= j < k - 1 implies d[j] != c by {
            assert(d[j] == s[j + 1]);
        }
        lemma_before_first(d, c, k - 1);
        assert(seq![s[0]] + d.take(k - 1) =~= s.take(k));
    }
}

proof fn lemma_after_last(s: Seq<char>, c: char, j: int)
    requires
        0 <= j < s.len(),
        s[j] == c,
        forall|m: int| j < m < s.len() ==> s[m] != c,
    ensures
        after_last(s, c) == s.subrange(j + 1, s.len() as int),
    decreases s.len(),
{
    if s.last() == c {
        assert(j == s.len() - 1);
        assert(s.subrange(j + 1, s.len() as int) =~= Seq::<char>::empty());
    } else {
        let d = s.drop_last();
        lemma_after_last(d, c, j);
        assert(d.subrange(j + 1, d.len() as int).push(s.last()) =~= s.subrange(j + 1, s.len() as int));
    }
}

/// Whether `c` is white space (`char::is_whitespace`).
pub fn is_whitespace(c: char) -> (b: bool)
    ensures
        b == spec_is_whitespace(c),
{
    let u = c as u32;
    u == 0x20 || (0x09 <= u && u <= 0x0d) || u == 0x85 || u == 0xa0 || u == 0x1680
        || (0x2000 <= u && u <= 0x200a) || u == 0x2028 || u == 0x2029 || u == 0x202f
        || u == 0x205f || u == 0x3000
}

/// `s[lo..hi]` as a new vector.
fn copy_range(s: &Vec<char>, lo: usize, hi: usize) -> (r: Vec<char>)
    requires
        lo <= hi <= s@.len(),
    ensures
        r@ == s@.subrange(lo as int, hi as int),
{
    let mut r: Vec<char> = Vec::new();
    let mut i = lo;
    while i < hi
        invariant
            lo <= i <= hi <= s@.len(),
            r@ == s@.subrange(lo as int, i as int),
        decreases hi - i,
    {
        r.push(s[i]);
        assert(s@.subrange(lo as int, i + 1) =~= s@.subrange(lo as int, i as int).push(s@[i as int]));
        i = i + 1;
    }
    r
}

/// The part of `s` before its first `c`.
fn take_before(s: &Vec<char>, c: char) -> (r: Vec<char>)
    ensures
        r@ == before_first(s@, c),
{
    let mut k: usize = 0;
    while k < s.len() && s[k] != c
        invariant
            k <= s@.len(),
            forall|j: int| 0 <= j < k ==> s@[j] != c,
        decreases s@.len() - k,
    {
        k = k + 1;
    }
    proof {
        lemma_before_first(s@, c, k as int);
    }
    let r = copy_range(s, 0, k);
    assert(s@.subrange(0, k as int) =~= s@.take(k as int));
    r
}

/// `s` without leading and trailing white space.
fn trim(s: &Vec<char>) -> (r: Vec<char>)
    ensures
        r@ == spec_trim(s@),
{
    let n = s.len();
    let mut lo: usize = 0;
    assert(s@.subrange(0, n as int) =~= s@);
    while lo < n && is_whitespace(s[lo])
        invariant
            n == s@.len(),
            lo <= n,
            trim_start(s@) == trim_start(s@.subrange(lo as int, n as int)),
        decreases n - lo,
    {
        let ghost sub = s@.subrange(lo as int, n as int);
        assert(sub.drop_first() =~= s@.subrange(lo + 1, n as int));
        lo = lo + 1;
    }
    assert(trim_start(s@) == s@.subrange(lo as int, n as int)) by {
        if lo == n {
            assert(s@.subrange(lo as int, n as int).len() == 0);
        }
    }
    let mut hi: usize = n;
    while hi > lo && is_whitespace(s[hi - 1])
        invariant
            n == s@.len(),
            lo <= hi <= n,
            trim_end(s@.subrange(lo as int, n as int)) == trim_end(s@.subrange(lo as int, hi as int)),
        decreases hi - lo,
    {
        let ghost sub = s@.subrange(lo as int, hi as int);
        assert(sub.drop_last() =~= s@.subrange(lo as int, hi - 1));
        hi = hi - 1;
    }
    assert(trim_end(s@.subrange(lo as int, n as int)) == s@.subrange(lo as int, hi as int)) by {
        if hi == lo {
            assert(s@.subrange(lo as int, hi as int).len() == 0);
        }
    }
    copy_range(s, lo, hi)
}

/// Index of the last `c` in `s`, if any.
fn last_index_of(s: &Vec<char>, c: char) -> (r: Option<usize>)
    ensures
        r matches Some(j) ==> j < s@.len() && s@[j as int] == c
            && forall|m: int| j < m < s@.len() ==> s@[m] != c,
        r is None ==> forall|m: int| 0 <= m < s@.len() ==> s@[m] != c,
{
    let mut k: usize = s.len();
    while k > 0
        invariant
            k <= s@.len(),
            forall|m: int| k <= m < s@.len() ==> s@[m] != c,
        decreases k,
    {
        if s[k - 1] == c {
            return Some(k - 1);
        }
        k = k - 1;
    }
    None
}

/// The short label of a node named `name`, as drawn next to it on the map: the name up to its
/// first `(`, trimmed, with a numbered duplicate (`Moscow-58`) shortened to `#58`.
pub fn short_node_label(name: &str) -> (r: String)
    ensures
        r@ == spec_node_label(name@),
{
    let all = chars_of(name);
    let head = take_before(&all, '(');
    let short = trim(&head);
    let n = short.len();
    match last_index_of(&short, '-') {
        Some(j) => {
            proof {
                lemma_after_last(short@, '-', j as int);
                assert(short@.contains('-'));
            }
            assert(j < n);
            let tail = copy_range(&short, j + 1, n);
            let mut out: Vec<char> = Vec::new();
            out.push('#');
            let mut i: usize = 0;
            while i < tail.len()
                invariant
                    i <= tail@.len(),
                    out@ == seq!['#'] + tail@.take(i as int),
                decreases tail@.len() - i,
            {
                out.push(tail[i]);
                assert(tail@.take(i + 1) =~= tail@.take(i as int).push(tail@[i as int]));
                i = i + 1;
            }
            assert(tail@.take(i as int) =~= tail@);
            string_from_chars(&out)
        },
        None => {
            assert(!short@.contains('-'));
            string_from_chars(&short)
        },
    }
}

} // verus!

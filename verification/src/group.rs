//! Grouping of samples by key (the day or the hour of a timestamp), in key order as a
//! `BTreeMap` orders them, and numbering of repeated group names.

use vstd::prelude::*;
use crate::order::{
    seq_lt, strictly_sorted, chars_lt, chars_eq, lemma_lt_total, lemma_lt_transitive,
    lemma_lt_irreflexive,
};
use crate::text::{chars_of, string_from_chars, decimal_digits, spec_digits};

verus! {

/// A key and the positions of the samples filed under it, in ascending order.
#[derive(Debug, PartialEq, Eq)]
pub struct KeyGroup {
    pub key: String,
    pub members: Vec<usize>,
}

/// Texts of a sequence of strings.
pub open spec fn texts(keys: Seq<String>) -> Seq<Seq<char>> {
    keys.map_values(|s: String| s@)
}

/// Keys of a sequence of groups.
pub open spec fn group_keys(groups: Seq<KeyGroup>) -> Seq<Seq<char>> {
    groups.map_values(|g: KeyGroup| g.key@)
}

/// Positions as mathematical integers.
pub open spec fn positions(v: Seq<usize>) -> Seq<int> {
    v.map_values(|x: usize| x as int)
}

/// Ascending positions, among the first `n`, of the keys equal to `k`.
pub open spec fn positions_of(keys: Seq<Seq<char>>, k: Seq<char>, n: int) -> Seq<int>
    decreases n,
{
    if n <= 0 {
        Seq::empty()
    } else {
        let p = positions_of(keys, k, n - 1);
        if keys[n - 1] == k {
            p.push(n - 1)
        } else {
            p
        }
    }
}

/// The text before the first `sep` (all of it when `sep` does not occur).
pub open spec fn prefix_before(s: Seq<char>, sep: char) -> Seq<char>
    decreases s.len(),
{
    if s.len() == 0 {
        Seq::empty()
    } else if s[0] == sep {
        Seq::empty()
    } else {
        seq![s[0]] + prefix_before(s.drop_first(), sep)
    }
}

/// Bytes taken by a character in UTF-8.
pub open spec fn utf8_width(c: char) -> int {
    if (c as u32) < 0x80 {
        1
    } else if (c as u32) < 0x800 {
        2
    } else if (c as u32) < 0x10000 {
        3
    } else {
        4
    }
}

/// Bytes taken in UTF-8 by the first `k` characters.
pub open spec fn utf8_offset(s: Seq<char>, k: int) -> int
    decreases k,
{
    if k <= 0 {
        0
    } else {
        utf8_offset(s, k - 1) + utf8_width(s[k - 1])
    }
}

/// Whether byte `b` of the UTF-8 text starts a character (or is its end).
pub open spec fn is_char_boundary(s: Seq<char>, b: int) -> bool {
    exists|k: int| 0 <= k <= s.len() && utf8_offset(s, k) == b
}

/// The hour key of a timestamp: its first 13 bytes (`YYYY-MM-DDTHH`) followed by `:00`, when the
/// timestamp is that long.
pub open spec fn spec_hour_key(ts: Seq<char>) -> Option<Seq<char>> {
    if utf8_offset(ts, ts.len() as int) < 13 {
        None
    } else {
        Some(ts.take(choose|k: int| 0 <= k <= ts.len() && utf8_offset(ts, k) == 13) + seq![':', '0', '0'])
    }
}

proof fn lemma_offset_monotone(s: Seq<char>, a: int, b: int)
    requires
        0 <= a <= b <= s.len(),
    ensures
        utf8_offset(s, a) + (b - a) <= utf8_offset(s, b),
    decreases b - a,
{
    if a < b {
        lemma_offset_monotone(s, a, b - 1);
    }
}

proof fn lemma_positions_absent(keys: Seq<Seq<char>>, k: Seq<char>, n: int)
    requires
        0 <= n <= keys.len(),
        forall|j: int| 0 <= j < n ==> keys[j] != k,
    ensures
        positions_of(keys, k, n) == Seq::<int>::empty(),
    decreases n,
{
    if n > 0 {
        lemma_positions_absent(keys, k, n - 1);
    }
}

/// The text before the first `sep` (all of it when `sep` does not occur), as the first piece of
/// `str::split` gives it.
pub fn text_before(text: &str, sep: char) -> (r: String)
    ensures
        r@ == prefix_before(text@, sep),
{
    let v = chars_of(text);
    let mut out: Vec<char> = Vec::new();
    let mut i: usize = 0;
    assert(v@.skip(0) == v@);
    while i < v.len() && v[i] != sep
        invariant
            v@ == text@,
            i <= v@.len(),
            out@ == v@.take(i as int),
            forall|j: int| 0 <= j < i ==> v@[j] != sep,
            prefix_before(v@, sep) == out@ + prefix_before(v@.skip(i as int), sep),
        decreases v@.len() - i,
    {
        proof {
            let rest = v@.skip(i as int);
            assert(rest[0] == v@[i as int]);
            assert(rest.drop_first() == v@.skip(i + 1));
            assert(out@.push(v@[i as int]) == v@.take(i + 1));
            assert(out@ + prefix_before(rest, sep) == out@.push(v@[i as int]) + prefix_before(v@.skip(i + 1), sep));
        }
        out.push(v[i]);
        i = i + 1;
    }
    proof {
        let rest = v@.skip(i as int);
        if i < v@.len() {
            assert(rest[0] == sep);
        }
        assert(prefix_before(rest, sep) == Seq::<char>::empty());
        assert(out@ + Seq::<char>::empty() == out@);
    }
    string_from_chars(&out)
}

/// Day of a timestamp such as `2026-03-14T00:00`: the text before the first `T`.
pub fn date_key(time: &str) -> (r: String)
    ensures
        r@ == prefix_before(time@, 'T'),
{
    text_before(time, 'T')
}

fn utf8_width_of(c: char) -> (w: usize)
    ensures
        w == utf8_width(c),
        1 <= w <= 4,
{
    let u = c as u32;
    if u < 0x80 {
        1
    } else if u < 0x800 {
        2
    } else if u < 0x10000 {
        3
    } else {
        4
    }
}

/// Hour key of a timestamp such as `2026-03-14T00:02:12`: `2026-03-14T00:00`. `None` when the
/// timestamp is shorter than 13 bytes.
pub fn hour_key(ts: &str) -> (r: Option<String>)
    requires
        utf8_offset(ts@, ts@.len() as int) < 13 || is_char_boundary(ts@, 13),
    ensures
        match r {
            None => spec_hour_key(ts@) is None,
            Some(s) => spec_hour_key(ts@) == Some(s@),
        },
{
    let v = chars_of(ts);
    let mut bytes: usize = 0;
    let mut k: usize = 0;
    while k < v.len() && bytes < 13
        invariant
            v@ == ts@,
            k <= v@.len(),
            bytes == utf8_offset(v@, k as int),
            k > 0 ==> utf8_offset(v@, k - 1) < 13,
        decreases v@.len() - k,
    {
        bytes = bytes + utf8_width_of(v[k]);
        k = k + 1;
    }
    if bytes < 13 {
        proof {
            lemma_offset_monotone(v@, k as int, v@.len() as int);
        }
        assert(k == v@.len());
        return None;
    }
    proof {
        lemma_offset_monotone(v@, k as int, v@.len() as int);
        assert(is_char_boundary(ts@, 13));
        let w = choose|j: int| 0 <= j <= ts@.len() && utf8_offset(ts@, j) == 13;
        if w < k {
            lemma_offset_monotone(v@, w, k - 1);
        } else if w > k {
            lemma_offset_monotone(v@, k as int, w);
        }
        assert(w == k);
    }
    let mut out: Vec<char> = Vec::new();
    let mut j: usize = 0;
    while j < k
        invariant
            v@ == ts@,
            k <= v@.len(),
            j <= k,
            out@ == v@.take(j as int),
        decreases k - j,
    {
        assert(v@.take(j + 1) == v@.take(j as int).push(v@[j as int]));
        out.push(v[j]);
        j = j + 1;
    }
    out.push(':');
    out.push('0');
    out.push('0');
    assert(out@ == v@.take(k as int) + seq![':', '0', '0']);
    Some(string_from_chars(&out))
}

/// Texts of a sequence of character vectors.
pub open spec fn vtexts(v: Seq<Vec<char>>) -> Seq<Seq<char>> {
    v.map_values(|e: Vec<char>| e@)
}

/// Files each position under its key: one group per distinct key, in ascending key order, each
/// holding the ascending positions of its key.
pub fn group_by_key(keys: &Vec<String>) -> (r: Vec<KeyGroup>)
    ensures
        strictly_sorted(group_keys(r@)),
        forall|x: Seq<char>| group_keys(r@).contains(x) <==> texts(keys@).contains(x),
        forall|j: int| 0 <= j < r@.len() ==> positions((#[trigger] r@[j]).members@)
            == positions_of(texts(keys@), r@[j].key@, keys@.len() as int),
{
    let ghost kv = texts(keys@);
    let mut gk: Vec<Vec<char>> = Vec::new();
    let mut gm: Vec<Vec<usize>> = Vec::new();
    let mut i: usize = 0;
    while i < keys.len()
        invariant
            kv == texts(keys@),
            i <= keys@.len(),
            gk@.len() == gm@.len(),
            strictly_sorted(vtexts(gk@)),
            forall|x: Seq<char>| vtexts(gk@).contains(x) <==> kv.take(i as int).contains(x),
            forall|j: int| 0 <= j < gk@.len() ==> positions((#[trigger] gm@[j])@)
                == positions_of(kv, gk@[j]@, i as int),
        decreases keys@.len() - i,
    {
        let k = chars_of(keys[i].as_str());
        let ghost gs = vtexts(gk@);
        let ghost ms = gm@;
        assert(kv[i as int] == k@);
        let mut p: usize = 0;
        while p < gk.len() && chars_lt(&gk[p], &k)
            invariant
                p <= gk@.len(),
                vtexts(gk@) == gs,
                forall|j: int| 0 <= j < p ==> seq_lt(gs[j], k@),
            decreases gk@.len() - p,
        {
            p = p + 1;
        }
        let found = p < gk.len() && chars_eq(&gk[p], &k);
        let ghost next = kv.take(i + 1);
        let ghost prev = kv.take(i as int);
        proof {
            assert(next == prev.push(k@));
            assert forall|a: int, b: int| 0 <= a < gs.len() && 0 <= b < gs.len() && a != b implies gs[a] != gs[b] by {
                if a < b {
                    assert(seq_lt(gs[a], gs[b]));
                } else {
                    assert(seq_lt(gs[b], gs[a]));
                }
                if gs[a] == gs[b] {
                    lemma_lt_irreflexive(gs[a]);
                }
            }
        }
        if found {
            let mut m = gm.remove(p);
            m.push(i);
            gm.insert(p, m);
            proof {
                assert(gs[p as int] == k@);
                assert forall|x: Seq<char>| vtexts(gk@).contains(x) <==> next.contains(x) by {
                    if x == k@ {
                        assert(gs[p as int] == x);
                    }
                    if next.contains(x) && x != k@ {
                        let t = choose|t: int| 0 <= t < next.len() && next[t] == x;
                        assert(prev[t] == x);
                    }
                    if prev.contains(x) {
                        let t = choose|t: int| 0 <= t < prev.len() && prev[t] == x;
                        assert(next[t] == x);
                    }
                }
                assert forall|j: int| 0 <= j < gk@.len() implies positions((#[trigger] gm@[j])@)
                    == positions_of(kv, gk@[j]@, i + 1) by {
                    assert(gk@[j]@ == gs[j]);
                    if j == p {
                        assert(gm@[j]@ == ms[j]@.push(i));
                        assert(positions(ms[j]@.push(i)) == positions(ms[j]@).push(i as int));
                    } else {
                        assert(gm@[j] == ms[j]);
                        assert(gs[j] != k@);
                    }
                }
            }
        } else {
            let ghost kk = k@;
            proof {
                if p < gs.len() {
                    lemma_lt_total(kk, gs[p as int]);
                }
                assert forall|j: int| 0 <= j < gs.len() implies gs[j] != kk by {
                    if j < p {
                        assert(seq_lt(gs[j], kk));
                        if gs[j] == kk {
                            lemma_lt_irreflexive(kk);
                        }
                    } else if j > p {
                        assert(seq_lt(gs[p as int], gs[j]));
                        lemma_lt_transitive(kk, gs[p as int], gs[j]);
                        if gs[j] == kk {
                            lemma_lt_irreflexive(kk);
                        }
                    }
                }
                assert forall|j: int| 0 <= j < i implies kv[j] != kk by {
                    assert(prev[j] == kv[j]);
                    if kv[j] == kk {
                        assert(prev.contains(kk));
                        assert(gs.contains(kk));
                        let t = choose|t: int| 0 <= t < gs.len() && gs[t] == kk;
                        assert(gs[t] != kk);
                    }
                }
                lemma_positions_absent(kv, kk, i as int);
            }
            gk.insert(p, k);
            let mut fresh: Vec<usize> = Vec::new();
            fresh.push(i);
            gm.insert(p, fresh);
            proof {
                let ys = vtexts(gk@);
                assert(ys == gs.insert(p as int, kk));
                assert forall|a: int, b: int| 0 <= a < b < ys.len() implies seq_lt(ys[a], ys[b]) by {
                    if b < p {
                    } else if b == p {
                    } else if a < p {
                        lemma_lt_transitive(gs[a], kk, gs[p as int]);
                        if b - 1 > p {
                            lemma_lt_transitive(gs[a], gs[p as int], gs[b - 1]);
                        }
                    } else if a == p {
                        if b - 1 > p {
                            lemma_lt_transitive(kk, gs[p as int], gs[b - 1]);
                        }
                    } else {
                    }
                }
                assert forall|x: Seq<char>| ys.contains(x) <==> next.contains(x) by {
                    if ys.contains(x) {
                        let t = choose|t: int| 0 <= t < ys.len() && ys[t] == x;
                        if t < p {
                            assert(gs[t] == x);
                        } else if t > p {
                            assert(gs[t - 1] == x);
                        } else {
                            assert(next[i as int] == x);
                        }
                        if x != kk {
                            assert(gs.contains(x));
                            let u = choose|u: int| 0 <= u < prev.len() && prev[u] == x;
                            assert(next[u] == x);
                        }
                    }
                    if next.contains(x) {
                        let t = choose|t: int| 0 <= t < next.len() && next[t] == x;
                        if t == i {
                            assert(ys[p as int] == x);
                        } else {
                            assert(prev[t] == x);
                            assert(gs.contains(x));
                            let u = choose|u: int| 0 <= u < gs.len() && gs[u] == x;
                            if u < p {
                                assert(ys[u] == x);
                            } else {
                                assert(ys[u + 1] == x);
                            }
                        }
                    }
                }
                assert forall|j: int| 0 <= j < gk@.len() implies positions((#[trigger] gm@[j])@)
                    == positions_of(kv, gk@[j]@, i + 1) by {
                    if j < p {
                        assert(gm@[j] == ms[j]);
                        assert(gk@[j]@ == gs[j]);
                    } else if j > p {
                        assert(gm@[j] == ms[j - 1]);
                        assert(gk@[j]@ == gs[j - 1]);
                    } else {
                        assert(gk@[j]@ == kk);
                        assert(positions(gm@[j]@) == seq![i as int]);
                        assert(positions_of(kv, kk, i as int).push(i as int) == seq![i as int]);
                    }
                }
            }
        }
        i = i + 1;
    }
    assert(kv.take(keys@.len() as int) == kv);
    let mut r: Vec<KeyGroup> = Vec::new();
    let mut j: usize = 0;
    while j < gk.len()
        invariant
            gk@.len() == gm@.len(),
            j <= gk@.len(),
            r@.len() == j,
            forall|t: int| 0 <= t < j ==> (#[trigger] r@[t]).key@ == gk@[t]@ && r@[t].members@ == gm@[t]@,
        decreases gk@.len() - j,
    {
        let key = string_from_chars(&gk[j]);
        let members = copy_positions(&gm[j]);
        r.push(KeyGroup { key, members });
        j = j + 1;
    }
    assert(group_keys(r@) == vtexts(gk@));
    r
}

/// A position is filed under a key exactly when its key is that key.
pub proof fn lemma_positions_member(keys: Seq<Seq<char>>, k: Seq<char>, n: int, i: int)
    requires
        0 <= n <= keys.len(),
    ensures
        positions_of(keys, k, n).contains(i) <==> (0 <= i < n && keys[i] == k),
    decreases n,
{
    if n > 0 {
        lemma_positions_member(keys, k, n - 1, i);
        let p = positions_of(keys, k, n - 1);
        let q = p.push(n - 1);
        if keys[n - 1] == k {
            assert(q[p.len() as int] == n - 1);
            if p.contains(i) {
                let t = choose|t: int| 0 <= t < p.len() && p[t] == i;
                assert(q[t] == i);
            }
            if q.contains(i) && i != n - 1 {
                let t = choose|t: int| 0 <= t < q.len() && q[t] == i;
                assert(p[t] == i);
            }
        }
    }
}

/// Grouping loses and duplicates nothing: with one group per distinct key (as `group_by_key`
/// gives), every position lies in the group of its own key and in no other group.
pub proof fn law_groups_partition(keys: Seq<Seq<char>>, gkeys: Seq<Seq<char>>, i: int)
    requires
        strictly_sorted(gkeys),
        forall|x: Seq<char>| gkeys.contains(x) <==> keys.contains(x),
        0 <= i < keys.len(),
    ensures
        exists|j: int| 0 <= j < gkeys.len() && gkeys[j] == keys[i],
        forall|j: int| 0 <= j < gkeys.len() ==> (positions_of(keys, #[trigger] gkeys[j], keys.len() as int).contains(i)
            <==> gkeys[j] == keys[i]),
{
    assert(keys.contains(keys[i]));
    assert(gkeys.contains(keys[i]));
    assert forall|j: int| 0 <= j < gkeys.len() implies (positions_of(keys, #[trigger] gkeys[j], keys.len() as int).contains(i)
        <==> gkeys[j] == keys[i]) by {
        lemma_positions_member(keys, gkeys[j], keys.len() as int, i);
    }
}

/// How often `x` occurs among the first `n` texts.
pub open spec fn count_upto(s: Seq<Seq<char>>, x: Seq<char>, n: int) -> nat
    decreases n,
{
    if n <= 0 {
        0
    } else {
        count_upto(s, x, n - 1) + if s[n - 1] == x { 1nat } else { 0nat }
    }
}

/// Text `i` numbered by its occurrence: the first occurrence of a text keeps it, the `k`-th
/// (`k` > 1) becomes `text-k`.
pub open spec fn spec_numbered(s: Seq<Seq<char>>, i: int) -> Seq<char> {
    let c = count_upto(s, s[i], i + 1);
    if c > 1 {
        s[i] + seq!['-'] + spec_digits(c)
    } else {
        s[i]
    }
}

/// Numbers repeated names so that each cluster gets an id: the first `Moscow` stays `Moscow`,
/// the second becomes `Moscow-2`, the third `Moscow-3`, and so on.
pub fn number_repeats(names: &Vec<String>) -> (r: Vec<String>)
    ensures
        r@.len() == names@.len(),
        forall|i: int| 0 <= i < r@.len() ==> (#[trigger] r@[i])@ == spec_numbered(texts(names@), i),
{
    let ghost tv = texts(names@);
    let mut chars: Vec<Vec<char>> = Vec::new();
    let mut k: usize = 0;
    while k < names.len()
        invariant
            tv == texts(names@),
            k <= names@.len(),
            chars@.len() == k,
            forall|j: int| 0 <= j < k ==> (#[trigger] chars@[j])@ == tv[j],
        decreases names@.len() - k,
    {
        chars.push(chars_of(names[k].as_str()));
        k = k + 1;
    }
    let mut r: Vec<String> = Vec::new();
    let mut i: usize = 0;
    while i < chars.len()
        invariant
            tv == texts(names@),
            chars@.len() == names@.len(),
            forall|j: int| 0 <= j < chars@.len() ==> (#[trigger] chars@[j])@ == tv[j],
            i <= chars@.len(),
            r@.len() == i,
            forall|j: int| 0 <= j < i ==> (#[trigger] r@[j])@ == spec_numbered(tv, j),
        decreases chars@.len() - i,
    {
        let mut c: usize = 0;
        let mut j: usize = 0;
        while j <= i
            invariant
                tv == texts(names@),
                chars@.len() == names@.len(),
                forall|t: int| 0 <= t < chars@.len() ==> (#[trigger] chars@[t])@ == tv[t],
                i < chars.len(),
                j <= i + 1,
                c == count_upto(tv, tv[i as int], j as int),
                c <= j,
            decreases i + 1 - j,
        {
            if chars_eq(&chars[j], &chars[i]) {
                c = c + 1;
            }
            j = j + 1;
        }
        let mut out = copy_chars(&chars[i]);
        if c > 1 {
            out.push('-');
            let digits = decimal_digits(c as u64);
            let ghost before = out@;
            for t in 0..digits.len()
                invariant
                    out@ == before + digits@.take(t as int),
            {
                assert(digits@.take(t + 1) == digits@.take(t as int).push(digits@[t as int]));
                out.push(digits[t]);
            }
            assert(digits@.take(digits@.len() as int) == digits@);
        }
        r.push(string_from_chars(&out));
        i = i + 1;
    }
    r
}

fn copy_chars(v: &Vec<char>) -> (r: Vec<char>)
    ensures
        r@ == v@,
{
    let mut r: Vec<char> = Vec::new();
    for i in 0..v.len()
        invariant
            r@ == v@.take(i as int),
    {
        assert(v@.take(i + 1) == v@.take(i as int).push(v@[i as int]));
        r.push(v[i]);
    }
    assert(v@.take(v@.len() as int) == v@);
    r
}

fn copy_positions(v: &Vec<usize>) -> (r: Vec<usize>)
    ensures
        r@ == v@,
{
    let mut r: Vec<usize> = Vec::new();
    for i in 0..v.len()
        invariant
            r@ == v@.take(i as int),
    {
        assert(v@.take(i + 1) == v@.take(i as int).push(v@[i as int]));
        r.push(v[i]);
    }
    assert(v@.take(v@.len() as int) == v@);
    r
}

} // verus!

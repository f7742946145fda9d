//! Lexicographic order of texts by character code (the order of `String`), and sorted sets of texts.

use vstd::prelude::*;

verus! {

/// `a` sorts strictly before `b`: at the first difference `a` has the smaller character, or `a`
/// is a proper prefix of `b`.
pub open spec fn seq_lt(a: Seq<char>, b: Seq<char>) -> bool
    decreases a.len(),
{
    if a.len() == 0 {
        b.len() > 0
    } else if b.len() == 0 {
        false
    } else if a[0] != b[0] {
        (a[0] as int) < (b[0] as int)
    } else {
        seq_lt(a.drop_first(), b.drop_first())
    }
}

/// Strictly increasing in `seq_lt`, hence free of repeats.
pub open spec fn strictly_sorted(s: Seq<Seq<char>>) -> bool {
    forall|i: int, j: int| 0 <= i < j < s.len() ==> seq_lt(s[i], s[j])
}

pub proof fn lemma_lt_irreflexive(a: Seq<char>)
    ensures
        !seq_lt(a, a),
    decreases a.len(),
{
    if a.len() > 0 {
        lemma_lt_irreflexive(a.drop_first());
    }
}

pub proof fn lemma_lt_asymmetric(a: Seq<char>, b: Seq<char>)
    requires
        seq_lt(a, b),
    ensures
        !seq_lt(b, a),
    decreases a.len(),
{
    if a.len() > 0 && b.len() > 0 && a[0] == b[0] {
        lemma_lt_asymmetric(a.drop_first(), b.drop_first());
    }
}

pub proof fn lemma_lt_transitive(a: Seq<char>, b: Seq<char>, c: Seq<char>)
    requires
        seq_lt(a, b),
        seq_lt(b, c),
    ensures
        seq_lt(a, c),
    decreases a.len(),
{
    if a.len() > 0 && b.len() > 0 && c.len() > 0 && a[0] == b[0] && b[0] == c[0] {
        lemma_lt_transitive(a.drop_first(), b.drop_first(), c.drop_first());
    }
}

pub proof fn lemma_lt_total(a: Seq<char>, b: Seq<char>)
    requires
        a != b,
    ensures
        seq_lt(a, b) || seq_lt(b, a),
    decreases a.len(),
{
    if a.len() > 0 && b.len() > 0 && a[0] == b[0] {
        if a.drop_first() == b.drop_first() {
            assert(a == seq![a[0]] + a.drop_first());
            assert(b == seq![b[0]] + b.drop_first());
        }
        lemma_lt_total(a.drop_first(), b.drop_first());
    } else if a.len() == 0 && b.len() == 0 {
        assert(a == b);
    }
}

/// Whether `a` sorts strictly before `b`.
pub fn chars_lt(a: &Vec<char>, b: &Vec<char>) -> (r: bool)
    ensures
        r == seq_lt(a@, b@),
{
    let mut i: usize = 0;
    assert(a@.skip(0) == a@);
    assert(b@.skip(0) == b@);
    while i < a.len() && i < b.len() && a[i] == b[i]
        invariant
            i <= a@.len(),
            i <= b@.len(),
            seq_lt(a@, b@) == seq_lt(a@.skip(i as int), b@.skip(i as int)),
        decreases a@.len() - i,
    {
        assert(a@.skip(i as int).drop_first() == a@.skip(i + 1));
        assert(b@.skip(i as int).drop_first() == b@.skip(i + 1));
        i = i + 1;
    }
    let ghost sa = a@.skip(i as int);
    let ghost sb = b@.skip(i as int);
    if i == a.len() {
        assert(sa.len() == 0);
        i < b.len()
    } else if i == b.len() {
        assert(sb.len() == 0);
        false
    } else {
        assert(sa[0] == a@[i as int]);
        assert(sb[0] == b@[i as int]);
        let ca = a[i];
        let cb = b[i];
        assert(ca != cb);
        ca < cb
    }
}

/// Whether `a` and `b` hold the same characters.
pub fn chars_eq(a: &Vec<char>, b: &Vec<char>) -> (r: bool)
    ensures
        r == (a@ == b@),
{
    if a.len() != b.len() {
        return false;
    }
    for i in 0..a.len()
        invariant
            a.len() == b.len(),
            forall|j: int| 0 <= j < i ==> a@[j] == b@[j],
    {
        if a[i] != b[i] {
            return false;
        }
    }
    assert(a@ == b@);
    true
}

/// Adds `x` to the strictly sorted `v`, where it belongs; `v` is left as it was when `x` is
/// already there.
pub fn insert_sorted(v: &mut Vec<Vec<char>>, x: Vec<char>)
    requires
        strictly_sorted(old(v)@.map_values(|e: Vec<char>| e@)),
    ensures
        strictly_sorted(final(v)@.map_values(|e: Vec<char>| e@)),
        final(v)@.map_values(|e: Vec<char>| e@).to_set() == old(v)@.map_values(|e: Vec<char>| e@).to_set().insert(x@),
{
    let ghost xs = old(v)@.map_values(|e: Vec<char>| e@);
    let mut i: usize = 0;
    while i < v.len() && chars_lt(&v[i], &x)
        invariant
            i <= v@.len(),
            v@.map_values(|e: Vec<char>| e@) == xs,
            strictly_sorted(xs),
            forall|j: int| 0 <= j < i ==> seq_lt(xs[j], x@),
        decreases v@.len() - i,
    {
        i = i + 1;
    }
    if i < v.len() && chars_eq(&v[i], &x) {
        assert(xs.contains(x@)) by {
            assert(xs[i as int] == x@);
        }
        assert(xs.to_set().insert(x@) == xs.to_set());
        return;
    }
    proof {
        if i < v@.len() {
            assert(xs[i as int] == v@[i as int]@);
            lemma_lt_total(x@, xs[i as int]);
        }
    }
    v.insert(i, x);
    proof {
        let ys = v@.map_values(|e: Vec<char>| e@);
        assert(ys == xs.insert(i as int, x@));
        assert forall|a: int, b: int| 0 <= a < b < ys.len() implies seq_lt(ys[a], ys[b]) by {
            if b < i {
            } else if b == i {
            } else if a < i {
                lemma_lt_transitive(xs[a], x@, xs[i as int]);
                if b - 1 > i {
                    lemma_lt_transitive(xs[a], xs[i as int], xs[b - 1]);
                }
            } else if a == i {
                if b - 1 > i {
                    lemma_lt_transitive(x@, xs[i as int], xs[b - 1]);
                }
            } else {
            }
        }
        assert(ys.to_set() == xs.to_set().insert(x@)) by {
            assert forall|e: Seq<char>| ys.to_set().contains(e) <==> xs.to_set().insert(x@).contains(e) by {
                if ys.contains(e) {
                    let k = choose|k: int| 0 <= k < ys.len() && ys[k] == e;
                    if k < i {
                        assert(xs[k] == e);
                    } else if k > i {
                        assert(xs[k - 1] == e);
                    }
                }
                if xs.contains(e) {
                    let k = choose|k: int| 0 <= k < xs.len() && xs[k] == e;
                    if k < i {
                        assert(ys[k] == e);
                    } else {
                        assert(ys[k + 1] == e);
                    }
                }
                if e == x@ {
                    assert(ys[i as int] == e);
                }
            }
        }
    }
}

} // verus!

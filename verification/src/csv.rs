//! Sensor.Community archive CSV: lines of `;`-separated fields after a header line.
//!
//! Format: `sensor_id;sensor_type;location;lat;lon;timestamp;P1;durP1;ratioP1;P2;...`

use vstd::prelude::*;
use crate::text::{chars_of, string_from_chars, spec_split, split_chars, lemma_split_nonempty};

verus! {

/// A line without the `\r` of a `\r\n` ending.
pub open spec fn strip_cr(x: Seq<char>) -> Seq<char> {
    if x.len() > 0 && x.last() == '\r' {
        x.drop_last()
    } else {
        x
    }
}

/// Lines of a text as `str::lines` gives them: split at `\n`, a `\r` before a `\n` dropped, and
/// no empty line after a final `\n`.
pub open spec fn spec_lines(s: Seq<char>) -> Seq<Seq<char>> {
    let p = spec_split(s, '\n');
    let ended = Seq::new((p.len() - 1) as nat, |i: int| strip_cr(p[i]));
    if p.last().len() == 0 {
        ended
    } else {
        ended.push(p.last())
    }
}

/// `(timestamp, PM2.5 text)` of each line that has at least ten fields.
pub open spec fn row_fields(lines: Seq<Seq<char>>) -> Seq<(Seq<char>, Seq<char>)>
    decreases lines.len(),
{
    if lines.len() == 0 {
        Seq::empty()
    } else {
        let init = row_fields(lines.drop_last());
        let cols = spec_split(lines.last(), ';');
        if cols.len() >= 10 {
            init.push((cols[5], cols[9]))
        } else {
            init
        }
    }
}

/// `(timestamp, PM2.5 text)` of the data lines of an archive CSV (the header line skipped).
pub open spec fn spec_csv_fields(text: Seq<char>) -> Seq<(Seq<char>, Seq<char>)> {
    let lines = spec_lines(text);
    if lines.len() == 0 {
        Seq::empty()
    } else {
        row_fields(lines.drop_first())
    }
}

/// Texts of a vector of string pairs.
pub open spec fn pair_texts(v: Seq<(String, String)>) -> Seq<(Seq<char>, Seq<char>)> {
    v.map_values(|p: (String, String)| (p.0@, p.1@))
}

fn strip_cr_exec(x: &Vec<char>) -> (r: Vec<char>)
    ensures
        r@ == strip_cr(x@),
{
    let n = x.len();
    let keep = if n > 0 && x[n - 1] == '\r' { n - 1 } else { n };
    let mut r: Vec<char> = Vec::new();
    for i in 0..keep
        invariant
            keep <= x@.len(),
            r@ == x@.take(i as int),
    {
        assert(x@.take(i + 1) == x@.take(i as int).push(x@[i as int]));
        r.push(x[i]);
    }
    assert(x@.take(x@.len() as int) == x@);
    r
}

/// Lines of a text, as `str::lines` splits them.
pub fn text_lines(text: &Vec<char>) -> (lines: Vec<Vec<char>>)
    ensures
        lines@.map_values(|l: Vec<char>| l@) == spec_lines(text@),
{
    let parts = split_chars(text, '\n');
    let ghost p = spec_split(text@, '\n');
    proof {
        lemma_split_nonempty(text@, '\n');
    }
    let n = parts.len();
    let mut lines: Vec<Vec<char>> = Vec::new();
    let mut i: usize = 0;
    while i + 1 < n
        invariant
            parts@.map_values(|q: Vec<char>| q@) == p,
            n == p.len(),
            n >= 1,
            i <= n - 1,
            lines@.len() == i,
            forall|j: int| 0 <= j < i ==> (#[trigger] lines@[j])@ == strip_cr(p[j]),
        decreases n - i,
    {
        assert(parts@[i as int]@ == p[i as int]);
        let l = strip_cr_exec(&parts[i]);
        lines.push(l);
        i = i + 1;
    }
    let ghost ended = Seq::new((p.len() - 1) as nat, |k: int| strip_cr(p[k]));
    assert(lines@.map_values(|l: Vec<char>| l@) == ended);
    assert(parts@[n - 1]@ == p.last());
    if parts[n - 1].len() > 0 {
        let last = copy_chars(&parts[n - 1]);
        lines.push(last);
        assert(lines@.map_values(|l: Vec<char>| l@) == ended.push(p.last()));
    }
    lines
}

fn copy_chars(v: &Vec<char>) -> (r: Vec<char>)
    ensures
        r@ == v@,
{
    let mut r: Vec<char> = Vec::new();
    for i in 0..v.len()
        invariant
            r@ == v@.take(i as int),
    {
        assert(v@.take(i + 1) == v@.take(i as int).push(v@[i as int]));
        r.push(v[i]);
    }
    assert(v@.take(v@.len() as int) == v@);
    r
}

/// Timestamp and PM2.5 text (fields 6 and 10) of every data line with at least ten fields, in
/// order; the first line is the header.
pub fn sensor_csv_fields(text: &str) -> (r: Vec<(String, String)>)
    ensures
        pair_texts(r@) == spec_csv_fields(text@),
{
    let chars = chars_of(text);
    let lines = text_lines(&chars);
    let ghost ls = spec_lines(text@);
    let mut r: Vec<(String, String)> = Vec::new();
    if lines.len() == 0 {
        return r;
    }
    let ghost data = ls.drop_first();
    let mut i: usize = 1;
    while i < lines.len()
        invariant
            lines@.map_values(|l: Vec<char>| l@) == ls,
            data == ls.drop_first(),
            1 <= i <= ls.len(),
            pair_texts(r@) == row_fields(data.take(i - 1)),
        decreases ls.len() - i,
    {
        assert(data.take(i as int).drop_last() == data.take(i - 1));
        assert(data.take(i as int).last() == lines@[i as int]@);
        let cols = split_chars(&lines[i], ';');
        if cols.len() >= 10 {
            assert(cols@[5]@ == spec_split(lines@[i as int]@, ';')[5]);
            assert(cols@[9]@ == spec_split(lines@[i as int]@, ';')[9]);
            let ts = string_from_chars(&cols[5]);
            let p2 = string_from_chars(&cols[9]);
            r.push((ts, p2));
            assert(pair_texts(r@) == row_fields(data.take(i - 1)).push((ts@, p2@)));
        }
        i = i + 1;
    }
    assert(data.take(ls.len() - 1) == data);
    r
}

} // verus!

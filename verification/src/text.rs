//! Character-level helpers: decimal formatting, splitting and parsing.

use vstd::prelude::*;

verus! {

/// Characters of a string slice, in order.
pub fn chars_of(s: &str) -> (v: Vec<char>)
    ensures
        v@ == s@,
{
    let mut v: Vec<char> = Vec::new();
    for c in it: s.chars()
        invariant
            v@ == it.seq().take(it.index() as int),
            it.seq() == s@,
    {
        v.push(c);
    }
    v
}

/// Builds a `String` holding exactly the given characters (`FromIterator<char>` for `String`).
#[verifier::external_body]
pub(crate) fn string_from_chars(v: &Vec<char>) -> (s: String)
    ensures
        s@ == v@,
{
    v.iter().collect::<String>()
}


/// The ASCII digit for `d` (0..=9).
pub open spec fn digit_char(d: int) -> char {
    ((48 + d) as u8) as char
}

/// Decimal representation of a natural number, most significant digit first.
pub open spec fn spec_digits(n: nat) -> Seq<char>
    decreases n,
{
    if n < 10 {
        seq![digit_char(n as int)]
    } else {
        spec_digits(n / 10).push(digit_char((n % 10) as int))
    }
}

/// `s` left-padded with '0' up to `width` characters.
pub open spec fn spec_zero_pad(s: Seq<char>, width: nat) -> Seq<char> {
    if s.len() >= width {
        s
    } else {
        Seq::new((width - s.len()) as nat, |i: int| '0') + s
    }
}

/// Signed decimal with sign-aware zero padding to `width` characters (as `{:0width$}`).
pub open spec fn spec_fmt_int(n: int, width: nat) -> Seq<char> {
    if n >= 0 {
        spec_zero_pad(spec_digits(n as nat), width)
    } else {
        seq!['-'] + spec_zero_pad(spec_digits((-n) as nat), if width >= 1 { (width - 1) as nat } else { 0 })
    }
}

fn digit(d: u64) -> (c: char)
    requires
        d < 10,
    ensures
        c == digit_char(d as int),
{
    ((48 + d) as u8) as char
}

/// Decimal digits of `n`.
pub fn decimal_digits(n: u64) -> (v: Vec<char>)
    ensures
        v@ == spec_digits(n as nat),
    decreases n,
{
    if n < 10 {
        let mut v = Vec::new();
        v.push(digit(n));
        v
    } else {
        let mut v = decimal_digits(n / 10);
        v.push(digit(n % 10));
        v
    }
}

/// Appends `s` zero-padded to `width` onto `out`.
fn push_zero_padded(out: &mut Vec<char>, s: &Vec<char>, width: usize)
    ensures
        final(out)@ == old(out)@ + spec_zero_pad(s@, width as nat),
{
    let mut k = s.len();
    while k < width
        invariant
            s.len() <= k <= width || width <= s.len() == k,
            out@ == old(out)@ + Seq::new((k - s.len()) as nat, |i: int| '0'),
        decreases width - k,
    {
        out.push('0');
        k = k + 1;
        assert(out@ == old(out)@ + Seq::new((k - s.len()) as nat, |i: int| '0'));
    }
    let ghost mid = out@;
    for i in 0..s.len()
        invariant
            out@ == mid + s@.take(i as int),
    {
        out.push(s[i]);
    }
    assert(s@.take(s.len() as int) == s@);
    if s.len() >= width {
        assert(Seq::new((k - s.len()) as nat, |i: int| '0') == Seq::<char>::empty());
        assert(out@ == old(out)@ + spec_zero_pad(s@, width as nat));
    } else {
        assert(out@ == old(out)@ + spec_zero_pad(s@, width as nat));
    }
}

/// Appends `n` formatted as `{:0width$}` onto `out`.
pub fn push_fmt_int(out: &mut Vec<char>, n: i64, width: usize)
    ensures
        final(out)@ == old(out)@ + spec_fmt_int(n as int, width as nat),
{
    if n >= 0 {
        let d = decimal_digits(n as u64);
        push_zero_padded(out, &d, width);
    } else {
        let mag: u64 = ((-(n + 1)) as u64) + 1;
        let d = decimal_digits(mag);
        out.push('-');
        let w = if width >= 1 { width - 1 } else { 0 };
        push_zero_padded(out, &d, w);
    }
}


/// Whether `c` is an ASCII decimal digit.
pub open spec fn is_digit(c: char) -> bool {
    48 <= (c as int) <= 57
}

/// Whether every character of `s` is an ASCII decimal digit.
pub open spec fn all_digits(s: Seq<char>) -> bool {
    forall|i: int| 0 <= i < s.len() ==> is_digit(#[trigger] s[i])
}

/// Value of a run of decimal digits.
pub open spec fn digits_value(s: Seq<char>) -> int
    decreases s.len(),
{
    if s.len() == 0 {
        0
    } else {
        digits_value(s.drop_last()) * 10 + ((s.last() as int) - 48)
    }
}

/// `u64::from_str`: an optional '+', then one or more ASCII digits, with a value that fits.
pub open spec fn spec_parse_u64(s: Seq<char>) -> Option<u64> {
    let body = if s.len() > 0 && s[0] == '+' { s.drop_first() } else { s };
    if body.len() == 0 || !all_digits(body) || digits_value(body) > u64::MAX {
        None
    } else {
        Some(digits_value(body) as u64)
    }
}

/// Pieces of `s` between occurrences of `sep` (as `str::split` with a char pattern).
pub open spec fn spec_split(s: Seq<char>, sep: char) -> Seq<Seq<char>>
    decreases s.len(),
{
    if s.len() == 0 {
        seq![Seq::<char>::empty()]
    } else {
        let init = spec_split(s.drop_last(), sep);
        if s.last() == sep {
            init.push(Seq::<char>::empty())
        } else {
            init.update(init.len() - 1, init.last().push(s.last()))
        }
    }
}

/// The split of any text has at least one piece.
pub proof fn lemma_split_nonempty(s: Seq<char>, sep: char)
    ensures
        spec_split(s, sep).len() >= 1,
    decreases s.len(),
{
    if s.len() > 0 {
        lemma_split_nonempty(s.drop_last(), sep);
    }
}

proof fn lemma_digits_value_nonneg(s: Seq<char>)
    requires
        all_digits(s),
    ensures
        digits_value(s) >= 0,
    decreases s.len(),
{
    if s.len() > 0 {
        lemma_digits_value_nonneg(s.drop_last());
    }
}

proof fn lemma_digits_value_prefix(s: Seq<char>, j: int, k: int)
    requires
        all_digits(s),
        0 <= j <= k <= s.len(),
    ensures
        digits_value(s.take(j)) <= digits_value(s.take(k)),
    decreases k - j,
{
    if j < k {
        lemma_digits_value_prefix(s, j, k - 1);
        assert(s.take(k).drop_last() == s.take(k - 1));
        assert(all_digits(s.take(k - 1)));
        lemma_digits_value_nonneg(s.take(k - 1));
    }
}

/// Pieces of `s` between occurrences of `sep`.
pub fn split_chars(s: &Vec<char>, sep: char) -> (parts: Vec<Vec<char>>)
    ensures
        parts@.map_values(|p: Vec<char>| p@) == spec_split(s@, sep),
{
    let mut parts: Vec<Vec<char>> = Vec::new();
    let mut cur: Vec<char> = Vec::new();
    for i in 0..s.len()
        invariant
            parts@.map_values(|p: Vec<char>| p@).push(cur@) == spec_split(s@.take(i as int), sep),
    {
        let ghost before = parts@.map_values(|p: Vec<char>| p@).push(cur@);
        assert(s@.take(i + 1).drop_last() == s@.take(i as int));
        let c = s[i];
        if c == sep {
            let done = cur;
            parts.push(done);
            cur = Vec::new();
            assert(parts@.map_values(|p: Vec<char>| p@).push(cur@) == before.push(Seq::<char>::empty()));
        } else {
            cur.push(c);
            assert(parts@.map_values(|p: Vec<char>| p@).push(cur@) == before.update(before.len() - 1, before.last().push(c)));
        }
    }
    assert(s@.take(s.len() as int) == s@);
    parts.push(cur);
    assert(parts@.map_values(|p: Vec<char>| p@) == spec_split(s@, sep));
    parts
}

/// Value of `body` when it is a non-empty run of ASCII digits worth at most `limit`.
pub open spec fn spec_digits_upto(body: Seq<char>, limit: int) -> Option<u64> {
    if body.len() == 0 || !all_digits(body) || digits_value(body) > limit {
        None
    } else {
        Some(digits_value(body) as u64)
    }
}

/// Reads the digits of `s[start..]`, refusing any other character and any value above `limit`.
fn parse_digits_upto(s: &Vec<char>, start: usize, limit: u64) -> (r: Option<u64>)
    requires
        start <= s.len(),
    ensures
        r == spec_digits_upto(s@.subrange(start as int, s@.len() as int), limit as int),
        r matches Some(v) ==> v <= limit,
{
    let ghost body = s@.subrange(start as int, s@.len() as int);
    if start >= s.len() {
        return None;
    }
    let mut v: u64 = 0;
    let mut i: usize = start;
    while i < s.len()
        invariant
            start <= i <= s.len(),
            body == s@.subrange(start as int, s@.len() as int),
            all_digits(body.take(i - start)),
            v as int == digits_value(body.take(i - start)),
            v <= limit,
        decreases s.len() - i,
    {
        let c = s[i];
        assert(body[i - start] == c);
        if !('0' <= c && c <= '9') {
            assert(!all_digits(body));
            return None;
        }
        let d = (c as u64) - 48;
        assert(body.take(i - start + 1).drop_last() == body.take(i - start));
        assert(all_digits(body.take(i - start + 1)));
        if d > limit || v > (limit - d) / 10 {
            proof {
                assert(digits_value(body.take(i - start + 1)) > limit) by (nonlinear_arith)
                    requires
                        d > limit || v > (limit - d) / 10,
                        digits_value(body.take(i - start + 1)) == v * 10 + d,
                        d <= 9,
                        v >= 0,
                ;
                if all_digits(body) {
                    lemma_digits_value_prefix(body, i - start + 1, body.len() as int);
                    assert(body.take(body.len() as int) == body);
                }
            }
            return None;
        }
        v = v * 10 + d;
        i = i + 1;
    }
    assert(body.take(i - start) == body);
    Some(v)
}

/// Parses a `u64` written in decimal with an optional leading '+'.
pub fn parse_u64(s: &Vec<char>) -> (r: Option<u64>)
    ensures
        r == spec_parse_u64(s@),
{
    let start: usize = if s.len() > 0 && s[0] == '+' { 1 } else { 0 };
    assert(s@.subrange(start as int, s@.len() as int) == (if s@.len() > 0 && s@[0] == '+' { s@.drop_first() } else { s@ }));
    parse_digits_upto(s, start, 18446744073709551615)
}

/// `i64::from_str`: an optional sign, then one or more ASCII digits, with a value that fits.
pub open spec fn spec_parse_i64(s: Seq<char>) -> Option<i64> {
    if s.len() == 0 {
        None
    } else if s[0] == '-' {
        match spec_digits_upto(s.drop_first(), 0x8000_0000_0000_0000) {
            Some(v) => Some((-(v as int)) as i64),
            None => None,
        }
    } else {
        let body = if s[0] == '+' { s.drop_first() } else { s };
        match spec_digits_upto(body, i64::MAX as int) {
            Some(v) => Some(v as i64),
            None => None,
        }
    }
}

/// Parses an `i64` written in decimal with an optional sign.
pub fn parse_i64(s: &Vec<char>) -> (r: Option<i64>)
    ensures
        r == spec_parse_i64(s@),
{
    if s.len() == 0 {
        return None;
    }
    if s[0] == '-' {
        assert(s@.subrange(1, s@.len() as int) == s@.drop_first());
        match parse_digits_upto(s, 1, 9223372036854775808) {
            Some(v) => {
                assert(v <= 9223372036854775808);
                if v == 9223372036854775808 {
                    Some(-9223372036854775807 - 1)
                } else {
                    Some(-(v as i64))
                }
            },
            None => None,
        }
    } else {
        let start: usize = if s[0] == '+' { 1 } else { 0 };
        assert(s@.subrange(start as int, s@.len() as int) == (if s@[0] == '+' { s@.drop_first() } else { s@ }));
        match parse_digits_upto(s, start, 9223372036854775807) {
            Some(v) => {
                assert(v <= 9223372036854775807);
                Some(v as i64)
            },
            None => None,
        }
    }
}


proof fn lemma_digit_char(d: int)
    requires
        0 <= d <= 9,
    ensures
        (digit_char(d) as int) == 48 + d,
        is_digit(digit_char(d)),
        digit_char(d) != '-',
        digit_char(d) != '+',
{
}

/// A text without the separator splits into itself alone.
pub proof fn lemma_split_no_sep(s: Seq<char>, sep: char)
    requires
        !s.contains(sep),
    ensures
        spec_split(s, sep) == seq![s],
    decreases s.len(),
{
    if s.len() > 0 {
        assert(!s.drop_last().contains(sep)) by {
            if s.drop_last().contains(sep) {
                let j = choose|j: int| 0 <= j < s.drop_last().len() && s.drop_last()[j] == sep;
                assert(s[j] == sep);
            }
        }
        lemma_split_no_sep(s.drop_last(), sep);
        assert(s.last() != sep) by {
            assert(s[s.len() - 1] == s.last());
        }
        assert(s.drop_last().push(s.last()) == s);
        let init = spec_split(s.drop_last(), sep);
        assert(init == seq![s.drop_last()]);
        assert(init.update(0, init.last().push(s.last())) == seq![s]);
    } else {
        assert(s == Seq::<char>::empty());
    }
}

/// Splitting at a separator distributes over the two sides.
pub proof fn lemma_split_concat(x: Seq<char>, y: Seq<char>, sep: char)
    ensures
        spec_split(x + seq![sep] + y, sep) == spec_split(x, sep) + spec_split(y, sep),
    decreases y.len(),
{
    lemma_split_nonempty(x, sep);
    if y.len() == 0 {
        assert(x + seq![sep] + y == x + seq![sep]);
        assert((x + seq![sep]).drop_last() == x);
    } else {
        let z = x + seq![sep] + y;
        assert(z.drop_last() == x + seq![sep] + y.drop_last());
        assert(z.last() == y.last());
        lemma_split_concat(x, y.drop_last(), sep);
        lemma_split_nonempty(y.drop_last(), sep);
        let a = spec_split(x, sep);
        let b = spec_split(y.drop_last(), sep);
        if y.last() == sep {
            assert((a + b).push(Seq::<char>::empty()) == a + b.push(Seq::<char>::empty()));
        } else {
            assert((a + b).update((a + b).len() - 1, (a + b).last().push(y.last()))
                == a + b.update(b.len() - 1, b.last().push(y.last())));
        }
    }
}

/// The digits of a number are ASCII digits and never empty.
pub proof fn lemma_digits_shape(n: nat)
    ensures
        all_digits(spec_digits(n)),
        spec_digits(n).len() >= 1,
        digits_value(spec_digits(n)) == n,
        n >= 10 ==> spec_digits(n).len() >= 2,
        n >= 1000 ==> spec_digits(n).len() >= 4,
    decreases n,
{
    lemma_digit_char((n % 10) as int);
    if n >= 10 {
        lemma_digits_shape(n / 10);
        let d = spec_digits(n);
        assert(d.drop_last() == spec_digits(n / 10));
        assert(d.last() == digit_char((n % 10) as int));
        assert(digits_value(d) == digits_value(d.drop_last()) * 10 + ((d.last() as int) - 48));
        assert(digits_value(d) == n);
        assert forall|i: int| 0 <= i < d.len() implies is_digit(#[trigger] d[i]) by {
            if i < d.len() - 1 {
                assert(d[i] == spec_digits(n / 10)[i]);
            }
        }
        if n >= 1000 {
            lemma_digits_shape(n / 100);
            lemma_digits_shape(n / 1000);
            assert(n / 10 / 10 == n / 100);
            assert(n / 100 / 10 == n / 1000);
            assert(spec_digits(n / 10).len() == spec_digits(n / 100).len() + 1);
            assert(spec_digits(n / 100).len() == spec_digits(n / 1000).len() + 1);
        }
    } else {
        lemma_digit_char(n as int);
        let d = spec_digits(n);
        assert(d.drop_last() == Seq::<char>::empty());
        assert(d.last() == digit_char(n as int));
        assert(digits_value(d) == digits_value(d.drop_last()) * 10 + ((d.last() as int) - 48));
    }
}

/// Formatting a number in decimal and reading it back gives the number.
pub proof fn lemma_parse_digits(n: u64)
    ensures
        spec_parse_u64(spec_digits(n as nat)) == Some(n),
        !spec_digits(n as nat).contains('-'),
{
    lemma_digits_shape(n as nat);
    let d = spec_digits(n as nat);
    assert(d[0] != '+');
    if d.contains('-') {
        let j = choose|j: int| 0 <= j < d.len() && d[j] == '-';
        assert(is_digit(d[j]));
    }
}

/// A one- or two-digit number printed two wide reads back as itself.
pub proof fn lemma_parse_two_wide(n: u64)
    requires
        n < 100,
    ensures
        spec_parse_u64(spec_fmt_int(n as int, 2)) == Some(n),
        !spec_fmt_int(n as int, 2).contains('-'),
{
    lemma_digits_shape(n as nat);
    lemma_parse_digits(n);
    if n < 10 {
        lemma_digit_char(n as int);
        let d = spec_digits(n as nat);
        let t = spec_fmt_int(n as int, 2);
        assert(t == seq!['0', d[0]]);
        assert(t.drop_last() == seq!['0']);
        assert(seq!['0'].drop_last() == Seq::<char>::empty());
        assert(('0' as int) == 48);
        assert(digits_value(seq!['0']) == digits_value(seq!['0'].drop_last()) * 10 + (('0' as int) - 48));
        assert(digits_value(seq!['0']) == 0);
        assert(d[0] == digit_char(n as int));
        assert(t.last() == d[0]);
        assert(digits_value(t) == n);
        assert(all_digits(t));
        assert(d.drop_last() == Seq::<char>::empty());
        if t.contains('-') {
            let j = choose|j: int| 0 <= j < t.len() && t[j] == '-';
            assert(is_digit(t[j]));
        }
    }
}

} // verus!

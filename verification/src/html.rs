//! Escaping of user-provided text placed into the HTML report.

use vstd::prelude::*;
use crate::text::{chars_of, string_from_chars};

verus! {

/// What one character becomes in escaped HTML text.
pub open spec fn escape_char(c: char) -> Seq<char> {
    if c == '&' {
        seq!['&', 'a', 'm', 'p', ';']
    } else if c == '<' {
        seq!['&', 'l', 't', ';']
    } else if c == '>' {
        seq!['&', 'g', 't', ';']
    } else if c == '"' {
        seq!['&', 'q', 'u', 'o', 't', ';']
    } else if c == '\'' {
        seq!['&', '#', '3', '9', ';']
    } else {
        seq![c]
    }
}

/// The text with each character replaced by its escaped form.
pub open spec fn spec_html_escape(s: Seq<char>) -> Seq<char>
    decreases s.len(),
{
    if s.len() == 0 {
        Seq::empty()
    } else {
        spec_html_escape(s.drop_last()) + escape_char(s.last())
    }
}

/// Characters that must not appear raw in attribute values or text of the report.
pub open spec fn is_markup_char(c: char) -> bool {
    c == '<' || c == '>' || c == '"' || c == '\''
}

fn push_escaped(out: &mut Vec<char>, c: char)
    ensures
        final(out)@ == old(out)@ + escape_char(c),
{
    if c == '&' {
        out.push('&');
        out.push('a');
        out.push('m');
        out.push('p');
        out.push(';');
    } else if c == '<' {
        out.push('&');
        out.push('l');
        out.push('t');
        out.push(';');
    } else if c == '>' {
        out.push('&');
        out.push('g');
        out.push('t');
        out.push(';');
    } else if c == '"' {
        out.push('&');
        out.push('q');
        out.push('u');
        out.push('o');
        out.push('t');
        out.push(';');
    } else if c == '\'' {
        out.push('&');
        out.push('#');
        out.push('3');
        out.push('9');
        out.push(';');
    } else {
        out.push(c);
    }
    assert(final(out)@ == old(out)@ + escape_char(c));
}

/// Minimal HTML escaping: `&`, `<`, `>`, `"` and `'` become `&amp;`, `&lt;`, `&gt;`, `&quot;`
/// and `&#39;`; every other character is kept.
pub fn html_escape(s: &str) -> (r: String)
    ensures
        r@ == spec_html_escape(s@),
{
    let v = chars_of(s);
    let mut out: Vec<char> = Vec::new();
    for i in 0..v.len()
        invariant
            v@ == s@,
            out@ == spec_html_escape(v@.take(i as int)),
    {
        assert(v@.take(i + 1).drop_last() == v@.take(i as int));
        push_escaped(&mut out, v[i]);
    }
    assert(v@.take(v.len() as int) == v@);
    string_from_chars(&out)
}

/// Escaped text holds no raw markup character, and text without `&` or markup characters is
/// left as it is.
pub proof fn law_escape_removes_markup(s: Seq<char>)
    ensures
        forall|i: int| 0 <= i < spec_html_escape(s).len() ==> !is_markup_char(#[trigger] spec_html_escape(s)[i]),
        (forall|i: int| 0 <= i < s.len() ==> !is_markup_char(#[trigger] s[i]) && s[i] != '&')
            ==> spec_html_escape(s) == s,
    decreases s.len(),
{
    if s.len() > 0 {
        let p = s.drop_last();
        law_escape_removes_markup(p);
        let e = escape_char(s.last());
        let a = spec_html_escape(p);
        assert forall|i: int| 0 <= i < spec_html_escape(s).len() implies !is_markup_char(
            #[trigger] spec_html_escape(s)[i],
        ) by {
            if i >= a.len() {
                assert(spec_html_escape(s)[i] == e[i - a.len()]);
            } else {
                assert(spec_html_escape(s)[i] == a[i]);
            }
        }
        if forall|i: int| 0 <= i < s.len() ==> !is_markup_char(#[trigger] s[i]) && s[i] != '&' {
            assert(forall|i: int| 0 <= i < p.len() ==> p[i] == s[i]);
            assert(!is_markup_char(s[s.len() - 1]) && s[s.len() - 1] != '&');
            assert(p.push(s.last()) == s);
        }
    }
}

} // verus!

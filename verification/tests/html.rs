use airq::html::html_escape;

#[test]
fn escapes_the_five_markup_characters() {
    assert_eq!(html_escape("<a href=\"x\">Tom & Jerry's</a>"), "&lt;a href=&quot;x&quot;&gt;Tom &amp; Jerry&#39;s&lt;/a&gt;");
}

#[test]
fn plain_text_is_kept() {
    assert_eq!(html_escape(""), "");
    assert_eq!(html_escape("Istanbul \u{00fc} 42"), "Istanbul \u{00fc} 42");
}

#[test]
fn ampersands_are_escaped_once() {
    assert_eq!(html_escape("&amp;"), "&amp;amp;");
    let once = html_escape("<>");
    assert_eq!(once, "&lt;&gt;");
    assert!(!once.contains('<') && !once.contains('>'));
}

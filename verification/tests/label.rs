use airq::label::{is_whitespace, short_node_label};

#[test]
fn numbered_duplicates_become_numbers() {
    assert_eq!(short_node_label("Moscow-58"), "#58");
    assert_eq!(short_node_label("  Foo-Bar-3 (sensor)"), "#3");
    assert_eq!(short_node_label("a-"), "#");
}

#[test]
fn names_are_cut_at_the_bracket_and_trimmed() {
    assert_eq!(short_node_label("Zelenograd (Moscow)"), "Zelenograd");
    assert_eq!(short_node_label("\tPlain \u{3000}"), "Plain");
    assert_eq!(short_node_label("Saint Petersburg"), "Saint Petersburg");
    assert_eq!(short_node_label(""), "");
    assert_eq!(short_node_label("(x-1)"), "");
    assert_eq!(short_node_label("   "), "");
}

#[test]
fn white_space_is_that_of_std() {
    for u in 0u32..0x3100 {
        if let Some(c) = char::from_u32(u) {
            assert_eq!(is_whitespace(c), c.is_whitespace(), "code point {:#x}", u);
        }
    }
    for c in ['\u{feff}', '\u{10ffff}', 'a', '-'] {
        assert_eq!(is_whitespace(c), c.is_whitespace());
    }
}

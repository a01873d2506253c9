use mediavert::sanitize::sanitize;
use mediavert::text::is_whitespace;

#[test]
fn slash_becomes_plus() {
    assert_eq!(sanitize("A/B"), "A+B");
    assert_eq!(sanitize("A\\B"), "A+B");
}

#[test]
fn colon_then_space_becomes_dash_with_spaces() {
    assert_eq!(sanitize("Unknown: Title"), "Unknown - Title");
    assert_eq!(sanitize("a:\tb"), "a - b");
    assert_eq!(sanitize(": x"), " - x");
}

#[test]
fn bare_colon_becomes_dash() {
    assert_eq!(sanitize("10:30"), "10-30");
    assert_eq!(sanitize("x::y"), "x--y");
    assert_eq!(sanitize("end:"), "end-");
}

#[test]
fn plain_text_is_unchanged() {
    assert_eq!(sanitize(""), "");
    assert_eq!(sanitize("plain  text   with runs"), "plain  text   with runs");
    assert_eq!(sanitize("  edges  "), "  edges  ");
}

#[test]
fn deleted_and_replaced_characters() {
    assert_eq!(sanitize("a<b>c?d|e\"f"), "abcdef");
    assert_eq!(sanitize("a*b"), "a-b");
}

#[test]
fn whitespace_collapses_only_after_first_special() {
    assert_eq!(sanitize("a  b/c  d"), "a  b+c d");
    assert_eq!(sanitize("x/y   z"), "x+y z");
}

#[test]
fn whitespace_after_emitted_whitespace_is_dropped() {
    assert_eq!(sanitize("a <  b"), "a b");
    assert_eq!(sanitize("a:  b"), "a - b");
}

#[test]
fn whitespace_class_matches_std() {
    for n in 0u32..=0x10ffff {
        if let Some(c) = char::from_u32(n) {
            assert_eq!(is_whitespace(c), c.is_whitespace(), "U+{:04X}", n);
        }
    }
}

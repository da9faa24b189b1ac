//! Readings of a fixed width.

use taipei::figure::{count, slots, FIGURE_SPACE};

#[test]
fn a_reading_keeps_its_width() {
    assert_eq!(slots("7", 3), "\u{2007}\u{2007}7");
    assert_eq!(slots("1234", 3), "1234");
    assert_eq!(slots("", 2), "\u{2007}\u{2007}");
    assert_eq!(slots("é", 2), "\u{2007}é");
    assert_eq!(FIGURE_SPACE, '\u{2007}');
    for text in ["0", "42", "9,999", "12345"] {
        assert_eq!(count(text).chars().count(), 5);
        assert!(count(text).ends_with(text));
    }
    assert_eq!(count("123,456"), "123,456");
}

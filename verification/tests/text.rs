//! Cutting text at byte limits, and numbers as text.
use openai_adapter::text::decimal_text;
use openai_adapter::text::floor_char_boundary;
use openai_adapter::text::safe_truncate;

#[test]
fn boundary_is_the_last_one_up_to_the_limit() {
    let s = "a北b";
    assert_eq!(floor_char_boundary(s, 0), 0);
    assert_eq!(floor_char_boundary(s, 1), 1);
    assert_eq!(floor_char_boundary(s, 2), 1);
    assert_eq!(floor_char_boundary(s, 3), 1);
    assert_eq!(floor_char_boundary(s, 4), 4);
    assert_eq!(floor_char_boundary(s, 5), 5);
    assert_eq!(floor_char_boundary(s, 99), 5);
    assert_eq!(floor_char_boundary("", 3), 0);
}

#[test]
fn boundary_agrees_with_the_standard_library() {
    let s = "x\u{e9}\u{4e2d}\u{1F50D}y";
    for max in 0..14 {
        let b = floor_char_boundary(s, max);
        assert!(s.is_char_boundary(b) && b <= max);
        assert!(((b + 1)..=max.min(s.len())).all(|i| !s.is_char_boundary(i)));
        assert_eq!(safe_truncate(s, max), &s[..b]);
    }
}

#[test]
fn short_text_is_not_truncated() {
    assert_eq!(safe_truncate("北京", 6), "北京");
    assert_eq!(safe_truncate("北京", 5), "北");
}

#[test]
fn numbers_are_written_in_decimal() {
    for n in [0usize, 7, 9, 10, 42, 100, 65536, usize::MAX] {
        assert_eq!(decimal_text(n), n.to_string());
    }
}

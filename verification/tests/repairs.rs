//! The single repairs, and the chain of them.
use openai_adapter::repair::escape_newlines_in_strings;
use openai_adapter::repair::normalize_unicode_quotes;
use openai_adapter::repair::repair_invalid_backslashes;
use openai_adapter::repair::repair_json;
use openai_adapter::repair::repair_single_quotes;
use openai_adapter::repair::repair_trailing_commas;
use openai_adapter::repair::repair_unquoted_keys;
use openai_adapter::repair::strip_control_chars;
use openai_adapter::repair::try_json_parse;
use openai_adapter::search::is_white;

#[test]
fn white_characters_are_those_of_unicode() {
    for n in 0..=0x10FFFFu32 {
        if let Some(c) = char::from_u32(n) {
            assert_eq!(is_white(c), c.is_whitespace(), "U+{n:04X}");
        }
    }
}

#[test]
fn stripped_characters_are_the_controls_of_unicode() {
    for n in 0..=0x10FFFFu32 {
        if let Some(c) = char::from_u32(n) {
            let kept = c == '\n' || c == '\t' || c == '\r' || !c.is_control();
            assert_eq!(strip_control_chars(&c.to_string()).is_empty(), !kept, "U+{n:04X}");
        }
    }
}

#[test]
fn stripping_is_idempotent() {
    let once = strip_control_chars("a\u{7f}\u{9f}b\r\nc\u{0}");
    assert_eq!(once, "ab\r\nc");
    assert_eq!(strip_control_chars(&once), once);
}

#[test]
fn full_width_quote_becomes_plain() {
    assert_eq!(normalize_unicode_quotes("\u{FF02}x\u{FF02}"), "\"x\"");
}

#[test]
fn backslash_before_other_character_is_doubled() {
    assert_eq!(repair_invalid_backslashes(r"C:\Users\name"), r"C:\\Users\name");
    assert_eq!(repair_invalid_backslashes(r"\é"), r"\\é");
}

#[test]
fn backslash_at_the_end_stays_alone() {
    assert_eq!(repair_invalid_backslashes("a\\"), "a\\");
    assert_eq!(repair_invalid_backslashes("\\\\"), "\\\\");
}

#[test]
fn backslash_repair_is_idempotent() {
    for s in [r"\U", r"C:\dir\file", r"\\\x", "tail\\"] {
        let once = repair_invalid_backslashes(s);
        assert_eq!(repair_invalid_backslashes(&once), once);
    }
}

#[test]
fn keys_beyond_ascii_are_quoted() {
    assert_eq!(repair_unquoted_keys("{città: 1, ключ2: 2}"), "{\"città\": 1, \"ключ2\": 2}");
    assert_eq!(repair_unquoted_keys("{_a1: 1}"), "{\"_a1\": 1}");
}

#[test]
fn words_that_are_no_keys_stay() {
    assert_eq!(repair_unquoted_keys("[true, false]"), "[true, false]");
    assert_eq!(repair_unquoted_keys("{1a: 2}"), "{1a: 2}");
    assert_eq!(repair_unquoted_keys("{\"a\": 1}"), "{\"a\": 1}");
    assert_eq!(repair_unquoted_keys("a,"), "a,");
    assert_eq!(repair_unquoted_keys("{ \n a : 1}"), "{ \n a : 1}");
}

#[test]
fn only_the_last_of_several_commas_goes() {
    assert_eq!(repair_trailing_commas("[1,,]"), "[1,]");
    assert_eq!(repair_trailing_commas("[1 , \n ]"), "[1 ]");
    assert_eq!(repair_trailing_commas("[1,"), "[1,");
}

#[test]
fn escaped_quote_does_not_end_a_string() {
    assert_eq!(repair_trailing_commas(r#"{"a": "\",]"}"#), r#"{"a": "\",]"}"#);
    assert_eq!(repair_single_quotes(r"{'a': 'it\'s'}"), r#"{"a": "it\'s"}"#);
}

#[test]
fn single_quote_in_double_quotes_stays() {
    assert_eq!(repair_single_quotes(r#"{"a": "it's"}"#), r#"{"a": "it's"}"#);
}

#[test]
fn line_breaks_are_escaped_in_strings_only() {
    assert_eq!(escape_newlines_in_strings("{\n\"a\": \"x\r\ny\"\n}"), "{\n\"a\": \"x\\n\\ny\"\n}");
    let once = escape_newlines_in_strings("\"a\nb");
    assert_eq!(once, "\"a\\nb");
    assert_eq!(escape_newlines_in_strings(&once), once);
}

#[test]
fn json_is_handed_back_as_it_is() {
    assert_eq!(try_json_parse("[1, 2]").as_deref(), Some("[1, 2]"));
    assert_eq!(try_json_parse("[1, 2"), None);
    assert_eq!(repair_json(" {\"a\":  1} ").as_deref(), Some(" {\"a\":  1} "));
}

#[test]
fn repairs_stop_at_the_first_that_gives_json() {
    // The control character goes; what is then JSON is not touched any more.
    assert_eq!(repair_json("{\"a\": \"x\u{1},]\"}").as_deref(), Some("{\"a\": \"x,]\"}"));
    assert_eq!(repair_json("{'a': 1}").as_deref(), Some("{\"a\": 1}"));
    assert_eq!(repair_json("{a: [1,],}").as_deref(), Some("{\"a\": [1]}"));
}

#[test]
fn repair_gives_nothing_where_no_stage_is_json() {
    assert_eq!(repair_json("{\"a\": }"), None);
    assert_eq!(repair_json(""), None);
}

#[test]
fn comma_repair_keeps_all_but_commas_and_blanks() {
    let s = "{\"a\": [1, 2,  ], \"b, \": {\"c\": 3 ,\n} ,}";
    let solid = |t: &str| t.chars().filter(|c| *c != ',' && !c.is_whitespace()).collect::<String>();
    let t = repair_trailing_commas(s);
    assert_eq!(t, "{\"a\": [1, 2], \"b, \": {\"c\": 3 } }");
    assert_eq!(solid(&t), solid(s));
    assert!(t.len() <= s.len());
}

#[test]
fn key_repair_only_adds_quotes_and_is_idempotent() {
    for s in ["{a: 1, b : 2, 键: {c:[x, y]}}", "{ _k1:\"a, b: c\", d}", ",{", "{a", "x{ ,a:b"] {
        let r = repair_unquoted_keys(s);
        assert_eq!(repair_unquoted_keys(&r), r);
        assert_eq!(r.replace('"', ""), s.replace('"', ""));
    }
    assert_eq!(repair_unquoted_keys("{a: 1, b : 2}"), "{\"a\": 1, b : 2}");
}

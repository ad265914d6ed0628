//! Tags, their variants, and where they are found.
use openai_adapter::tags::eq_tag_char;
use openai_adapter::tags::find_end_tag_with;
use openai_adapter::tags::find_start_tag_with;
use openai_adapter::tags::fuzzy_match_tag;
use openai_adapter::tags::is_start_tag;
use openai_adapter::tags::match_start_tag;
use openai_adapter::tags::norm_tag_char;
use openai_adapter::tags::TagConfig;
use openai_adapter::tags::ToolCallTagConfig;
use openai_adapter::tags::SECTION_END;
use openai_adapter::tags::SECTION_START;
use openai_adapter::tags::TOOL_CALL_END;
use openai_adapter::tags::TOOL_CALL_START;

fn plain() -> TagConfig {
    TagConfig::from_config(&ToolCallTagConfig::default())
}

fn with(starts: &[&str], ends: &[&str]) -> TagConfig {
    TagConfig::from_config(&ToolCallTagConfig {
        extra_starts: starts.iter().map(|s| s.to_string()).collect(),
        extra_ends: ends.iter().map(|s| s.to_string()).collect(),
    })
}

#[test]
fn config_takes_the_tags_over() {
    let cfg = with(&["<a>", "<b>"], &["</c>"]);
    assert_eq!(cfg.starts, vec!["<a>".to_string(), "<b>".to_string()]);
    assert_eq!(cfg.ends, vec!["</c>".to_string()]);
    assert!(plain().starts.is_empty() && plain().ends.is_empty());
}

#[test]
fn tag_characters_have_variants() {
    assert_eq!(norm_tag_char('｜'), '|');
    assert_eq!(norm_tag_char('\u{2581}'), '_');
    assert_eq!(norm_tag_char('\u{2588}'), '_');
    assert_eq!(norm_tag_char('\u{2589}'), '\u{2589}');
    assert!(eq_tag_char('\u{2583}', '_'));
    assert!(eq_tag_char('\u{2583}', '\u{2584}'));
    assert!(!eq_tag_char('|', '_'));
    for c in ['｜', '\u{2585}', 'x', '|'] {
        assert_eq!(norm_tag_char(norm_tag_char(c)), norm_tag_char(c));
    }
}

#[test]
fn loose_match_gives_bytes_and_text() {
    assert_eq!(fuzzy_match_tag("北京<｜tool", "<|tool"), Some((6, "<｜tool")));
    assert_eq!(fuzzy_match_tag("abc", ""), None);
    assert_eq!(fuzzy_match_tag("ab", "abc"), None);
}

#[test]
fn start_tag_is_found_without_its_bracket() {
    assert_eq!(match_start_tag("x<|tool_calls_begin|>", TOOL_CALL_START), Some((1, "<|tool_calls_begin|")));
    assert_eq!(match_start_tag("x<tool>", "<tool>>>"), Some((1, "<tool")));
    assert_eq!(match_start_tag("nothing", TOOL_CALL_START), None);
}

#[test]
fn known_start_tags_come_before_additional_ones() {
    let cfg = with(&["<call>"], &[]);
    assert_eq!(find_start_tag_with("<call>..<|tool_calls|>", &cfg), Some((8, "<|tool_calls|")));
    assert_eq!(find_start_tag_with("..<call>", &cfg), Some((2, "<call")));
    assert_eq!(find_start_tag_with("..<call>", &plain()), None);
}

#[test]
fn variants_do_not_hide_a_start_tag() {
    for s in ["<|tool_calls_begin|>", "<｜tool_calls_begin｜>", "<|tool\u{2581}calls\u{2588}begin｜>"] {
        assert!(find_start_tag_with(s, &plain()).is_some());
    }
}

#[test]
fn closing_tag_of_the_start_tag_comes_first() {
    let s = "x<|tool_calls_end|></|tool_calls_begin|>";
    assert_eq!(
        find_end_tag_with(s, 0, &plain(), Some("<|tool_calls_begin|")),
        Some((19, "</|tool_calls_begin|>"))
    );
    assert_eq!(find_end_tag_with(s, 0, &plain(), None), Some((1, "<|tool_calls_end|>")));
}

#[test]
fn closing_tag_may_lack_a_bar() {
    assert_eq!(
        find_end_tag_with("..</call|>", 0, &plain(), Some("<|call")),
        Some((2, "</call|>"))
    );
}

#[test]
fn loose_end_tag_lacks_its_bracket() {
    assert_eq!(
        find_end_tag_with("..<|tool_calls\u{2581}end｜>", 0, &plain(), None),
        Some((2, "<|tool_calls\u{2581}end｜"))
    );
}

#[test]
fn search_for_the_end_begins_where_it_is_told_to() {
    let s = "é<|tool_calls_end|>é<|tool_calls_end|>";
    assert_eq!(find_end_tag_with(s, 3, &plain(), None), Some((22, TOOL_CALL_END)));
}

#[test]
fn additional_end_tags_do_not_close_a_section() {
    let cfg = with(&[], &["<stop>"]);
    assert_eq!(find_end_tag_with("..<stop>", 0, &cfg, Some("<|other")), Some((2, "<stop>")));
    assert_eq!(find_end_tag_with("..<stop>", 0, &cfg, Some("<|tool_calls_section_begin|")), None);
    let s = format!("..{SECTION_END}");
    assert_eq!(
        find_end_tag_with(&s, 0, &cfg, Some("<|tool_calls_section_begin|")),
        Some((2, SECTION_END))
    );
}

#[test]
fn another_start_tag_ends_a_block() {
    let s = format!("..{SECTION_START}");
    assert_eq!(
        find_end_tag_with(&s, 0, &plain(), Some("<|tool_calls_begin|")),
        Some((2, "<|tool_calls_section_begin|"))
    );
    assert_eq!(find_end_tag_with("..", 0, &plain(), Some("<|tool_calls_begin|")), None);
}

#[test]
fn tags_resemble_start_tags() {
    let cfg = plain();
    assert!(is_start_tag("<|tool_calls_begin|", &cfg));
    assert!(is_start_tag("<|tool", &cfg));
    assert!(is_start_tag("<｜tool\u{2581}calls｜>", &cfg));
    assert!(is_start_tag("<|tool_calls_begin|>more", &cfg));
    assert!(!is_start_tag("<|tool_calls_end|>", &cfg));
    assert!(!is_start_tag("", &cfg));
    assert!(!is_start_tag("|tool", &cfg));
    assert!(is_start_tag("<my", &with(&["<mytool>"], &[])));
}

#[test]
fn closing_tag_of_a_tag_in_bars_may_lack_its_first_bar() {
    let none = TagConfig::from_config(&ToolCallTagConfig::default());
    let r = find_end_tag_with("x</tool_calls_begin|>", 0, &none, Some("<|tool_calls_begin|"));
    assert_eq!(r, Some((1, "</tool_calls_begin|>")));
    let r = find_end_tag_with("x</tool\u{2581}calls_begin|", 0, &none, Some("<|tool_calls_begin|"));
    assert_eq!(r, Some((1, "</tool\u{2581}calls_begin|")));
}

#[test]
fn section_is_closed_by_its_own_end_tag() {
    let none = TagConfig::from_config(&ToolCallTagConfig::default());
    let section = Some("<|tool_calls_section_begin|");
    let s = "A<|tool_calls_end|>B<|tool_calls_section_end|>";
    assert_eq!(find_end_tag_with(s, 0, &none, section), Some((20, "<|tool_calls_section_end|>")));
    let s = "A<|tool_calls_end|>B";
    assert_eq!(find_end_tag_with(s, 0, &none, section), Some((1, "<|tool_calls_end|>")));
    let s = "A<|tool_calls_section_end|>B<|tool_calls_end|>";
    let r = find_end_tag_with(s, 0, &none, Some("<|tool_calls_begin|"));
    assert_eq!(r, Some((28, "<|tool_calls_end|>")));
}

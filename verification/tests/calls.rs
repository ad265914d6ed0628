//! Tool calls: identifiers, arguments, blocks, invocations, and what remains of the text.
use openai_adapter::blocks::parse_new_tool_calls;
use openai_adapter::blocks::parse_single_tool_call_block;
use openai_adapter::calls::CallIds;
use openai_adapter::invoke::parse_invoke_calls;
use openai_adapter::tags::TagConfig;
use openai_adapter::tags::ToolCallTagConfig;
use openai_adapter::tags::TOOL_CALL_END;
use openai_adapter::tags::TOOL_CALL_START;
use openai_adapter::tool_parser::checked_parse_tool_calls;
use openai_adapter::tool_parser::checked_parse_tool_calls_with;
use openai_adapter::tool_parser::is_inside_code_fence;
use openai_adapter::tool_parser::normalize_xml_pipes;
use openai_adapter::tool_parser::parse_tool_calls;
use openai_adapter::tool_parser::parse_tool_calls_with;
use openai_adapter::types::ToolCall;

fn parse(xml: &str) -> Option<(Vec<ToolCall>, String)> {
    parse_tool_calls(xml, &mut CallIds::new())
}

fn block(content: &str) -> String {
    format!("{TOOL_CALL_START}{content}{TOOL_CALL_END}")
}

fn name(call: &ToolCall) -> &str {
    &call.function.as_ref().unwrap().name
}

fn arguments(call: &ToolCall) -> &str {
    &call.function.as_ref().unwrap().arguments
}

fn tags(starts: &[&str], ends: &[&str]) -> TagConfig {
    TagConfig::from_config(&ToolCallTagConfig {
        extra_starts: starts.iter().map(|s| s.to_string()).collect(),
        extra_ends: ends.iter().map(|s| s.to_string()).collect(),
    })
}

#[test]
fn identifiers_are_sixteen_hexadecimal_digits() {
    let mut ids = CallIds::new();
    assert_eq!(ids.next_call_id(), "call_0000000000000001");
    assert_eq!(ids.next_call_id(), "call_0000000000000002");
    let mut ids = CallIds { next: 0xdead_beef };
    assert_eq!(ids.next_call_id(), "call_00000000deadbeef");
    let mut ids = CallIds { next: u64::MAX };
    assert_eq!(ids.next_call_id(), "call_ffffffffffffffff");
    assert_eq!(ids.next_call_id(), "call_0000000000000000");
}

#[test]
fn calls_are_numbered_in_order() {
    let mut ids = CallIds::new();
    let xml = block(r#"[{"name":"a"},{"name":"b"},{"name":"c"}]"#);
    let (calls, _) = parse_tool_calls(&xml, &mut ids).unwrap();
    let (more, _) = parse_tool_calls(&xml, &mut ids).unwrap();
    let all: Vec<&ToolCall> = calls.iter().chain(more.iter()).collect();
    for (k, call) in calls.iter().enumerate() {
        assert_eq!(call.index, k as u32);
        assert_eq!(call.ty, "function");
        assert!(call.custom.is_none());
        assert_eq!(call.id, format!("call_{:016x}", k + 1));
    }
    for i in 0..all.len() {
        for j in 0..i {
            assert_ne!(all[i].id, all[j].id);
        }
    }
    assert_eq!(ids.next, 7);
}

#[test]
fn arguments_are_printed_as_compact_json() {
    let (calls, _) = parse(&block(r#"[{"name":"f","arguments":{ "b" : [1, 2.5, null], "a" : "x" }}]"#)).unwrap();
    assert_eq!(arguments(&calls[0]), r#"{"a":"x","b":[1,2.5,null]}"#);
}

#[test]
fn missing_arguments_are_empty() {
    let (calls, _) = parse(&block(r#"[{"name":"f"}]"#)).unwrap();
    assert_eq!(arguments(&calls[0]), "{}");
}

#[test]
fn arguments_in_a_string_are_read() {
    let (calls, _) = parse(&block(r#"[{"name":"f","arguments":"{ \"x\": 1 }"}]"#)).unwrap();
    assert_eq!(arguments(&calls[0]), r#"{"x":1}"#);
    let (calls, _) = parse(&block(r#"[{"name":"f","arguments":"not json"}]"#)).unwrap();
    assert_eq!(arguments(&calls[0]), "not json");
}

#[test]
fn an_item_without_a_name_spoils_the_list() {
    let mut ids = CallIds::new();
    let xml = block(r#"[{"name":"a"},{"nom":"b"},{"name":"c"}]"#);
    assert!(parse_tool_calls(&xml, &mut ids).is_none());
    // The identifier of the item before it was handed out.
    assert_eq!(ids.next, 2);
    assert!(parse(&block(r#"[{"name":1}]"#)).is_none());
    assert!(parse(&block("[1]")).is_none());
}

#[test]
fn text_before_and_behind_the_block_remains() {
    let xml = format!("before {} behind", block(r#"[{"name":"f"}]"#));
    assert_eq!(parse(&xml).unwrap().1, "before  behind");
}

#[test]
fn block_is_read_back_from_any_text_round_it() {
    for before in ["", "x", "文字 ", "a\nb\n"] {
        for behind in ["", " y", "。"] {
            let xml = format!("{before}{}{behind}", block(r#"[{"name":"f"},{"name":"g"}]"#));
            let (calls, remaining) = parse(&xml).unwrap();
            assert_eq!(calls.iter().map(name).collect::<Vec<_>>(), ["f", "g"]);
            assert_eq!(remaining, format!("{before}{behind}"));
        }
    }
}

#[test]
fn block_without_end_goes_to_the_end_of_the_text() {
    let (calls, remaining) = parse(&format!("x{TOOL_CALL_START}[{{\"name\":\"f\"}}] tail")).unwrap();
    assert_eq!(name(&calls[0]), "f");
    assert_eq!(remaining, "x");
}

#[test]
fn loose_end_tag_leaves_its_bracket_behind() {
    let xml = format!("{TOOL_CALL_START}[{{\"name\":\"f\"}}]<|tool_calls\u{2581}end｜>");
    assert_eq!(parse(&xml).unwrap().1, ">");
}

#[test]
fn text_without_a_start_tag_has_no_calls() {
    let mut ids = CallIds::new();
    assert!(parse_tool_calls(r#"[{"name":"f"}]"#, &mut ids).is_none());
    assert_eq!(ids.next, 1);
}

#[test]
fn empty_arrays_give_nothing() {
    for content in ["[]", " [] ", "\n[]\n"] {
        assert!(parse(&block(content)).is_none());
    }
}

#[test]
fn fences_are_counted_in_pairs() {
    assert!(is_inside_code_fence("```x", 4));
    assert!(!is_inside_code_fence("```x```", 7));
    assert!(is_inside_code_fence("````", 4));
    assert!(!is_inside_code_fence("``````", 6));
    assert!(!is_inside_code_fence("``", 2));
    assert!(is_inside_code_fence("北```京", 6));
}

#[test]
fn block_behind_a_closed_fence_is_parsed() {
    let xml = format!("```\ncode\n```\n{}", block(r#"[{"name":"f"}]"#));
    assert_eq!(parse(&xml).unwrap().0.len(), 1);
}

#[test]
fn bars_are_taken_out_of_tags() {
    assert_eq!(normalize_xml_pipes("<|a|>x</|a|>"), "<a>x</a>");
    assert_eq!(normalize_xml_pipes("<||a||>"), "<|a|>");
    assert_eq!(normalize_xml_pipes("a|b"), "a|b");
}

#[test]
fn additional_tags_are_used() {
    let cfg = tags(&["<mycall>"], &["<mystop>"]);
    let xml = r#"a<mycall>[{"name":"f"}]<mystop>b"#;
    let (calls, remaining) = parse_tool_calls_with(xml, &cfg, &mut CallIds::new()).unwrap();
    assert_eq!(calls.len(), 1);
    assert_eq!(remaining, "ab");
    assert!(parse(xml).is_none());
    let r = checked_parse_tool_calls_with(xml, &cfg, &mut CallIds::new());
    assert_eq!(r.unwrap().unwrap().1, "ab");
}

#[test]
fn text_that_cannot_be_cut_is_reported() {
    let mut ids = CallIds::new();
    // The last closing brace stands before the first opening one.
    assert!(checked_parse_tool_calls(&block("x} {"), &mut ids).is_err());
    assert!(checked_parse_tool_calls(&block(r#"["}", "{",]"#), &mut ids).is_err());
    assert_eq!(ids.next, 1);
    assert!(checked_parse_tool_calls(&block("x"), &mut ids).unwrap().is_none());
    // A start tag of nothing but closing brackets leaves nothing to close.
    let r = checked_parse_tool_calls_with("text", &tags(&[">"], &[]), &mut ids);
    assert!(r.is_err());
    // Neither can one that begins with a character of several bytes be closed.
    let r = checked_parse_tool_calls_with("«go» x", &tags(&["«go»"], &[]), &mut ids);
    assert!(r.is_err());
}

#[test]
fn single_block_is_parsed() {
    let mut ids = CallIds::new();
    let call = parse_single_tool_call_block(r#" {"name": "f", "arguments": "raw"} "#, &mut ids).unwrap();
    assert_eq!(name(&call), "f");
    // A string stays a JSON string here.
    assert_eq!(arguments(&call), "\"raw\"");
    assert_eq!(call.index, 0);
    assert_eq!(call.id, "call_0000000000000001");
    assert!(parse_single_tool_call_block("{'name': 'g'}", &mut ids).is_some());
    assert!(parse_single_tool_call_block("{}", &mut ids).is_none());
    assert!(parse_single_tool_call_block("nothing", &mut ids).is_none());
    assert_eq!(ids.next, 3);
}

#[test]
fn blocks_are_parsed_one_after_the_other() {
    let mut ids = CallIds::new();
    let inner = concat_blocks(&[r#"{"name":"a"}"#, "broken", r#"{"name":"b"}"#]);
    let calls = parse_new_tool_calls(&inner, &mut ids).unwrap();
    assert_eq!(calls.iter().map(name).collect::<Vec<_>>(), ["a", "b"]);
    assert_eq!(calls.iter().map(|c| c.index).collect::<Vec<_>>(), [0, 1]);
    assert_eq!(ids.next, 3);
}

fn concat_blocks(bodies: &[&str]) -> String {
    bodies.iter().map(|b| format!("<|tool_call|>{b}<|tool_call_end|>")).collect()
}

#[test]
fn text_behind_the_last_block_spoils_the_list() {
    let mut ids = CallIds::new();
    let inner = format!("{}\n", concat_blocks(&[r#"{"name":"a"}"#]));
    assert!(parse_new_tool_calls(&inner, &mut ids).is_none());
    assert_eq!(ids.next, 2);
    assert!(parse_new_tool_calls("", &mut ids).is_none());
    assert!(parse_new_tool_calls("<|tool_call|>x", &mut ids).is_none());
}

#[test]
fn a_block_need_not_be_closed() {
    let mut ids = CallIds::new();
    let calls = parse_new_tool_calls(r#"<|tool_calls_begin|>{"name":"a"}"#, &mut ids).unwrap();
    assert_eq!(name(&calls[0]), "a");
}

#[test]
fn doubled_bars_reach_the_block_parser() {
    let xml = block(r#"<||tool_call||>{"name":"a"}<||tool_call_end||>"#);
    let (calls, _) = parse(&xml).unwrap();
    assert_eq!(name(&calls[0]), "a");
}

#[test]
fn invocations_are_parsed() {
    let mut ids = CallIds::new();
    let inner = r#"<INVOKE name="Read"><Parameter name="path">/tmp/a</Parameter></Invoke>"#;
    // The closing tag of a parameter is looked for as it is written.
    assert!(parse_invoke_calls(inner, "", "", &mut ids).is_none());
    let inner = r#"<INVOKE name="Read"><Parameter name="path">/tmp/a</parameter><parameter name="n"> 3 </parameter></Invoke>"#;
    let (calls, remaining) = parse_invoke_calls(inner, "a", "b", &mut ids).unwrap();
    assert_eq!(name(&calls[0]), "Read");
    assert_eq!(arguments(&calls[0]), r#"{"n":3,"path":"/tmp/a"}"#);
    assert_eq!(remaining, "ab");
}

#[test]
fn the_last_of_equal_parameters_counts() {
    let mut ids = CallIds::new();
    let inner = concat_invoke("f", &[("x", "1"), ("y", " t "), ("x", "[2]")]);
    let (calls, _) = parse_invoke_calls(&inner, "", "", &mut ids).unwrap();
    assert_eq!(arguments(&calls[0]), r#"{"x":[2],"y":" t "}"#);
}

fn concat_invoke(name: &str, params: &[(&str, &str)]) -> String {
    let body: String = params
        .iter()
        .map(|(n, v)| format!("<parameter name=\"{n}\">{v}</parameter>"))
        .collect();
    format!("<invoke name=\"{name}\">{body}</invoke>")
}

#[test]
fn several_invocations_in_a_block() {
    let xml = block(&format!("{}\n{}", concat_invoke("f", &[]), concat_invoke("g", &[("a", "b")])));
    let (calls, _) = parse(&xml).unwrap();
    assert_eq!(calls.iter().map(name).collect::<Vec<_>>(), ["f", "g"]);
    assert_eq!(arguments(&calls[0]), "{}");
    assert_eq!(calls[1].index, 1);
}

#[test]
fn incomplete_invocations_are_refused() {
    let mut ids = CallIds::new();
    for inner in [
        "<invoke name=\"f\">",
        "<invoke f></invoke>",
        "<invoke name=\"f\"><parameter x></parameter></invoke>",
        "<invoke name=\"f\"><parameter name=\"x\">1</invoke>",
        "",
    ] {
        assert!(parse_invoke_calls(inner, "", "", &mut ids).is_none(), "{inner}");
    }
    let mut ids = CallIds::new();
    let inner = format!("{}<invoke name=\"g\">", concat_invoke("f", &[]));
    assert!(parse_invoke_calls(&inner, "", "", &mut ids).is_none());
    assert_eq!(ids.next, 2);
}

#[test]
fn lower_casing_may_move_offsets() {
    // The capital sharp s takes three bytes and its lower-case letter two, so that offsets in
    // the lower-case text lie behind where they should.
    let xml = block("\u{1E9E}é<invoke name=\"f\"></invoke>");
    assert!(checked_parse_tool_calls(&xml, &mut CallIds::new()).is_err());
    // Where the characters keep their width nothing moves.
    let xml = block("ÄÖ<invoke name=\"f\"></invoke>");
    assert_eq!(checked_parse_tool_calls(&xml, &mut CallIds::new()).unwrap().unwrap().0.len(), 1);
}

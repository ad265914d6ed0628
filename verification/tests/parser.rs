//! Tool calls parsed from complete texts, and the repairs on the way.
use openai_adapter::calls::CallIds;
use openai_adapter::repair::normalize_unicode_quotes;
use openai_adapter::repair::repair_invalid_backslashes;
use openai_adapter::repair::repair_single_quotes;
use openai_adapter::repair::repair_trailing_commas;
use openai_adapter::repair::repair_unquoted_keys;
use openai_adapter::repair::strip_control_chars;
use openai_adapter::tags::TOOL_CALL_END;
use openai_adapter::tags::TOOL_CALL_START;
use openai_adapter::tool_parser::is_inside_code_fence;
use openai_adapter::tool_parser::parse_tool_calls;
use openai_adapter::types::ToolCall;

fn parse(xml: &str) -> Option<(Vec<ToolCall>, String)> {
    parse_tool_calls(xml, &mut CallIds::new())
}

fn tool(content: &str) -> String {
    format!("{TOOL_CALL_START}{content}{TOOL_CALL_END}")
}

fn tool_ts(content: &str, suffix: &str) -> String {
    format!("{TOOL_CALL_START}{content}{TOOL_CALL_END}{suffix}")
}

#[test]
fn parse_json_tool_calls() {
    let xml = tool(r#"[{"name": "get_weather", "arguments": {"city": "北京"}}]"#);
    let (calls, remaining) = parse(&xml).unwrap();
    assert!(remaining.is_empty());
    assert_eq!(calls.len(), 1);
    assert_eq!(calls[0].function.as_ref().unwrap().name, "get_weather");
    assert_eq!(
        calls[0].function.as_ref().unwrap().arguments,
        r#"{"city":"北京"}"#
    );
}

#[test]
fn parse_json_with_surrounding_text() {
    let xml = format!(
        "{TOOL_CALL_START}\n\t以下是工具调用：\n\t[{{\"name\": \"f\", \"arguments\": {{}}}}]\n\t{TOOL_CALL_END}"
    );
    let (calls, _) = parse(&xml).unwrap();
    assert_eq!(calls.len(), 1);
}

#[test]
fn parse_json_multiple_tools() {
    let xml = tool(
        r#"[{"name": "get_weather", "arguments": {}}, {"name": "get_time", "arguments": {"tz": "bj"}}]"#,
    );
    let (calls, remaining) = parse(&xml).unwrap();
    assert!(remaining.is_empty());
    assert_eq!(calls.len(), 2);
}

#[test]
fn parse_json_with_trailing_text() {
    let xml = tool_ts(
        r#"[{"name": "get_weather", "arguments": {}}]"#,
        " trailing text",
    );
    let (calls, remaining) = parse(&xml).unwrap();
    assert_eq!(remaining, " trailing text");
    assert_eq!(calls.len(), 1);
}

#[test]
fn repair_backslashes_passes_valid_escapes() {
    assert_eq!(
        repair_invalid_backslashes(r#"hello\nworld"#),
        r#"hello\nworld"#
    );
}
#[test]
fn repair_backslashes_fixes_invalid_escapes() {
    assert_eq!(repair_invalid_backslashes(r#"C:\Users\name"#).len(), 14);
}
#[test]
fn repair_backslashes_keeps_valid_n() {
    assert_eq!(
        repair_invalid_backslashes(r#"line1\nline2"#),
        r#"line1\nline2"#
    );
}
#[test]
fn repair_unquoted_keys_basic() {
    assert_eq!(
        repair_unquoted_keys(r#"{name: "get_weather"}"#),
        r#"{"name": "get_weather"}"#
    );
}
#[test]
fn repair_unquoted_keys_array() {
    assert_eq!(
        repair_unquoted_keys(r#"[{name: "f", arguments: {}}]"#),
        r#"[{"name": "f", "arguments": {}}]"#
    );
}

#[test]
fn parse_tool_calls_with_unquoted_keys() {
    let xml = tool(r#"[{name: "get_weather", arguments: {city: "北京"}}]"#);
    let (calls, _) = parse(&xml).unwrap();
    assert_eq!(calls.len(), 1);
}

#[test]
fn parse_tool_calls_with_invalid_backslashes() {
    let xml = tool(r#"[{"name": "read_file", "arguments": {"path": "C:\Users\name"}}]"#);
    let (calls, _) = parse(&xml).unwrap();
    assert_eq!(calls.len(), 1);
}

#[test]
fn parse_tool_calls_with_both_repairs() {
    let xml = tool(r#"[{name: "read_file", arguments: {path: "C:\file"}}]"#);
    let (calls, _) = parse(&xml).unwrap();
    assert_eq!(calls.len(), 1);
}

#[test]
fn parse_tool_calls_inside_code_fence_skipped() {
    let xml = format!(
        "示例：\n```json\n{TOOL_CALL_START}[{{\"name\": \"get_weather\", \"arguments\": {{}}}}]{TOOL_CALL_END}\n```"
    );
    assert!(parse(&xml).is_none());
}

#[test]
fn parse_tool_calls_not_inside_code_fence() {
    assert!(parse(&tool(r#"[{"name": "get_weather", "arguments": {}}]"#)).is_some());
}

#[test]
fn parse_tool_calls_tool_call_inside_value_not_skipped() {
    let xml = tool(
        r#"[{"name": "format_code", "arguments": {"code": "```rust\nfn main() {}\n```"}}]"#,
    );
    let (calls, _) = parse(&xml).unwrap();
    assert_eq!(calls.len(), 1);
}

#[test]
fn code_fence_detection() {
    assert!(!is_inside_code_fence("普通文本", 0));
}

#[test]
fn parse_tool_calls_single_object() {
    let xml = tool(r#"{"name": "get_weather", "arguments": {"city": "北京"}}"#);
    let (calls, _) = parse(&xml).unwrap();
    assert_eq!(calls.len(), 1);
}

#[test]
fn parse_tool_calls_single_object_with_newlines() {
    let xml = format!(
        "{TOOL_CALL_START}\n{{\"name\": \"Bash\", \"arguments\": {{\"command\": \"ls\"}}}}\n{TOOL_CALL_END}"
    );
    let (calls, _) = parse(&xml).unwrap();
    assert_eq!(calls.len(), 1);
}

#[test]
fn parse_tool_calls_single_object_with_surrounding_text() {
    let xml = format!(
        "{TOOL_CALL_START}以下是工具调用：{{\"name\": \"f\", \"arguments\": {{}}}}{TOOL_CALL_END}"
    );
    let (_calls, remaining) = parse(&xml).unwrap();
    assert_eq!(remaining, "");
}

#[test]
fn parse_tool_calls_single_object_unquoted_keys() {
    let xml = tool(r#"{name: "get_weather", arguments: {city: "北京"}}"#);
    let (calls, _) = parse(&xml).unwrap();
    assert_eq!(calls.len(), 1);
}

#[test]
fn parse_tool_calls_single_object_and_repair_backslashes() {
    let xml = tool(r#"{"name": "read_file", "arguments": {"path": "C:\Users\name"}}"#);
    let (calls, _) = parse(&xml).unwrap();
    assert_eq!(calls.len(), 1);
}

#[test]
fn fuzzy_match_hallucinated_marker() {
    // <|tool▁calls▁begin|> 正常标签，但结束标签用 <|tool_calls▁end｜>
    // （ASCII _ + ▁ + 全角 ｜），验证模糊匹配能识别
    let xml = format!(
        r#"{TOOL_CALL_START}[{{"name": "get_weather", "arguments": {{"city": "北京"}}}}]<|tool_calls▁end｜>"#
    );
    let (calls, _) = parse(&xml).unwrap();
    assert_eq!(calls.len(), 1);
}

#[test]
fn fuzzy_match_alt_block_char() {
    // 模型输出 ▂(U+2582) 而非预期 ▁(U+2581)，验证 U+2581-U+2588 范围归一化
    let start = "<|tool\u{2582}calls\u{2582}begin|>";
    let end = "<|tool\u{2582}calls\u{2582}end|>";
    let xml = format!(
        r#"{start}[{{"name": "get_weather", "arguments": {{"city": "北京"}}}}]{end}"#
    );
    let (calls, _) = parse(&xml).unwrap();
    assert_eq!(calls.len(), 1);
}

// ---- JSON 修复新函数测试 ----

#[test]
fn repair_trailing_commas_basic() {
    assert_eq!(repair_trailing_commas(r#"{"a": 1,}"#), r#"{"a": 1}"#);
}

#[test]
fn repair_trailing_commas_array() {
    assert_eq!(repair_trailing_commas(r#"[1, 2,]"#), r#"[1, 2]"#);
}

#[test]
fn repair_trailing_commas_inside_string_unchanged() {
    assert_eq!(
        repair_trailing_commas(r#"{"msg": "hello, world,"}"#),
        r#"{"msg": "hello, world,"}"#
    );
}

#[test]
fn repair_trailing_commas_nested() {
    assert_eq!(
        repair_trailing_commas(r#"{"a": {"b": 1,},}"#),
        r#"{"a": {"b": 1}}"#
    );
}

#[test]
fn repair_single_quotes_basic() {
    assert_eq!(
        repair_single_quotes(r#"{'a': 'b'}"#),
        r#"{"a": "b"}"#
    );
}

#[test]
fn repair_single_quotes_nested() {
    assert_eq!(
        repair_single_quotes(r#"[{'name': 'f', 'arguments': {'x': 'y'}}]"#),
        r#"[{"name": "f", "arguments": {"x": "y"}}]"#
    );
}

#[test]
fn repair_single_quotes_double_inside_single() {
    // 单引号字符串内含双引号
    assert_eq!(
        repair_single_quotes(r#"{'msg': 'say "hello"'}"#),
        r#"{"msg": "say \"hello\""}"#
    );
}

#[test]
fn strip_control_chars_basic() {
    assert_eq!(strip_control_chars("a\x00b\x01c"), "abc");
}

#[test]
fn strip_control_chars_keeps_newline() {
    assert_eq!(strip_control_chars("a\nb\tc"), "a\nb\tc");
}

#[test]
fn normalize_unicode_quotes_basic() {
    // \u{201C}=\u{201D}=左/右双引号 → ASCII "
    // \u{2018}=\u{2019}=左/右单引号 → ASCII '
    let result = normalize_unicode_quotes("{\u{201C}name\u{201D}: \u{2018}val\u{2019}}");
    assert_eq!(result, r#"{"name": 'val'}"#);
}

#[test]
fn normalize_unicode_quotes_corner_brackets() {
    assert_eq!(
        normalize_unicode_quotes("{\u{300C}key\u{300D}: 1}"),
        r#"{"key": 1}"#
    );
}

// ---- 修复链集成测试 ----

#[test]
fn repair_json_trailing_commas_through_chain() {
    let xml = tool(r#"[{"name": "get_weather", "arguments": {"city": "北京",}},]"#);
    let (calls, _) = parse(&xml).unwrap();
    assert_eq!(calls.len(), 1);
}

#[test]
fn repair_json_single_quotes_through_chain() {
    let xml = tool(r#"[{'name': 'get_weather', 'arguments': {'city': '北京'}}]"#);
    let (calls, _) = parse(&xml).unwrap();
    assert_eq!(calls.len(), 1);
}

#[test]
fn repair_json_control_chars_through_chain() {
    let xml = format!(
        "{TOOL_CALL_START}[{{\"name\": \"get_weather\", \"arguments\": {{\"city\": \"\x00北\x01京\"}}}}]{TOOL_CALL_END}"
    );
    let (calls, _) = parse(&xml).unwrap();
    assert_eq!(calls.len(), 1);
}

#[test]
fn repair_json_unicode_quotes_through_chain() {
    // 输入含全角双引号 \u{201C}\u{201D}，正常化为 ASCII " 后应为有效 JSON
    // 注意：\u{201D}}}] 中第一个 } 是 \u{201D} 的语法部分
    let raw = "[{\u{201C}name\u{201D}: \u{201C}get_weather\u{201D}, \u{201C}arguments\u{201D}: {\u{201C}city\u{201D}: \u{201C}北京\u{201D}}}]";
    let xml = format!("{}{}{}", TOOL_CALL_START, raw, TOOL_CALL_END);
    let (calls, _) = parse(&xml).unwrap();
    assert_eq!(calls.len(), 1);
}

#[test]
fn repair_json_all_combined() {
    // 同时包含多种畸形：单引号、尾逗号、控制字符、全角引号
    let body = "[{\u{2018}name\u{2019}: \u{2018}test\u{2019}, \u{2018}arguments\u{2019}: {\u{2018}val\u{2019}: \x00\x01\x02\"x\"},}]";
    let input = format!("{}{}{}", TOOL_CALL_START, body, TOOL_CALL_END);
    let (calls, _) = parse(&input).unwrap();
    assert_eq!(calls.len(), 1);
}

#[test]
fn repair_json_empty_array_not_confused() {
    // [] 不应触发修复
    let xml = format!("{TOOL_CALL_START}[]{TOOL_CALL_END}");
    assert!(parse(&xml).is_none());
}

#[test]
fn escape_newlines_in_json_strings() {
    // new_string 值中含真实换行符（非 \\n 转义），标准 JSON 非法，应由 repair_json 修复
    let body = "{\"name\": \"Edit\", \"arguments\": {\"file_path\": \"/tmp/test.md\", \"old_string\": \"foo\", \"new_string\": \"line1\nline2\"}}";
    let xml = format!("{TOOL_CALL_START}[{body}]{TOOL_CALL_END}");
    let (calls, _) = parse(&xml).unwrap();
    assert_eq!(calls.len(), 1);
    assert_eq!(calls[0].function.as_ref().unwrap().name, "Edit");
}

//! The adapter's decisions and errors.
use openai_adapter::adapter::adopt_function_call;
use openai_adapter::adapter::adopt_functions;
use openai_adapter::adapter::after_attempt;
use openai_adapter::adapter::after_chat;
use openai_adapter::adapter::aggregate_cfg;
use openai_adapter::adapter::chat_request;
use openai_adapter::adapter::plan_sync;
use openai_adapter::adapter::raw_request;
use openai_adapter::adapter::retry_prompt;
use openai_adapter::adapter::Account;
use openai_adapter::adapter::Attempt;
use openai_adapter::adapter::ChatResult;
use openai_adapter::adapter::ChatStep;
use openai_adapter::adapter::FunctionCallOption;
use openai_adapter::adapter::NamedFunction;
use openai_adapter::adapter::RepairStep;
use openai_adapter::adapter::Tool;
use openai_adapter::adapter::ToolChoice;
use openai_adapter::adapter::REPAIR_FAILED;
use openai_adapter::adapter::RETRY_SUFFIX;
use openai_adapter::chat_flow::ChatFlow;
use openai_adapter::chat_flow::FlowStep;
use openai_adapter::error::CoreError;
use openai_adapter::error::OpenAIAdapterError;
use openai_adapter::tags::TagConfig;
use openai_adapter::tags::ToolCallTagConfig;
use openai_adapter::tokens::count_prompt_tokens;
use openai_adapter::tokens::Tokenizer;
use std::sync::Arc;

fn text() -> String {
    "t".to_string()
}

#[test]
fn every_error_has_its_code_and_message() {
    let cases = [
        (OpenAIAdapterError::BadRequest(text()), 400, "bad request: t"),
        (OpenAIAdapterError::Overloaded, 429, "service overloaded"),
        (OpenAIAdapterError::ProviderError(text()), 502, "provider error: t"),
        (OpenAIAdapterError::Internal(text()), 500, "internal error: t"),
        (OpenAIAdapterError::ToolCallRepairNeeded(text()), 500, "tool_calls repair needed: t"),
    ];
    for (error, code, message) in cases {
        assert_eq!(error.status_code(), code);
        assert_eq!(error.message(), message);
    }
}

#[test]
fn core_errors_become_adapter_errors() {
    let message = |e: CoreError| OpenAIAdapterError::from(e).message();
    assert_eq!(message(CoreError::Overloaded), "service overloaded");
    assert_eq!(message(CoreError::ProofOfWorkFailed(text())), "internal error: proof of work failed: t");
    assert_eq!(message(CoreError::ProviderError(text())), "provider error: t");
    assert_eq!(message(CoreError::Stream(text())), "internal error: t");
}

#[test]
fn json_errors_become_internal_errors() {
    let e = serde_json::from_str::<serde_json::Value>("{").unwrap_err();
    let shown = e.to_string();
    let error = OpenAIAdapterError::from(e);
    assert_eq!(error.status_code(), 500);
    assert_eq!(error.message(), format!("internal error: json serialization failed: {shown}"));
    assert_eq!(
        OpenAIAdapterError::serialization_failed("x").message(),
        "internal error: json serialization failed: x"
    );
}

#[test]
fn unreadable_bodies_are_bad_requests() {
    let e = serde_json::from_str::<serde_json::Value>("[").unwrap_err();
    let shown = e.to_string();
    let error = OpenAIAdapterError::unreadable_body(e);
    assert_eq!(error.status_code(), 400);
    assert_eq!(error.message(), format!("bad request: bad request: {shown}"));
    assert_eq!(OpenAIAdapterError::bad_body("x").message(), "bad request: bad request: x");
}

#[test]
fn result_carries_the_account() {
    let r = ChatResult { data: 1u8, account_id: "a".to_string(), prompt_tokens: 3 };
    assert_eq!((r.data, r.account_id.as_str(), r.prompt_tokens), (1, "a", 3));
}

#[test]
fn functions_become_tools_where_there_are_none() {
    let tools = adopt_functions::<&str, u8>(None, Some(vec!["f", "g"])).unwrap();
    assert_eq!(tools.len(), 2);
    assert_eq!(tools[1].ty, "function");
    assert_eq!(tools[1].function, Some("g"));
    assert!(tools[1].custom.is_none());
    assert_eq!(adopt_functions::<&str, u8>(Some(vec![]), Some(vec!["f"])).unwrap().len(), 1);
}

#[test]
fn tools_win_over_functions() {
    let tool = Tool { ty: "custom".to_string(), function: None, custom: Some(4u8) };
    let tools = adopt_functions::<&str, u8>(Some(vec![tool]), Some(vec!["f"])).unwrap();
    assert_eq!(tools[0].custom, Some(4));
    assert!(adopt_functions::<&str, u8>(None, Some(vec![])).is_none());
    assert!(adopt_functions::<&str, u8>(None, None).is_none());
    assert!(adopt_functions::<&str, u8>(Some(vec![]), None).unwrap().is_empty());
}

#[test]
fn function_call_becomes_tool_choice() {
    match adopt_function_call::<u8>(None, Some(FunctionCallOption::Mode("auto".to_string()))) {
        Some(ToolChoice::Mode(m)) => assert_eq!(m, "auto"),
        other => panic!("{other:?}"),
    }
    let named = FunctionCallOption::Named(NamedFunction { name: "f".to_string() });
    match adopt_function_call::<u8>(None, Some(named)) {
        Some(ToolChoice::Named(n)) => {
            assert_eq!((n.ty.as_str(), n.function.name.as_str()), ("function", "f"));
        }
        other => panic!("{other:?}"),
    }
    let call = FunctionCallOption::Mode("auto".to_string());
    assert!(matches!(adopt_function_call(Some(ToolChoice::Other(3u8)), Some(call)), Some(ToolChoice::Other(3))));
    assert!(adopt_function_call::<u8>(None, None).is_none());
}

#[test]
fn requests_to_the_core() {
    let r = raw_request::<u8>(text(), true, "expert".to_string());
    assert!(!r.search_enabled && r.thinking_enabled && r.files.is_empty());
    let r = chat_request(text(), false, true, "default".to_string(), vec![1u8]);
    assert!(r.search_enabled && !r.thinking_enabled);
    assert_eq!((r.prompt.as_str(), r.model_type.as_str(), r.files), ("t", "default", vec![1]));
}

#[test]
fn retry_prompt_asks_for_the_tool_calls() {
    let expected = format!(
        "{}<｜end▁of▁sentence｜>\n\
        <｜User｜>上一轮的输出中包含了格式错误的工具调用。\
        请严格按照规范重新输出工具调用，\
        只输出 `<|tool_calls_begin|>[{{...}}]<|tool_calls_end|>` 格式的工具调用，\
        不要输出任何解释文字。\n\
        <|Assistant|><think>\n",
        "base"
    );
    assert_eq!(retry_prompt("base"), expected);
}

#[test]
fn only_the_first_attempt_reports_prompt_tokens() {
    let tags = Arc::new(TagConfig::from_config(&ToolCallTagConfig::default()));
    let cfg = aggregate_cfg(true, vec!["x".to_string()], 9, tags.clone(), text());
    assert!(cfg.include_usage && !cfg.include_obfuscation);
    assert_eq!((cfg.prompt_tokens, cfg.stop.len()), (9, 1));
    assert_eq!(aggregate_cfg(false, vec![], 9, tags, text()).prompt_tokens, 0);
}

#[test]
fn malformed_tool_calls_are_tried_three_times() {
    let broken = || Attempt::<u8>::Aggregated(Err(OpenAIAdapterError::ToolCallRepairNeeded(text())));
    assert!(matches!(after_attempt(1, broken()), RepairStep::Retry));
    assert!(matches!(after_attempt(2, broken()), RepairStep::Retry));
    match after_attempt(3, broken()) {
        RepairStep::GiveUp(OpenAIAdapterError::Internal(t)) => {
            assert_eq!(t, REPAIR_FAILED);
            assert_eq!(t, "工具调用自修正失败：多次重试后工具调用格式仍然无法解析");
        }
        other => panic!("{other:?}"),
    }
}

#[test]
fn other_outcomes_of_an_attempt() {
    assert!(matches!(after_attempt(1, Attempt::Aggregated(Ok(5u8))), RepairStep::Accept(5)));
    let failed = Attempt::<u8>::Aggregated(Err(OpenAIAdapterError::BadRequest(text())));
    assert!(matches!(after_attempt(2, failed), RepairStep::GiveUp(OpenAIAdapterError::BadRequest(_))));
    let not_started = || Attempt::<u8>::NotStarted(CoreError::Overloaded);
    assert!(matches!(after_attempt(1, not_started()), RepairStep::GiveUp(OpenAIAdapterError::Overloaded)));
    assert!(matches!(after_attempt(2, not_started()), RepairStep::Retry));
    assert!(matches!(after_attempt(3, not_started()), RepairStep::GiveUp(OpenAIAdapterError::Internal(_))));
}

#[test]
fn overloaded_core_is_asked_six_times() {
    for (attempt, ms) in [1000, 2000, 4000, 8000, 16000].into_iter().enumerate() {
        match after_chat::<u8>(attempt, Err(CoreError::Overloaded)) {
            ChatStep::Wait(wait) => assert_eq!(wait, ms),
            other => panic!("{other:?}"),
        }
    }
    assert!(matches!(after_chat::<u8>(5, Err(CoreError::Overloaded)), ChatStep::Fail(CoreError::Overloaded)));
    assert!(matches!(after_chat::<u8>(0, Err(CoreError::Stream(text()))), ChatStep::Fail(CoreError::Stream(_))));
    assert!(matches!(after_chat(3, Ok(4u8)), ChatStep::Done(4)));
}

#[test]
fn older_fields_mean_the_newer() {
    let newer = adopt_functions::<&str, u8>(None, Some(vec!["f", "g"]));
    let again = adopt_functions::<&str, u8>(newer, Some(vec!["f", "g"])).unwrap();
    assert_eq!(again.len(), 2);
    assert!(again.iter().all(|t| t.ty == "function" && t.custom.is_none()));
    let call = || Some(FunctionCallOption::Named(NamedFunction { name: "f".to_string() }));
    match adopt_function_call(adopt_function_call::<u8>(None, call()), call()) {
        Some(ToolChoice::Named(n)) => assert_eq!((n.ty.as_str(), n.function.name.as_str()), ("function", "f")),
        other => panic!("{other:?}"),
    }
}

fn account(email: &str, mobile: &str) -> Account {
    Account { email: email.to_string(), mobile: mobile.to_string() }
}

#[test]
fn pool_follows_the_configuration() {
    let pool = vec![account("a@x", ""), account("", "123"), account("", ""), account("b@x", "9")];
    let configured = vec![account("b@x", ""), account("", "456"), account("c@x", "123"), account("", "456")];
    let plan = plan_sync(&pool, &configured);
    assert_eq!(plan.add, [1, 2, 3]);
    assert_eq!(plan.remove, ["a@x", "123"]);
}

#[test]
fn pool_in_step_is_left_alone() {
    let pool = vec![account("a@x", "1"), account("", "2")];
    let configured = vec![account("", "2"), account("a@x", "")];
    let plan = plan_sync(&pool, &configured);
    assert!(plan.add.is_empty() && plan.remove.is_empty());
    let plan = plan_sync(&vec![], &vec![]);
    assert!(plan.add.is_empty() && plan.remove.is_empty());
}

#[test]
fn prompt_tokens_are_counted() {
    assert_eq!(count_prompt_tokens(None, "hello world"), Some(0));
    let tokenizer = Tokenizer::load().unwrap();
    assert_eq!(count_prompt_tokens(Some(&tokenizer), ""), Some(0));
    assert_eq!(count_prompt_tokens(Some(&tokenizer), "hello world"), Some(2));
    // A special token is one token.
    assert_eq!(count_prompt_tokens(Some(&tokenizer), "hello<|endoftext|>"), Some(2));
}

fn flow(stream: bool) -> ChatFlow {
    let stop = vec!["x".to_string()];
    ChatFlow::new("p".to_string(), true, true, "expert".to_string(), stream, false, true, stop, 9)
}

fn tags() -> Arc<TagConfig> {
    Arc::new(TagConfig::from_config(&ToolCallTagConfig::default()))
}

#[test]
fn flow_asks_anew_for_malformed_tool_calls() {
    let broken = || Attempt::<u8>::Aggregated(Err(OpenAIAdapterError::ToolCallRepairNeeded(text())));
    let mut flow = flow(false);
    let ask = flow.next_request(vec![1u8]);
    assert_eq!((ask.prompt.as_str(), ask.model_type.as_str(), ask.files), ("p", "expert", vec![1]));
    assert!(ask.thinking_enabled && ask.search_enabled);
    let cfg = flow.stream_cfg(tags(), text());
    assert!(cfg.include_usage && !cfg.include_obfuscation);
    assert_eq!((cfg.prompt_tokens, cfg.stop.as_slice()), (9, &["x".to_string()][..]));
    assert!(matches!(flow.on_attempt(broken(), text()), FlowStep::Ask));

    let ask = flow.next_request(vec![1u8]);
    assert_eq!(ask.prompt, format!("p{RETRY_SUFFIX}"));
    assert_eq!((ask.model_type.as_str(), ask.files), ("expert", vec![1]));
    assert_eq!(flow.stream_cfg(tags(), text()).prompt_tokens, 0);
    assert!(matches!(flow.on_attempt(broken(), text()), FlowStep::Ask));

    assert_eq!(flow.next_request::<u8>(vec![]).prompt, format!("p{RETRY_SUFFIX}"));
    match flow.on_attempt(Attempt::Aggregated(Ok(5u8)), "account".to_string()) {
        FlowStep::Finish(r) => {
            assert_eq!((r.data, r.account_id.as_str(), r.prompt_tokens), (5, "account", 9));
        }
        other => panic!("{other:?}"),
    }
}

#[test]
fn flow_gives_up_after_three_attempts() {
    let mut flow = flow(false);
    let broken = || Attempt::<u8>::Aggregated(Err(OpenAIAdapterError::ToolCallRepairNeeded(text())));
    assert!(matches!(flow.on_attempt(broken(), text()), FlowStep::Ask));
    let not_started = Attempt::<u8>::NotStarted(CoreError::Overloaded);
    assert!(matches!(flow.on_attempt(not_started, text()), FlowStep::Ask));
    match flow.on_attempt(broken(), text()) {
        FlowStep::Fail(e) => assert_eq!((e.status_code(), e.message()), (500, format!("internal error: {REPAIR_FAILED}"))),
        other => panic!("{other:?}"),
    }
}

#[test]
fn streamed_flow_goes_by_what_was_asked_for() {
    let mut flow = flow(true);
    let cfg = flow.stream_cfg(tags(), "id".to_string());
    assert!(!cfg.include_usage && cfg.include_obfuscation);
    assert_eq!((cfg.prompt_tokens, cfg.chatcmpl_id.as_str()), (9, "id"));
    assert!(matches!(flow.on_attempt(Attempt::Aggregated(Ok(5u8)), text()), FlowStep::Finish(_)));
    let failed = Attempt::<u8>::NotStarted(CoreError::Overloaded);
    assert!(matches!(flow.on_attempt(failed, text()), FlowStep::Fail(OpenAIAdapterError::Overloaded)));
}

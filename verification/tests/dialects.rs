use ai_lib::json::{parse_text, JsonValue};
use ai_lib::types::text_tool::{
    detect_text_tool_deviation, merge_spans, parse_hybrid_tool_calls, NativeStrategy, PromptLevel,
    StandardTextToolParser, TextToolConfig, TextToolDeviation, TextToolParser, ToolCallingPolicy,
    DSML_TAG,
};
use ai_lib::types::think_dialect::{
    is_think_dialect_name, split_think_blocks, strip_think_dialects,
};
use ai_lib::types::tool::{FunctionDefinition, ToolCall, ToolDefinition, ToolResult};
use ai_lib::utils::thinking_extract::{
    first_nonempty_string_field, thinking_from_openai_compat_delta,
    thinking_from_openai_compat_message,
};

fn json(s: &str) -> JsonValue {
    parse_text(s).unwrap()
}

fn arg<'a>(call: &'a ToolCall, key: &str) -> &'a str {
    call.arguments.get(key).unwrap().as_str().unwrap()
}

fn parser_strict() -> StandardTextToolParser {
    StandardTextToolParser::new(TextToolConfig {
        lenient_parsing: false,
        ..Default::default()
    })
}

fn parser_lenient() -> StandardTextToolParser {
    StandardTextToolParser::new(TextToolConfig {
        lenient_parsing: true,
        ..Default::default()
    })
}

#[test]
fn strict_parse_standard_format() {
    let text = "I'll list the files for you.\n<tool_call>\n{\"name\": \"shell\", \"arguments\": {\"command\": \"ls -la\"}}\n</tool_call>";
    let (remaining, calls) = parser_strict().parse(text);
    assert_eq!(remaining, "I'll list the files for you.");
    assert_eq!(calls.len(), 1);
    assert_eq!(calls[0].name, "shell");
    assert_eq!(arg(&calls[0], "command"), "ls -la");
}

#[test]
fn lenient_attribute_name() {
    let text = r#"<tool_call name="shell">{"command": "ls"}</tool_call>"#;
    let (_, calls) = parser_lenient().parse(text);
    assert_eq!(calls[0].name, "shell");
    assert_eq!(arg(&calls[0], "command"), "ls");
}

#[test]
fn lenient_nested_wrapper() {
    let text = r#"<tool_calls><tool_call id="1">{"name": "shell", "parameters": {"command": "ls"}}</tool_call></tool_calls>"#;
    let (_, calls) = parser_lenient().parse(text);
    assert_eq!(calls[0].name, "shell");
    assert_eq!(arg(&calls[0], "command"), "ls");
}

#[test]
fn lenient_field_alias() {
    let text = r#"<tool_call>{"name": "search", "params": {"query": "AI protocol", "limit": 10}}</tool_call>"#;
    let (_, calls) = parser_lenient().parse(text);
    assert_eq!(calls[0].name, "search");
    assert_eq!(arg(&calls[0], "query"), "AI protocol");
}

#[test]
fn lenient_shell_dialect() {
    let text = "Running command:\n<shell><command>ls</command></shell>";
    let (remaining, calls) = parser_lenient().parse(text);
    assert_eq!(remaining, "Running command:");
    assert_eq!(calls[0].name, "shell");
    assert_eq!(arg(&calls[0], "command"), "ls");
}

#[test]
fn lenient_deepseek_dsml_dialect() {
    let tag = DSML_TAG;
    let text = format!(
        "我来检查 piubt 服务器上 pifan 服务的概况。\n\n\
         <{tag}tool_calls>\n\
         <{tag}invoke name=\"shell\">\n\
         <{tag}parameter name=\"command\" string=\"true\">ssh piubt \"systemctl status pifan\" 2>&1</{tag}parameter>\n\
         </{tag}invoke>\n\
         </{tag}tool_calls>"
    );
    let (remaining, calls) = parser_lenient().parse(&text);
    assert_eq!(remaining, "我来检查 piubt 服务器上 pifan 服务的概况。");
    assert_eq!(calls.len(), 1);
    assert_eq!(calls[0].name, "shell");
    assert_eq!(
        arg(&calls[0], "command"),
        "ssh piubt \"systemctl status pifan\" 2>&1"
    );
}

#[test]
fn hybrid_prefers_native_calls() {
    let parser = parser_lenient();
    let native = vec![ToolCall {
        id: "call_1".to_string(),
        name: "shell".to_string(),
        arguments: json(r#"{"command": "ls"}"#),
    }];
    let text = "<shell><command>ignored</command></shell>";
    let (_, calls) = parse_hybrid_tool_calls(&parser, text, &native);
    assert_eq!(calls.len(), 1);
    assert_eq!(calls[0].name, "shell");
}

#[test]
fn lenient_deepseek_dsml_multiple_blocks() {
    let tag = DSML_TAG;
    let text = format!(
        "intro\n\
         <{tag}tool_calls>\n\
         <{tag}invoke name=\"file_read\">\n\
         <{tag}parameter name=\"file_path\" string=\"true\">/tmp/a</{tag}parameter>\n\
         </{tag}invoke>\n\
         </{tag}tool_calls>\n\
         middle\n\
         <{tag}tool_calls>\n\
         <{tag}invoke name=\"shell\">\n\
         <{tag}parameter name=\"command\" string=\"true\">grep foo</{tag}parameter>\n\
         </{tag}invoke>\n\
         </{tag}tool_calls>\n\
         outro"
    );
    let (remaining, calls) = parser_lenient().parse(&text);
    assert_eq!(remaining, "intro\nmiddle\noutro");
    assert_eq!(calls.len(), 2);
    assert_eq!(calls[0].name, "file_read");
    assert_eq!(calls[1].name, "shell");
}

#[test]
fn hybrid_falls_back_to_text_when_native_empty() {
    let parser = parser_lenient();
    let tag = DSML_TAG;
    let text = format!(
        "<{tag}invoke name=\"shell\">\
         <{tag}parameter name=\"command\">pwd</{tag}parameter>\
         </{tag}invoke>"
    );
    let (_, calls) = parse_hybrid_tool_calls(&parser, &text, &vec![]);
    assert_eq!(calls.len(), 1);
    assert_eq!(arg(&calls[0], "command"), "pwd");
}

#[test]
fn detect_dsml_deviation() {
    let tag = DSML_TAG;
    let text = format!("<{tag}invoke name=\"shell\"></{tag}invoke>");
    assert_eq!(
        detect_text_tool_deviation(&text),
        Some(TextToolDeviation::DsmlDialect)
    );
}

#[test]
fn prompt_l2_contains_counterexamples() {
    let tools = vec![ToolDefinition {
        tool_type: "function".to_string(),
        function: FunctionDefinition {
            name: "shell".to_string(),
            description: Some("Execute shell commands".to_string()),
            parameters: None,
        },
    }];
    let parser = StandardTextToolParser::new(TextToolConfig {
        prompt_level: PromptLevel::L2,
        locale: "en".to_string(),
        ..Default::default()
    });
    let prompt = parser.prompt_instructions(&tools);
    assert!(prompt.contains("<tool_call>"));
    assert!(prompt.contains("WILL BE IGNORED"));
    assert!(prompt.contains("shell"));
}

#[test]
fn lenient_plain_shell_body_dialect() {
    let text =
        "让我检查一下。\n<shell>\nwhich opencode 2>/dev/null || echo \"not found\"\n</shell>";
    let parser = StandardTextToolParser::from_manifest_tool_calling(&json(
        r#"{
        "native": { "supported": true, "reliability": "partial" },
        "text_fallback": {
            "prompt_level": "L2",
            "known_dialects": [{ "tag": "shell", "map_to": "shell" }]
        }
    }"#,
    ));
    let (remaining, calls) = parser.parse(text);
    assert_eq!(calls.len(), 1);
    assert_eq!(calls[0].name, "shell");
    assert_eq!(
        arg(&calls[0], "command"),
        "which opencode 2>/dev/null || echo \"not found\""
    );
    assert!(remaining.contains("让我检查一下"));
}

#[test]
fn tool_calling_policy_deepseek_partial_is_hybrid() {
    let tc = json(
        r#"{
        "native": { "supported": true, "reliability": "partial" },
        "text_fallback": { "prompt_level": "L2", "known_dialects": [{ "tag": "shell", "map_to": "shell" }] }
    }"#,
    );
    let policy = ToolCallingPolicy::from_tool_calling(Some(&tc));
    assert_eq!(policy.native_strategy, NativeStrategy::Hybrid);
    assert!(policy.send_native_tool_specs());
    assert!(policy.prefer_native_dispatcher());
}

#[test]
fn tool_calling_policy_text_only_when_no_native() {
    let tc = json(
        r#"{
        "native": { "supported": false },
        "text_fallback": { "prompt_level": "L2" }
    }"#,
    );
    let policy = ToolCallingPolicy::from_tool_calling(Some(&tc));
    assert_eq!(policy.native_strategy, NativeStrategy::TextOnly);
    assert!(!policy.send_native_tool_specs());
}

#[test]
fn stem_names() {
    assert!(is_think_dialect_name("think"));
    assert!(is_think_dialect_name("thinking"));
    assert!(is_think_dialect_name("redacted_reasoning"));
    assert!(is_think_dialect_name("ns:think"));
    assert!(!is_think_dialect_name("body"));
    assert!(!is_think_dialect_name("tool_call"));
}

#[test]
fn plain_text() {
    let r = split_think_blocks("hello");
    assert_eq!(r.thinking, "");
    assert_eq!(r.content, "hello");
}

#[test]
fn paired_think_tags() {
    let r = split_think_blocks("<think>plan A</think>\nFinal answer");
    assert_eq!(r.thinking, "plan A");
    assert_eq!(r.content, "Final answer");
}

#[test]
fn unclosed_think() {
    let r = split_think_blocks("<Think attr=\"x\">only think");
    assert_eq!(r.thinking, "only think");
    assert_eq!(r.content, "");
}

#[test]
fn orphan_close() {
    let r = split_think_blocks("pre\n</think>\nbody");
    assert_eq!(r.thinking, "pre");
    assert_eq!(r.content, "body");
}

#[test]
fn thinking_tag() {
    let r = split_think_blocks("<thinking>x</thinking>y");
    assert_eq!(r.thinking, "x");
    assert_eq!(r.content, "y");
}

#[test]
fn redacted_reasoning() {
    let r = split_think_blocks("<redacted_reasoning>hidden</redacted_reasoning>\nVisible");
    assert_eq!(r.thinking, "hidden");
    assert_eq!(r.content, "Visible");
}

#[test]
fn namespaced_reasoning() {
    let r = split_think_blocks("<ns:reasoning>z</ns:reasoning>\nout");
    assert_eq!(r.thinking, "z");
    assert_eq!(r.content, "out");
}

#[test]
fn thinking_fence() {
    let r = split_think_blocks("```thinking\nstep1\n```\nAnswer");
    assert_eq!(r.thinking, "step1");
    assert_eq!(r.content, "Answer");
}

#[test]
fn chain_of_thought_fence() {
    let r = split_think_blocks("```chain-of-thought\na\nb\n```\nC");
    assert_eq!(r.thinking, "a\nb");
    assert_eq!(r.content, "C");
}

#[test]
fn analysis_not_body() {
    let r = split_think_blocks("<analysis>a1</analysis>\n<body>nope</body>\nOK");
    assert_eq!(r.thinking, "a1");
    assert!(r.content.contains("<body>nope</body>"));
    assert!(r.content.contains("OK"));
}

#[test]
fn strip_helper() {
    assert_eq!(strip_think_dialects("<think>x</think>\nY"), "Y");
}

#[test]
fn delta_prefers_reasoning_content() {
    let frame = json(
        r#"{
        "choices": [{"delta": {
            "reasoning_content": "a",
            "thinking": "b",
            "content": "c"
        }}]
    }"#,
    );
    assert_eq!(
        thinking_from_openai_compat_delta(&frame).as_deref(),
        Some("a")
    );
}

#[test]
fn delta_alias_thinking() {
    let frame = json(r#"{"choices":[{"delta":{"thinking":"plan"}}]}"#);
    assert_eq!(
        thinking_from_openai_compat_delta(&frame).as_deref(),
        Some("plan")
    );
}

#[test]
fn message_reasoning_not_content() {
    let frame = json(
        r#"{
        "choices":[{"message":{"content":"","reasoning_content":"only think"}}]
    }"#,
    );
    assert_eq!(
        thinking_from_openai_compat_message(&frame).as_deref(),
        Some("only think")
    );
}

#[test]
fn keys_are_tried_in_order() {
    let obj = json(r#"{"a": "", "b": "second", "c": "third"}"#);
    assert_eq!(
        first_nonempty_string_field(&obj, &vec!["a", "b", "c"]).as_deref(),
        Some("second")
    );
    assert_eq!(first_nonempty_string_field(&obj, &vec!["a", "x"]), None);
}

#[test]
fn other_deviations_are_told_apart() {
    assert_eq!(
        detect_text_tool_deviation("<shell>ls</shell>"),
        Some(TextToolDeviation::ShellDialect)
    );
    assert_eq!(detect_text_tool_deviation("nothing special"), None);
}

#[test]
fn overlapping_spans_become_one() {
    assert_eq!(
        merge_spans(&vec![(8, 9), (0, 3), (2, 5), (5, 6)]),
        vec![(0, 6), (8, 9)]
    );
    assert_eq!(merge_spans(&vec![]), Vec::<(usize, usize)>::new());
}

#[test]
fn calls_are_numbered_in_order() {
    let text = "<tool_call>{\"name\":\"a\",\"arguments\":{}}</tool_call><tool_call>{\"name\":\"b\",\"arguments\":{}}</tool_call>";
    let (_, calls) = parser_lenient().parse(text);
    assert_eq!(calls.len(), 2);
    assert_eq!(calls[0].name, "a");
    assert_eq!(calls[1].name, "b");
    assert_ne!(calls[0].id, calls[1].id);
}

#[test]
fn text_without_calls_stays() {
    let (remaining, calls) = parser_lenient().parse("Just an answer.");
    assert_eq!(remaining, "Just an answer.");
    assert!(calls.is_empty());
}

#[test]
fn results_are_written_in_blocks() {
    let out = parser_lenient().format_results(&vec![ToolResult {
        tool_use_id: "call_1".to_string(),
        content: json(r#""done""#),
        is_error: false,
    }]);
    assert!(out.contains("call_1"));
    assert!(out.contains("done"));
}

#[test]
fn warnings_are_left_out_where_they_are_not_asked_for() {
    let prompt = |level, locale: &str, warns| {
        StandardTextToolParser::new(TextToolConfig {
            prompt_level: level,
            include_counterexamples: warns,
            locale: locale.to_string(),
            ..Default::default()
        })
        .prompt_instructions(&vec![])
    };
    for level in [PromptLevel::L2, PromptLevel::L3] {
        assert!(prompt(level, "en", true).contains("WILL BE IGNORED"));
        let plain = prompt(level, "en", false);
        assert!(plain.contains("<tool_call>"));
        assert!(!plain.contains("WILL BE IGNORED"));
        assert!(!plain.contains("Do NOT wrap"));
    }
    assert!(prompt(PromptLevel::L2, "zh-CN", true).contains("<shell>"));
    assert!(!prompt(PromptLevel::L2, "zh-CN", false).contains("<shell>"));
    assert_eq!(
        prompt(PromptLevel::L1, "en", true),
        prompt(PromptLevel::L1, "en", false)
    );
}

#[test]
fn merged_spans_do_not_touch() {
    assert_eq!(merge_spans(&vec![(4, 6), (0, 2), (2, 3)]), vec![(0, 3), (4, 6)]);
}

#[test]
fn dsml_calls_are_numbered_in_order() {
    let call = |name: &str| {
        format!("<{DSML_TAG}invoke name=\"{name}\"></{DSML_TAG}invoke>")
    };
    let text = format!("a {} b {}", call("first"), call("second"));
    let (rest, calls) = parser_lenient().parse(&text);
    assert_eq!(rest, "a  b");
    let shown: Vec<(&str, &str)> = calls
        .iter()
        .map(|c| (c.id.as_str(), c.name.as_str()))
        .collect();
    assert_eq!(shown, [("text_tool_0", "first"), ("text_tool_1", "second")]);
}

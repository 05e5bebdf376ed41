use ai_lib::error::{Error, ProtocolError, TransportError};
use ai_lib::error_code::StandardErrorCode;
use ai_lib::json::{parse_text, JsonNumber, JsonValue};
use ai_lib::pattern::{find_all, find_first, is_match};
use ai_lib::pipeline::compliance::{
    decode_sse_chunks_sync, event_map_rules_from_yaml, map_frame_to_compliance_events,
    EventMapRule, PipelineError, RuleFinding, YamlValue,
};
use ai_lib::record::{write_field, write_record, write_strings};
use ai_lib::sorting::{sorted_order, SortKey};
use ai_lib::table::Table;
use ai_lib::text;
use ai_lib::tokens::pricing::{for_model, from_table, sample_for_model, sample_names};
use ai_lib::types::events::StreamingEvent;

#[test]
fn from_table_exact() {
    let keys = vec!["other".to_string(), "my-model".to_string()];
    assert_eq!(from_table(&keys, "my-model"), Some(1));
}

#[test]
fn keys_may_be_part_of_a_name() {
    let keys = vec!["Big".to_string(), "MY-model".to_string()];
    assert_eq!(from_table(&keys, "vendor/my-MODEL-2"), Some(1));
    assert_eq!(from_table(&keys, "small"), None);
    let names = vec!["mini-x".to_string(), "mini".to_string()];
    assert_eq!(for_model(&names, "A-MINI-X-1"), Some(0));
    assert_eq!(for_model(&names, "A-MINI-1"), Some(1));
}

#[test]
fn json_is_read_and_written() {
    let v = parse_text(r#"{"b": [1, -2, 2.5, null, true], "a": "é\n"}"#).unwrap();
    assert_eq!(v.get("a").unwrap().as_str(), Some("é\n"));
    let list = v.get("b").unwrap().as_array().unwrap();
    assert!(matches!(list[0], JsonValue::Number(JsonNumber::Unsigned(1))));
    assert!(matches!(list[1], JsonValue::Number(JsonNumber::Negative(-2))));
    assert!(matches!(
        &list[2],
        JsonValue::Number(JsonNumber::Fraction { whole: 2, number }) if number.as_f64() == Some(2.5)
    ));
    assert!(list[3].is_null());
    assert_eq!(list[4].as_bool(), Some(true));
    assert!(parse_text("{").is_err());
    let copy = v.copy();
    assert_eq!(copy.get("b").unwrap().at(2).is_some(), true);
}

#[test]
fn the_later_entry_counts() {
    let v = parse_text(r#"{"a": 1}"#).unwrap().with("a", JsonValue::number(2));
    assert_eq!(v.get("a").unwrap().as_u64(), Some(2));
    let over = v.overlaid(&parse_text(r#"{"a": 3, "c": 4}"#).unwrap());
    assert_eq!(over.get("a").unwrap().as_u64(), Some(3));
    assert_eq!(over.get("c").unwrap().as_u64(), Some(4));
}

#[test]
fn records_keep_their_order() {
    let fields = vec![
        write_field("z", "1".to_string()),
        write_field("a", write_strings(&vec!["x\"y".to_string()])),
    ];
    assert_eq!(write_record(&fields), "{\"z\":1,\"a\":[\"x\\\"y\"]}");
    assert_eq!(write_record(&vec![]), "{}");
}

#[test]
fn patterns_are_found_by_character() {
    let found = find_all(r"(\d+)-(x)?", "é12-x 3-");
    assert_eq!(found.len(), 2);
    assert_eq!(found[0].span(0), Some((1, 5)));
    assert_eq!(found[0].span(1), Some((1, 3)));
    assert_eq!(found[1].span(2), None);
    assert!(is_match("^é", "é12"));
    assert!(find_first("z", "é12").is_none());
}

#[test]
fn equal_keys_keep_their_order() {
    let key = |a: u64, b: u64, t: &str| SortKey {
        first: a,
        second: b,
        text: t.to_string(),
    };
    let keys = vec![
        key(2, 0, "x"),
        key(1, 5, "b"),
        key(1, 5, "a"),
        key(1, 4, "z"),
        key(1, 5, "a"),
    ];
    assert_eq!(sorted_order(&keys), vec![3, 2, 4, 1, 0]);
}

#[test]
fn texts_are_taken_apart() {
    assert_eq!(text::trim("\u{3000} a b\t"), "a b");
    assert_eq!(text::split("a//b", '/'), vec!["a", "", "b"]);
    assert_eq!(text::lines("a\r\nb\n"), vec!["a", "b"]);
    assert_eq!(text::replace("aXbXc", "X", "--"), "a--b--c");
    assert_eq!(text::decimal_text(1204), "1204");
    assert_eq!(text::parse_number("0042", 100), Some(42));
    assert_eq!(text::parse_number("101", 100), None);
    assert_eq!(text::parse_number("", 100), None);
    assert!(text::eq_ignore_ascii_case("ÄbC", "ÄBc"));
    assert!(!text::eq_ignore_ascii_case("äb", "ÄB"));
    assert_eq!(
        text::quote_list(&vec!["a\"".to_string(), "b".to_string()]),
        "[\"a\\\"\", \"b\"]"
    );
}

#[test]
fn errors_have_codes() {
    for (class, code, retry, fall_back) in [
        ("invalid_request", "E1001", false, false),
        ("authentication", "E1002", false, true),
        ("permission_denied", "E1003", false, false),
        ("not_found", "E1004", false, false),
        ("request_too_large", "E1005", false, false),
        ("rate_limited", "E2001", true, true),
        ("quota_exhausted", "E2002", false, true),
        ("server_error", "E3001", true, true),
        ("overloaded", "E3002", true, true),
        ("timeout", "E3003", true, true),
        ("conflict", "E4001", true, false),
        ("cancelled", "E4002", false, false),
        ("unknown", "E9999", false, false),
    ] {
        let c = StandardErrorCode::from_error_class(class);
        assert_eq!(c.code(), code);
        assert_eq!(c.name(), class);
        assert_eq!(c.retryable(), retry);
        assert_eq!(c.fallbackable(), fall_back);
    }
    assert_eq!(
        StandardErrorCode::from_http_status(500),
        StandardErrorCode::ServerError
    );
}

#[test]
fn errors_have_texts() {
    assert_eq!(
        Error::Transport(TransportError::Http("x".to_string())).message(),
        "HTTP error: x"
    );
    assert_eq!(
        Error::Protocol(ProtocolError::ValidationError("x".to_string())).message(),
        "Protocol validation error: x"
    );
    assert_eq!(
        Error::Network {
            message: "x".to_string(),
            source: None
        }
        .message(),
        "Network error: x"
    );
    assert_eq!(Error::Json("x".to_string()).message(), "JSON error: x");
    assert_eq!(Error::Api("x".to_string()).message(), "API error: x");
    assert_eq!(
        Error::Configuration("x".to_string()).message(),
        "Configuration error: x"
    );
}

#[test]
fn the_end_of_a_stream_is_seen() {
    let chunks = vec![
        "data: {}\n\n".to_string(),
        "event: [DONE]\ndata:  [DONE] \n".to_string(),
    ];
    assert!(matches!(
        decode_sse_chunks_sync(&chunks, "data: ", "[DONE]", Ok(1)),
        Ok((1, true))
    ));
    let open = vec!["data: {}\n".to_string(), "[DONE]\n".to_string()];
    assert!(matches!(
        decode_sse_chunks_sync(&open, "data: ", "[DONE]", Ok(1)),
        Ok((1, false))
    ));
    assert!(matches!(
        decode_sse_chunks_sync(&open, "data: ", "[DONE]", Err(PipelineError::Decoder("x".to_string()))),
        Err(PipelineError::Decoder(_))
    ));
}

fn yaml(s: &str) -> YamlValue {
    YamlValue::Str(s.to_string())
}

#[test]
fn rules_are_read_from_yaml() {
    let fields = YamlValue::Mapping(vec![(yaml("content"), yaml("$.c"))]);
    let value = YamlValue::Sequence(vec![
        YamlValue::Mapping(vec![
            (yaml("match"), yaml("exists($.c)")),
            (yaml("emit"), yaml("PartialContentDelta")),
            (yaml("extract"), fields),
        ]),
        yaml("passed over"),
        YamlValue::Mapping(vec![(
            yaml("fields"),
            YamlValue::Mapping(vec![(yaml("n"), YamlValue::Number("1".to_string()))]),
        )]),
        YamlValue::Tagged {
            tag: "!t".to_string(),
            value: Box::new(YamlValue::Mapping(vec![(yaml("emit"), YamlValue::Null)])),
        },
    ]);
    let rules = event_map_rules_from_yaml(&value).unwrap();
    assert_eq!(rules.len(), 3);
    assert_eq!(rules[0].match_expr, "exists($.c)");
    assert_eq!(
        rules[0].fields.as_ref().unwrap().get("content").unwrap(),
        "$.c"
    );
    assert!(rules[1].fields.is_none());
    assert_eq!(rules[2].emit, "");
    assert!(event_map_rules_from_yaml(&YamlValue::Bool(true))
        .unwrap()
        .is_empty());
}

fn rule(emit: &str, field: Option<&str>) -> EventMapRule {
    let fields = field.map(|f| {
        let mut t = Table::new();
        t.insert(f.to_string(), "$.x".to_string());
        t
    });
    EventMapRule {
        match_expr: "m".to_string(),
        emit: emit.to_string(),
        fields,
    }
}

fn finding(event: Option<StreamingEvent>) -> RuleFinding {
    RuleFinding {
        matches: Ok(true),
        tool_calls: parse_text("[1]").ok(),
        event,
        finish_reason: parse_text("\"stop\"").ok(),
    }
}

#[test]
fn rules_make_events() {
    let rules = vec![
        rule("PartialToolCall", Some("tool_calls")),
        rule("StreamEnd", Some("finish_reason")),
        rule("StreamEnd", None),
        rule("PartialContentDelta", None),
        rule("Metadata", None),
    ];
    let end = || StreamingEvent::StreamEnd {
        finish_reason: None,
    };
    let mut findings = vec![
        finding(None),
        finding(Some(end())),
        finding(Some(end())),
        finding(Some(StreamingEvent::PartialContentDelta {
            content: "hi".to_string(),
            sequence_id: None,
        })),
        finding(None),
    ];
    let events = map_frame_to_compliance_events(Ok(()), Ok(()), &rules, &findings).unwrap();
    assert_eq!(events.len(), 4);
    assert!(events[0].get("tool_calls").is_some());
    assert_eq!(
        events[1].get("finish_reason").unwrap().as_str(),
        Some("stop")
    );
    assert!(events[2].get("finish_reason").is_none());
    assert_eq!(events[3].get("content").unwrap().as_str(), Some("hi"));

    findings[3].matches = Ok(false);
    let events = map_frame_to_compliance_events(Ok(()), Ok(()), &rules, &findings).unwrap();
    assert_eq!(events.len(), 3);

    findings[4].matches = Err("bad path".to_string());
    assert!(matches!(
        map_frame_to_compliance_events(Ok(()), Ok(()), &rules, &findings),
        Err(PipelineError::InvalidJsonPath { path, error, hint: None })
            if path == "m" && error == "bad path"
    ));
    assert!(matches!(
        map_frame_to_compliance_events(Err("x".to_string()), Ok(()), &rules, &findings),
        Err(PipelineError::EventMapper(m)) if m == "frame yaml→json: x"
    ));
    assert!(matches!(
        map_frame_to_compliance_events(
            Ok(()),
            Err(PipelineError::EventMapper("rules".to_string())),
            &rules,
            &findings
        ),
        Err(PipelineError::EventMapper(m)) if m == "rules"
    ));
}

#[test]
fn sample_prices_are_found_by_name() {
    let names = sample_names();
    let found = |model: &str| sample_for_model(model).map(|i| names[i].as_str());
    assert_eq!(found("openai/GPT-4o-mini-2024"), Some("gpt-4o-mini"));
    assert_eq!(found("gpt-4o"), Some("gpt-4o"));
    assert_eq!(found("other"), None);
}

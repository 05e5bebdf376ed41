use ai_lib::drivers::{
    create_driver, DriverChoice, ExecutionUsage, OpenAiDriver, ProviderDriver, UsageInfo,
};
use ai_lib::error::Error;
use ai_lib::json::{parse_text, JsonNumber, JsonValue};
use ai_lib::protocol::manifest::{ApiStyle, Capability};
use ai_lib::types::content_encode::{encode_blocks_for_anthropic, encode_blocks_for_gemini};
use ai_lib::types::events::StreamingEvent;
use ai_lib::types::generative::{
    ImageGenerationRequest, SpeechToTextRequest, TextToSpeechRequest,
};
use ai_lib::types::message::{
    ContentBlock, ImageSource, Message, MessageContent, MessageRole,
};

fn json(s: &str) -> JsonValue {
    parse_text(s).unwrap()
}

fn at<'a>(v: &'a JsonValue, path: &[&str]) -> &'a JsonValue {
    let mut v = v;
    for p in path {
        v = match p.parse::<usize>() {
            Ok(i) => v.at(i).unwrap(),
            Err(_) => v.get(p).unwrap(),
        };
    }
    v
}

fn text<'a>(v: &'a JsonValue, path: &[&str]) -> &'a str {
    at(v, path).as_str().unwrap()
}

fn number(s: &str) -> JsonNumber {
    match json(s) {
        JsonValue::Number(n) => n,
        _ => panic!("not a number"),
    }
}

#[test]
fn test_openai_driver_build_request() {
    let driver = OpenAiDriver::new("openai", vec![Capability::Text, Capability::Streaming]);
    let messages = vec![Message::user("Hello")];
    let req = driver
        .build_request(
            &messages,
            "gpt-4",
            Some(number("0.7")),
            Some(1024),
            true,
            None,
        )
        .unwrap();
    assert!(req.stream);
    assert_eq!(text(&req.body, &["model"]), "gpt-4");
    match at(&req.body, &["temperature"]) {
        JsonValue::Number(JsonNumber::Fraction { number, .. }) => {
            assert_eq!(number.as_f64(), Some(0.7));
        }
        other => panic!("expected a fraction, got {:?}", other),
    }
    assert_eq!(at(&req.body, &["max_tokens"]).as_u64(), Some(1024));
    assert_eq!(text(&req.body, &["messages", "0", "role"]), "user");
    assert_eq!(text(&req.body, &["messages", "0", "content"]), "Hello");
    assert_eq!(req.method, "POST");
}

#[test]
fn test_openai_driver_parse_response() {
    let driver = OpenAiDriver::new("openai", vec![]);
    let body = json(
        r#"{
        "choices": [{"message": {"content": "Hi there!"}, "finish_reason": "stop"}],
        "usage": {"prompt_tokens": 10, "completion_tokens": 5, "total_tokens": 15}
    }"#,
    );
    let resp = driver.parse_response(&body).unwrap();
    assert_eq!(resp.content.as_deref(), Some("Hi there!"));
    assert_eq!(resp.finish_reason.as_deref(), Some("stop"));
    assert_eq!(resp.usage.unwrap().total_tokens, 15);
}

#[test]
fn test_openai_driver_parse_response_reasoning_tokens() {
    let driver = OpenAiDriver::new("openai", vec![]);
    let body = json(
        r#"{
        "choices": [{"message": {"content": "Hello, world!"}, "finish_reason": "stop"}],
        "usage": {
            "prompt_tokens": 10,
            "completion_tokens": 5,
            "total_tokens": 15,
            "completion_tokens_details": {"reasoning_tokens": 3}
        }
    }"#,
    );
    let resp = driver.parse_response(&body).unwrap();
    let u = resp.usage.expect("usage");
    assert_eq!(u.reasoning_tokens, Some(3));
    assert_eq!(u.prompt_tokens, 10);
    assert_eq!(u.completion_tokens, 5);
}

#[test]
fn test_openai_driver_parse_stream_reasoning_delta() {
    let driver = OpenAiDriver::new("openai", vec![]);
    let data = r#"{"choices":[{"delta":{"reasoning_content":"Let me think..."},"index":0}]}"#;
    let events = driver.parse_stream_event(data).unwrap();
    assert_eq!(events.len(), 1);
    match &events[0] {
        StreamingEvent::ThinkingDelta { thinking, .. } => {
            assert_eq!(thinking, "Let me think...");
        }
        other => panic!("Expected ThinkingDelta, got {:?}", other),
    }
}

#[test]
fn test_openai_driver_parse_stream_same_frame_keeps_both() {
    let driver = OpenAiDriver::new("openai", vec![]);
    let data = r#"{"choices":[{"delta":{"thinking":"plan","content":"answer"}}]}"#;
    let events = driver.parse_stream_event(data).unwrap();
    assert_eq!(events.len(), 2);
    match &events[0] {
        StreamingEvent::ThinkingDelta { thinking, .. } => assert_eq!(thinking, "plan"),
        other => panic!("expected ThinkingDelta first, got {:?}", other),
    }
    match &events[1] {
        StreamingEvent::PartialContentDelta { content, .. } => assert_eq!(content, "answer"),
        other => panic!("expected PartialContentDelta second, got {:?}", other),
    }
}

#[test]
fn test_openai_driver_parse_response_keeps_thinking_separate() {
    let driver = OpenAiDriver::new("openai", vec![]);
    let body = json(
        r#"{
        "choices": [{
            "message": {"content": "", "reasoning_content": "only think"},
            "finish_reason": "stop"
        }]
    }"#,
    );
    let resp = driver.parse_response(&body).unwrap();
    assert!(
        resp.content.as_deref().unwrap_or("").is_empty() || resp.content.as_deref() == Some("")
    );
    assert_eq!(resp.thinking.as_deref(), Some("only think"));
}

#[test]
fn test_openai_driver_parse_unified_usage_anthropic_keys() {
    let driver = OpenAiDriver::new("openai", vec![]);
    let body = json(
        r#"{
        "choices": [{"message": {"content": "hi"}, "finish_reason": "stop"}],
        "usage": {
            "input_tokens": 12,
            "output_tokens": 3,
            "cache_creation_input_tokens": 5,
            "cache_read_input_tokens": 2
        }
    }"#,
    );
    let resp = driver.parse_response(&body).unwrap();
    let u = resp.usage.expect("usage");
    assert_eq!(u.prompt_tokens, 12);
    assert_eq!(u.completion_tokens, 3);
    assert_eq!(u.total_tokens, 15);
    assert_eq!(u.cache_creation_tokens, Some(5));
    assert_eq!(u.cache_read_tokens, Some(2));
}

#[test]
fn test_openai_driver_parse_stream() {
    let driver = OpenAiDriver::new("openai", vec![]);
    let data = r#"{"choices":[{"delta":{"content":"Hello"},"index":0}]}"#;
    let events = driver.parse_stream_event(data).unwrap();
    assert_eq!(events.len(), 1);
    match &events[0] {
        StreamingEvent::PartialContentDelta { content, .. } => {
            assert_eq!(content, "Hello");
        }
        _ => panic!("Expected PartialContentDelta"),
    }
}

#[test]
fn test_openai_driver_rejects_document_blocks() {
    let driver = OpenAiDriver::new("openai", vec![Capability::Text]);
    let messages = vec![Message::with_content(
        MessageRole::User,
        MessageContent::blocks(vec![ContentBlock::document_base64(
            "abc".into(),
            Some("application/pdf".into()),
            None,
        )]),
    )];
    assert!(driver
        .build_request(&messages, "gpt-4o", None, None, false, None)
        .is_err());
}

const PDF_B64: &str = "JVBERi0xLjQK";

#[test]
fn anthropic_document_base64_shape() {
    let blocks = vec![ContentBlock::document_base64(
        PDF_B64.into(),
        Some("application/pdf".into()),
        Some("paper.pdf".into()),
    )];
    let encoded = encode_blocks_for_anthropic(&blocks).unwrap();
    assert_eq!(text(&encoded[0], &["type"]), "document");
    assert_eq!(text(&encoded[0], &["source", "type"]), "base64");
    assert_eq!(
        text(&encoded[0], &["source", "media_type"]),
        "application/pdf"
    );
    assert_eq!(text(&encoded[0], &["source", "data"]), PDF_B64);
}

#[test]
fn anthropic_document_ref_rejected() {
    let blocks = vec![ContentBlock::document_ref(
        "upload://abc".into(),
        Some("application/pdf".into()),
        Some("paper.pdf".into()),
    )];
    assert!(encode_blocks_for_anthropic(&blocks).is_err());
}

#[test]
fn gemini_document_inline_data_shape() {
    let blocks = vec![
        ContentBlock::text("Summarize"),
        ContentBlock::document_base64(PDF_B64.into(), Some("application/pdf".into()), None),
    ];
    let parts = encode_blocks_for_gemini(&blocks).unwrap();
    let arr = parts.as_array().unwrap();
    assert_eq!(text(&arr[0], &["text"]), "Summarize");
    assert_eq!(text(&arr[1], &["inlineData", "mimeType"]), "application/pdf");
    assert_eq!(text(&arr[1], &["inlineData", "data"]), PDF_B64);
}

#[test]
fn gemini_document_ref_rejected() {
    let blocks = vec![ContentBlock::document_ref(
        "upload://abc".into(),
        Some("application/pdf".into()),
        None,
    )];
    assert!(encode_blocks_for_gemini(&blocks).is_err());
}

#[test]
fn image_gen_request_builders() {
    let req = ImageGenerationRequest::new("gpt-image-1", "a cat").with_size("1024x1024");
    assert_eq!(req.model, "gpt-image-1");
    assert_eq!(req.size.as_deref(), Some("1024x1024"));
}

#[test]
fn stt_tts_constructors() {
    let stt = SpeechToTextRequest::new("whisper-1", "clip.wav");
    assert_eq!(stt.audio_source, "clip.wav");
    let tts = TextToSpeechRequest::new("tts-1", "hello").with_voice("alloy");
    assert_eq!(tts.voice.as_deref(), Some("alloy"));
}

#[test]
fn experimental_request_types_construct() {
    let _ = ImageGenerationRequest::new("gpt-image-1", "draw");
    let _ = SpeechToTextRequest::new("whisper-1", "a.wav");
    let _ = TextToSpeechRequest::new("tts-1", "hi");
}

fn message_of<T: std::fmt::Debug>(r: Result<T, Error>) -> String {
    r.unwrap_err().message()
}

fn image(kind: &str, media: Option<&str>) -> Vec<ContentBlock> {
    vec![ContentBlock::Image {
        source: ImageSource {
            source_type: kind.to_string(),
            media_type: media.map(|m| m.to_string()),
            data: "https://x/y.png".to_string(),
        },
    }]
}

#[test]
fn images_take_each_shape() {
    let a = encode_blocks_for_anthropic(&image("url", None)).unwrap();
    assert_eq!(text(&a[0], &["source", "url"]), "https://x/y.png");
    let b = encode_blocks_for_anthropic(&image("base64", Some("image/png"))).unwrap();
    assert_eq!(text(&b[0], &["source", "media_type"]), "image/png");
    assert!(message_of(encode_blocks_for_anthropic(&image("base64", None)))
        .contains("image base64 block requires media_type"));
    assert!(message_of(encode_blocks_for_anthropic(&image("file", None)))
        .contains("unsupported image source type: file"));
    assert!(message_of(encode_blocks_for_gemini(&image("url", None)))
        .contains("Gemini image blocks require base64 inline data (got url)"));
}

#[test]
fn the_first_bad_block_is_reported() {
    let mut blocks = vec![ContentBlock::text("fine")];
    blocks.extend(image("base64", None));
    blocks.extend(image("file", None));
    assert!(message_of(encode_blocks_for_anthropic(&blocks)).contains("requires media_type"));
}

#[test]
fn extra_fields_lie_over_the_body() {
    let driver = OpenAiDriver::new("openai", vec![]);
    let extra = json(r#"{"model": "other", "top_p": 1}"#);
    let req = driver
        .build_request(
            &vec![Message::tool("call_7", "42")],
            "m",
            None,
            None,
            false,
            Some(&extra),
        )
        .unwrap();
    assert_eq!(text(&req.body, &["model"]), "other");
    assert_eq!(at(&req.body, &["top_p"]).as_u64(), Some(1));
    assert_eq!(
        text(&req.body, &["messages", "0", "tool_call_id"]),
        "call_7"
    );
    assert!(req.body.get("temperature").is_none());
}

#[test]
fn streams_end() {
    let driver = OpenAiDriver::new("openai", vec![]);
    assert!(driver.is_stream_done(" [DONE] "));
    assert!(!driver.is_stream_done("[DONE"));
    assert!(driver.parse_stream_event("[DONE]").unwrap().is_empty());
    assert!(driver.parse_stream_event("  ").unwrap().is_empty());
    let end = driver
        .parse_stream_event(r#"{"choices":[{"delta":{},"finish_reason":"stop"}]}"#)
        .unwrap();
    assert!(matches!(
        &end[0],
        StreamingEvent::StreamEnd { finish_reason: Some(r) } if r == "stop"
    ));
    assert!(message_of(driver.parse_stream_event("{not json"))
        .contains("Failed to parse SSE data: "));
}

#[test]
fn styles_choose_drivers() {
    for style in [ApiStyle::OpenAiCompatible, ApiStyle::Custom] {
        match create_driver(style, "p", vec![Capability::Text]) {
            DriverChoice::OpenAi(d) => {
                assert_eq!(d.provider_id(), "p");
                assert_eq!(d.api_style(), ApiStyle::OpenAiCompatible);
                assert_eq!(d.supported_capabilities().len(), 1);
            }
            DriverChoice::Other(_) => panic!("expected the OpenAI driver"),
        }
    }
    assert!(matches!(
        create_driver(ApiStyle::GeminiGenerate, "p", vec![]),
        DriverChoice::Other(ApiStyle::GeminiGenerate)
    ));
}

#[test]
fn usage_is_reported_alike() {
    let u = UsageInfo {
        prompt_tokens: 1,
        completion_tokens: 2,
        total_tokens: 3,
        reasoning_tokens: None,
        cache_read_tokens: Some(4),
        cache_creation_tokens: None,
    };
    assert_eq!(
        u.into_execution(),
        ExecutionUsage {
            prompt_tokens: 1,
            completion_tokens: 2,
            total_tokens: 3,
            reasoning_tokens: None,
            cache_read_tokens: Some(4),
            cache_creation_tokens: None,
        }
    );
}

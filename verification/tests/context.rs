use ai_lib::context::assemble_async::{
    AssemblePool, AssemblePoolConfig, JobOutcome, TimeLimit,
};
use ai_lib::context::assembler::{AssembleOptions, LayeredAssembleOptions, MessageAssembler};
use ai_lib::context::budget::{ContextBudget, ModelCapacity};
use ai_lib::context::envelope::{AssembleStrategy, ContextLayer, MessageChunk};
use ai_lib::context::error::AssembleError;
use ai_lib::context::layer_promotion::{promote_soft_layers, SoftLayerPromotionOptions};
use ai_lib::context::token_estimate::{estimate_message_tokens, estimate_tokens};
use ai_lib::json::JsonValue;
use ai_lib::types::message::{ContentBlock, Message, MessageContent, MessageRole};

fn opts(budget: u32, min_tail: usize) -> AssembleOptions {
    AssembleOptions {
        budget: ContextBudget::new(budget, 0, min_tail),
        ..Default::default()
    }
}

fn layered_opts(budget: u32, strategy: AssembleStrategy) -> LayeredAssembleOptions {
    LayeredAssembleOptions {
        budget: ContextBudget::new(budget, 0, 1),
        strategy,
        ..Default::default()
    }
}

fn text_of(m: &Message) -> String {
    match &m.content {
        MessageContent::Text(t) => t.clone(),
        _ => String::new(),
    }
}

#[test]
fn drops_oldest_when_over_budget() {
    let messages: Vec<Message> = (0..20)
        .map(|i| Message::user(&format!("msg-{i}-{}", "x".repeat(40))))
        .collect();

    let report = MessageAssembler::assemble(&messages, &opts(120, 1)).unwrap();
    assert!(report.dropped_prefix > 0);
    assert!(!report.messages.is_empty());
    let tokens: u32 = report.messages.iter().map(estimate_message_tokens).sum();
    assert!(tokens <= 200);
}

#[test]
fn keeps_minimum_tail_messages() {
    let messages = vec![
        Message::user("old"),
        Message::user("mid"),
        Message::assistant("newest"),
    ];

    let report = MessageAssembler::assemble(&messages, &opts(10, 2)).unwrap();
    assert!(report.messages.len() >= 2);
}

#[test]
fn folds_oversized_tool_text() {
    let huge = "x".repeat(20_000);
    let messages = vec![
        Message::user("q"),
        Message::tool("call_1", &huge),
        Message::assistant("done"),
    ];

    let report = MessageAssembler::assemble(&messages, &opts(50_000, 1)).unwrap();
    assert_eq!(report.folded_tool_segments, 1);
    let tool = report
        .messages
        .iter()
        .find(|m| m.role == MessageRole::Tool)
        .unwrap();
    if let MessageContent::Text(text) = &tool.content {
        assert_eq!(text, "[tool output truncated]");
    } else {
        panic!("expected text tool content");
    }
}

#[test]
fn does_not_start_with_orphan_tool() {
    let messages = vec![
        Message::user("u1"),
        Message::assistant("a1"),
        Message::tool("call_1", "result"),
        Message::user("u2"),
        Message::assistant("a2"),
    ];

    let report = MessageAssembler::assemble(&messages, &opts(30, 1)).unwrap();
    assert_ne!(report.messages.first().unwrap().role, MessageRole::Tool);
}

#[test]
fn empty_input_errors() {
    let err = MessageAssembler::assemble(&vec![], &opts(100, 1)).unwrap_err();
    assert_eq!(err, AssembleError::EmptyInput);
}

#[test]
fn budget_from_capacity_subtracts_output_reserve() {
    let budget = ContextBudget::from_capacity(ModelCapacity::new(128_000, 8_192), 2);
    assert_eq!(budget.max_input_tokens, 119_808);
    assert_eq!(budget.reserve_output_tokens, 8_192);
}

#[test]
fn token_estimate_heuristic() {
    assert_eq!(estimate_tokens("abcd"), 1);
    assert_eq!(estimate_tokens("abcdefgh"), 2);
}

#[test]
fn assemble_layered_empty_errors() {
    let err =
        MessageAssembler::assemble_layered(&vec![], &layered_opts(100, AssembleStrategy::Chat))
            .unwrap_err();
    assert_eq!(err, AssembleError::EmptyInput);
}

#[test]
fn assemble_layered_hard_budget_violation() {
    let chunks = vec![
        MessageChunk::new(
            ContextLayer::System,
            1,
            Message::system(&"S".repeat(200)),
            "sys",
        ),
        MessageChunk::new(
            ContextLayer::Active,
            2,
            Message::user(&"A".repeat(200)),
            "act",
        ),
    ];
    let err = MessageAssembler::assemble_layered(&chunks, &layered_opts(5, AssembleStrategy::Chat))
        .unwrap_err();
    match err {
        AssembleError::HardBudgetViolation {
            critical_tokens,
            budget,
        } => {
            assert!(critical_tokens > budget);
            assert_eq!(budget, 5);
        }
        other => panic!("expected HardBudgetViolation, got {other:?}"),
    }
}

#[test]
fn assemble_layered_keeps_critical_and_drops_background_before_relevant() {
    let chunks = vec![
        MessageChunk::new(ContextLayer::System, 1, Message::system("sys"), "s"),
        MessageChunk::new(ContextLayer::Active, 2, Message::user("ask"), "a"),
        MessageChunk::new(
            ContextLayer::Relevant,
            3,
            Message::user(&format!("rel-{}", "r".repeat(40))),
            "r1",
        ),
        MessageChunk::new(
            ContextLayer::Background,
            4,
            Message::user(&format!("bg-{}", "b".repeat(40))),
            "b1",
        ),
        MessageChunk::new(
            ContextLayer::Archive,
            5,
            Message::user("archive-should-omit"),
            "arch",
        ),
    ];
    let report = MessageAssembler::assemble_layered(
        &chunks,
        &layered_opts(40, AssembleStrategy::CodeFix),
    )
    .unwrap();
    let texts: Vec<String> = report.messages.iter().map(text_of).collect();
    assert!(texts.iter().any(|t| t == "sys"));
    assert!(texts.iter().any(|t| t == "ask"));
    assert!(
        texts.iter().any(|t| t.starts_with("rel-")),
        "relevant should be preferred over background under tight budget: {texts:?}"
    );
    assert!(
        !texts.iter().any(|t| t.contains("archive")),
        "archive must not expand"
    );
}

#[test]
fn assemble_layered_under_budget_includes_soft_layers() {
    let chunks = vec![
        MessageChunk::new(ContextLayer::System, 1, Message::system("sys"), "s"),
        MessageChunk::new(ContextLayer::Active, 2, Message::user("ask"), "a"),
        MessageChunk::new(ContextLayer::Relevant, 3, Message::user("rel"), "r").with_summary(true),
        MessageChunk::new(ContextLayer::Background, 4, Message::user("old-bg"), "b"),
    ];
    let report = MessageAssembler::assemble_layered(
        &chunks,
        &layered_opts(10_000, AssembleStrategy::Chat),
    )
    .unwrap();
    assert_eq!(report.dropped_prefix, 0);
    assert_eq!(report.messages.len(), 4);
}

fn bg_user(content: &str, ts: u64) -> MessageChunk {
    MessageChunk::new(
        ContextLayer::Background,
        ts,
        Message::user(content),
        &format!("u{ts}"),
    )
}

fn bg_tool(content: &str, ts: u64) -> MessageChunk {
    MessageChunk::new(
        ContextLayer::Background,
        ts,
        Message::tool(&format!("call-{ts}"), content),
        &format!("t{ts}"),
    )
}

#[test]
fn promotes_last_three_pre_active_turns() {
    let mut chunks = vec![
        MessageChunk::new(ContextLayer::System, 0, Message::system("sys"), "s"),
        bg_user("turn1", 1),
        MessageChunk::new(
            ContextLayer::Background,
            2,
            Message::assistant("turn1-a"),
            "a1",
        ),
        bg_user("turn2", 3),
        MessageChunk::new(
            ContextLayer::Background,
            4,
            Message::assistant("turn2-a"),
            "a2",
        ),
        bg_user("turn3", 5),
        MessageChunk::new(
            ContextLayer::Background,
            6,
            Message::assistant("turn3-a"),
            "a3",
        ),
        bg_user("turn4-old", 7),
        MessageChunk::new(ContextLayer::Active, 8, Message::user("now"), "active"),
    ];
    promote_soft_layers(
        &mut chunks,
        SoftLayerPromotionOptions {
            recent_turns: 3,
            tool_token_overlap_min: 0,
        },
    );
    assert_eq!(chunks[1].layer, ContextLayer::Background, "turn1 too old");
    assert_eq!(chunks[7].layer, ContextLayer::Relevant, "turn4 promoted");
    assert_eq!(chunks[6].layer, ContextLayer::Relevant);
    assert_eq!(chunks[8].layer, ContextLayer::Active);
}

#[test]
fn promotes_tool_with_query_overlap() {
    let mut chunks = vec![
        MessageChunk::new(ContextLayer::System, 0, Message::system("sys"), "s"),
        bg_tool("weather api returned rainfall data", 1),
        MessageChunk::new(
            ContextLayer::Active,
            2,
            Message::user("what rainfall data do we have?"),
            "q",
        ),
    ];
    promote_soft_layers(
        &mut chunks,
        SoftLayerPromotionOptions {
            recent_turns: 0,
            tool_token_overlap_min: 2,
        },
    );
    assert_eq!(chunks[1].layer, ContextLayer::Relevant);
}

#[test]
fn promoting_twice_is_promoting_once() {
    let make = || {
        vec![
            bg_tool("weather api returned RAINFALL data", 1),
            bg_user("older turn", 2),
            bg_user("turn", 3),
            MessageChunk::new(
                ContextLayer::Active,
                4,
                Message::user("rainfall data please"),
                "q",
            ),
        ]
    };
    let opts = SoftLayerPromotionOptions {
        recent_turns: 1,
        tool_token_overlap_min: 2,
    };
    let mut once = make();
    promote_soft_layers(&mut once, opts);
    let mut twice = make();
    promote_soft_layers(&mut twice, opts);
    promote_soft_layers(&mut twice, opts);
    let layers = |v: &Vec<MessageChunk>| v.iter().map(|c| c.layer).collect::<Vec<_>>();
    assert_eq!(layers(&once), layers(&twice));
    assert_eq!(
        layers(&once),
        vec![
            ContextLayer::Relevant,
            ContextLayer::Background,
            ContextLayer::Relevant,
            ContextLayer::Active
        ]
    );
}

#[test]
fn promotion_switched_off_changes_nothing() {
    let opts = SoftLayerPromotionOptions::disabled();
    assert!(!opts.is_enabled());
    let mut chunks = vec![
        bg_user("turn", 1),
        MessageChunk::new(ContextLayer::Active, 2, Message::user("turn"), "q"),
    ];
    promote_soft_layers(&mut chunks, opts);
    assert_eq!(chunks[0].layer, ContextLayer::Background);
}

#[test]
fn layers_have_numbers() {
    for n in 0u8..6 {
        let layer = ContextLayer::from_u8(n).unwrap();
        assert_eq!(layer.as_u8(), n);
    }
    assert!(ContextLayer::from_u8(6).is_none());
    assert!(ContextLayer::System.is_critical());
    assert!(!ContextLayer::Archive.is_critical());
}

#[test]
fn sent_chunks_stay_within_the_budget() {
    let mut chunks = vec![
        MessageChunk::new(ContextLayer::System, 1, Message::system("sys"), "s"),
        MessageChunk::new(ContextLayer::Active, 2, Message::user("ask"), "a"),
    ];
    for i in 0..30u64 {
        chunks.push(MessageChunk::new(
            ContextLayer::Relevant,
            3 + i,
            Message::user(&"r".repeat(20 + i as usize)),
            &format!("r{i}"),
        ));
    }
    let report =
        MessageAssembler::assemble_layered(&chunks, &layered_opts(60, AssembleStrategy::Chat))
            .unwrap();
    let used: u32 = report.messages.iter().map(estimate_message_tokens).sum();
    assert!(used <= 60);
    let texts: Vec<String> = report.messages.iter().map(text_of).collect();
    assert!(texts.contains(&"sys".to_string()));
    assert!(texts.contains(&"ask".to_string()));
}

#[test]
fn pool_counts_jobs() {
    let mut pool = AssemblePool::new(AssemblePoolConfig {
        max_in_flight: 1,
        timeout: TimeLimit { secs: 0, nanos: 30_500_000 },
    });
    assert_eq!(pool.max_in_flight(), 1);
    assert_eq!(pool.timeout(), TimeLimit { secs: 0, nanos: 30_500_000 });
    assert!(pool.try_acquire().is_ok());
    assert_eq!(
        pool.try_acquire().unwrap_err(),
        AssembleError::QueueFull { max_in_flight: 1 }
    );
    pool.release();
    assert!(pool.try_acquire().is_ok());
    assert_eq!(
        pool.settle(JobOutcome::TimedOut).unwrap_err(),
        AssembleError::Timeout { timeout_ms: 30 }
    );
    assert_eq!(
        pool.settle(JobOutcome::Failed).unwrap_err(),
        AssembleError::WorkerFailed
    );
    let inner = MessageAssembler::assemble(&vec![Message::user("hi")], &opts(100, 1));
    let settled = pool.settle(JobOutcome::Finished(inner)).unwrap();
    assert_eq!(settled.messages.len(), 1);
}

#[test]
fn a_pool_without_room_has_room_for_one() {
    let pool = AssemblePool::new(AssemblePoolConfig {
        max_in_flight: 0,
        timeout: TimeLimit { secs: u64::MAX, nanos: 0 },
    });
    assert_eq!(pool.max_in_flight(), 1);
}

#[test]
fn assembly_errors_have_texts() {
    let all = vec![
        AssembleError::EmptyInput,
        AssembleError::HardBudgetViolation {
            critical_tokens: 9,
            budget: 5,
        },
        AssembleError::QueueFull { max_in_flight: 8 },
        AssembleError::Timeout { timeout_ms: 30 },
        AssembleError::WorkerFailed,
    ];
    for e in all {
        assert!(!e.message().is_empty());
    }
    assert!(AssembleError::HardBudgetViolation {
        critical_tokens: 9,
        budget: 5
    }
    .message()
    .contains("9"));
}

#[test]
fn only_tool_outputs_are_missing_from_the_minimum_tail() {
    let messages = vec![
        Message::user("old"),
        Message::tool("call_1", "first"),
        Message::tool("call_1", "second"),
        Message::assistant("newest"),
    ];
    let newest = estimate_message_tokens(&messages[3]);
    let report = MessageAssembler::assemble(&messages, &opts(newest, 3)).unwrap();
    assert_eq!(report.dropped_prefix, 3);
    assert_eq!(text_of(&report.messages[0]), "newest");
    let report = MessageAssembler::assemble(&messages, &opts(newest, 4)).unwrap();
    assert_eq!(report.dropped_prefix, 0);
}

#[test]
fn a_suffix_beyond_the_minimum_tail_fits_the_budget() {
    let messages: Vec<Message> = (0..5).map(|_| Message::user("12345678")).collect();
    let each = estimate_message_tokens(&messages[0]);
    let report = MessageAssembler::assemble(&messages, &opts(3 * each, 1)).unwrap();
    assert_eq!(report.messages.len(), 3);
    let report = MessageAssembler::assemble(&messages, &opts(3 * each - 1, 1)).unwrap();
    assert_eq!(report.messages.len(), 2);
}

#[test]
fn folding_counts_characters() {
    let options = |threshold| AssembleOptions {
        tool_fold_threshold_chars: threshold,
        tool_placeholder: "[cut]".to_string(),
        ..opts(1_000, 1)
    };
    let messages = vec![Message::user("q"), Message::tool("call_1", "\u{e9}")];
    let report = MessageAssembler::assemble(&messages, &options(1)).unwrap();
    assert_eq!(report.folded_tool_segments, 0);
    assert_eq!(text_of(&report.messages[1]), "\u{e9}");
    let report = MessageAssembler::assemble(&messages, &options(0)).unwrap();
    assert_eq!(report.folded_tool_segments, 1);
    assert_eq!(text_of(&report.messages[1]), "[cut]");
    let block = || {
        vec![
            Message::user("q"),
            Message {
                role: MessageRole::User,
                content: MessageContent::Blocks(vec![ContentBlock::ToolResult {
                    tool_use_id: "t".to_string(),
                    content: JsonValue::string("\u{e9}"),
                }]),
                tool_call_id: None,
            },
        ]
    };
    let report = MessageAssembler::assemble(&block(), &options(3)).unwrap();
    assert_eq!(report.folded_tool_segments, 0);
    let report = MessageAssembler::assemble(&block(), &options(2)).unwrap();
    assert_eq!(report.folded_tool_segments, 1);
}

#[test]
fn layers_are_ordered_by_their_numbers() {
    for a in 0..6u8 {
        for b in 0..6u8 {
            let (x, y) = (
                ContextLayer::from_u8(a).unwrap(),
                ContextLayer::from_u8(b).unwrap(),
            );
            assert_eq!(x < y, a < b);
            assert_eq!(x.cmp(&y), a.cmp(&b));
        }
    }
}

#[test]
fn a_lower_layer_takes_no_place() {
    let base = vec![
        MessageChunk::new(ContextLayer::System, 1, Message::system("sys"), "s"),
        MessageChunk::new(ContextLayer::Relevant, 9, Message::user("relevant"), "r"),
    ];
    let mut more = base.clone();
    more.insert(
        0,
        MessageChunk::new(ContextLayer::Background, 0, Message::user("back"), "b"),
    );
    let budget: u32 = base
        .iter()
        .map(|c| estimate_message_tokens(&c.message))
        .sum();
    let report =
        MessageAssembler::assemble_layered(&more, &layered_opts(budget, AssembleStrategy::Chat))
            .unwrap();
    let texts: Vec<String> = report.messages.iter().map(text_of).collect();
    assert_eq!(texts, ["sys", "relevant"]);
}

#[test]
fn time_limits_are_told_in_whole_milliseconds() {
    let millis = |secs, nanos| TimeLimit { secs, nanos }.as_millis();
    assert_eq!(millis(5, 0), 5_000);
    assert_eq!(millis(1, 2_999_999), 1_002);
    assert_eq!(millis(u64::MAX, 0), u64::MAX);
}

#[test]
fn lower_layers_can_be_left_out() {
    let chunk = |layer, ts, text: &str| {
        MessageChunk::new(layer, ts, Message::user(text), &format!("c{ts}"))
    };
    let all = vec![
        chunk(ContextLayer::Background, 1, "background one"),
        chunk(ContextLayer::Summary, 2, "summary"),
        chunk(ContextLayer::Relevant, 3, "relevant"),
        chunk(ContextLayer::Active, 4, "active"),
    ];
    let sent = |chunks: &Vec<MessageChunk>, budget: u32| -> Vec<String> {
        let o = layered_opts(budget, AssembleStrategy::Chat);
        let report = MessageAssembler::assemble_layered(chunks, &o).unwrap();
        report.messages.iter().map(text_of).collect()
    };
    let above = |s: &Vec<String>, gone: &[&str]| -> Vec<String> {
        s.iter()
            .filter(|t| !gone.iter().any(|g| t.starts_with(g)))
            .cloned()
            .collect()
    };
    let mut counts = Vec::new();
    for budget in [8, 16, 20, 24, 28, 60] {
        let first = sent(&all, budget);
        let second = sent(&all[1..].to_vec(), budget);
        let third = sent(&all[2..].to_vec(), budget);
        assert_eq!(above(&first, &["background"]), second);
        assert_eq!(above(&first, &["background", "summary"]), third);
        counts.push(first.len());
    }
    assert_eq!(counts, vec![1, 2, 3, 3, 4, 4]);
}

use zeptoclaw::agent::context_monitor::{
    estimate_definition, safe_truncate, safe_truncate_tail, CompactionStrategy, CompactionUrgency, ContextMonitor,
    PreflightAction,
};
use zeptoclaw::config::CompactionConfig;
use zeptoclaw::providers::ToolDefinition;
use zeptoclaw::session::{ContentPart, ImageSource, Message, ToolCall};
use zeptoclaw::utils::ratio::Ratio;

fn ratio(x: f64) -> Ratio {
    Ratio::from_bits(x.to_bits())
}

fn make_message(content: &str) -> Message {
    Message::user(content)
}

fn raw_estimate(msg: &Message) -> usize {
    ContextMonitor::estimate_tokens_with_margin(&[msg.clone()], ratio(1.0))
}

fn config(context_limit: usize, headroom: f64, share: f64) -> CompactionConfig {
    CompactionConfig {
        enabled: true,
        context_limit,
        threshold: ratio(0.70),
        emergency_threshold: ratio(0.90),
        critical_threshold: ratio(0.95),
        input_headroom_ratio: ratio(headroom),
        single_tool_result_share: ratio(share),
        safety_margin: ratio(1.0),
        overflow_retries: 3,
    }
}

fn shell_definition() -> ToolDefinition {
    ToolDefinition::new(
        "shell",
        "Execute a shell command on the system",
        serde_json::from_str(
            r#"{
                "type": "object",
                "properties": {
                    "command": {"type": "string", "description": "The command to run"}
                },
                "required": ["command"]
            }"#,
        )
        .unwrap(),
    )
}

// --- Token estimation ---

#[test]
fn test_estimate_tokens_empty_messages() {
    let messages: Vec<Message> = vec![];
    assert_eq!(ContextMonitor::estimate_tokens_with_margin(&messages, ratio(1.0)), 0);
}

#[test]
fn test_estimate_tokens_single_message() {
    let messages = vec![make_message("Hello world")];
    assert_eq!(ContextMonitor::estimate_tokens_with_margin(&messages, ratio(1.0)), 6);
}

#[test]
fn test_estimate_tokens_empty_content() {
    let messages = vec![make_message("")];
    assert_eq!(ContextMonitor::estimate_tokens_with_margin(&messages, ratio(1.0)), 4);
}

#[test]
fn test_estimate_tokens_with_safety_margin() {
    let messages = vec![make_message("Hello world")];
    assert_eq!(ContextMonitor::estimate_tokens(&messages), 8);
}

#[test]
fn test_tool_result_weighted_heavier() {
    let text = "a]".repeat(100);
    let user_msg = Message::user(&text);
    let tool_msg = Message::tool_result("call_1", &text);

    let user_tokens = raw_estimate(&user_msg);
    let tool_tokens = raw_estimate(&tool_msg);
    assert!(
        tool_tokens > user_tokens,
        "Tool results should be weighted heavier: tool={tool_tokens} user={user_tokens}"
    );
    assert_eq!(user_tokens, 54);
    assert_eq!(tool_tokens, 104);
}

#[test]
fn test_tool_call_arguments_counted() {
    let mut msg = Message::assistant("ok");
    msg.tool_calls = Some(vec![ToolCall::new(
        "call_1",
        "shell",
        r#"{"command": "ls -la /very/long/path/to/something"}"#,
    )]);
    let with_calls = raw_estimate(&msg);

    let plain = raw_estimate(&Message::assistant("ok"));
    assert!(
        with_calls > plain,
        "Tool call arguments should add tokens: with={with_calls} plain={plain}"
    );
    // 0.5 + 1.25 + 25 + 4
    assert_eq!(with_calls, 30);
}

#[test]
fn test_estimate_tokens_full_includes_tool_defs() {
    let messages = vec![make_message("Hello")];
    let tool_defs = vec![shell_definition()];
    let without = ContextMonitor::estimate_tokens_full(&messages, &[], ratio(1.0));
    let with = ContextMonitor::estimate_tokens_full(&messages, &tool_defs, ratio(1.0));
    assert!(
        with > without,
        "Tool definitions should add tokens: with={with} without={without}"
    );
}

#[test]
fn definition_weighs_its_compact_schema() {
    let definition = shell_definition();
    let schema = definition.parameters.to_string();
    assert!(!schema.contains('\n'));
    // In quarter tokens: one for each byte, two for each byte of the schema.
    assert_eq!(estimate_definition("shell", "runs", "{\"a\":1}"), 5 + 4 + 2 * 7);
    let bytes = (definition.name.len() + definition.description.len()) as f64 / 4.0
        + schema.len() as f64 / 2.0;
    assert_eq!(
        ContextMonitor::estimate_tokens_full(&[], &[definition], ratio(1.0)),
        bytes as usize
    );
}

// --- Urgency ---

#[test]
fn test_urgency_tiers() {
    let monitor =
        ContextMonitor::new_with_thresholds(1000, ratio(0.70), ratio(0.90), ratio(0.95));

    let small: Vec<Message> = (0..5).map(|_| make_message("hello")).collect();
    assert_eq!(monitor.urgency(&small), None);

    let text = "x".repeat(200);
    let critical: Vec<Message> = (0..20).map(|_| make_message(&text)).collect();
    let est = ContextMonitor::estimate_tokens(&critical);
    assert!(est > 950, "Expected >950, got {est}");
    assert_eq!(monitor.urgency(&critical), Some(CompactionUrgency::Critical));
}

// --- needs_compaction ---

#[test]
fn test_needs_compaction_below_threshold() {
    let monitor = ContextMonitor::new(10_000, ratio(0.80));
    let messages = vec![make_message("Hello")];
    assert!(!monitor.needs_compaction(&messages));
}

#[test]
fn test_needs_compaction_above_threshold() {
    let monitor = ContextMonitor::new(100, ratio(0.80));
    let messages = vec![make_message(&"x".repeat(300))];
    assert!(monitor.needs_compaction(&messages));
}

// --- suggest_strategy ---

#[test]
fn test_strategy_below_threshold() {
    let monitor = ContextMonitor::new(100_000, ratio(0.80));
    let messages = vec![make_message("Hello world")];
    assert_eq!(monitor.suggest_strategy(&messages), CompactionStrategy::Keep);
}

#[test]
fn test_strategy_above_threshold_below_85() {
    let monitor = ContextMonitor::new(1000, ratio(0.80));
    let messages = vec![make_message(&"x".repeat(2700))];
    let est = ContextMonitor::estimate_tokens(&messages);
    assert!(est > 800 && est < 850, "Expected 800-850, got {est}");
    assert_eq!(
        monitor.suggest_strategy(&messages),
        CompactionStrategy::Summarize { keep_recent: 8 }
    );
}

#[test]
fn test_strategy_above_85() {
    let monitor = ContextMonitor::new(1000, ratio(0.80));
    let messages = vec![make_message(&"x".repeat(2900))];
    let est = ContextMonitor::estimate_tokens(&messages);
    assert!(est > 850 && est < 900, "Expected 850-900, got {est}");
    assert_eq!(
        monitor.suggest_strategy(&messages),
        CompactionStrategy::Summarize { keep_recent: 5 }
    );
}

#[test]
fn test_strategy_above_95() {
    let monitor = ContextMonitor::new(1000, ratio(0.80));
    let messages = vec![make_message(&"x".repeat(3200))];
    let est = ContextMonitor::estimate_tokens(&messages);
    assert!(est > 950, "Expected >950, got {est}");
    assert_eq!(
        monitor.suggest_strategy(&messages),
        CompactionStrategy::Truncate { keep_recent: 3 }
    );
}

#[test]
fn strategy_in_the_emergency_tier_truncates() {
    let monitor = ContextMonitor::new(1000, ratio(0.80));
    let messages = vec![make_message(&"x".repeat(3050))];
    assert_eq!(
        monitor.suggest_strategy(&messages),
        CompactionStrategy::Truncate { keep_recent: 5 }
    );
}

// --- Edge cases ---

#[test]
fn test_empty_message_list_strategy() {
    let monitor = ContextMonitor::new(100_000, ratio(0.80));
    assert_eq!(monitor.suggest_strategy(&[]), CompactionStrategy::Keep);
    assert!(!monitor.needs_compaction(&[]));
}

#[test]
fn test_single_message_no_compaction() {
    let monitor = ContextMonitor::new(100_000, ratio(0.80));
    let messages = vec![make_message("Just one message here")];
    assert!(!monitor.needs_compaction(&messages));
    assert_eq!(monitor.suggest_strategy(&messages), CompactionStrategy::Keep);
}

#[test]
fn test_custom_threshold() {
    let monitor = ContextMonitor::new(100, ratio(0.10));
    let messages = vec![make_message("Hello world")];
    assert!(!monitor.needs_compaction(&messages));

    let messages = vec![make_message("Hello world"), make_message("Hello world")];
    assert!(monitor.needs_compaction(&messages));
}

#[test]
fn test_default_values() {
    let monitor = ContextMonitor::default();
    let messages = vec![make_message("Hello"), make_message("World")];
    assert!(!monitor.needs_compaction(&messages));
    assert_eq!(monitor.suggest_strategy(&messages), CompactionStrategy::Keep);
}

#[test]
fn default_fractions_are_the_documented_ones() {
    let monitor = ContextMonitor::default();
    assert_eq!(monitor.context_limit, 180_000);
    assert_eq!(f64::from_bits(monitor.threshold.bits), 0.70);
    assert_eq!(f64::from_bits(monitor.emergency_threshold.bits), 0.90);
    assert_eq!(f64::from_bits(monitor.critical_threshold.bits), 0.95);
    assert_eq!(f64::from_bits(monitor.input_headroom_ratio.bits), 0.75);
    assert_eq!(f64::from_bits(monitor.single_tool_result_share.bits), 0.50);
    assert_eq!(f64::from_bits(monitor.safety_margin.bits), 1.2);
    assert_eq!(monitor.context_budget(), 135_000);
}

#[test]
fn no_room_at_all_is_not_a_number_or_infinite() {
    let monitor = ContextMonitor::new(0, ratio(0.80));
    // 0 / 0 compares with nothing.
    assert_eq!(monitor.urgency(&[]), Some(CompactionUrgency::Normal));
    assert!(!monitor.needs_compaction(&[]));
    // x / 0 is above everything.
    let messages = vec![make_message("Hello")];
    assert_eq!(monitor.urgency(&messages), Some(CompactionUrgency::Critical));
    assert!(monitor.needs_compaction(&messages));
}

// --- Pre-flight guard ---

#[test]
fn test_preflight_ok_when_small() {
    let monitor = ContextMonitor::default();
    let mut messages = vec![make_message("Hello")];
    assert_eq!(monitor.preflight_check(&mut messages, &[]), PreflightAction::Proceed);
    assert_eq!(messages[0].content, "Hello");
}

#[test]
fn test_preflight_trims_oversized_tool_result() {
    let monitor = ContextMonitor::new(1000, ratio(0.70));
    let big_result = "x".repeat(5000);
    let mut messages = vec![Message::user("hi"), Message::tool_result("call_1", &big_result)];
    let action = monitor.preflight_check(&mut messages, &[]);
    assert!(
        matches!(action, PreflightAction::Trimmed | PreflightAction::Proceed),
        "Expected trimmed or ok, got {action:?}"
    );
    assert!(messages[1].content.len() < 5000, "Tool result should have been trimmed");
}

#[test]
fn oversized_result_keeps_seven_tenths_and_three_tenths() {
    // A cap of 50 tokens is 100 bytes; the budget is not reached.
    let mut c = config(1000, 0.75, 0.05);
    c.safety_margin = ratio(1.2);
    let monitor = ContextMonitor::from_config(&c);
    let text = format!("{}{}", "h".repeat(500), "t".repeat(500));
    let mut messages = vec![Message::tool_result("call_1", &text)];
    assert_eq!(monitor.preflight_check(&mut messages, &[]), PreflightAction::Trimmed);
    let expected =
        format!("{}\n...[truncated 900 bytes]...\n{}", "h".repeat(70), "t".repeat(30));
    assert_eq!(messages[0].content, expected);
    assert_eq!(messages[0].content_parts.len(), 1);
    match &messages[0].content_parts[0] {
        ContentPart::Text { text } => assert_eq!(*text, expected),
        other => panic!("expected text, got {other:?}"),
    }
    assert!(messages[0].content.len() <= 100 + 50);
}

#[test]
fn test_from_config() {
    let config = CompactionConfig {
        enabled: true,
        context_limit: 50_000,
        threshold: ratio(0.60),
        emergency_threshold: ratio(0.85),
        critical_threshold: ratio(0.90),
        input_headroom_ratio: ratio(0.70),
        single_tool_result_share: ratio(0.40),
        safety_margin: ratio(1.3),
        overflow_retries: 5,
    };
    let monitor = ContextMonitor::from_config(&config);
    assert_eq!(monitor.context_budget(), 35_000);
}

#[test]
fn test_preflight_pass2_compacts_oldest_tool_results() {
    let monitor = ContextMonitor::from_config(&config(200, 0.75, 0.90));
    assert_eq!(monitor.context_budget(), 150);

    let mut messages = vec![
        Message::tool_result("c1", &"a".repeat(400)),
        Message::tool_result("c2", &"b".repeat(400)),
        Message::tool_result("c3", &"c".repeat(400)),
    ];

    let action = monitor.preflight_check(&mut messages, &[]);
    let compacted_count = messages.iter().filter(|m| m.content == "[compacted]").count();
    assert!(compacted_count > 0, "Pass 2 should have compacted some tool results, got 0");
    assert!(
        matches!(action, PreflightAction::Trimmed | PreflightAction::NeedsCompaction),
        "Expected Trimmed or NeedsCompaction, got {action:?}"
    );
}

#[test]
fn dropping_stops_as_soon_as_the_request_fits() {
    // 104 tokens each; a budget of 225 takes two of them.
    let monitor = ContextMonitor::from_config(&config(300, 0.75, 0.90));
    let mut messages = vec![
        Message::user("hi"),
        Message::tool_result("c1", &"a".repeat(200)),
        Message::tool_result("c2", &"b".repeat(200)),
        Message::tool_result("c3", &"c".repeat(200)),
    ];
    assert_eq!(monitor.preflight_check(&mut messages, &[]), PreflightAction::Trimmed);
    assert_eq!(messages[0].content, "hi");
    assert_eq!(messages[1].content, "[compacted]");
    assert_eq!(messages[2].content, "b".repeat(200));
    assert_eq!(messages[3].content, "c".repeat(200));
    assert_eq!(messages[1].tool_call_id, Some("c1".to_string()));
    assert!(
        ContextMonitor::estimate_tokens_full(&messages, &[], ratio(1.0))
            <= monitor.context_budget()
    );
}

#[test]
fn dropped_results_are_not_dropped_again() {
    let monitor = ContextMonitor::from_config(&config(100, 0.10, 0.90));
    let mut messages = vec![Message::tool_result("c1", "[compacted]"), Message::user("hi")];
    assert_eq!(monitor.preflight_check(&mut messages, &[]), PreflightAction::NeedsCompaction);
    assert_eq!(messages[0].content, "[compacted]");
}

#[test]
fn test_preflight_pass2_syncs_content_parts() {
    let monitor = ContextMonitor::from_config(&config(100, 0.50, 0.90));

    let mut messages = vec![Message::tool_result("c1", &"x".repeat(400))];
    assert!(!messages[0].content_parts.is_empty());

    monitor.preflight_check(&mut messages, &[]);
    if messages[0].content == "[compacted]" {
        assert_eq!(messages[0].content_parts.len(), 1);
        if let ContentPart::Text { text } = &messages[0].content_parts[0] {
            assert_eq!(text, "[compacted]");
        }
    }
}

#[test]
fn parts_stay_empty_where_there_are_none() {
    let monitor = ContextMonitor::from_config(&config(100, 0.50, 0.90));
    let mut message = Message::tool_result("c1", &"x".repeat(400));
    message.content_parts = vec![];
    let mut messages = vec![message];
    monitor.preflight_check(&mut messages, &[]);
    assert_eq!(messages[0].content, "[compacted]");
    assert!(messages[0].content_parts.is_empty());
}

#[test]
fn test_preflight_pass3_needs_compaction() {
    let monitor = ContextMonitor::from_config(&config(50, 0.50, 0.90));
    let mut messages = vec![Message::user(&"x".repeat(200))];

    let action = monitor.preflight_check(&mut messages, &[]);
    assert_eq!(action, PreflightAction::NeedsCompaction);
    assert_eq!(messages[0].content, "x".repeat(200));
}

#[test]
fn over_the_budget_with_nothing_to_trim_compaction_is_due() {
    // 164 bytes are 45 tokens: over the budget of 25, at 90% of 50.
    let monitor = ContextMonitor::from_config(&config(50, 0.50, 0.90));
    let mut messages = vec![Message::user(&"x".repeat(164))];
    assert_eq!(monitor.preflight_check(&mut messages, &[]), PreflightAction::NeedsCompaction);
    assert_eq!(messages[0].content, "x".repeat(164));
    // 84 bytes are 25 tokens, 88 are 26.
    let mut messages = vec![Message::user(&"x".repeat(84))];
    assert_eq!(monitor.preflight_check(&mut messages, &[]), PreflightAction::Proceed);
    let mut messages = vec![Message::user(&"x".repeat(88))];
    assert_eq!(monitor.preflight_check(&mut messages, &[]), PreflightAction::NeedsCompaction);
}

#[test]
fn over_the_budget_but_trimmed_the_request_goes_on() {
    // After dropping, 9.5 + 30 tokens: over the budget of 25, under 45.
    let monitor = ContextMonitor::from_config(&config(50, 0.50, 0.90));
    let mut messages =
        vec![Message::tool_result("c1", &"y".repeat(80)), Message::user(&"x".repeat(104))];
    assert_eq!(monitor.preflight_check(&mut messages, &[]), PreflightAction::Trimmed);
    assert_eq!(messages[0].content, "[compacted]");
}

// --- Images and parts ---

#[test]
fn test_estimate_tokens_with_image() {
    let mut msg = Message::user("caption");
    msg.content_parts = vec![
        ContentPart::Text { text: "caption".to_string() },
        ContentPart::Image {
            source: ImageSource::Base64 { data: "abc".to_string() },
            media_type: "image/png".to_string(),
        },
    ];
    let tokens = raw_estimate(&msg);
    assert!(tokens > 2000, "Image should contribute ~2000 tokens, got {tokens}");
    assert_eq!(tokens, 2005);
}

#[test]
fn test_estimate_uses_max_of_content_and_parts() {
    let mut msg = Message::user("short");
    msg.content_parts = vec![ContentPart::Text { text: "x".repeat(1000) }];
    let tokens = raw_estimate(&msg);
    assert!(
        tokens > 200,
        "Should use content_parts estimate when larger, got {tokens}"
    );
    assert_eq!(tokens, 254);
}

#[test]
fn test_urgency_normal_tier() {
    let monitor =
        ContextMonitor::new_with_thresholds(1000, ratio(0.70), ratio(0.90), ratio(0.95));
    let messages = vec![make_message(&"x".repeat(2400))];
    assert_eq!(monitor.urgency(&messages), Some(CompactionUrgency::Normal));
}

#[test]
fn test_urgency_emergency_tier() {
    let monitor =
        ContextMonitor::new_with_thresholds(1000, ratio(0.70), ratio(0.90), ratio(0.95));
    let messages = vec![make_message(&"x".repeat(3050))];
    let est = ContextMonitor::estimate_tokens(&messages);
    assert!(est >= 900 && est < 950, "Expected 900-950, got {est}");
    assert_eq!(monitor.urgency(&messages), Some(CompactionUrgency::Emergency));
}

// --- What holds of all of them ---

#[test]
fn estimate_and_urgency_grow_with_the_conversation() {
    let monitor = ContextMonitor::new(400, ratio(0.50));
    let mut messages: Vec<Message> = vec![];
    let mut last = 0;
    let mut tier = 0;
    let mut needed = false;
    for i in 0..40 {
        messages.push(Message::tool_result("c", &"y".repeat(i)));
        let estimate = ContextMonitor::estimate_tokens(&messages);
        assert!(estimate >= last);
        last = estimate;
        let now = match monitor.urgency(&messages) {
            None => 0,
            Some(CompactionUrgency::Normal) => 1,
            Some(CompactionUrgency::Emergency) => 2,
            Some(CompactionUrgency::Critical) => 3,
        };
        assert!(now >= tier);
        assert_eq!(now == 0, monitor.suggest_strategy(&messages) == CompactionStrategy::Keep);
        tier = now;
        assert!(monitor.needs_compaction(&messages) || !needed);
        needed = monitor.needs_compaction(&messages);
    }
    assert_eq!(tier, 3);
    assert!(needed);
}

#[test]
fn estimates_add_up_in_any_order() {
    let sizes = [0, 1, 2, 3, 5, 7, 11, 13, 102, 999];
    let all: Vec<Message> = sizes
        .iter()
        .map(|n| {
            if n % 2 == 0 {
                Message::user(&"u".repeat(*n))
            } else {
                Message::tool_result("c", &"t".repeat(*n))
            }
        })
        .collect();
    let plain = |messages: &[Message]| {
        ContextMonitor::estimate_tokens_with_margin(messages, ratio(1.0))
    };
    let total = plain(&all);
    for i in 0..=all.len() {
        let (a, b) = all.split_at(i);
        let sum = plain(a) + plain(b);
        assert!(total == sum || total == sum + 1);
        let mut turned = b.to_vec();
        turned.extend_from_slice(a);
        assert_eq!(plain(&turned), total);
        if i < all.len() {
            assert!(plain(&all[..i + 1]) >= plain(a) + 4);
        }
    }
    let reversed: Vec<Message> = all.iter().rev().cloned().collect();
    for margin in [0.9, 1.0, 1.2, 1.37] {
        assert_eq!(
            ContextMonitor::estimate_tokens_with_margin(&reversed, ratio(margin)),
            ContextMonitor::estimate_tokens_with_margin(&all, ratio(margin))
        );
    }
}

#[test]
fn ways_to_ask_for_compaction_agree_away_from_the_threshold() {
    for limit in [1usize, 7, 100, 333, 1 << 32] {
        for threshold in [0.0, -0.0, 1e-300, 0.1, 0.3, 0.7, 0.80, 0.999, 1.0] {
            let monitor = ContextMonitor::new(limit, ratio(threshold));
            for n in (0..1_500).step_by(17) {
                let messages = vec![make_message(&"x".repeat(n))];
                let estimated = ContextMonitor::estimate_tokens(&messages) as f64;
                let share = threshold * limit as f64;
                if (estimated - share).abs() < 1.5 {
                    continue;
                }
                let exceeds = estimated > share;
                assert_eq!(monitor.needs_compaction(&messages), exceeds);
                assert_eq!(monitor.urgency(&messages).is_some(), exceeds);
                assert_eq!(
                    monitor.suggest_strategy(&messages) != CompactionStrategy::Keep,
                    exceeds
                );
            }
        }
    }
}

#[test]
fn a_part_of_a_conversation_can_be_checked() {
    let monitor = ContextMonitor::from_config(&config(100, 0.50, 0.90));
    let mut messages = [
        Message::tool_result("c1", &"x".repeat(400)),
        Message::tool_result("c2", &"y".repeat(400)),
    ];
    monitor.preflight_check(&mut messages[1..], &[]);
    assert_eq!(messages[0].content, "x".repeat(400));
    assert_eq!(messages[1].content, "[compacted]");
}

#[test]
fn estimates_match_floating_point() {
    for n in 0..300usize {
        let messages = vec![
            make_message(&"a".repeat(n)),
            Message::tool_result("c", &"b".repeat(n * 7 + 3)),
        ];
        let raw = 0.0 + (n as f64 / 4.0 + 0.0 + 4.0) + ((n * 7 + 3) as f64 / 2.0 + 0.0 + 4.0);
        for margin in [0.0, 0.3, 1.0, 1.1, 1.2, 1.3, 2.7, -1.0, f64::NAN, f64::INFINITY] {
            assert_eq!(
                ContextMonitor::estimate_tokens_with_margin(&messages, ratio(margin)),
                (raw * margin) as usize
            );
        }
        let monitor = ContextMonitor::new(1500, ratio(0.61));
        let estimated = (raw * 1.2) as usize;
        assert_eq!(
            monitor.needs_compaction(&messages),
            estimated as f64 > 1500.0 * 0.61
        );
        assert_eq!(monitor.urgency(&messages).is_none(), estimated as f64 / 1500.0 <= 0.61);
    }
}

#[test]
fn truncation_respects_characters() {
    assert_eq!(safe_truncate("héllo", 2), "h");
    assert_eq!(safe_truncate("héllo", 3), "hé");
    assert_eq!(safe_truncate("héllo", 100), "héllo");
    assert_eq!(safe_truncate("é", 0), "");
    assert_eq!(safe_truncate_tail("hellé", 1), "");
    assert_eq!(safe_truncate_tail("hellé", 2), "é");
    assert_eq!(safe_truncate_tail("hellé", 3), "lé");
    assert_eq!(safe_truncate_tail("hellé", 100), "hellé");
}

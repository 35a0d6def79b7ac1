use dsh_host::token::{
    BLOCK_OVERHEAD, CHARS_PER_TOKEN, ContentBlock, MeasurementAnchor, ROLE_OVERHEAD, SurfaceOp,
    TokenMeasurementBaseline, TokenUsage, anchor_for_call, ceil_chars, estimate_content, estimate_header,
    estimate_message, fold_surface, provider_assistant_tokens, saturating_add_signed, snapshot, usage_tokens,
};
use dsh_host::replay::{MeterError, MeterEvent, MeterEventKind, ReplayState, StepStartState, replay_step, replay_to};

fn text(t: &str) -> ContentBlock {
    ContentBlock::Text { text: t.into() }
}

#[test]
fn estimate_empty_text_is_overheads_only() {
    assert_eq!(estimate_message(&[text("")]), 8);
}

#[test]
fn estimate_five_chars_ceils() {
    assert_eq!(estimate_message(&[text("abcde")]), 10);
}

#[test]
fn estimate_tool_call_prices_name_and_arguments() {
    let call = ContentBlock::ToolCall { name: "read".into(), arguments: "{\"x\":1}".into() };
    assert_eq!(estimate_message(&[call]), 11);
}

#[test]
fn estimate_tool_result_recurses_then_adds_block_overhead() {
    let result = ContentBlock::ToolResult { content: vec![text("xy")] };
    assert_eq!(estimate_message(&[result]), 13);
}

#[test]
fn estimate_image_uses_json_stringify_plus_block_overhead() {
    let json = "{\"type\":\"image\",\"attachment\":{\"id\":\"a\"}}";
    let json_tokens = (json.encode_utf16().count() as u64).div_ceil(4);
    assert_eq!(estimate_content(&[ContentBlock::Image { json: json.into() }]), 4 + json_tokens);
    assert_eq!(estimate_message(&[ContentBlock::Image { json: json.into() }]), 8 + json_tokens);
}

#[test]
fn estimate_header_system_and_tools() {
    assert_eq!(estimate_header(Some("abcd"), Some("[{\"n\":1}]")), 12);
    assert_eq!(estimate_header(None, None), 0);
    assert_eq!(estimate_header(None, Some("[]")), 0);
    assert_eq!(estimate_header(None, Some("null")), 0);
    assert_eq!(estimate_header(None, Some("\"\"")), 0);
    assert_eq!(estimate_header(Some(""), None), 4);
}

#[test]
fn utf16_units_price_astral_characters_twice() {
    assert_eq!(ceil_chars("😀😀"), 1);
    assert_eq!(ceil_chars("😀😀a"), 2);
    assert_eq!(ceil_chars("ééé"), 1);
    assert_eq!((CHARS_PER_TOKEN, BLOCK_OVERHEAD, ROLE_OVERHEAD), (4, 4, 4));
}

#[test]
fn measure_surface_tokens_drop_after_replace() {
    let first = estimate_message(&[text("hello world")]);
    let second = estimate_message(&[text("more text here")]);
    let a = fold_surface(&[], 0, first, SurfaceOp::Append);
    let b = fold_surface(&a.nodes, 1, second, SurfaceOp::Append);
    let before: u64 = b.nodes.iter().map(|n| n.tokens).sum();
    let replaced = estimate_message(&[text("x")]);
    let c = fold_surface(&b.nodes, 2, replaced, SurfaceOp::Replace { start: 0, end: 0 });
    let after = saturating_add_signed(before, c.delta_tokens);
    assert!(after < before);
    assert_eq!(c.nodes.iter().map(|n| n.seq).collect::<Vec<_>>(), vec![2, 1]);
    assert_eq!(c.nodes.iter().map(|n| n.tokens).sum::<u64>(), after);
}

#[test]
fn replace_swaps_a_range_for_one_node() {
    let mut nodes = Vec::new();
    for (seq, tokens) in [(0u64, 5u64), (1, 6), (2, 7), (3, 8)] {
        nodes = fold_surface(&nodes, seq, tokens, SurfaceOp::Append).nodes;
    }
    let folded = fold_surface(&nodes, 9, 1, SurfaceOp::Replace { start: 1, end: 2 });
    assert_eq!(folded.delta_tokens, 1 - 13);
    assert_eq!(folded.tokens, 1);
    assert_eq!(folded.nodes.iter().map(|n| (n.seq(), n.tokens())).collect::<Vec<_>>(), vec![(0, 5), (9, 1), (3, 8)]);
}

#[test]
fn measure_empty_session_has_none_baseline() {
    let measured = snapshot(0, Vec::new(), 0, None, false, None);
    assert!(matches!(measured.baseline(), TokenMeasurementBaseline::Empty));
    assert_eq!(measured.total_tokens(), 0);
    assert_eq!(measured.surface_tokens(), 0);
    assert!(measured.nodes().is_empty());
    assert_eq!(measured.log_revision(), 0);
}

#[test]
fn measure_without_header_estimates_surface_only() {
    let a = estimate_message(&[text("abcd")]);
    let b = estimate_message(&[text("ab")]);
    let first = fold_surface(&[], 0, a, SurfaceOp::Append);
    let second = fold_surface(&first.nodes, 1, b, SurfaceOp::Append);
    let surface = a + b;
    let measured = snapshot(2, second.nodes, surface, None, false, None);
    assert_eq!(measured.surface_tokens(), a + b);
    assert_eq!(measured.total_tokens(), a + b);
    assert_eq!(measured.nodes().iter().map(|n| n.tokens()).sum::<u64>(), measured.surface_tokens());
    assert!(matches!(measured.baseline(), TokenMeasurementBaseline::Estimated { .. }));
}

fn disjoint_usage() -> TokenUsage {
    TokenUsage {
        input_tokens: 20,
        output_tokens: 7,
        cache_read_tokens: Some(3),
        cache_write_tokens: Some(4),
        reasoning_tokens: Some(6),
    }
}

#[test]
fn measure_usage_tokens_do_not_count_reasoning_twice() {
    assert_eq!(usage_tokens(&disjoint_usage()), 20 + 3 + 4 + 7);
    let anchor = anchor_for_call(5, 0, Some(disjoint_usage()), 3, 9);
    match anchor.baseline {
        TokenMeasurementBaseline::Usage { tokens, usage } => {
            assert_eq!(tokens, 34);
            assert_eq!(usage.reasoning_tokens, Some(6));
            assert_eq!(usage, disjoint_usage());
        },
        other => panic!("expected usage baseline, got {other:?}"),
    }
    assert_eq!(anchor.surface_tokens, 8);
}

#[test]
fn measure_usage_baseline_when_disjoint_buckets_meet_estimate() {
    let header = estimate_header(None, None);
    let user = estimate_message(&[text("before")]);
    let provider = estimate_message(&[text("short")]);
    let durable = estimate_message(&[text("a much longer rewritten durable assistant answer")]);
    let estimated_anchor = header + user + provider;
    let usage = TokenUsage {
        input_tokens: estimated_anchor,
        output_tokens: 0,
        cache_read_tokens: None,
        cache_write_tokens: None,
        reasoning_tokens: Some(99),
    };
    let anchor = anchor_for_call(user, header, Some(usage), provider, durable);
    assert!(matches!(anchor.baseline, TokenMeasurementBaseline::Usage { tokens, .. } if tokens == estimated_anchor));
    let surface = user + durable;
    let measured = snapshot(5, Vec::new(), surface, Some(anchor), true, Some(header));
    assert_eq!(measured.baseline(), &anchor.baseline);
    assert!(measured.surface_delta_tokens() > 0);
    assert_eq!(measured.total_tokens(), estimated_anchor.saturating_add_signed(measured.surface_delta_tokens()));
    assert_eq!(measured.baseline().usage(), Some(&usage));
}

#[test]
fn usage_below_estimate_falls_back_to_the_estimate() {
    let usage = TokenUsage { input_tokens: 1, output_tokens: 0, cache_read_tokens: None, cache_write_tokens: None, reasoning_tokens: None };
    let anchor = anchor_for_call(10, 4, Some(usage), 3, 50);
    assert_eq!(anchor, MeasurementAnchor { surface_tokens: 13, baseline: TokenMeasurementBaseline::Estimated { tokens: 17 } });
    let durable = anchor_for_call(10, 4, None, 3, 50);
    assert_eq!(durable, MeasurementAnchor { surface_tokens: 60, baseline: TokenMeasurementBaseline::Estimated { tokens: 64 } });
    assert_eq!(TokenMeasurementBaseline::Estimated { tokens: 17 }.tokens(), 17);
    assert_eq!(TokenMeasurementBaseline::Empty.usage(), None);
}

#[test]
fn measure_empty_source_event_seqs_zero_provider_absent_uses_durable() {
    let durable = estimate_message(&[text("listener injected text")]);
    assert_eq!(provider_assistant_tokens(durable, Some(&[][..])), 0);
    assert_eq!(provider_assistant_tokens(durable, None), durable);
    assert_eq!(provider_assistant_tokens(durable, Some(&[text("abcd")][..])), 9);
    let empty = anchor_for_call(0, 0, Some(disjoint_usage()), provider_assistant_tokens(durable, Some(&[][..])), durable);
    let absent = anchor_for_call(0, 0, Some(disjoint_usage()), provider_assistant_tokens(durable, None), durable);
    let empty_measured = snapshot(1, Vec::new(), durable, Some(empty), true, Some(0));
    let absent_measured = snapshot(1, Vec::new(), durable, Some(absent), true, Some(0));
    assert!(matches!(empty_measured.baseline(), TokenMeasurementBaseline::Usage { tokens: 34, .. }));
    assert!(matches!(absent_measured.baseline(), TokenMeasurementBaseline::Usage { tokens: 34, .. }));
    assert!(empty_measured.surface_delta_tokens() > 0);
    assert_eq!(absent_measured.surface_delta_tokens(), 0);
}

#[test]
fn measure_mismatched_request_header_reprices_instead_of_usage_anchor() {
    let anchor = anchor_for_call(2, 5, Some(disjoint_usage()), 3, 3);
    let surface = 5;
    let header = estimate_header(Some("two"), None);
    let repriced = snapshot(9, Vec::new(), surface, Some(anchor), false, Some(header));
    assert_eq!(repriced.baseline(), &TokenMeasurementBaseline::Estimated { tokens: header + surface });
    assert_eq!(repriced.surface_delta_tokens(), 0);
    assert_eq!(repriced.surface_tokens(), surface);
    let matching = snapshot(9, Vec::new(), surface, Some(anchor), true, Some(header));
    assert!(matches!(matching.baseline(), TokenMeasurementBaseline::Usage { tokens: 34, .. }));
}

#[test]
fn signed_deltas_saturate() {
    assert_eq!(saturating_add_signed(5, -10), 0);
    assert_eq!(saturating_add_signed(u64::MAX, 1), u64::MAX);
    assert_eq!(saturating_add_signed(5, 3), 8);
}

fn event(seq: u64, kind: MeterEventKind, tokens: u64, op: Option<SurfaceOp>) -> MeterEvent {
    MeterEvent { seq, kind, tokens, op }
}

#[test]
fn replay_keeps_the_surface_total_equal_to_the_node_sum() {
    let mut state = ReplayState::new();
    let events = [
        event(0, MeterEventKind::StepStart { turn: 1, step: 1 }, 0, None),
        event(1, MeterEventKind::Other, 10, Some(SurfaceOp::Append)),
        event(2, MeterEventKind::AssistantMessage { turn: 1, step: 1 }, 5, Some(SurfaceOp::Append)),
        event(3, MeterEventKind::StepEnd { turn: 1, step: 1 }, 0, None),
    ];
    for ev in &events {
        state = replay_step(&state, ev).expect("replays");
        assert_eq!(state.surface().iter().map(|n| n.tokens()).sum::<u64>(), state.surface_tokens());
    }
    assert_eq!(state.consumed_events(), 4);
    assert_eq!(state.surface_tokens(), 15);
    assert_eq!(state.step_start(), None);
    let replaced = replay_step(&state, &event(4, MeterEventKind::Other, 3, Some(SurfaceOp::Replace { start: 1, end: 2 })))
        .expect("replace");
    assert_eq!(replaced.surface().iter().map(|n| (n.seq(), n.tokens())).collect::<Vec<_>>(), vec![(4, 3)]);
    assert_eq!(replaced.surface_tokens(), 3);
    let measured = replaced.measure(None, false, None);
    assert_eq!(measured.surface_tokens(), 3);
    assert_eq!(measured.nodes().iter().map(|n| n.tokens()).sum::<u64>(), measured.surface_tokens());
    assert_eq!(measured.log_revision(), 5);
    assert_eq!(measured.total_tokens(), 3);
}

#[test]
fn replay_refuses_unpaired_steps_and_bad_surface_events() {
    let state = ReplayState::new();
    assert_eq!(
        replay_step(&state, &event(0, MeterEventKind::StepEnd { turn: 1, step: 1 }, 0, None)).unwrap_err(),
        MeterError::UnmatchedStepEnd { seq: 0 }
    );
    assert_eq!(
        replay_step(&state, &event(0, MeterEventKind::AssistantMessage { turn: 1, step: 1 }, 2, Some(SurfaceOp::Append)))
            .unwrap_err(),
        MeterError::UnmatchedAssistant { seq: 0 }
    );
    assert_eq!(
        replay_step(&state, &event(0, MeterEventKind::Other, 2, Some(SurfaceOp::Replace { start: 7, end: 7 }))).unwrap_err(),
        MeterError::InvalidReplace { seq: 0, start: 7, end: 7 }
    );
    let open = replay_step(&state, &event(0, MeterEventKind::StepStart { turn: 2, step: 3 }, 0, None)).unwrap();
    assert_eq!(open.step_start(), Some(StepStartState { turn: 2, step: 3, surface_tokens: 0 }));
    assert_eq!(
        replay_step(&open, &event(1, MeterEventKind::StepStart { turn: 2, step: 4 }, 0, None)).unwrap_err(),
        MeterError::StepStartBeforeEnd { seq: 1, turn: 2, step: 3 }
    );
    assert_eq!(
        replay_step(&open, &event(1, MeterEventKind::AssistantMessage { turn: 2, step: 3 }, 2, None)).unwrap_err(),
        MeterError::MissingSurfaceOp { seq: 1 }
    );
    assert_eq!(
        replay_step(&open, &event(1, MeterEventKind::Other, u64::MAX, Some(SurfaceOp::Append))).unwrap_err(),
        MeterError::TokensOutOfRange { seq: 1 }
    );
}

#[test]
fn replaying_a_log_folds_from_the_consumed_count_and_restarts_on_a_shorter_log() {
    let log = vec![
        Some(event(0, MeterEventKind::StepStart { turn: 1, step: 1 }, 0, None)),
        Some(event(1, MeterEventKind::Other, 10, Some(SurfaceOp::Append))),
        None,
        Some(event(3, MeterEventKind::AssistantMessage { turn: 1, step: 1 }, 5, Some(SurfaceOp::Append))),
        Some(event(4, MeterEventKind::StepEnd { turn: 1, step: 1 }, 0, None)),
    ];
    let mut state = ReplayState::new();
    assert_eq!(replay_to(&mut state, &log[..2]), Ok(()));
    assert_eq!(state.consumed_events(), 2);
    assert_eq!(state.surface_tokens(), 10);
    assert_eq!(replay_to(&mut state, &log), Ok(()));
    assert_eq!(state.consumed_events(), 5);
    assert_eq!(state.surface_tokens(), 15);
    assert_eq!(state.surface().iter().map(|n| n.tokens()).sum::<u64>(), state.surface_tokens());
    // A shorter log starts over.
    assert_eq!(replay_to(&mut state, &log[..2]), Ok(()));
    assert_eq!(state.consumed_events(), 2);
    assert_eq!(state.surface().iter().map(|n| (n.seq(), n.tokens())).collect::<Vec<_>>(), vec![(1, 10)]);
    // An unpaired step end stops the replay before it.
    let mut broken = log.clone();
    broken.push(Some(event(5, MeterEventKind::StepEnd { turn: 1, step: 1 }, 0, None)));
    let mut state = ReplayState::new();
    assert_eq!(replay_to(&mut state, &broken), Err(MeterError::UnmatchedStepEnd { seq: 5 }));
    assert_eq!(state.consumed_events(), 5);
}

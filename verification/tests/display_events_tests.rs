use codex_context::display_events::{
    display_formatted, display_shortened, display_text, json_values_text, mcp_result_text,
    project_event_msg, project_json, project_mcp, projectable_texts, CallToolResult, DisplayStep,
    DynamicToolCallOutputContentItem, EventMsg, TurnItem,
};
use codex_context::protocol::TruncationPolicy;
use serde_json::Value;

/// Keeps the ends of `text`, with a note in front.
fn formatted(text: &str, max: usize) -> String {
    format!("Total output lines: {}\n\n{}", text.lines().count(), shortened(text, max))
}

/// Keeps the ends of `text`.
fn shortened(text: &str, max: usize) -> String {
    if text.len() <= max {
        return text.to_string();
    }
    let half = max / 2;
    format!(
        "{}...{} bytes truncated...{}",
        &text[..half],
        text.len() - 2 * half,
        &text[text.len() - half..]
    )
}

fn displayed(policy: TruncationPolicy, text: &str) -> String {
    match display_text(policy, text) {
        DisplayStep::Done(text) => text,
        DisplayStep::Format => match display_formatted(policy, formatted(text, policy.byte_budget())) {
            DisplayStep::Done(text) => text,
            DisplayStep::Shorten { text, max_bytes } => {
                display_shortened(policy, shortened(&text, max_bytes))
            }
            DisplayStep::Format => panic!("the text is formatted already"),
        },
        DisplayStep::Shorten { .. } => panic!("the text is not formatted yet"),
    }
}

fn projected(policy: TruncationPolicy, event: EventMsg) -> EventMsg {
    let texts: Vec<String> = projectable_texts(&event)
        .iter()
        .map(|text| displayed(policy, text))
        .collect();
    project_event_msg(event, &texts)
}

#[test]
fn durable_event_projection_is_bounded_and_human_readable() {
    let policy = TruncationPolicy::Bytes(1_024);
    let output = format!(
        "readable head\n{}\nreadable tail",
        "middle output\n".repeat(2_000)
    );
    let event = EventMsg::ItemCompleted {
        item: TurnItem::DynamicToolCall {
            content_items: Some(vec![DynamicToolCallOutputContentItem::InputText {
                text: output,
            }]),
            error: None,
            details: "{}".to_string(),
        },
        details: "{}".to_string(),
    };
    let EventMsg::ItemCompleted {
        item: TurnItem::DynamicToolCall { content_items: Some(items), .. },
        ..
    } = projected(policy, event)
    else {
        panic!("expected durable dynamic tool completion");
    };
    let Some(DynamicToolCallOutputContentItem::InputText { text }) = items.first() else {
        panic!("expected projected display text");
    };
    assert!(text.len() <= 1_024);
    assert!(text.contains("readable head"));
    assert!(text.contains("readable tail"));
    assert!(!text.trim_start().starts_with('{'));
}

#[test]
fn texts_are_displayed_in_at_most_three_steps() {
    let policy = TruncationPolicy::Bytes(100);
    assert!(matches!(
        display_text(policy, &"x".repeat(100)),
        DisplayStep::Done(text) if text == "x".repeat(100)
    ));
    assert!(matches!(display_text(policy, &"x".repeat(101)), DisplayStep::Format));
    assert!(matches!(
        display_formatted(policy, "short".to_string()),
        DisplayStep::Done(text) if text == "short"
    ));
    assert!(matches!(
        display_formatted(policy, "y".repeat(101)),
        DisplayStep::Shorten { text, max_bytes: 36 } if text == "y".repeat(101)
    ));
    assert!(matches!(
        display_formatted(TruncationPolicy::Bytes(3), "y".repeat(101)),
        DisplayStep::Shorten { max_bytes: 0, .. }
    ));
    assert_eq!(display_shortened(policy, "z".repeat(100)), "z".repeat(100));
    assert_eq!(
        display_shortened(TruncationPolicy::Bytes(2), "h\u{e9}llo".to_string()),
        "h"
    );
}

#[test]
fn events_offer_their_texts_in_order() {
    let event = EventMsg::ExecCommandEnd {
        stdout: "out".to_string(),
        stderr: "err".to_string(),
        aggregated_output: "all".to_string(),
        formatted_output: "formatted".to_string(),
        details: "details".to_string(),
    };
    assert_eq!(projectable_texts(&event), ["out", "err", "all", "formatted"]);
    let texts: Vec<String> = (0..4).map(|index| format!("text-{index}")).collect();
    let EventMsg::ExecCommandEnd {
        stdout,
        stderr,
        aggregated_output,
        formatted_output,
        details,
    } = project_event_msg(event, &texts)
    else {
        panic!("expected the same event");
    };
    assert_eq!(
        [stdout, stderr, aggregated_output, formatted_output],
        ["text-0", "text-1", "text-2", "text-3"]
    );
    assert_eq!(details, "details");

    let command = EventMsg::ItemCompleted {
        item: TurnItem::CommandExecution {
            stdout: None,
            stderr: Some("err".to_string()),
            aggregated_output: None,
            formatted_output: Some("formatted".to_string()),
            details: "{}".to_string(),
        },
        details: "{}".to_string(),
    };
    assert_eq!(projectable_texts(&command), ["err", "formatted"]);
    let change = EventMsg::ItemCompleted {
        item: TurnItem::FileChange {
            stdout: Some("out".to_string()),
            stderr: None,
            details: "{}".to_string(),
        },
        details: "{}".to_string(),
    };
    assert_eq!(projectable_texts(&change), ["out"]);
    let patch = EventMsg::PatchApplyEnd {
        stdout: "out".to_string(),
        stderr: "err".to_string(),
        details: "{}".to_string(),
    };
    assert_eq!(projectable_texts(&patch), ["out", "err"]);
    let dynamic = EventMsg::ItemCompleted {
        item: TurnItem::DynamicToolCall {
            content_items: Some(vec![
                DynamicToolCallOutputContentItem::Media { json: "{}".to_string() },
                DynamicToolCallOutputContentItem::InputText { text: "text".to_string() },
            ]),
            error: Some("error".to_string()),
            details: "{}".to_string(),
        },
        details: "{}".to_string(),
    };
    assert_eq!(projectable_texts(&dynamic), ["text", "error"]);
    let failed = EventMsg::McpToolCallEnd {
        result: Err("failed".to_string()),
        details: "{}".to_string(),
    };
    assert!(projectable_texts(&failed).is_empty());
    let other = EventMsg::Other { details: "{}".to_string() };
    assert!(projectable_texts(&other).is_empty());
}

#[test]
fn mcp_texts_are_joined_and_replaced_as_one() {
    let result = || CallToolResult {
        content: vec![
            r#"{"type":"text","text":"one"}"#.to_string(),
            r#"{"type":"image","data":"AA=="}"#.to_string(),
            r#"{"type":"text","text":"two"}"#.to_string(),
        ],
        structured_content: Some(r#"{"rows":[1,2,3]}"#.to_string()),
    };
    assert_eq!(mcp_result_text(&result()).as_deref(), Some("one\ntwo"));
    let same = project_mcp(&result(), Some("one\ntwo"), Some(r#"{"rows":[1,2,3]}"#));
    assert_eq!(same.content, result().content);
    assert_eq!(same.structured_content, result().structured_content);
    let cut = project_mcp(&result(), Some("one"), Some("rows"));
    assert_eq!(cut.content.len(), 2);
    let part: Value = serde_json::from_str(&cut.content[0]).expect("valid JSON");
    assert_eq!(part["type"], "text");
    assert_eq!(part["text"], "one");
    assert_eq!(cut.content[1], result().content[1]);
    assert_eq!(cut.structured_content.as_deref(), Some(r#""rows""#));
    let empty = CallToolResult { content: Vec::new(), structured_content: None };
    assert_eq!(mcp_result_text(&empty), None);

    let event = EventMsg::McpToolCallEnd { result: Ok(result()), details: "{}".to_string() };
    assert_eq!(projectable_texts(&event), ["one\ntwo", r#"{"rows":[1,2,3]}"#]);
    let EventMsg::McpToolCallEnd { result: Ok(projected), .. } =
        projected(TruncationPolicy::Bytes(4), event)
    else {
        panic!("expected the same event");
    };
    assert_eq!(projected.content.len(), 2);
}

#[test]
fn search_results_are_replaced_by_one_text() {
    let values = vec!["1".to_string(), r#"{"a":2}"#.to_string()];
    assert_eq!(json_values_text(&values), r#"[1,{"a":2}]"#);
    assert_eq!(json_values_text(&Vec::new()), "[]");
    assert_eq!(project_json(&values, r#"[1,{"a":2}]"#), values);
    assert_eq!(project_json(&values, "[1"), vec![r#""[1""#.to_string()]);
    let event = EventMsg::WebSearchEnd {
        results: Some(values.clone()),
        details: "{}".to_string(),
    };
    assert_eq!(projectable_texts(&event), [r#"[1,{"a":2}]"#]);
    let EventMsg::WebSearchEnd { results, .. } = projected(TruncationPolicy::Bytes(100), event)
    else {
        panic!("expected the same event");
    };
    assert_eq!(results, Some(values));
}

use codex_context::history::{
    accept_rule_id, bounded_artifact_references, bounded_candidate_work, bounded_repair_bytes,
    bounded_repair_duration, is_stable_tool_argument_repair_rule, CodexHarnessMetadata,
    ResponseItemEnvelope, StoreBackedArtifactReference, ToolArgumentRepairOutcome,
    ToolArgumentRepairReceipt, ToolArgumentRepairToolFamily, MAX_STORE_BACKED_ARTIFACT_REFERENCES,
};
use codex_context::protocol::{ContentItem, ResponseItem};
use codex_context::rollout::{
    CompactedItem, InitialHistory, ResumedHistory, RolloutItem, RolloutLine, SessionMeta,
    SessionMetaLine, TurnContextItem,
};

fn receipt() -> ToolArgumentRepairReceipt {
    ToolArgumentRepairReceipt {
        tool_family: ToolArgumentRepairToolFamily::ReadFile,
        outcome: ToolArgumentRepairOutcome::Repaired,
        rules: vec!["unknown".to_string(); 3],
        input_bytes: 100_000,
        effective_bytes: 17,
        candidate_work: 5_000,
        repair_duration_micros: 60_000_001,
        reason: None,
    }
}

fn meta(id: &str) -> SessionMeta {
    SessionMeta {
        id: id.to_string(),
        forked_from_id: None,
        parent_thread_id: None,
        cwd: "/work".to_string(),
        originator: String::new(),
        source: "cli".to_string(),
        thread_source: None,
        base_instructions: None,
        dynamic_tools: None,
        selected_capability_roots: Vec::new(),
        multi_agent_version: None,
        history_mode: "full".to_string(),
    }
}

fn session(meta: SessionMeta) -> RolloutItem {
    RolloutItem::SessionMeta(SessionMetaLine { meta })
}

fn turn(version: Option<&str>) -> RolloutItem {
    RolloutItem::TurnContext(TurnContextItem {
        multi_agent_version: version.map(str::to_string),
        details: "{}".to_string(),
    })
}

fn resumed(history: Vec<RolloutItem>) -> InitialHistory {
    InitialHistory::Resumed(ResumedHistory {
        conversation_id: "thread".to_string(),
        history,
        rollout_path: None,
    })
}

#[test]
fn client_authored_metadata_is_not_store_backed() {
    let metadata = CodexHarnessMetadata::client_authored();
    assert!(metadata.client_authored);
    assert!(!metadata.is_store_backed_tool_output());
    let metadata = CodexHarnessMetadata::store_backed_tool_output();
    assert!(!metadata.client_authored);
    assert!(metadata.is_store_backed_tool_output());
    assert!(metadata.store_backed_artifact_references().is_empty());
    let metadata = CodexHarnessMetadata::default();
    assert!(!metadata.client_authored);
    assert!(!metadata.is_store_backed_tool_output());
    assert!(metadata.tool_argument_repair().is_none());
}

#[test]
fn receipts_are_bounded_where_they_are_attached() {
    let mut long = receipt();
    long.rules.extend(vec!["numeric_string_typed".to_string(); 12]);
    let metadata =
        CodexHarnessMetadata::store_backed_tool_output().with_tool_argument_repair(long);
    assert!(metadata.is_store_backed_tool_output());
    let kept = metadata.tool_argument_repair().expect("a receipt");
    assert_eq!(kept.rules, vec!["numeric_string_typed".to_string(); 8]);
    assert_eq!(kept.input_bytes, 65_536);
    assert_eq!(kept.effective_bytes, 17);
    assert_eq!(kept.candidate_work, 4_096);
    assert_eq!(kept.repair_duration_micros, 60_000_000);
    assert_eq!(kept.outcome, ToolArgumentRepairOutcome::Repaired);
}

#[test]
fn attaching_a_bounded_receipt_again_changes_nothing() {
    let mut metadata = CodexHarnessMetadata::default();
    metadata.set_tool_argument_repair(receipt());
    let once = metadata.tool_argument_repair().cloned().expect("a receipt");
    let again = metadata.with_tool_argument_repair(once.clone());
    assert_eq!(again.tool_argument_repair(), Some(&once));
}

#[test]
fn artifact_references_are_bounded() {
    let ids: Vec<String> = (0..300).map(|index| format!("out_{index}")).collect();
    let metadata =
        CodexHarnessMetadata::client_authored().with_store_backed_artifact_references(ids);
    let references = metadata.store_backed_artifact_references();
    assert_eq!(references.len(), MAX_STORE_BACKED_ARTIFACT_REFERENCES);
    assert_eq!(references[0].artifact_id, "out_0");
    assert_eq!(references[255].artifact_id, "out_255");
    assert!(metadata.client_authored);
    let many: Vec<StoreBackedArtifactReference> = (0..257)
        .map(|index| StoreBackedArtifactReference { artifact_id: format!("out_{index}") })
        .collect();
    assert_eq!(bounded_artifact_references(&many), many[..256].to_vec());
    let restored = CodexHarnessMetadata::restored(true, true, &many, None);
    assert_eq!(restored.store_backed_artifact_references().len(), 256);
    assert!(restored.is_store_backed_tool_output());
}

#[test]
fn persisted_rules_are_filtered_and_counted() {
    for rule in [
        "optional_null_removed",
        "stringified_array_decoded",
        "stringified_object_decoded",
        "scalar_wrapped_in_array",
        "numeric_string_typed",
        "boolean_string_typed",
        "known_field_alias",
        "markdown_path_unwrapped",
    ] {
        assert!(is_stable_tool_argument_repair_rule(rule));
    }
    assert!(!is_stable_tool_argument_repair_rule("secret_rule"));
    let mut rules = Vec::new();
    assert_eq!(accept_rule_id(&mut rules, "secret_rule".to_string()), Ok(()));
    assert!(rules.is_empty());
    for _ in 0..8 {
        assert_eq!(accept_rule_id(&mut rules, "known_field_alias".to_string()), Ok(()));
    }
    assert_eq!(rules.len(), 8);
    assert_eq!(accept_rule_id(&mut rules, "secret_rule".to_string()), Err(9));
    assert_eq!(rules.len(), 8);
    assert_eq!(bounded_repair_bytes(65_537), 65_536);
    assert_eq!(bounded_repair_bytes(7), 7);
    assert_eq!(bounded_candidate_work(4_097), 4_096);
    assert_eq!(bounded_repair_duration(u64::MAX), 60_000_000);
}

#[test]
fn histories_without_items_are_empty() {
    for history in [InitialHistory::New, InitialHistory::Cleared] {
        assert!(history.get_rollout_items().is_empty());
        assert!(!history.scan_rollout_items(|_| true));
        assert_eq!(history.forked_from_id(), None);
        assert_eq!(history.session_cwd(), None);
        assert_eq!(history.get_event_msgs(), None);
        assert_eq!(history.get_base_instructions(), None);
        assert_eq!(history.get_dynamic_tools(), None);
        assert!(history.get_selected_capability_roots().is_empty());
        assert_eq!(history.get_multi_agent_version(), None);
        assert_eq!(history.get_history_mode("default".to_string()), "default");
        assert_eq!(history.get_resumed_session_sources(), None);
        assert_eq!(history.get_resumed_thread_source(), None);
        assert_eq!(history.get_session_originator(), None);
        assert_eq!(history.get_resumed_parent_thread_id(), None);
    }
}

#[test]
fn resumed_histories_describe_their_session() {
    let mut first = meta("thread");
    first.forked_from_id = Some("parent".to_string());
    first.parent_thread_id = Some("outer".to_string());
    first.originator = "app".to_string();
    first.thread_source = Some("user".to_string());
    first.selected_capability_roots = vec!["root".to_string()];
    let mut second = meta("thread");
    second.base_instructions = Some("be brief".to_string());
    second.dynamic_tools = Some(vec!["tool".to_string()]);
    second.cwd = "/elsewhere".to_string();
    let history = resumed(vec![
        RolloutItem::EventMsg("started".to_string()),
        session(first),
        session(second),
        RolloutItem::EventMsg("completed".to_string()),
    ]);
    assert_eq!(history.forked_from_id().as_deref(), Some("parent"));
    assert_eq!(history.session_cwd().as_deref(), Some("/work"));
    assert_eq!(
        history.get_event_msgs(),
        Some(vec!["started".to_string(), "completed".to_string()])
    );
    assert_eq!(history.get_base_instructions().as_deref(), Some("be brief"));
    assert_eq!(history.get_dynamic_tools(), Some(vec!["tool".to_string()]));
    assert_eq!(history.get_selected_capability_roots(), vec!["root".to_string()]);
    assert_eq!(history.get_history_mode("default".to_string()), "full");
    assert_eq!(
        history.get_resumed_session_sources(),
        Some(("cli".to_string(), Some("user".to_string())))
    );
    assert_eq!(history.get_resumed_thread_source().as_deref(), Some("user"));
    assert_eq!(history.get_session_originator().as_deref(), Some("app"));
    assert_eq!(history.get_resumed_parent_thread_id().as_deref(), Some("outer"));
    assert_eq!(history.get_rollout_items().len(), 4);
    assert!(history.scan_rollout_items(|item| matches!(item, RolloutItem::EventMsg(_))));
    assert!(!history.scan_rollout_items(|item| matches!(item, RolloutItem::Compacted(_))));
}

#[test]
fn forked_histories_name_the_session_they_come_from() {
    let history = InitialHistory::Forked(vec![session(meta("source"))]);
    assert_eq!(history.forked_from_id().as_deref(), Some("source"));
    assert_eq!(history.session_cwd().as_deref(), Some("/work"));
    assert_eq!(history.get_session_originator(), None);
    assert_eq!(history.get_resumed_session_sources(), None);
    assert_eq!(history.get_resumed_parent_thread_id(), None);
    assert_eq!(
        InitialHistory::Forked(Vec::new()).get_history_mode("default".to_string()),
        "default"
    );
}

#[test]
fn the_last_session_version_wins_over_turns() {
    let versioned = |id: &str, version: &str| {
        let mut meta = meta(id);
        meta.multi_agent_version = Some(version.to_string());
        session(meta)
    };
    let history = resumed(vec![
        versioned("thread", "v1"),
        versioned("thread", "v2"),
        versioned("other", "v3"),
        turn(Some("v4")),
    ]);
    assert_eq!(history.get_multi_agent_version().as_deref(), Some("v2"));
    let forked = InitialHistory::Forked(vec![
        versioned("thread", "v1"),
        versioned("other", "v3"),
        turn(Some("v4")),
    ]);
    assert_eq!(forked.get_multi_agent_version().as_deref(), Some("v3"));
    let turns = resumed(vec![turn(Some("v4")), turn(Some("v5")), turn(None)]);
    assert_eq!(turns.get_multi_agent_version().as_deref(), Some("v5"));
}

#[test]
fn compacted_items_become_assistant_messages() {
    let line = RolloutLine {
        timestamp: "now".to_string(),
        ordinal: Some(3),
        item: RolloutItem::Compacted(CompactedItem {
            message: "summary".to_string(),
            replacement_history: Some(vec![ResponseItemEnvelope::new(ResponseItem::Other)]),
            mcp_resource_origins: None,
            window_number: Some(1),
            first_window_id: None,
            previous_window_id: None,
            window_id: None,
        }),
    };
    let RolloutItem::Compacted(compacted) = line.item else {
        panic!("expected a compacted item");
    };
    let ResponseItem::Message { role, content, .. } = compacted.into_response_item() else {
        panic!("expected a message");
    };
    assert_eq!(role, "assistant");
    assert!(matches!(
        content.as_slice(),
        [ContentItem::OutputText { text }] if text == "summary"
    ));
}

#[test]
fn authorship_is_read_and_set_alone() {
    let mut metadata = CodexHarnessMetadata::store_backed_tool_output();
    assert!(!metadata.is_client_authored());
    metadata.set_client_authored(true);
    assert!(metadata.is_client_authored() && metadata.client_authored);
    assert!(metadata.is_store_backed_tool_output());
    metadata.client_authored = false;
    assert!(!metadata.is_client_authored());
}

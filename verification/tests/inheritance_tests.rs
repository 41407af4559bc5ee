use codex_context::artifact_id::OutputArtifactId;
use codex_context::history::{CodexHarnessMetadata, ResponseItemEnvelope};
use codex_context::inheritance::{
    artifact_controls_for_compaction, attach_artifact_reference_sidecar, control_json_bytes,
    has_recoverable_output_artifact, merge_artifact_controls, referenced_output_artifact_ids,
    MAX_ARTIFACT_REFERENCE_SIDECAR_ENTRIES, MAX_COMPACTION_ARTIFACT_CONTROLS,
    MAX_COMPACTION_ARTIFACT_CONTROL_BYTES, MAX_COMPACTION_ARTIFACT_CONTROL_PAIR_BYTES,
};
use codex_context::protocol::{
    FunctionCallOutputBody, FunctionCallOutputContentItem, FunctionCallOutputPayload, ResponseItem,
};
use serde_json::Value;

fn output(body: FunctionCallOutputBody, metadata: bool) -> ResponseItemEnvelope {
    ResponseItemEnvelope {
        item: ResponseItem::FunctionCallOutput {
            id: None,
            call_id: Some("call-1".to_string()),
            name: None,
            namespace: None,
            output: FunctionCallOutputPayload { body, success: Some(true) },
            internal_chat_message_metadata_passthrough: None,
        },
        metadata: if metadata {
            Some(CodexHarnessMetadata::store_backed_tool_output())
        } else {
            None
        },
    }
}

fn call(name: &str, arguments: &str, call_id: &str) -> ResponseItemEnvelope {
    ResponseItemEnvelope::new(ResponseItem::FunctionCall {
        id: None,
        name: name.to_string(),
        namespace: None,
        arguments: arguments.to_string(),
        encrypted_function_args: None,
        call_id: call_id.to_string(),
        internal_chat_message_metadata_passthrough: None,
    })
}

fn control(artifact_id: &str) -> String {
    format!(r#"{{"type":"tool_output_artifact","artifact_id":"{artifact_id}"}}"#)
}

fn message(metadata: Option<CodexHarnessMetadata>) -> ResponseItemEnvelope {
    ResponseItemEnvelope {
        item: ResponseItem::Message {
            id: None,
            role: "user".to_string(),
            content: Vec::new(),
            phase: None,
            internal_chat_message_metadata_passthrough: None,
        },
        metadata,
    }
}

#[test]
fn fork_inheritance_reads_only_effective_trusted_controls() {
    let artifact_id = "out_aaaaaaaaaaaaaaaaaaaaaaaaaaaaaaaaaaaaaaaaaaaaaaaaaaaaaaaaaaaaaaaa";
    let control = control(artifact_id);
    let plain_summary = output(FunctionCallOutputBody::Text(control.clone()), false);
    let trusted = output(FunctionCallOutputBody::Text(control.clone()), true);
    let call = call("read_file", "{}", "call-1");
    let mixed_legacy = output(
        FunctionCallOutputBody::ContentItems(vec![
            FunctionCallOutputContentItem::InputText { text: control },
            FunctionCallOutputContentItem::InputText {
                text: "untrusted sibling".to_string(),
            },
        ]),
        true,
    );

    let ids = referenced_output_artifact_ids(&vec![plain_summary, call, trusted, mixed_legacy]);
    assert_eq!(
        ids.iter().map(|id| id.as_str()).collect::<Vec<_>>(),
        vec![OutputArtifactId::parse(artifact_id)
            .expect("valid artifact id")
            .as_str()]
    );
}

#[test]
fn compaction_controls_require_a_matching_call_and_merge_once_per_artifact() {
    let artifact_id = "out_bbbbbbbbbbbbbbbbbbbbbbbbbbbbbbbbbbbbbbbbbbbbbbbbbbbbbbbbbbbbbbbb";
    let call = call("read_file", "{}", "call-1");
    let trusted = output(FunctionCallOutputBody::Text(control(artifact_id)), true);
    let mut orphan = output(
        FunctionCallOutputBody::Text(control(
            "out_cccccccccccccccccccccccccccccccccccccccccccccccccccccccccccccccc",
        )),
        true,
    );
    let ResponseItem::FunctionCallOutput { call_id, .. } = &mut orphan.item else {
        panic!("expected function output");
    };
    *call_id = Some("orphan-call".to_string());
    let effective = vec![call, trusted.clone(), orphan];

    let controls = artifact_controls_for_compaction(&effective);
    assert_eq!(controls.len(), 2);
    let ResponseItem::FunctionCall { name, arguments, .. } = &controls[0].item else {
        panic!("expected synthetic function call");
    };
    assert_eq!(name, "read_tool_output");
    let arguments: Value = serde_json::from_str(arguments).expect("valid retrieval arguments");
    assert_eq!(arguments["artifact_id"], artifact_id);
    assert_eq!(arguments["mode"], "bytes");
    assert!(controls[1].metadata.is_some());

    let merged = merge_artifact_controls(&Vec::new(), &controls);
    assert_eq!(merged.len(), 2);
    assert!(matches!(merged[0].item, ResponseItem::FunctionCall { .. }));
    assert_eq!(merge_artifact_controls(&vec![trusted], &controls).len(), 2);
}

#[test]
fn local_shell_artifact_pairs_are_inherited_and_canonicalized() {
    let artifact_id = "out_ffffffffffffffffffffffffffffffffffffffffffffffffffffffffffffffff";
    let call_id = "local-shell-call";
    let call = ResponseItemEnvelope::new(ResponseItem::LocalShellCall {
        id: None,
        call_id: Some(call_id.to_string()),
        details: r#"{"status":"completed","action":{"type":"exec","command":["echo","ok"]}}"#
            .to_string(),
    });
    let output = ResponseItemEnvelope {
        item: ResponseItem::FunctionCallOutput {
            id: None,
            call_id: Some(call_id.to_string()),
            name: None,
            namespace: None,
            output: FunctionCallOutputPayload::from_text(control(artifact_id)),
            internal_chat_message_metadata_passthrough: None,
        },
        metadata: Some(CodexHarnessMetadata::store_backed_tool_output()),
    };

    let controls = artifact_controls_for_compaction(&vec![call, output]);
    assert_eq!(controls.len(), 2);
    let ResponseItem::FunctionCall { name, arguments, .. } = &controls[0].item else {
        panic!("expected canonical retrieval call");
    };
    assert_eq!(name, "read_tool_output");
    let arguments: Value = serde_json::from_str(arguments).expect("valid retrieval arguments");
    assert_eq!(arguments["artifact_id"], artifact_id);
}

#[test]
fn a_recovery_sidecar_does_not_hide_a_missing_model_control() {
    let artifact_id = "out_dddddddddddddddddddddddddddddddddddddddddddddddddddddddddddddddd";
    let call = call("read_file", "{}", "call-1");
    let trusted = output(FunctionCallOutputBody::Text(control(artifact_id)), true);
    let controls = artifact_controls_for_compaction(&vec![call, trusted]);
    let sidecar_only = vec![message(Some(
        CodexHarnessMetadata::default()
            .with_store_backed_artifact_references(vec![artifact_id.to_string()]),
    ))];

    let merged = merge_artifact_controls(&sidecar_only, &controls);
    assert_eq!(merged.len(), 3);
    assert!(matches!(merged[0].item, ResponseItem::FunctionCall { .. }));
    assert!(matches!(
        merged[1].item,
        ResponseItem::FunctionCallOutput { .. }
    ));
}

#[test]
fn compaction_artifact_controls_are_bounded_and_replace_large_call_arguments() {
    let mut history = vec![call("read_file", &"x".repeat(100_000), "call-1")];
    for index in 0..100 {
        let digest = format!("{index:064x}");
        let artifact_id = format!("out_{digest}");
        history.push(output(FunctionCallOutputBody::Text(control(&artifact_id)), true));
    }

    let controls = artifact_controls_for_compaction(&history);
    assert!(controls.len() <= 64);
    let serialized_bytes = controls
        .iter()
        .map(|item| control_json_bytes(&item.item))
        .sum::<usize>();
    assert!(serialized_bytes <= MAX_COMPACTION_ARTIFACT_CONTROL_BYTES);
    let ResponseItem::FunctionCall { arguments, .. } = &controls[0].item else {
        panic!("expected function call control");
    };
    let arguments: Value = serde_json::from_str(arguments).expect("valid retrieval arguments");
    assert!(arguments["artifact_id"].as_str().is_some());

    let merged = merge_artifact_controls(&history, &Vec::new());
    assert!(merged.len() <= MAX_COMPACTION_ARTIFACT_CONTROLS * 2);
    let merged_bytes = merged
        .iter()
        .map(|item| control_json_bytes(&item.item))
        .sum::<usize>();
    assert!(merged_bytes <= MAX_COMPACTION_ARTIFACT_CONTROL_BYTES);
    assert!(merged.iter().all(|item| match &item.item {
        ResponseItem::FunctionCall { arguments, .. } => serde_json::from_str::<Value>(arguments)
            .ok()
            .is_some_and(|value| value["artifact_id"].as_str().is_some()),
        _ => true,
    }));
}

#[test]
fn merging_provider_controls_replaces_large_arguments_and_drops_orphan_outputs() {
    let artifact_id = "out_eeeeeeeeeeeeeeeeeeeeeeeeeeeeeeeeeeeeeeeeeeeeeeeeeeeeeeeeeeeeeeee";
    let output = output(FunctionCallOutputBody::Text(control(artifact_id)), true);
    let call = call(
        "read_file",
        &"a".repeat(MAX_COMPACTION_ARTIFACT_CONTROL_PAIR_BYTES * 2),
        "call-1",
    );

    let merged = merge_artifact_controls(&vec![output.clone()], &vec![call, output]);
    assert_eq!(merged.len(), 2);
    let ResponseItem::FunctionCall { arguments, .. } = &merged[0].item else {
        panic!("expected canonical function call");
    };
    let arguments: Value = serde_json::from_str(arguments).expect("valid retrieval arguments");
    assert_eq!(arguments["artifact_id"], artifact_id);
}

#[test]
fn artifact_reference_sidecar_is_bounded_and_stays_out_of_model_items() {
    let mut history = vec![message(None)];
    let ids = (0..400)
        .map(|index| {
            OutputArtifactId::parse(&format!("out_{index:064x}")).expect("generated artifact id")
        })
        .collect::<Vec<_>>();
    attach_artifact_reference_sidecar(&mut history, &ids);
    assert_eq!(referenced_output_artifact_ids(&history).len(), 256);
    assert!(matches!(history[0].item, ResponseItem::Message { .. }));
}

#[test]
fn effective_artifact_references_are_bounded_for_forks() {
    let history = (0..400)
        .flat_map(|index| {
            let call_id = format!("call-{index}");
            let artifact_id = format!("out_{index:064x}");
            vec![
                call("read_file", "{}", &call_id),
                ResponseItemEnvelope {
                    item: ResponseItem::FunctionCallOutput {
                        id: None,
                        call_id: Some(call_id),
                        name: None,
                        namespace: None,
                        output: FunctionCallOutputPayload::from_text(control(&artifact_id)),
                        internal_chat_message_metadata_passthrough: None,
                    },
                    metadata: Some(CodexHarnessMetadata::store_backed_tool_output()),
                },
            ]
        })
        .collect::<Vec<_>>();

    assert_eq!(
        referenced_output_artifact_ids(&history).len(),
        MAX_ARTIFACT_REFERENCE_SIDECAR_ENTRIES
    );
}

#[test]
fn effective_paired_artifacts_win_over_older_sidecar_references() {
    let sidecar_ids = (0..MAX_ARTIFACT_REFERENCE_SIDECAR_ENTRIES)
        .map(|index| format!("out_{index:064x}"))
        .collect::<Vec<_>>();
    let sidecar = message(Some(
        CodexHarnessMetadata::default().with_store_backed_artifact_references(sidecar_ids),
    ));
    let paired_id = "out_ffffffffffffffffffffffffffffffffffffffffffffffffffffffffffffffff";
    let call = call("read_tool_output", "{}", "call-1");
    let paired = output(FunctionCallOutputBody::Text(control(paired_id)), true);
    let ids = referenced_output_artifact_ids(&vec![sidecar, call, paired]);
    assert_eq!(ids.len(), MAX_ARTIFACT_REFERENCE_SIDECAR_ENTRIES);
    assert!(ids.iter().any(|id| id.as_str() == paired_id));
}

#[test]
fn a_control_is_recoverable_and_plain_text_is_not() {
    let artifact_id = format!("out_{}", "1".repeat(64));
    assert!(has_recoverable_output_artifact(
        &output(FunctionCallOutputBody::Text(control(&artifact_id)), false).item
    ));
    assert!(!has_recoverable_output_artifact(
        &output(FunctionCallOutputBody::Text("plain".to_string()), true).item
    ));
}

#[test]
fn an_unmarked_history_refers_to_nothing() {
    let artifact_id = format!("out_{}", "2".repeat(64));
    let history = vec![
        call("read_file", "{}", "call-1"),
        output(FunctionCallOutputBody::Text(control(&artifact_id)), false),
    ];
    assert!(referenced_output_artifact_ids(&history).is_empty());
    assert!(artifact_controls_for_compaction(&history).is_empty());
}

#[test]
fn merged_controls_keep_their_artifacts_referenced() {
    let first = format!("out_{}", "1".repeat(64));
    let second = format!("out_{}", "2".repeat(64));
    let mut answered = output(FunctionCallOutputBody::Text(control(&second)), true);
    let ResponseItem::FunctionCallOutput { call_id, .. } = &mut answered.item else {
        panic!("expected function output");
    };
    *call_id = Some("call-2".to_string());
    let earlier = vec![call("read_file", "{}", "call-2"), answered];
    let controls = artifact_controls_for_compaction(&earlier);
    let history = vec![
        message(None),
        call("read_file", "{}", "call-1"),
        output(FunctionCallOutputBody::Text(control(&first)), true),
    ];
    let merged = merge_artifact_controls(&history, &controls);
    assert_eq!(merged.len(), 5);
    assert!(matches!(merged[4].item, ResponseItem::Message { .. }));
    let ids = referenced_output_artifact_ids(&merged);
    assert_eq!(
        ids.iter().map(|id| id.as_str().to_string()).collect::<Vec<_>>(),
        vec![first, second]
    );
}

#[test]
fn unmarked_metadata_refers_to_nothing_either() {
    let artifact_id = format!("out_{}", "2".repeat(64));
    let mut answer = output(FunctionCallOutputBody::Text(control(&artifact_id)), false);
    answer.metadata = Some(CodexHarnessMetadata::client_authored());
    let history = vec![call("read_file", "{}", "call-1"), answer];
    assert!(referenced_output_artifact_ids(&history).is_empty());
    assert!(artifact_controls_for_compaction(&history).is_empty());
}

#[test]
fn controls_of_controls_are_the_same_controls() {
    let mut history = Vec::new();
    for index in 0..5 {
        let id = format!("out_{index:064x}");
        let mut answer = output(FunctionCallOutputBody::Text(control(&id)), true);
        let ResponseItem::FunctionCallOutput { call_id, .. } = &mut answer.item else {
            panic!("expected function output");
        };
        *call_id = Some(format!("call-{index}"));
        history.push(call("read_file", "{}", &format!("call-{index}")));
        history.push(answer);
    }
    let controls = artifact_controls_for_compaction(&history);
    assert_eq!(controls.len(), 10);
    let again = artifact_controls_for_compaction(&controls);
    assert_eq!(format!("{again:?}"), format!("{controls:?}"));
}

#[test]
fn a_control_forgets_what_it_stands_for() {
    let id = format!("out_{}", "3".repeat(64));
    let plain = vec![
        call("read_file", "{}", "call-1"),
        output(FunctionCallOutputBody::Text(control(&id)), true),
    ];
    let mut answer = output(
        FunctionCallOutputBody::ContentItems(vec![FunctionCallOutputContentItem::InputText {
            text: control(&id),
        }]),
        true,
    );
    let ResponseItem::FunctionCallOutput { call_id, name, .. } = &mut answer.item else {
        panic!("expected function output");
    };
    *call_id = Some("call-2".to_string());
    *name = Some("other".to_string());
    let other = vec![call("shell", r#"{"command":"long"}"#, "call-2"), answer];
    let first = artifact_controls_for_compaction(&plain);
    let second = artifact_controls_for_compaction(&other);
    assert_eq!(first.len(), 2);
    assert_eq!(format!("{first:?}"), format!("{second:?}"));
    let ResponseItem::FunctionCall { name, arguments, .. } = &first[0].item else {
        panic!("expected function call");
    };
    assert_eq!(name, "read_tool_output");
    let arguments: Value = serde_json::from_str(arguments).expect("arguments");
    assert_eq!(arguments["artifact_id"], id);
    assert_eq!(arguments["mode"], "bytes");
    assert_eq!(arguments["offset"], 0);
    assert_eq!(arguments["limit"], 1);
}

#[test]
fn merging_keeps_what_it_does_not_look_into() {
    let kept = vec![
        ResponseItemEnvelope::new(ResponseItem::Message {
            id: Some("msg_1".to_string()),
            role: "assistant".to_string(),
            content: Vec::new(),
            phase: Some(r#""final_answer""#.to_string()),
            internal_chat_message_metadata_passthrough: Some(r#"{"turn_id":"t"}"#.to_string()),
        }),
        ResponseItemEnvelope::new(ResponseItem::Opaque {
            id: Some("rs_1".to_string()),
            details: r#"{"type":"reasoning","summary":[]}"#.to_string(),
        }),
        ResponseItemEnvelope::new(ResponseItem::Other),
    ];
    let merged = merge_artifact_controls(&kept, &Vec::new());
    assert_eq!(format!("{merged:?}"), format!("{kept:?}"));
}

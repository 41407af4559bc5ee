use codex_context::artifact_control_ids::{
    canonicalize_legacy_artifact_controls, provider_call_ids_within_limit, response_call_id,
    response_output_call_id, synthetic_artifact_control_body, synthetic_candidate,
    synthetic_retrieval_arguments, SyntheticArtifactCallIdAllocator, MAX_PROVIDER_IDENTIFIER_BYTES,
};
use codex_context::artifact_id::OutputArtifactId;
use codex_context::history::{CodexHarnessMetadata, ResponseItemEnvelope};
use codex_context::protocol::{FunctionCallOutputPayload, ResponseItem};

const LEGACY_SYNTHETIC_CALL_ID_PREFIX: &str = "artifact_ref_";

fn artifact_id(fill: char) -> OutputArtifactId {
    OutputArtifactId::parse(&format!("out_{}", fill.to_string().repeat(64)))
        .expect("synthetic artifact ID")
}

fn legacy_pair(artifact_id: &OutputArtifactId, metadata: bool) -> Vec<ResponseItemEnvelope> {
    let call_id = format!("{LEGACY_SYNTHETIC_CALL_ID_PREFIX}{}", artifact_id.digest());
    vec![
        ResponseItemEnvelope::new(ResponseItem::FunctionCall {
            id: None,
            name: "read_tool_output".to_string(),
            namespace: None,
            arguments: synthetic_retrieval_arguments(artifact_id),
            encrypted_function_args: None,
            call_id: call_id.clone(),
            internal_chat_message_metadata_passthrough: None,
        }),
        ResponseItemEnvelope {
            item: ResponseItem::FunctionCallOutput {
                id: None,
                call_id: Some(call_id),
                name: Some("read_tool_output".to_string()),
                namespace: None,
                output: FunctionCallOutputPayload::from_text(synthetic_artifact_control_body(
                    artifact_id,
                )),
                internal_chat_message_metadata_passthrough: None,
            },
            metadata: if metadata {
                Some(CodexHarnessMetadata::store_backed_tool_output())
            } else {
                None
            },
        },
    ]
}

#[test]
fn synthetic_ids_are_stable_distinct_and_provider_safe() {
    let first = artifact_id('a');
    let second = artifact_id('b');
    let mut allocator = SyntheticArtifactCallIdAllocator::for_history(&Vec::new());

    let first_id = allocator.next(&first).expect("first synthetic ID");
    let first_again = allocator.next(&first).expect("stable synthetic ID");
    let second_id = allocator.next(&second).expect("second synthetic ID");

    assert_eq!(first_id, first_again);
    assert_ne!(first_id, second_id);
    assert!(first_id.len() <= MAX_PROVIDER_IDENTIFIER_BYTES);
    assert!(second_id.len() <= MAX_PROVIDER_IDENTIFIER_BYTES);
    assert!(first_id.starts_with(LEGACY_SYNTHETIC_CALL_ID_PREFIX));
}

#[test]
fn synthetic_id_collision_resolution_is_deterministic_and_bounded() {
    let artifact = artifact_id('c');
    let first_candidate = synthetic_candidate(&artifact, 0);
    let mut allocator = SyntheticArtifactCallIdAllocator::with_used_ids(vec![first_candidate]);

    let resolved = allocator.next(&artifact).expect("collision fallback ID");
    assert_ne!(resolved, synthetic_candidate(&artifact, 0));
    assert_eq!(resolved, synthetic_candidate(&artifact, 1));
    assert!(resolved.len() <= MAX_PROVIDER_IDENTIFIER_BYTES);
    assert_eq!(allocator.next(&artifact), Some(resolved));
}

#[test]
fn trusted_legacy_pairs_are_repaired_but_untrusted_pairs_are_not() {
    let trusted_artifact = artifact_id('d');
    let untrusted_artifact = artifact_id('e');
    let mut trusted = legacy_pair(&trusted_artifact, true);
    let mut untrusted = legacy_pair(&untrusted_artifact, false);
    let legacy_trusted_id = response_call_id(&trusted[0].item)
        .expect("legacy call ID")
        .to_string();
    let legacy_untrusted_id = response_call_id(&untrusted[0].item)
        .expect("legacy call ID")
        .to_string();

    canonicalize_legacy_artifact_controls(&mut trusted);
    canonicalize_legacy_artifact_controls(&mut untrusted);

    let repaired_id = response_call_id(&trusted[0].item).expect("repaired call ID");
    assert_ne!(*repaired_id, legacy_trusted_id);
    assert!(repaired_id.len() <= MAX_PROVIDER_IDENTIFIER_BYTES);
    assert_eq!(response_output_call_id(&trusted[1].item), Some(repaired_id));
    assert_eq!(response_call_id(&untrusted[0].item), Some(&legacy_untrusted_id));
    assert_eq!(
        response_output_call_id(&untrusted[1].item),
        Some(&legacy_untrusted_id)
    );
}

#[test]
fn provider_call_id_validation_preserves_permissive_item_ids() {
    let oversized = "x".repeat(MAX_PROVIDER_IDENTIFIER_BYTES + 1);
    let mut items = vec![ResponseItem::FunctionCall {
        id: Some(format!("fc_{oversized}")),
        name: "read_tool_output".to_string(),
        namespace: None,
        arguments: "{}".to_string(),
        encrypted_function_args: None,
        call_id: "provider-safe-call-id".to_string(),
        internal_chat_message_metadata_passthrough: None,
    }];
    assert!(provider_call_ids_within_limit(&items));

    let ResponseItem::FunctionCall { call_id, .. } = &mut items[0] else {
        panic!("expected function call");
    };
    *call_id = oversized;
    assert!(!provider_call_ids_within_limit(&items));
}

#[test]
fn a_candidate_is_the_prefix_the_digest_and_the_ordinal() {
    let artifact = artifact_id('a');
    let first = synthetic_candidate(&artifact, 0);
    let later = synthetic_candidate(&artifact, 3);
    assert!(first.starts_with("artifact_ref_"));
    assert!(first.contains(&"a".repeat(46)));
    assert_ne!(first, later);
    assert!(later.len() <= 64);
}

#[test]
fn controls_name_their_artifact() {
    let artifact = artifact_id('a');
    let arguments: serde_json::Value =
        serde_json::from_str(&synthetic_retrieval_arguments(&artifact)).expect("valid JSON");
    assert_eq!(arguments["artifact_id"], artifact.as_str());
    assert_eq!(arguments["mode"], "bytes");
    let body: serde_json::Value =
        serde_json::from_str(&synthetic_artifact_control_body(&artifact)).expect("valid JSON");
    assert_eq!(body["type"], "tool_output_artifact");
    assert_eq!(body["artifact_id"], artifact.as_str());
}

#[test]
fn artifact_ids_are_digests_of_the_stored_text() {
    let id = OutputArtifactId::for_text("abc");
    assert_eq!(
        id.as_str(),
        "out_ba7816bf8f01cfea414140de5dae2223b00361a396177a9cb410ff61f20015ad"
    );
    assert!(OutputArtifactId::parse(id.as_str()).is_some());
    assert!(OutputArtifactId::parse("out_ABC").is_none());
    assert!(OutputArtifactId::parse(&format!("out_{}", "A".repeat(64))).is_none());
    assert!(!id.same(&OutputArtifactId::for_text("abd")));
}

#[test]
fn repairing_twice_changes_nothing_more() {
    let mut history = legacy_pair(&artifact_id('d'), true);
    history.extend(legacy_pair(&artifact_id('e'), true));
    history.extend(legacy_pair(&artifact_id('f'), false));
    history.extend(legacy_pair(&artifact_id('d'), true));
    let original = format!("{history:?}");
    canonicalize_legacy_artifact_controls(&mut history);
    let once = format!("{history:?}");
    assert_ne!(once, original);
    assert_eq!(response_call_id(&history[2].item), response_output_call_id(&history[3].item));
    canonicalize_legacy_artifact_controls(&mut history);
    assert_eq!(format!("{history:?}"), once);
}

#[test]
fn identifiers_of_items_of_any_kind_are_in_use() {
    let artifact = artifact_id('a');
    let history = vec![ResponseItemEnvelope::new(ResponseItem::Opaque {
        id: Some(synthetic_candidate(&artifact, 0)),
        details: r#"{"type":"reasoning","summary":[]}"#.to_string(),
    })];
    let mut allocator = SyntheticArtifactCallIdAllocator::for_history(&history);
    assert_eq!(allocator.next(&artifact), Some(synthetic_candidate(&artifact, 1)));
}

use codex_context::argument_repair::{
    arguments_bytes, family_label, outcome_label, plan_repair, reason_label, saturating_i64,
    settle_repair, telemetry_of, tool_family, ArgumentRepairDisclosureAccumulator,
    ArgumentRepairOutcome, RepairCandidate, RepairPlan, ToolCallSource, ToolPayload,
};
use codex_context::history::{
    ToolArgumentRepairOutcome, ToolArgumentRepairReason, ToolArgumentRepairReceipt,
    ToolArgumentRepairToolFamily,
};

fn receipt(rules: Vec<String>) -> ToolArgumentRepairReceipt {
    ToolArgumentRepairReceipt {
        tool_family: ToolArgumentRepairToolFamily::ReadFile,
        outcome: ToolArgumentRepairOutcome::Repaired,
        rules,
        input_bytes: 19,
        effective_bytes: 17,
        candidate_work: 1,
        repair_duration_micros: 1,
        reason: None,
    }
}

fn candidate(tool_name: &str) -> RepairCandidate {
    RepairCandidate {
        feature_enabled: true,
        default_namespace: true,
        tool_name: tool_name.to_string(),
        is_function_tool: true,
        has_policy: true,
    }
}

fn function(arguments: &str) -> ToolPayload {
    ToolPayload::Function { arguments: arguments.to_string() }
}

#[test]
fn model_disclosure_is_bounded_and_content_free() {
    let receipt = receipt(vec![
        "numeric_string_typed".to_string(),
        "secret_rule".to_string(),
    ]);
    let mut disclosure = ArgumentRepairDisclosureAccumulator::default();
    for index in 0..40 {
        disclosure.record(
            Some(&receipt),
            &ToolCallSource::CodeMode {
                cell_id: format!("cell-{index}"),
                runtime_tool_call_id: format!("nested-{index}"),
            },
        );
    }
    let disclosure = disclosure
        .take_disclosure()
        .expect("repaired calls disclose a bounded aggregate");
    assert_eq!(disclosure.source, "tool_argument_repair");
    let text = disclosure.body;
    assert!(text.contains("tool_argument_repair"));
    assert!(text.contains("numeric_string_typed"));
    assert!(text.contains("repaired_call_count=\"32\""));
    assert!(text.contains("dropped_call_count=\"8\""));
    assert!(!text.contains("secret_rule"));
    assert!(!text.contains("/Users/secret"));
    assert!(text.len() < 1_024);
    assert!(disclosure.nested_receipt.is_some());
}

#[test]
fn disclosures_sort_families_and_rules_and_start_over() {
    let mut disclosure = ArgumentRepairDisclosureAccumulator::default();
    assert!(disclosure.take_disclosure().is_none());
    disclosure.record(
        Some(&receipt(vec![
            "numeric_string_typed".to_string(),
            "boolean_string_typed".to_string(),
        ])),
        &ToolCallSource::Direct,
    );
    let mut unlisted = receipt(vec!["numeric_string_typed".to_string()]);
    unlisted.tool_family = ToolArgumentRepairToolFamily::Unlisted;
    disclosure.record(Some(&unlisted), &ToolCallSource::Direct);
    let mut unchanged = receipt(Vec::new());
    unchanged.outcome = ToolArgumentRepairOutcome::ValidUnchanged;
    disclosure.record(Some(&unchanged), &ToolCallSource::Direct);
    disclosure.record(None, &ToolCallSource::Direct);
    let taken = disclosure.take_disclosure().expect("two repairs");
    assert_eq!(
        taken.body,
        "tool_argument_repair outcome=\"repaired\" repaired_call_count=\"2\" dropped_call_count=\"0\" families=\"read_file:1,unlisted:1\" rules=\"boolean_string_typed:1,numeric_string_typed:2\""
    );
    assert!(taken.nested_receipt.is_none());
    assert!(disclosure.take_disclosure().is_none());
}

#[test]
fn feature_off_preserves_raw_handler_arguments_and_receipt_absence() {
    let mut off = candidate("read_file");
    off.feature_enabled = false;
    assert!(matches!(
        plan_repair(&off, &function(r#"{"max_bytes":"4096"}"#)),
        RepairPlan::Ignore
    ));
}

#[test]
fn enabled_repair_reaches_handler_once_with_effective_arguments() {
    let raw = r#"{"max_bytes":"4096"}"#;
    let repaired = r#"{"max_bytes":4096}"#;
    let mut payload = function(raw);
    let RepairPlan::Validate(family) = plan_repair(&candidate("read_file"), &payload) else {
        panic!("an enabled first-party policy should be validated");
    };
    assert_eq!(family, ToolArgumentRepairToolFamily::ReadFile);
    let receipt = settle_repair(
        &mut payload,
        family,
        ArgumentRepairOutcome::Repaired {
            arguments: repaired.to_string(),
            rules: vec!["numeric_string_typed".to_string()],
        },
        3,
        7,
    );
    let ToolPayload::Function { arguments } = &payload else {
        panic!("repair must retain a function payload");
    };
    assert_eq!(arguments, repaired);
    assert_eq!(receipt.outcome, ToolArgumentRepairOutcome::Repaired);
    assert_eq!(receipt.rules, ["numeric_string_typed"]);
    assert_eq!(receipt.input_bytes, raw.len());
    assert_eq!(receipt.effective_bytes, repaired.len());
    assert_eq!(receipt.candidate_work, 3);
    assert_eq!(receipt.repair_duration_micros, 7);
    assert_eq!(receipt.reason, None);
    let tags = telemetry_of(&receipt).tags();
    assert_eq!(
        tags,
        vec![
            ("feature_cohort", "tool_argument_repair_v1".to_string()),
            ("tool_family", "read_file".to_string()),
            ("outcome", "repaired".to_string()),
            ("reason", "none".to_string()),
            ("rule_count", "1".to_string()),
            ("rule_ids", "numeric_string_typed".to_string()),
        ]
    );
}

#[test]
fn outcomes_without_a_repair_leave_the_arguments_alone() {
    for (outcome, expected, reason, label) in [
        (
            ArgumentRepairOutcome::ValidUnchanged,
            ToolArgumentRepairOutcome::ValidUnchanged,
            None,
            "none",
        ),
        (
            ArgumentRepairOutcome::NotRepairable,
            ToolArgumentRepairOutcome::NotRepairable,
            Some(ToolArgumentRepairReason::ValidationFailure),
            "validation_failure",
        ),
        (
            ArgumentRepairOutcome::LimitExceeded,
            ToolArgumentRepairOutcome::LimitExceeded,
            Some(ToolArgumentRepairReason::LimitExceeded),
            "limit_exceeded",
        ),
        (
            ArgumentRepairOutcome::UnsupportedSchema,
            ToolArgumentRepairOutcome::UnsupportedSchema,
            Some(ToolArgumentRepairReason::UnsupportedSchema),
            "unsupported_schema",
        ),
    ] {
        let mut payload = function("{}");
        let receipt = settle_repair(
            &mut payload,
            ToolArgumentRepairToolFamily::ReadFile,
            outcome,
            0,
            u128::MAX,
        );
        assert!(matches!(&payload, ToolPayload::Function { arguments } if arguments == "{}"));
        assert_eq!(receipt.outcome, expected);
        assert_eq!(receipt.reason, reason);
        assert!(receipt.rules.is_empty());
        assert_eq!(receipt.input_bytes, 2);
        assert_eq!(receipt.effective_bytes, 2);
        assert_eq!(receipt.repair_duration_micros, u64::MAX);
        let tags = telemetry_of(&receipt).tags();
        assert_eq!(tags[3], ("reason", label.to_string()));
        assert_eq!(tags[4], ("rule_count", "0".to_string()));
        assert_eq!(tags[5], ("rule_ids", "none".to_string()));
    }
}

#[test]
fn policy_miss_keeps_namespaced_and_unlisted_tools_unmodified() {
    let raw = r#"{"max_bytes":"4096"}"#;
    let mut namespaced = candidate("read_file");
    namespaced.default_namespace = false;
    let mut unlisted = candidate("dynamic_tool");
    unlisted.has_policy = false;
    let mut freeform = candidate("read_file");
    freeform.is_function_tool = false;
    for (candidate, family) in [
        (namespaced, ToolArgumentRepairToolFamily::Unlisted),
        (unlisted, ToolArgumentRepairToolFamily::Unlisted),
        (freeform, ToolArgumentRepairToolFamily::ReadFile),
    ] {
        let RepairPlan::PolicyMiss(telemetry) = plan_repair(&candidate, &function(raw)) else {
            panic!("the policy should miss");
        };
        assert_eq!(telemetry.family, family);
        assert_eq!(tool_family(&candidate), family);
        assert_eq!(telemetry.outcome, ToolArgumentRepairOutcome::PolicyMiss);
        assert_eq!(telemetry.reason, Some("not_allowlisted"));
        assert_eq!(telemetry.input_bytes, raw.len());
        assert_eq!(telemetry.effective_bytes, raw.len());
        assert_eq!(telemetry.candidate_work, 0);
        assert!(telemetry.rules.is_empty());
    }
    let RepairPlan::PolicyMiss(telemetry) = plan_repair(
        &candidate("read_file"),
        &ToolPayload::Custom { input: "input".to_string() },
    ) else {
        panic!("only functions are repaired");
    };
    assert_eq!(telemetry.family, ToolArgumentRepairToolFamily::Unlisted);
    assert_eq!(telemetry.input_bytes, 5);
}

#[test]
fn sizes_and_labels() {
    assert_eq!(arguments_bytes(&function("abc")), 3);
    assert_eq!(arguments_bytes(&ToolPayload::ToolSearch { arguments_bytes: 9 }), 9);
    assert_eq!(saturating_i64(5), 5);
    assert_eq!(saturating_i64(usize::MAX), i64::MAX);
    assert_eq!(family_label(ToolArgumentRepairToolFamily::Unlisted), "unlisted");
    assert_eq!(outcome_label(ToolArgumentRepairOutcome::PolicyMiss), "policy_miss");
    assert_eq!(
        outcome_label(ToolArgumentRepairOutcome::UnsupportedSchema),
        "unsupported_schema"
    );
    assert_eq!(
        reason_label(ToolArgumentRepairReason::NotAllowlisted),
        "not_allowlisted"
    );
}

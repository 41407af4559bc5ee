use std::collections::HashSet;

use codex_context::authority_coverage::{
    authority_coverage, authority_index, authority_tag, AuthorityCoverage,
};
use codex_context::skill_lines::{
    add_omission_marker, allocate_skill_lines, locator_of, omission_marker,
    render_allocated_skill_lines, rendered_lines_cost, reserve_non_host_omission_marker,
    truncate_catalog_skill_description, truncate_main_prompt_contents, truncate_utf8_to_bytes,
    SkillLine, SkillLineAllocation,
};
use codex_context::skill_policy::{
    catalog_render_policy, metadata_line_cost, skill_metadata_budget, SkillCatalogEntry,
    SkillCatalogRenderOutcome, SkillCatalogRenderPolicy, SkillMetadataBudget, SkillRenderReport,
    SkillRenderSize, SkillScope, SkillSourceKind,
};
use codex_context::skill_render::{
    aliased_metadata_overhead_cost, build_alias_plan, combined_catalog_fully_rendered,
    combined_render_is_better, render_available_skills, render_combined_available_skills,
    render_combined_lines, AliasPlan, CatalogLines, SkillCatalog, SkillPrompt, SkillPromptKind,
};

fn entry(kind: SkillSourceKind, name: &str, description: &str) -> SkillCatalogEntry {
    SkillCatalogEntry {
        kind,
        id: format!("pkg/{name}"),
        name: name.to_string(),
        description: description.to_string(),
        short_description: None,
        main_prompt: format!("{name}/SKILL.md"),
        rendered_path: format!("/root/{name}/SKILL.md"),
        prompt_scope: None,
        alias_root: None,
        alias_root_order: None,
        model_visible: true,
    }
}

fn host(name: &str, description: &str) -> SkillCatalogEntry {
    entry(SkillSourceKind::Host, name, description)
}

fn catalog(entries: Vec<SkillCatalogEntry>) -> SkillCatalog {
    SkillCatalog { entries, listed_plan: None, sorted_plan: None }
}

fn prompt() -> SkillPrompt {
    SkillPrompt {
        unaliased_body: "## Skills\n".to_string(),
        include_skills_usage_instructions: false,
    }
}

fn lines(entries: &[SkillCatalogEntry]) -> Vec<SkillLine> {
    entries
        .iter()
        .map(|entry| SkillLine::new(entry, SkillCatalogRenderPolicy::ExtensionCompatible))
        .collect()
}

#[test]
fn authority_coverage_reports_visible_and_eligible_entries_by_broad_authority() {
    let mut disabled = host("disabled", "description");
    disabled.model_visible = false;
    let catalog = catalog(vec![
        host("host", "description"),
        entry(SkillSourceKind::Executor, "executor", "description"),
        entry(SkillSourceKind::Orchestrator, "orchestrator", "description"),
        entry(
            SkillSourceKind::Custom("provider-secret".to_string()),
            "custom",
            "description",
        ),
        disabled,
    ]);
    let eligible_ids = HashSet::from([0, 2]);

    assert_eq!(
        authority_coverage(&catalog, &eligible_ids),
        [
            AuthorityCoverage {
                catalog_entries: 1,
                eligible_entries: 1,
            },
            AuthorityCoverage {
                catalog_entries: 1,
                eligible_entries: 0,
            },
            AuthorityCoverage {
                catalog_entries: 1,
                eligible_entries: 1,
            },
            AuthorityCoverage {
                catalog_entries: 1,
                eligible_entries: 0,
            },
        ]
    );
    assert_eq!(
        [
            authority_index(&SkillSourceKind::Host),
            authority_index(&SkillSourceKind::Executor),
            authority_index(&SkillSourceKind::Orchestrator),
            authority_index(&SkillSourceKind::Custom("another-provider".to_string())),
        ],
        [0, 1, 2, 3]
    );
}

#[test]
fn authority_tags_are_broad() {
    assert_eq!(authority_tag(0), Some("host"));
    assert_eq!(authority_tag(1), Some("executor"));
    assert_eq!(authority_tag(2), Some("orchestrator"));
    assert_eq!(authority_tag(3), Some("custom"));
    assert_eq!(authority_tag(4), None);
}

#[test]
fn budgets_come_from_the_configuration_the_window_or_the_default() {
    assert_eq!(skill_metadata_budget(Some(200_000), Some(7)), SkillMetadataBudget::Tokens(7));
    assert_eq!(
        skill_metadata_budget(None, Some(20_000)),
        SkillMetadataBudget::Tokens(10_000)
    );
    assert_eq!(
        skill_metadata_budget(Some(200_000), None),
        SkillMetadataBudget::Tokens(4_000)
    );
    assert_eq!(skill_metadata_budget(Some(10), None), SkillMetadataBudget::Tokens(1));
    for window in [None, Some(0), Some(-1)] {
        assert_eq!(
            skill_metadata_budget(window, None),
            SkillMetadataBudget::Characters(8_000)
        );
    }
}

#[test]
fn costs_are_counted_in_the_budgets_unit() {
    let tokens = SkillMetadataBudget::Tokens(10);
    let characters = SkillMetadataBudget::Characters(10);
    assert_eq!(tokens.cost("abcde"), 2);
    assert_eq!(characters.cost("abcde"), 5);
    assert_eq!(characters.cost("h\u{e9}"), 2);
    assert_eq!(tokens.cost_from_counts(100, 9), 3);
    assert_eq!(characters.cost_from_counts(100, 9), 100);
    assert_eq!(metadata_line_cost(tokens, "abcd"), 2);
    assert_eq!(metadata_line_cost(characters, "abcd"), 5);
    assert_eq!(tokens.limit(), 10);
    assert_eq!(tokens.with_limit(3), SkillMetadataBudget::Tokens(3));
    assert_eq!(characters.with_limit(3), SkillMetadataBudget::Characters(3));
}

#[test]
fn policies_pick_descriptions_notices_and_outcomes() {
    let mut short = host("a", "long description");
    short.short_description = Some("short".to_string());
    let plain = host("b", "long description");
    for policy in [
        SkillCatalogRenderPolicy::ExtensionCompatible,
        SkillCatalogRenderPolicy::StableCompact,
    ] {
        assert_eq!(policy.description(&short), "short");
        assert_eq!(policy.description(&plain), "long description");
        assert!(policy.includes_omission_notice());
    }
    let core = SkillCatalogRenderPolicy::CoreCompatible;
    assert_eq!(core.description(&short), "long description");
    assert!(!core.includes_omission_notice());
    assert_eq!(core.outcome().as_str(), "legacy");
    assert_eq!(
        SkillCatalogRenderPolicy::ExtensionCompatible.outcome(),
        SkillCatalogRenderOutcome::Legacy
    );
    assert_eq!(SkillCatalogRenderPolicy::StableCompact.outcome().as_str(), "compact");
    assert_eq!(SkillCatalogRenderOutcome::Fallback.as_str(), "fallback");
    assert_eq!(catalog_render_policy(true), SkillCatalogRenderPolicy::StableCompact);
    assert_eq!(
        catalog_render_policy(false),
        SkillCatalogRenderPolicy::ExtensionCompatible
    );
}

#[test]
fn sorting_policies_order_by_scope_name_and_prompt() {
    let mut entries = vec![
        host("none", ""),
        host("user", ""),
        host("repo", ""),
        host("admin", ""),
        host("zebra", ""),
        host("alpha", ""),
        host("alpha", ""),
    ];
    entries[1].prompt_scope = Some(SkillScope::User);
    entries[2].prompt_scope = Some(SkillScope::Repo);
    entries[3].prompt_scope = Some(SkillScope::Admin);
    for system in [4, 5, 6] {
        entries[system].prompt_scope = Some(SkillScope::System);
    }
    entries[6].main_prompt = "a/SKILL.md".to_string();
    for policy in [
        SkillCatalogRenderPolicy::CoreCompatible,
        SkillCatalogRenderPolicy::StableCompact,
    ] {
        assert_eq!(policy.order_entries(&entries), vec![6, 5, 4, 3, 2, 1, 0]);
    }
    assert_eq!(
        SkillCatalogRenderPolicy::ExtensionCompatible.order_entries(&entries),
        vec![0, 1, 2, 3, 4, 5, 6]
    );
    entries[0].model_visible = false;
    assert_eq!(
        SkillCatalogRenderPolicy::ExtensionCompatible.order_entries(&entries),
        vec![1, 2, 3, 4, 5, 6]
    );
}

#[test]
fn equal_entries_keep_their_order() {
    let entries = vec![host("same", "first"), host("same", "second")];
    assert_eq!(
        SkillCatalogRenderPolicy::StableCompact.order_entries(&entries),
        vec![0, 1]
    );
}

#[test]
fn reports_warn_about_omitted_and_shortened_skills() {
    let mut report = SkillRenderReport {
        total_count: 3,
        included_count: 2,
        omitted_count: 1,
        truncated_description_chars: 0,
        truncated_description_count: 0,
    };
    assert_eq!(
        report.warning_message().as_deref(),
        Some(
            "Exceeded skills context budget. All skill descriptions were removed and 1 additional skill was not included in the model-visible skills list."
        )
    );
    report.omitted_count = 12;
    assert_eq!(
        report.warning_message().as_deref(),
        Some(
            "Exceeded skills context budget. All skill descriptions were removed and 12 additional skills were not included in the model-visible skills list."
        )
    );
    report.omitted_count = 0;
    assert_eq!(report.warning_message(), None);
    report.truncated_description_chars = 300;
    assert_eq!(report.average_truncated_description_chars(), 100);
    assert_eq!(report.warning_message(), None);
    report.truncated_description_chars = 301;
    assert_eq!(report.average_truncated_description_chars(), 101);
    assert!(report
        .warning_message()
        .is_some_and(|warning| warning.starts_with("Skill descriptions were shortened")));
    report.total_count = 0;
    assert_eq!(report.average_truncated_description_chars(), 0);
}

#[test]
fn sizes_are_measured_in_bytes_and_tokens() {
    let size = SkillRenderSize::measured(2_001, 1_200, None);
    assert_eq!(size.full_body_bytes, 2_001);
    assert_eq!(size.full_body_tokens, 501);
    assert_eq!(size.rendered_body_bytes, 1_200);
    assert_eq!(size.rendered_body_tokens, 300);
    assert_eq!(size.outcome, None);
    assert_eq!(
        size.with_outcome(SkillCatalogRenderOutcome::Compact).outcome,
        Some(SkillCatalogRenderOutcome::Compact)
    );
}

#[test]
fn descriptions_are_cut_at_the_catalog_limit() {
    let exact = "d".repeat(1_024);
    assert_eq!(truncate_catalog_skill_description(&exact), exact);
    let long = "\u{e9}".repeat(1_025);
    let cut = truncate_catalog_skill_description(&long);
    assert_eq!(cut, format!("{}...", "\u{e9}".repeat(1_021)));
    assert_eq!(cut.chars().count(), 1_024);
    assert_eq!(truncate_catalog_skill_description(""), "");
}

#[test]
fn prompts_are_cut_at_a_character() {
    assert_eq!(truncate_utf8_to_bytes("h\u{e9}llo", 2), ("h".to_string(), true));
    assert_eq!(truncate_utf8_to_bytes("h\u{e9}llo", 3), ("h\u{e9}".to_string(), true));
    assert_eq!(truncate_utf8_to_bytes("h\u{e9}", 3), ("h\u{e9}".to_string(), false));
    assert_eq!(truncate_utf8_to_bytes("", 0), (String::new(), false));
    let (prompt, cut) = truncate_main_prompt_contents(&"x".repeat(8_001));
    assert_eq!(prompt.len(), 8_000);
    assert!(cut);
}

#[test]
fn lines_name_the_skill_and_where_it_is() {
    let line = SkillLine::new(&host("lint", "Checks style"), SkillCatalogRenderPolicy::CoreCompatible);
    assert_eq!(line.render_full(), "- lint: Checks style (file: /root/lint/SKILL.md)");
    assert_eq!(line.render_minimum(), "- lint: (file: /root/lint/SKILL.md)");
    assert_eq!(
        line.render_with_description_chars(3),
        "- lint: Che (file: /root/lint/SKILL.md)"
    );
    assert_eq!(line.render_with_description_chars(99), line.render_full());
    assert_eq!(line.render_with_description_chars(0), line.render_minimum());
    assert_eq!(line.description_char_count(), 12);
    let budget = SkillMetadataBudget::Characters(100);
    assert_eq!(line.full_cost(budget), line.render_full().len() + 1);
    assert_eq!(line.minimum_cost(budget), line.render_minimum().len() + 1);
    for (kind, locator_kind, locator) in [
        (SkillSourceKind::Executor, "executor package", "pkg/lint"),
        (SkillSourceKind::Orchestrator, "orchestrator package", "pkg/lint"),
        (
            SkillSourceKind::Custom("x".to_string()),
            "custom resource",
            "/root/lint/SKILL.md",
        ),
    ] {
        let entry = entry(kind, "lint", "");
        assert_eq!(locator_of(&entry), locator);
        let line = SkillLine::new(&entry, SkillCatalogRenderPolicy::StableCompact);
        assert_eq!(
            line.render_full(),
            format!("- lint: ({locator_kind}: {locator})")
        );
    }
    let mut short = host("lint", "long");
    short.short_description = Some("s".to_string());
    let line = SkillLine::new_with_full_policy(
        &short,
        SkillCatalogRenderPolicy::StableCompact,
        SkillCatalogRenderPolicy::CoreCompatible,
    );
    assert_eq!(line.render_full(), "- lint: s (file: /root/lint/SKILL.md)");
    assert_eq!(line.render_baseline(), "- lint: long (file: /root/lint/SKILL.md)");
}

#[test]
fn descriptions_share_what_the_minimum_leaves() {
    let skills = lines(&[host("a", "aaaaaaaa"), host("b", "bb"), host("c", "cccccccc")]);
    let minimum: usize = skills
        .iter()
        .map(|line| line.minimum_cost(SkillMetadataBudget::Characters(0)))
        .sum();
    // The first character of a description also costs a space.
    let budget = SkillMetadataBudget::Characters(minimum + 3 + 7);
    assert_eq!(
        allocate_skill_lines(&skills, budget),
        vec![
            SkillLineAllocation::DescriptionChars(3),
            SkillLineAllocation::DescriptionChars(2),
            SkillLineAllocation::DescriptionChars(2),
        ]
    );
    let allocations = allocate_skill_lines(&skills, budget);
    let rendered = render_allocated_skill_lines(&skills, &allocations, 0, 3);
    assert_eq!(rendered_lines_cost(budget, 0, &rendered.lines), budget.limit());
    assert_eq!(rendered.omitted_count, 0);
    assert_eq!(rendered.truncated_description_chars, 11);
    assert_eq!(rendered.truncated_description_count, 2);
    let last = render_allocated_skill_lines(&skills, &allocations, 2, 3);
    assert_eq!(last.lines, vec![skills[2].render_with_description_chars(2)]);
}

#[test]
fn lines_that_do_not_fit_are_omitted() {
    let skills = lines(&[host("aaaaaaaaaa", "x"), host("b", ""), host("c", "yy")]);
    let b: usize = skills[1].minimum_cost(SkillMetadataBudget::Characters(0));
    let allocations = allocate_skill_lines(&skills, SkillMetadataBudget::Characters(b));
    assert_eq!(
        allocations,
        vec![
            SkillLineAllocation::Omitted,
            SkillLineAllocation::DescriptionChars(0),
            SkillLineAllocation::Omitted,
        ]
    );
    let rendered = render_allocated_skill_lines(&skills, &allocations, 0, 3);
    assert_eq!(rendered.lines, vec![skills[1].render_minimum()]);
    assert_eq!(rendered.omitted_count, 2);
    assert_eq!(rendered.truncated_description_chars, 3);
    assert_eq!(rendered.truncated_description_count, 2);
    let everything = allocate_skill_lines(&skills, SkillMetadataBudget::Characters(1_000));
    assert_eq!(everything[2], SkillLineAllocation::DescriptionChars(2));
}

#[test]
fn omission_markers_displace_lines() {
    assert_eq!(
        omission_marker(1),
        "- 1 additional skill omitted from this bounded skills list."
    );
    assert_eq!(
        omission_marker(7),
        "- 7 additional skills omitted from this bounded skills list."
    );
    let marker = metadata_line_cost(SkillMetadataBudget::Characters(0), &omission_marker(3));
    let budget = SkillMetadataBudget::Characters(marker + 6);
    let mut shown = vec!["- one".to_string(), "- two".to_string()];
    shown[1] = "-".repeat(marker - 1);
    assert_eq!(rendered_lines_cost(budget, 0, &shown), budget.limit());
    assert_eq!(add_omission_marker(budget, &mut shown, 2), 3);
    assert_eq!(shown, vec!["- one".to_string(), omission_marker(3)]);

    let tiny = SkillMetadataBudget::Characters(10);
    let mut shown = vec!["- one".to_string()];
    assert_eq!(add_omission_marker(tiny, &mut shown, 1), 2);
    assert!(shown.is_empty());
}

#[test]
fn the_shared_marker_first_displaces_host_skills() {
    let skills = lines(&[
        entry(SkillSourceKind::Executor, "executor-skill", ""),
        entry(SkillSourceKind::Orchestrator, "orchestrator-skill", ""),
        host("host-skill-with-a-rather-long-name", ""),
    ]);
    let zero = SkillMetadataBudget::Characters(0);
    let budget = SkillMetadataBudget::Characters(
        skills[0].minimum_cost(zero) + metadata_line_cost(zero, &omission_marker(1)),
    );
    let mut allocations = vec![
        SkillLineAllocation::DescriptionChars(0),
        SkillLineAllocation::Omitted,
        SkillLineAllocation::DescriptionChars(0),
    ];
    let marker = reserve_non_host_omission_marker(&skills, 2, budget, &mut allocations);
    assert_eq!(marker, Some(omission_marker(1)));
    assert_eq!(
        allocations,
        vec![
            SkillLineAllocation::DescriptionChars(0),
            SkillLineAllocation::Omitted,
            SkillLineAllocation::Omitted,
        ]
    );
    let mut host_only = vec![
        SkillLineAllocation::DescriptionChars(0),
        SkillLineAllocation::DescriptionChars(0),
        SkillLineAllocation::Omitted,
    ];
    assert_eq!(
        reserve_non_host_omission_marker(&skills, 2, budget, &mut host_only),
        None
    );
    let mut nothing = vec![
        SkillLineAllocation::Omitted,
        SkillLineAllocation::Omitted,
        SkillLineAllocation::DescriptionChars(0),
    ];
    assert_eq!(
        reserve_non_host_omission_marker(
            &skills,
            2,
            SkillMetadataBudget::Characters(20),
            &mut nothing
        ),
        None
    );
    assert!(nothing.iter().all(|line| *line == SkillLineAllocation::Omitted));
}

#[test]
fn one_catalog_is_rendered_in_full_where_it_fits() {
    let skills = catalog(vec![host("b", "second"), host("a", "first")]);
    let budget = SkillMetadataBudget::Characters(1_000);
    let rendered = render_available_skills(
        &skills,
        SkillCatalogRenderPolicy::StableCompact,
        budget,
        &prompt(),
    )
    .expect("two skills");
    assert_eq!(
        rendered.rendered.body.lines,
        vec![
            "- a: first (file: /root/a/SKILL.md)".to_string(),
            "- b: second (file: /root/b/SKILL.md)".to_string(),
        ]
    );
    assert_eq!(rendered.full_body.lines, rendered.rendered.body.lines);
    assert_eq!(rendered.outcome, Some(SkillCatalogRenderOutcome::Compact));
    assert_eq!(rendered.rendered.body.prompt_kind, SkillPromptKind::Unaliased);
    assert_eq!(
        rendered.rendered.report,
        SkillRenderReport {
            total_count: 2,
            included_count: 2,
            omitted_count: 0,
            truncated_description_chars: 0,
            truncated_description_count: 0,
        }
    );
    assert!(rendered.into_fragment().is_some());
    let listed = render_available_skills(
        &skills,
        SkillCatalogRenderPolicy::ExtensionCompatible,
        budget,
        &prompt(),
    )
    .expect("two skills");
    assert_eq!(listed.rendered.body.lines[0], "- b: second (file: /root/b/SKILL.md)");
    assert!(render_available_skills(
        &catalog(Vec::new()),
        SkillCatalogRenderPolicy::StableCompact,
        budget,
        &prompt()
    )
    .is_none());
}

#[test]
fn a_compact_catalog_that_would_omit_skills_falls_back() {
    let skills = catalog(vec![host("b", ""), host("a", "")]);
    let rendered = render_available_skills(
        &skills,
        SkillCatalogRenderPolicy::StableCompact,
        SkillMetadataBudget::Characters(30),
        &prompt(),
    )
    .expect("two skills");
    assert_eq!(rendered.outcome, Some(SkillCatalogRenderOutcome::Fallback));
    // The marker for two omitted skills has no room either.
    assert!(rendered.rendered.body.lines.is_empty());
    assert_eq!(rendered.rendered.report.omitted_count, 2);
    assert!(rendered.into_fragment().is_none());

    let core = render_available_skills(
        &skills,
        SkillCatalogRenderPolicy::CoreCompatible,
        SkillMetadataBudget::Characters(30),
        &prompt(),
    )
    .expect("two skills");
    assert_eq!(core.rendered.body.lines, vec!["- a: (file: /root/a/SKILL.md)".to_string()]);
    assert!(core.preserve_empty_fragment);
    assert_eq!(core.outcome, Some(SkillCatalogRenderOutcome::Legacy));
}

fn aliased(entries: Vec<SkillCatalogEntry>) -> SkillCatalog {
    let shortened: Vec<Option<String>> = entries
        .iter()
        .map(|entry| Some(format!("r0/{}", entry.name)))
        .collect();
    let plan = |shortened: Vec<Option<String>>| AliasPlan {
        root_lines: vec!["- r0 = /root".to_string()],
        shortened,
        empty_body: "## Skills\n- r0 = /root\n".to_string(),
        instructions: Some("Expand aliases.".to_string()),
    };
    SkillCatalog {
        listed_plan: Some(plan(shortened.clone())),
        sorted_plan: Some(plan(shortened)),
        entries,
    }
}

fn rooted(name: &str) -> SkillCatalogEntry {
    let mut entry = host(name, "");
    entry.rendered_path = format!("/root/{}/{name}/SKILL.md", "deep/".repeat(10));
    entry.alias_root = Some("/root".to_string());
    entry
}

#[test]
fn aliases_are_used_where_they_show_more_skills() {
    let skills = aliased(vec![rooted("a"), rooted("b"), rooted("c")]);
    let budget = SkillMetadataBudget::Characters(90);
    let plan = skills.sorted_plan.as_ref().expect("a plan");
    assert_eq!(aliased_metadata_overhead_cost(budget, &prompt(), plan), 13);
    let with_usage = SkillPrompt {
        unaliased_body: "## Skills\n".to_string(),
        include_skills_usage_instructions: true,
    };
    assert_eq!(aliased_metadata_overhead_cost(budget, &with_usage, plan), 13 + 16);
    let rendered = render_available_skills(
        &skills,
        SkillCatalogRenderPolicy::StableCompact,
        budget,
        &prompt(),
    )
    .expect("three skills");
    assert_eq!(rendered.outcome, Some(SkillCatalogRenderOutcome::Compact));
    assert_eq!(rendered.rendered.body.prompt_kind, SkillPromptKind::Host);
    assert_eq!(rendered.rendered.body.root_lines, vec!["- r0 = /root".to_string()]);
    assert_eq!(
        rendered.rendered.body.lines,
        vec![
            "- a: (file: r0/a)".to_string(),
            "- b: (file: r0/b)".to_string(),
            "- c: (file: r0/c)".to_string(),
        ]
    );
    assert!(rendered.full_body.root_lines.is_empty());

    let wide = render_available_skills(
        &skills,
        SkillCatalogRenderPolicy::StableCompact,
        SkillMetadataBudget::Characters(10_000),
        &prompt(),
    )
    .expect("three skills");
    assert_eq!(wide.rendered.body.prompt_kind, SkillPromptKind::Unaliased);
}

#[test]
fn entries_without_an_alias_root_keep_their_locator() {
    let mut entries = vec![rooted("a"), rooted("b")];
    entries[1].alias_root = None;
    let skills = aliased(entries);
    let lines = CatalogLines::aliased(
        SkillMetadataBudget::Characters(1_000),
        &prompt(),
        &skills,
        SkillCatalogRenderPolicy::StableCompact,
        SkillCatalogRenderPolicy::StableCompact,
    );
    assert_eq!(lines.prompt_kind, SkillPromptKind::Host);
    assert_eq!(lines.skills[0].locator, "r0/a");
    assert_eq!(lines.skills[1].locator, skills.entries[1].rendered_path);
    assert_eq!(lines.root_cost, 13);
    let plain = CatalogLines::unaliased(
        &skills,
        SkillCatalogRenderPolicy::StableCompact,
        SkillCatalogRenderPolicy::StableCompact,
    );
    assert!(plain.root_lines.is_empty());
    assert_eq!(plain.root_cost, 0);
}

#[test]
fn alias_plans_ask_for_roots_in_order_of_one_source() {
    let mut first = entry(SkillSourceKind::Executor, "first", "");
    first.alias_root = Some("root-b".to_string());
    first.alias_root_order = Some(5);
    let mut second = entry(SkillSourceKind::Executor, "second", "");
    second.alias_root = Some("root-a".to_string());
    second.alias_root_order = Some(1);
    let third = entry(SkillSourceKind::Executor, "third", "");
    let mixed = catalog(vec![host("host", ""), entry(SkillSourceKind::Executor, "e", "")]);
    let request = build_alias_plan(
        &catalog(vec![first, second, third]),
        SkillCatalogRenderPolicy::ExtensionCompatible,
    )
    .expect("one source");
    assert_eq!(request.prefix, "e");
    assert_eq!(request.order, vec![1, 0, 2]);
    assert_eq!(
        request.roots,
        Some(vec!["root-a".to_string(), "root-b".to_string()])
    );
    assert!(build_alias_plan(&mixed, SkillCatalogRenderPolicy::ExtensionCompatible).is_none());
    assert!(build_alias_plan(
        &catalog(Vec::new()),
        SkillCatalogRenderPolicy::ExtensionCompatible
    )
    .is_none());
    let hosts = build_alias_plan(
        &catalog(vec![host("host", "")]),
        SkillCatalogRenderPolicy::StableCompact,
    )
    .expect("one source");
    assert_eq!(hosts.prefix, "r");
    assert_eq!(hosts.roots, None);
    assert!(build_alias_plan(
        &catalog(vec![entry(SkillSourceKind::Custom("x".to_string()), "c", "")]),
        SkillCatalogRenderPolicy::ExtensionCompatible
    )
    .is_none());
}

#[test]
fn combined_catalogs_share_one_budget_by_priority() {
    let executor = catalog(vec![entry(SkillSourceKind::Executor, "executor", "")]);
    let orchestrator = catalog(vec![entry(SkillSourceKind::Orchestrator, "orchestrator", "")]);
    let hosts = catalog(vec![host("host", "a description")]);
    let all = render_combined_available_skills(
        &executor,
        &orchestrator,
        &hosts,
        SkillMetadataBudget::Characters(1_000),
        &prompt(),
        true,
    );
    let executor_render = all.executor.as_ref().expect("executor skills");
    let host_render = all.host.as_ref().expect("host skills");
    assert_eq!(executor_render.outcome, Some(SkillCatalogRenderOutcome::Compact));
    assert_eq!(
        host_render.rendered.body.lines,
        vec!["- host: a description (file: /root/host/SKILL.md)".to_string()]
    );

    // Without room for the description, the compact list gives way to the plain one.
    let cost = |text: &str| text.chars().count() + 1;
    let tight = cost("- executor: (executor package: pkg/executor)")
        + cost("- orchestrator: (orchestrator package: pkg/orchestrator)")
        + cost("- host: (file: /root/host/SKILL.md)");
    let fallback = render_combined_available_skills(
        &executor,
        &orchestrator,
        &hosts,
        SkillMetadataBudget::Characters(tight),
        &prompt(),
        true,
    );
    let host_render = fallback.host.as_ref().expect("host skills");
    assert_eq!(host_render.outcome, Some(SkillCatalogRenderOutcome::Fallback));
    assert_eq!(
        host_render.rendered.body.lines,
        vec!["- host: (file: /root/host/SKILL.md)".to_string()]
    );
    assert_eq!(host_render.rendered.report.truncated_description_chars, 13);

    let legacy = render_combined_available_skills(
        &executor,
        &orchestrator,
        &hosts,
        SkillMetadataBudget::Characters(tight - 1),
        &prompt(),
        false,
    );
    assert_eq!(
        legacy.executor.as_ref().and_then(|render| render.outcome),
        Some(SkillCatalogRenderOutcome::Legacy)
    );
    let host_render = legacy.host.as_ref().expect("host skills");
    assert!(host_render.rendered.body.lines.is_empty());
    assert_eq!(host_render.rendered.report.omitted_count, 1);
}

#[test]
fn a_single_catalog_is_rendered_alone() {
    let hosts = catalog(vec![host("host", "")]);
    let none = catalog(Vec::new());
    let rendered = render_combined_available_skills(
        &none,
        &none,
        &hosts,
        SkillMetadataBudget::Characters(1_000),
        &prompt(),
        false,
    );
    assert!(rendered.executor.is_none());
    assert!(rendered.orchestrator.is_none());
    let host_render = rendered.host.expect("host skills");
    assert_eq!(host_render.outcome, Some(SkillCatalogRenderOutcome::Legacy));
    assert!(host_render.preserve_empty_fragment);
}

#[test]
fn combined_renders_are_compared_by_priority() {
    let executor = || catalog(vec![entry(SkillSourceKind::Executor, "executor", "")]);
    let hosts = || catalog(vec![host("host", "description")]);
    let policy = SkillCatalogRenderPolicy::ExtensionCompatible;
    let unaliased = |skills: &SkillCatalog| CatalogLines::unaliased(skills, policy, policy);
    let none = catalog(Vec::new());
    let render = |limit: usize| {
        render_combined_lines(
            unaliased(&executor()),
            unaliased(&none),
            unaliased(&hosts()),
            SkillMetadataBudget::Characters(limit),
        )
    };
    let wide = render(1_000);
    let narrow = render(50);
    let budget = SkillMetadataBudget::Characters(1_000);
    assert!(combined_catalog_fully_rendered(&wide));
    assert!(!combined_catalog_fully_rendered(&narrow));
    assert!(combined_render_is_better(&wide, &narrow, budget));
    assert!(!combined_render_is_better(&narrow, &wide, budget));
    assert!(!combined_render_is_better(&wide, &render(1_000), budget));
    let shorter = render(85);
    assert_eq!(shorter.host.rendered.report.included_count, 1);
    assert_eq!(shorter.host.rendered.report.truncated_description_chars, 8);
    assert!(combined_render_is_better(&wide, &shorter, budget));
    assert!(combined_render_is_better(&shorter, &narrow, budget));
}

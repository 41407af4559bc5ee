//! What the lists of skills show, and which of several lists is shown.

use vstd::prelude::*;

use crate::history::texts;
use crate::skill_lines::{
    allocated, capped, entry_line, entry_locator, lines_total, missing_chars, missing_count,
    omitted, rendered_line, reserved, shown_lines, with_marker, LineModel, SkillLineAllocation,
};
use crate::skill_policy::{
    line_cost, positions, EntryModel, SkillCatalogRenderOutcome, SkillCatalogRenderPolicy,
    SkillMetadataBudget, SourceModel,
};
use crate::skill_render::{
    alias_cost, alias_prefix, aliased_catalog, aliased_combined, aliased_lines, aliased_locator,
    aliased_source, available_skills, baseline_lines, by_rank, combined, combined_is_better, group,
    host_policy, insert_by_rank, is_better, measure_of, preferred, rendered_catalog,
    rendered_once, report_of, requests_plan, root_rank, roots_of, selected_catalog, table_cost,
    unaliased_lines, AliasRequest, CatalogModel, Catalogs, CombinedModel, LinesModel, PlanModel, RenderedModel, SkillPrompt,
    SkillPromptKind,
};

verus! {

/// Lists are introduced by the source whose locators they shorten; a custom source shortens none.
/// Aliases are named after their source.
pub proof fn sources_introduce_their_lists(name: Seq<char>)
    ensures
        SkillPromptKind::spec_for_aliased_source(SourceModel::Host) is Host,
        SkillPromptKind::spec_for_aliased_source(SourceModel::Executor) is Executor,
        SkillPromptKind::spec_for_aliased_source(SourceModel::Orchestrator) is Orchestrator,
        SkillPromptKind::spec_for_aliased_source(SourceModel::Custom(name)) is Unaliased,
        alias_prefix(SourceModel::Host) == "r"@,
        alias_prefix(SourceModel::Executor) == "e"@,
        alias_prefix(SourceModel::Orchestrator) == "o"@,
{
}

/// The aliases of a catalog are those that were made for its order: as listed, or sorted.
pub proof fn plans_follow_the_order(catalog: CatalogModel)
    ensures
        catalog.plan(SkillCatalogRenderPolicy::ExtensionCompatible) == catalog.listed_plan,
        catalog.plan(SkillCatalogRenderPolicy::CoreCompatible) == catalog.sorted_plan,
        catalog.plan(SkillCatalogRenderPolicy::StableCompact) == catalog.sorted_plan,
{
}

/// Aliases cost what their introduction costs more than that of a list without aliases; how to read
/// them counts only where usage is explained.
pub proof fn aliases_cost_their_introduction(
    budget: SkillMetadataBudget,
    prompt: SkillPrompt,
    plan: PlanModel,
)
    requires
        plan.instructions matches Some(text) ==> budget.spec_cost(plan.empty_body) + line_cost(
            budget,
            text,
        ) <= usize::MAX,
    ensures
        ({
            let extra: int = if prompt.include_skills_usage_instructions
                && plan.instructions is Some {
                line_cost(budget, plan.instructions->0) as int
            } else {
                0
            };
            let more = budget.spec_cost(plan.empty_body) + extra - budget.spec_cost(
                prompt.unaliased_body@,
            );
            &&& more >= 0 ==> alias_cost(budget, prompt, plan) == more
            &&& more < 0 ==> alias_cost(budget, prompt, plan) == 0
        }),
{
}

/// A catalog has a line for every visible entry, in the order of the policy, with the locator of
/// the entry itself, and no root lines.
pub proof fn unaliased_lines_hold_every_entry(
    catalog: CatalogModel,
    policy: SkillCatalogRenderPolicy,
    full: SkillCatalogRenderPolicy,
    k: int,
)
    requires
        0 <= k < catalog.order(policy).len(),
    ensures
        ({
            let lines = unaliased_lines(catalog, policy, full);
            let entry = catalog.entries[catalog.order(policy)[k]];
            &&& lines.skills.len() == catalog.order(policy).len()
            &&& lines.skills[k] == entry_line(entry, policy, full, entry_locator(entry))
            &&& lines.root_lines.len() == 0 && lines.root_cost == 0
            &&& lines.prompt_kind is Unaliased
        }),
{
}

/// Aliases can stand for the roots of entries exactly where all of them are of one source, and
/// that is not a custom one.
pub proof fn one_source_has_aliases(entries: Seq<EntryModel>, order: Seq<int>, source: SourceModel)
    ensures
        aliased_source(entries, order) == Some(source) <==> order.len() > 0 && !(source is Custom)
            && forall|i: int|
            0 <= i < order.len() ==> entries[#[trigger] order[i]].kind == source,
{
    if aliased_source(entries, order) == Some(source) {
        assert forall|i: int| 0 <= i < order.len() implies entries[#[trigger] order[i]].kind
            == source by {}
    }
    if order.len() > 0 {
        assert(entries[order[0]].kind == entries[order[0]].kind);
    }
}

/// An entry is found by its alias where it has a root and the plan shortens it, and else by its own
/// locator. With aliases a list has the same entries in the same order, and the root lines of the
/// plan; without a plan it has none.
pub proof fn aliased_lines_hold_every_entry(
    budget: SkillMetadataBudget,
    prompt: SkillPrompt,
    catalog: CatalogModel,
    policy: SkillCatalogRenderPolicy,
    full: SkillCatalogRenderPolicy,
    k: int,
)
    requires
        0 <= k < catalog.order(policy).len(),
    ensures
        ({
            let lines = aliased_lines(budget, prompt, catalog, policy, full);
            let i = catalog.order(policy)[k];
            let entry = catalog.entries[i];
            match (aliased_source(catalog.entries, catalog.order(policy)), catalog.plan(policy)) {
                (Some(source), Some(plan)) => {
                    &&& lines.skills.len() == catalog.order(policy).len()
                    &&& lines.skills[k] == entry_line(
                        entry,
                        policy,
                        full,
                        if entry.alias_root is Some && i < plan.shortened.len()
                            && plan.shortened[i] is Some {
                            plan.shortened[i]->0
                        } else {
                            entry_locator(entry)
                        },
                    )
                    &&& lines.root_lines == plan.root_lines
                    &&& plan.root_lines.len() > 0 ==> lines.root_cost == alias_cost(
                        budget,
                        prompt,
                        plan,
                    )
                    &&& plan.root_lines.len() == 0 ==> lines.root_cost == 0
                    &&& lines.prompt_kind == SkillPromptKind::spec_for_aliased_source(source)
                },
                _ => lines == unaliased_lines(catalog, policy, full),
            }
        }),
{
    match (aliased_source(catalog.entries, catalog.order(policy)), catalog.plan(policy)) {
        (Some(source), Some(plan)) => {
            let i = catalog.order(policy)[k];
            assert(aliased_lines(budget, prompt, catalog, policy, full).skills[k] == entry_line(
                catalog.entries[i],
                policy,
                full,
                aliased_locator(catalog, plan, i),
            ));
        },
        _ => {},
    }
}

/// A report counts all skills, those that are shown and those that are left out, and what is
/// missing of the descriptions.
pub proof fn reports_count(
    lines: Seq<LineModel>,
    allocations: Seq<SkillLineAllocation>,
    left_out: nat,
)
    requires
        lines.len() <= usize::MAX,
        left_out <= lines.len(),
        missing_chars(lines, allocations) <= usize::MAX,
        missing_count(lines, allocations) <= usize::MAX,
    ensures
        ({
            let report = report_of(lines, allocations, left_out);
            &&& report.total_count == lines.len()
            &&& report.included_count + left_out == lines.len()
            &&& report.omitted_count == left_out
            &&& report.truncated_description_chars == missing_chars(lines, allocations)
            &&& report.truncated_description_count == missing_count(lines, allocations)
        }),
{
}

/// A catalog alone shows what its lines are dealt; a marker stands behind them where some are left
/// out and the policy mentions that, and the report counts what is left out then.
pub proof fn catalogs_show_what_is_dealt(
    catalog: LinesModel,
    budget: SkillMetadataBudget,
    policy: SkillCatalogRenderPolicy,
)
    ensures
        ({
            let dealt = allocated(catalog.skills, budget);
            let shown = shown_lines(catalog.skills, dealt);
            let rendered = rendered_catalog(catalog, budget, policy);
            let marked = omitted(dealt) > 0 && policy != SkillCatalogRenderPolicy::CoreCompatible;
            let left_out = if marked {
                with_marker(budget, shown, omitted(dealt)).1
            } else {
                omitted(dealt)
            };
            &&& !marked ==> rendered.body.lines == shown
            &&& marked ==> rendered.body.lines == with_marker(budget, shown, omitted(dealt)).0
            &&& rendered.report == report_of(catalog.skills, dealt, left_out)
            &&& rendered.body.root_lines == catalog.root_lines
            &&& rendered.body.prompt_kind == catalog.prompt_kind
            &&& rendered.root_cost == catalog.root_cost
        }),
{
}

/// A list is complete exactly where no skill and no character of a description is missing, and
/// costs its root lines and its lines together.
pub proof fn lists_are_measured(rendered: RenderedModel, budget: SkillMetadataBudget)
    ensures
        rendered.complete() <==> rendered.report.omitted_count == 0
            && rendered.report.truncated_description_chars == 0,
        rendered.cost(budget) == rendered.root_cost + lines_total(budget, rendered.body.lines),
{
}

/// Of two lists the one that shows more skills is better, then the one that misses less of the
/// descriptions, then the cheaper one; never are both better.
pub proof fn better_lists_show_more(a: RenderedModel, b: RenderedModel, budget: SkillMetadataBudget)
    ensures
        a.report.included_count > b.report.included_count ==> is_better(a, b, budget),
        a.report.included_count < b.report.included_count ==> !is_better(a, b, budget),
        a.report.included_count == b.report.included_count && a.report.truncated_description_chars
            < b.report.truncated_description_chars ==> is_better(a, b, budget),
        a.report.included_count == b.report.included_count && a.report.truncated_description_chars
            > b.report.truncated_description_chars ==> !is_better(a, b, budget),
        a.report.included_count == b.report.included_count && a.report.truncated_description_chars
            == b.report.truncated_description_chars ==> (is_better(a, b, budget) <==> capped(
            a.cost(budget),
        ) < capped(b.cost(budget))),
        !(is_better(a, b, budget) && is_better(b, a, budget)),
{
}

/// A list has aliases only where there are root lines and the budget holds more than them; it has
/// the rest of the budget.
pub proof fn aliases_leave_room(
    budget: SkillMetadataBudget,
    prompt: SkillPrompt,
    catalog: CatalogModel,
    policy: SkillCatalogRenderPolicy,
    full: SkillCatalogRenderPolicy,
)
    ensures
        ({
            let lines = aliased_lines(budget, prompt, catalog, policy, full);
            let list = aliased_catalog(budget, prompt, catalog, policy, full);
            &&& list is Some <==> lines.root_lines.len() > 0 && lines.root_cost
                < budget.spec_limit()
            &&& list is Some ==> list == Some(
                rendered_catalog(
                    lines,
                    budget.spec_with_limit((budget.spec_limit() - lines.root_cost) as usize),
                    policy,
                ),
            )
        }),
{
}

/// A list without aliases is shown where it is complete, or where the one with aliases is not
/// better; else the one with aliases is. What is shown is never worse than the list without.
pub proof fn better_list_is_shown(
    budget: SkillMetadataBudget,
    prompt: SkillPrompt,
    catalog: CatalogModel,
    policy: SkillCatalogRenderPolicy,
    full: SkillCatalogRenderPolicy,
)
    ensures
        ({
            let plain = rendered_catalog(unaliased_lines(catalog, policy, policy), budget, policy);
            let aliased = aliased_catalog(budget, prompt, catalog, policy, full);
            let shown = selected_catalog(budget, prompt, catalog, policy, full);
            &&& plain.complete() ==> shown == plain
            &&& !plain.complete() && aliased is Some && is_better(aliased->0, plain, budget)
                ==> shown == aliased->0
            &&& aliased is None || !is_better(aliased->0, plain, budget) ==> shown == plain
            &&& !is_better(plain, shown, budget)
            &&& shown.report.included_count >= plain.report.included_count
        }),
{
}

/// The list of a catalog is measured against the lines in full of the other policy; a catalog
/// without a visible entry has no list. An empty list is kept only for the core.
pub proof fn lists_are_measured_in_full(
    budget: SkillMetadataBudget,
    prompt: SkillPrompt,
    catalog: CatalogModel,
    policy: SkillCatalogRenderPolicy,
    full: SkillCatalogRenderPolicy,
)
    ensures
        rendered_once(budget, prompt, catalog, policy, full) is None <==> catalog.order(policy).len()
            == 0,
        rendered_once(budget, prompt, catalog, policy, full) matches Some(list) ==> {
            &&& list.rendered == selected_catalog(budget, prompt, catalog, policy, full)
            &&& list.full_body.lines == baseline_lines(
                unaliased_lines(catalog, policy, full).skills,
            )
            &&& list.full_body.root_lines.len() == 0
            &&& list.full_body.prompt_kind is Unaliased
            &&& list.preserve_empty_fragment <==> policy is CoreCompatible
            &&& list.outcome == Some(
                if policy is StableCompact {
                    SkillCatalogRenderOutcome::Compact
                } else {
                    SkillCatalogRenderOutcome::Legacy
                },
            )
        },
        forall|lines: Seq<LineModel>, k: int|
            0 <= k < lines.len() ==> #[trigger] baseline_lines(lines)[k] == rendered_line(
                lines[k],
                lines[k].full_description,
            ),
{
}

/// A compact list that leaves a skill out gives way to the full list, as a fallback; any other list
/// is shown as it is. A compact list alone is measured by that of extensions.
pub proof fn compact_lists_give_way(
    budget: SkillMetadataBudget,
    prompt: SkillPrompt,
    catalog: CatalogModel,
    policy: SkillCatalogRenderPolicy,
    full: SkillCatalogRenderPolicy,
)
    ensures
        ({
            let once = rendered_once(budget, prompt, catalog, policy, full);
            let shown = available_skills(budget, prompt, catalog, policy, full);
            let instead = rendered_once(budget, prompt, catalog, full, full);
            let gives_way = policy is StableCompact && (once matches Some(list)
                && list.rendered.report.omitted_count > 0);
            &&& !gives_way ==> shown == once
            &&& gives_way && instead is None ==> shown is None
            &&& gives_way && instead is Some ==> shown is Some && shown->0.rendered
                == instead->0.rendered && shown->0.full_body == instead->0.full_body
                && shown->0.preserve_empty_fragment == instead->0.preserve_empty_fragment
                && shown->0.outcome == Some(SkillCatalogRenderOutcome::Fallback)
        }),
        measure_of(SkillCatalogRenderPolicy::StableCompact) is ExtensionCompatible,
        measure_of(SkillCatalogRenderPolicy::ExtensionCompatible) is ExtensionCompatible,
        measure_of(SkillCatalogRenderPolicy::CoreCompatible) is CoreCompatible,
{
}

/// One of several lists shows what its lines are dealt, with the marker behind them where it
/// carries it, and is measured against all of its own lines in full.
pub proof fn groups_show_what_is_dealt(
    catalog: LinesModel,
    dealt: Seq<SkillLineAllocation>,
    marker: Option<Seq<char>>,
)
    ensures
        ({
            let shown = group(catalog, dealt, marker);
            &&& shown.rendered.body.lines == (match marker {
                Some(line) => shown_lines(catalog.skills, dealt).push(line),
                None => shown_lines(catalog.skills, dealt),
            })
            &&& shown.rendered.report == report_of(catalog.skills, dealt, omitted(dealt))
            &&& shown.rendered.body.root_lines == catalog.root_lines
            &&& shown.rendered.body.prompt_kind == catalog.prompt_kind
            &&& shown.rendered.root_cost == catalog.root_cost
            &&& shown.full_body.lines == baseline_lines(catalog.skills)
            &&& shown.full_body.root_lines == catalog.root_lines
            &&& !shown.preserve_empty_fragment && shown.outcome is None
        }),
{
}

/// Three lists share one budget as one list, executor first, then orchestrator, then host. The
/// marker for what is left out of the first two stands behind the second, or behind the first where
/// the second is empty; the third never carries it.
pub proof fn lists_share_one_budget(
    executor: LinesModel,
    orchestrator: LinesModel,
    host: LinesModel,
    budget: SkillMetadataBudget,
)
    ensures
        ({
            let all = executor.skills + orchestrator.skills + host.skills;
            let (a, b) = (
                executor.skills.len() as int,
                executor.skills.len() + orchestrator.skills.len(),
            );
            let (dealt, marker) = reserved(all, b as int, budget, allocated(all, budget));
            let shown = combined(executor, orchestrator, host, budget);
            &&& orchestrator.skills.len() > 0 ==> shown.executor == group(
                executor,
                dealt.subrange(0, a),
                None,
            ) && shown.orchestrator == group(orchestrator, dealt.subrange(a, b as int), marker)
            &&& orchestrator.skills.len() == 0 ==> shown.executor == group(
                executor,
                dealt.subrange(0, a),
                marker,
            ) && shown.orchestrator == group(orchestrator, dealt.subrange(a, b as int), None)
            &&& shown.host == group(host, dealt.subrange(b as int, all.len() as int), None)
        }),
{
}

/// Three lists have aliases only where one of them has root lines and the budget holds more than
/// all of these; they have the rest of the budget.
pub proof fn shared_aliases_leave_room(
    executor: LinesModel,
    orchestrator: LinesModel,
    host: LinesModel,
    budget: SkillMetadataBudget,
)
    requires
        executor.root_cost + orchestrator.root_cost + host.root_cost <= usize::MAX,
    ensures
        ({
            let roots = executor.root_cost + orchestrator.root_cost + host.root_cost;
            let some = executor.root_lines.len() > 0 || orchestrator.root_lines.len() > 0
                || host.root_lines.len() > 0;
            let lists = aliased_combined(executor, orchestrator, host, budget);
            &&& table_cost(executor, orchestrator, host) == roots
            &&& lists is Some <==> some && roots < budget.spec_limit()
            &&& lists is Some ==> lists == Some(
                combined(
                    executor,
                    orchestrator,
                    host,
                    budget.spec_with_limit((budget.spec_limit() - roots) as usize),
                ),
            )
        }),
{
}

/// Of two triples of lists the one that shows more executor skills is better, then more of the
/// orchestrator's, then more of the host's, then the one that misses less of the descriptions, then
/// the cheaper one; never are both better.
pub proof fn better_triples_show_more(a: CombinedModel, b: CombinedModel, budget: SkillMetadataBudget)
    ensures
        ({
            let (e, f) = (
                a.executor.rendered.report.included_count,
                b.executor.rendered.report.included_count,
            );
            let (o, p) = (
                a.orchestrator.rendered.report.included_count,
                b.orchestrator.rendered.report.included_count,
            );
            let (h, i) = (
                a.host.rendered.report.included_count,
                b.host.rendered.report.included_count,
            );
            let better = combined_is_better(a, b, budget);
            &&& e > f ==> better
            &&& e < f ==> !better
            &&& e == f && o > p ==> better
            &&& e == f && o < p ==> !better
            &&& e == f && o == p && h > i ==> better
            &&& e == f && o == p && h < i ==> !better
            &&& e == f && o == p && h == i && a.missing() < b.missing() ==> better
            &&& e == f && o == p && h == i && a.missing() > b.missing() ==> !better
            &&& e == f && o == p && h == i && a.missing() == b.missing() ==> (better <==> capped(
                a.cost(budget),
            ) < capped(b.cost(budget)))
            &&& !(better && combined_is_better(b, a, budget))
        }),
        a.complete() <==> a.executor.rendered.complete() && a.orchestrator.rendered.complete()
            && a.host.rendered.complete(),
        a.cost(budget) == a.executor.rendered.cost(budget) + a.orchestrator.rendered.cost(budget)
            + a.host.rendered.cost(budget),
        ({
            let sum = a.executor.rendered.report.truncated_description_chars
                + a.orchestrator.rendered.report.truncated_description_chars
                + a.host.rendered.report.truncated_description_chars;
            sum <= usize::MAX ==> a.missing() == sum
        }),
{
}

/// A candidate is taken exactly where it is better than what is there.
pub proof fn better_candidates_are_taken(
    candidate: CombinedModel,
    current: CombinedModel,
    budget: SkillMetadataBudget,
)
    ensures
        preferred(None, current, budget) == current,
        combined_is_better(candidate, current, budget) ==> preferred(
            Some(candidate),
            current,
            budget,
        ) == candidate,
        !combined_is_better(candidate, current, budget) ==> preferred(
            Some(candidate),
            current,
            budget,
        ) == current,
{
}

/// Extensions are shown by their own policy or compactly, the host's skills by that of the core or
/// compactly; each is measured in full.
pub proof fn catalogs_have_their_policies(catalogs: Catalogs)
    ensures
        host_policy(true) is StableCompact,
        host_policy(false) is CoreCompatible,
        ({
            let (extension, core) = if catalogs.stable_compact {
                (SkillCatalogRenderPolicy::StableCompact, SkillCatalogRenderPolicy::StableCompact)
            } else {
                (
                    SkillCatalogRenderPolicy::ExtensionCompatible,
                    SkillCatalogRenderPolicy::CoreCompatible,
                )
            };
            let full = SkillCatalogRenderPolicy::ExtensionCompatible;
            let (budget, prompt) = (catalogs.budget, catalogs.prompt);
            &&& catalogs.executor_lines(false) == unaliased_lines(
                catalogs.executor,
                extension,
                full,
            )
            &&& catalogs.executor_lines(true) == aliased_lines(
                budget,
                prompt,
                catalogs.executor,
                extension,
                full,
            )
            &&& catalogs.orchestrator_lines(false) == unaliased_lines(
                catalogs.orchestrator,
                extension,
                full,
            )
            &&& catalogs.orchestrator_lines(true) == aliased_lines(
                budget,
                prompt,
                catalogs.orchestrator,
                extension,
                full,
            )
            &&& catalogs.host_lines(false) == unaliased_lines(
                catalogs.host,
                core,
                SkillCatalogRenderPolicy::CoreCompatible,
            )
            &&& catalogs.host_lines(true) == aliased_lines(
                budget,
                prompt,
                catalogs.host,
                core,
                SkillCatalogRenderPolicy::CoreCompatible,
            )
        }),
{
}

/// Lists without aliases are shown where they are complete. Else aliases are tried for the host
/// alone, for the executor alone, for the orchestrator alone and for all three, in this order, and
/// each is taken where it is better than what is there.
pub proof fn aliases_are_tried_in_order(catalogs: Catalogs)
    ensures
        catalogs.absolute() == combined(
            catalogs.executor_lines(false),
            catalogs.orchestrator_lines(false),
            catalogs.host_lines(false),
            catalogs.budget,
        ),
        catalogs.absolute().complete() ==> catalogs.selected() == catalogs.absolute(),
        !catalogs.absolute().complete() ==> ({
            let b = catalogs.budget;
            let host = aliased_combined(
                catalogs.executor_lines(false),
                catalogs.orchestrator_lines(false),
                catalogs.host_lines(true),
                b,
            );
            let executor = aliased_combined(
                catalogs.executor_lines(true),
                catalogs.orchestrator_lines(false),
                catalogs.host_lines(false),
                b,
            );
            let orchestrator = aliased_combined(
                catalogs.executor_lines(false),
                catalogs.orchestrator_lines(true),
                catalogs.host_lines(false),
                b,
            );
            let all = aliased_combined(
                catalogs.executor_lines(true),
                catalogs.orchestrator_lines(true),
                catalogs.host_lines(true),
                b,
            );
            let first = preferred(host, catalogs.absolute(), b);
            let second = preferred(executor, first, b);
            let third = preferred(orchestrator, second, b);
            catalogs.selected() == preferred(all, third, b)
        }),
{
}

/// One catalog alone has the budget for itself; several share it. Compact lists that leave anything
/// out give way to the full lists of all catalogs. What the lists count as is said of each.
pub proof fn catalogs_share_or_stand_alone(catalogs: Catalogs)
    ensures
        ({
            let shown = catalogs.rendered();
            let full = Catalogs { stable_compact: false, ..catalogs };
            let visible = (if catalogs.executor_lines(false).skills.len() > 0 { 1int } else { 0 })
                + (if catalogs.orchestrator_lines(false).skills.len() > 0 { 1int } else { 0 }) + (
            if catalogs.host_lines(false).skills.len() > 0 { 1int } else { 0 });
            let outcome = if catalogs.stable_compact {
                SkillCatalogRenderOutcome::Compact
            } else {
                SkillCatalogRenderOutcome::Legacy
            };
            &&& visible == catalogs.nonempty()
            &&& visible > 1 && (!catalogs.stable_compact || catalogs.selected().complete()) ==> {
                &&& shown.executor is Some && shown.orchestrator is Some && shown.host is Some
                &&& shown.executor->0.rendered == catalogs.selected().executor.rendered
                &&& shown.executor->0.full_body == catalogs.selected().executor.full_body
                &&& shown.orchestrator->0.rendered == catalogs.selected().orchestrator.rendered
                &&& shown.orchestrator->0.full_body == catalogs.selected().orchestrator.full_body
                &&& shown.host->0.rendered == catalogs.selected().host.rendered
                &&& shown.host->0.full_body == catalogs.selected().host.full_body
                &&& shown.executor->0.outcome == Some(outcome)
                &&& shown.orchestrator->0.outcome == Some(outcome)
                &&& shown.host->0.outcome == Some(outcome)
            }
            &&& visible > 1 && catalogs.stable_compact && !catalogs.selected().complete() ==> {
                &&& shown.executor is Some && shown.orchestrator is Some && shown.host is Some
                &&& shown.executor->0.rendered == full.selected().executor.rendered
                &&& shown.executor->0.full_body == full.selected().executor.full_body
                &&& shown.orchestrator->0.rendered == full.selected().orchestrator.rendered
                &&& shown.orchestrator->0.full_body == full.selected().orchestrator.full_body
                &&& shown.host->0.rendered == full.selected().host.rendered
                &&& shown.host->0.full_body == full.selected().host.full_body
                &&& shown.executor->0.outcome == Some(SkillCatalogRenderOutcome::Fallback)
                &&& shown.orchestrator->0.outcome == Some(SkillCatalogRenderOutcome::Fallback)
                &&& shown.host->0.outcome == Some(SkillCatalogRenderOutcome::Fallback)
            }
            &&& visible <= 1 ==> {
                &&& (match (
                    shown.host,
                    available_skills(
                        catalogs.budget,
                        catalogs.prompt,
                        catalogs.host,
                        host_policy(catalogs.stable_compact),
                        SkillCatalogRenderPolicy::CoreCompatible,
                    ),
                ) {
                    (Some(list), Some(own)) => list.rendered == own.rendered && list.full_body
                        == own.full_body && list.outcome == Some(outcome),
                    (None, None) => true,
                    _ => false,
                })
                &&& (match (
                    shown.executor,
                    available_skills(
                        catalogs.budget,
                        catalogs.prompt,
                        catalogs.executor,
                        if catalogs.stable_compact {
                            SkillCatalogRenderPolicy::StableCompact
                        } else {
                            SkillCatalogRenderPolicy::ExtensionCompatible
                        },
                        SkillCatalogRenderPolicy::ExtensionCompatible,
                    ),
                ) {
                    (Some(list), Some(own)) => list.rendered == own.rendered && list.full_body
                        == own.full_body && list.outcome == Some(outcome),
                    (None, None) => true,
                    _ => false,
                })
                &&& (match (
                    shown.orchestrator,
                    available_skills(
                        catalogs.budget,
                        catalogs.prompt,
                        catalogs.orchestrator,
                        if catalogs.stable_compact {
                            SkillCatalogRenderPolicy::StableCompact
                        } else {
                            SkillCatalogRenderPolicy::ExtensionCompatible
                        },
                        SkillCatalogRenderPolicy::ExtensionCompatible,
                    ),
                ) {
                    (Some(list), Some(own)) => list.rendered == own.rendered && list.full_body
                        == own.full_body && list.outcome == Some(outcome),
                    (None, None) => true,
                    _ => false,
                })
            }
        }),
{
}

proof fn inserted_by_rank(entries: Seq<EntryModel>, order: Seq<int>, position: int)
    requires
        forall|i: int, j: int|
            0 <= i < j < order.len() ==> root_rank(entries[#[trigger] order[i]]) <= root_rank(
                entries[#[trigger] order[j]],
            ),
    ensures
        ({
            let now = insert_by_rank(entries, order, position);
            &&& now.len() == order.len() + 1
            &&& forall|i: int, j: int|
                0 <= i < j < now.len() ==> root_rank(entries[#[trigger] now[i]]) <= root_rank(
                    entries[#[trigger] now[j]],
                )
            &&& forall|i: int|
                0 <= i < now.len() ==> #[trigger] now[i] == position || order.contains(now[i])
            &&& exists|at: int|
                0 <= at <= order.len() && now == #[trigger] order.insert(at, position)
        }),
    decreases order.len(),
{
    let now = insert_by_rank(entries, order, position);
    if order.len() == 0 {
        assert(now =~= order.insert(0, position));
    } else if root_rank(entries[position]) < root_rank(entries[order.last()]) {
        let front = order.drop_last();
        assert forall|i: int, j: int| 0 <= i < j < front.len() implies root_rank(
            entries[#[trigger] front[i]],
        ) <= root_rank(entries[#[trigger] front[j]]) by {
            assert(front[i] == order[i] && front[j] == order[j]);
        }
        inserted_by_rank(entries, front, position);
        let before = insert_by_rank(entries, front, position);
        let at = choose|at: int|
            0 <= at <= front.len() && before == #[trigger] front.insert(at, position);
        assert(now =~= order.insert(at, position));
        assert forall|i: int| 0 <= i < now.len() implies #[trigger] now[i] == position
            || order.contains(now[i]) by {
            if i < before.len() {
                assert(now[i] == before[i]);
                if before[i] != position {
                    let k = front.index_of(before[i]);
                    assert(order[k] == now[i]);
                }
            } else {
                assert(order[order.len() - 1] == now[i]);
            }
        }
        assert forall|i: int, j: int| 0 <= i < j < now.len() implies root_rank(
            entries[#[trigger] now[i]],
        ) <= root_rank(entries[#[trigger] now[j]]) by {
            if j == before.len() {
                assert(now[i] == before[i]);
                if before[i] != position {
                    let k = front.index_of(before[i]);
                    assert(order[k] == before[i]);
                    assert(order[order.len() - 1] == order.last());
                    assert(root_rank(entries[order[k]]) <= root_rank(
                        entries[order[order.len() - 1]],
                    ));
                }
            } else {
                assert(now[i] == before[i] && now[j] == before[j]);
            }
        }
    } else {
        assert(now =~= order.insert(order.len() as int, position));
        assert forall|i: int| 0 <= i < now.len() implies #[trigger] now[i] == position
            || order.contains(now[i]) by {
            if i < order.len() {
                assert(order[i] == now[i]);
            }
        }
        assert forall|i: int, j: int| 0 <= i < j < now.len() implies root_rank(
            entries[#[trigger] now[i]],
        ) <= root_rank(entries[#[trigger] now[j]]) by {
            if j == order.len() {
                assert(order[order.len() - 1] == order.last());
                if i < order.len() - 1 {
                    assert(root_rank(entries[order[i]]) <= root_rank(
                        entries[order[order.len() - 1]],
                    ));
                }
            } else {
                assert(now[i] == order[i] && now[j] == order[j]);
            }
        }
    }
}

/// Sorted by the rank of their roots, positions are all there, each where its rank puts it; an entry
/// whose root has no rank comes last.
pub proof fn positions_are_ranked(entries: Seq<EntryModel>, order: Seq<int>)
    ensures
        by_rank(entries, order).len() == order.len(),
        by_rank(entries, order).to_multiset() == order.to_multiset(),
        forall|i: int, j: int|
            0 <= i < j < by_rank(entries, order).len() ==> root_rank(
                entries[#[trigger] by_rank(entries, order)[i]],
            ) <= root_rank(entries[#[trigger] by_rank(entries, order)[j]]),
        forall|entry: EntryModel|
            #[trigger] root_rank(entry) == (match entry.alias_root_order {
                Some(rank) => rank,
                None => usize::MAX,
            }),
    decreases order.len(),
{
    broadcast use vstd::seq_lib::group_to_multiset_ensures;

    if order.len() > 0 {
        let front = order.drop_last();
        positions_are_ranked(entries, front);
        let before = by_rank(entries, front);
        inserted_by_rank(entries, before, order.last());
        let now = by_rank(entries, order);
        let at = choose|at: int|
            0 <= at <= before.len() && now == #[trigger] before.insert(at, order.last());
        vstd::seq_lib::to_multiset_insert(before, at, order.last());
        assert(order =~= front.push(order.last()));
    } else {
        assert(by_rank(entries, order) =~= order);
    }
}

/// The roots of entries are those of all that have one, in order.
pub proof fn roots_are_all_listed(entries: Seq<EntryModel>, order: Seq<int>, position: int)
    ensures
        roots_of(entries, seq![]).len() == 0,
        roots_of(entries, order.push(position)) == (match entries[position].alias_root {
            Some(root) => roots_of(entries, order).push(root),
            None => roots_of(entries, order),
        }),
{
    assert(order.push(position).drop_last() =~= order);
    assert(order.push(position).last() == position);
}

proof fn ranked_step(
    entries: Seq<EntryModel>,
    order: Seq<int>,
    position: int,
    rank: usize,
    of: spec_fn(int) -> bool,
)
    requires
        forall|i: int| #[trigger] of(i) == (root_rank(entries[i]) == rank),
    ensures
        insert_by_rank(entries, order, position).filter(of) == order.push(position).filter(of),
    decreases order.len(),
{
    reveal(Seq::filter);
    let now = insert_by_rank(entries, order, position);
    if order.len() == 0 {
        assert(now =~= order.push(position));
    } else if root_rank(entries[position]) < root_rank(entries[order.last()]) {
        let front = order.drop_last();
        ranked_step(entries, front, position, rank, of);
        let before = insert_by_rank(entries, front, position);
        assert(now.drop_last() =~= before);
        assert(front.push(position).drop_last() =~= front);
        assert(order.push(position).drop_last() =~= order);
        assert(of(position) ==> !of(order.last()));
        assert(now.filter(of) == if of(order.last()) {
            before.filter(of).push(order.last())
        } else {
            before.filter(of)
        });
        assert(order.filter(of) == if of(order.last()) {
            front.filter(of).push(order.last())
        } else {
            front.filter(of)
        });
    } else {
        assert(now =~= order.push(position));
    }
}

proof fn ranked_apart(
    entries: Seq<EntryModel>,
    order: Seq<int>,
    rank: usize,
    of: spec_fn(int) -> bool,
)
    requires
        forall|i: int| #[trigger] of(i) == (root_rank(entries[i]) == rank),
    ensures
        by_rank(entries, order).filter(of) == order.filter(of),
    decreases order.len(),
{
    reveal(Seq::filter);
    if order.len() > 0 {
        let front = order.drop_last();
        ranked_apart(entries, front, rank, of);
        let before = by_rank(entries, front);
        ranked_step(entries, before, order.last(), rank, of);
        assert(before.push(order.last()).drop_last() =~= before);
    } else {
        assert(by_rank(entries, order) =~= order);
    }
}

/// Positions whose roots have the same rank keep their order when they are sorted.
pub proof fn equal_ranks_keep_their_order(entries: Seq<EntryModel>, order: Seq<int>, rank: usize)
    ensures
        by_rank(entries, order).filter(|i: int| root_rank(entries[i]) == rank) == order.filter(
            |i: int| root_rank(entries[i]) == rank,
        ),
{
    ranked_apart(entries, order, rank, |i: int| root_rank(entries[i]) == rank);
}

/// A plan of aliases is asked for exactly where the visible entries are of one source that has
/// aliases. It is made from all of these entries, by the rank of their roots, under the prefix of
/// their source; roots are given for any source but the host.
pub proof fn plans_are_asked_for(
    request: Option<AliasRequest>,
    catalog: CatalogModel,
    policy: SkillCatalogRenderPolicy,
    source: SourceModel,
)
    requires
        requests_plan(request, catalog, policy),
        catalog.order(policy).len() > 0,
        forall|i: int|
            0 <= i < catalog.order(policy).len() ==> catalog.entries[#[trigger] catalog.order(
                policy,
            )[i]].kind == source,
    ensures
        request is None <==> source is Custom,
        request matches Some(request) ==> {
            let asked = positions(request.order@);
            &&& request.prefix@ == (if source is Host {
                "r"@
            } else if source is Executor {
                "e"@
            } else {
                "o"@
            })
            &&& asked.to_multiset() == catalog.order(policy).to_multiset()
            &&& forall|i: int, j: int|
                0 <= i < j < asked.len() ==> root_rank(catalog.entries[#[trigger] asked[i]])
                    <= root_rank(catalog.entries[#[trigger] asked[j]])
            &&& request.roots is None <==> source is Host
            &&& request.roots matches Some(roots) ==> texts(roots@) == roots_of(
                catalog.entries,
                asked,
            )
        },
{
    one_source_has_aliases(catalog.entries, catalog.order(policy), source);
    positions_are_ranked(catalog.entries, catalog.order(policy));
    if source is Custom {
        assert(catalog.entries[catalog.order(policy)[0]].kind == source);
    }
}

} // verus!

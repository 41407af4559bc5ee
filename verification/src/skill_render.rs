//! The list of skills that the model sees: one catalog alone, or three under one budget.

use vstd::prelude::*;
use vstd::string::*;

use crate::history::{copy_texts, texts};
use crate::protocol::optional_text;
use crate::read_tool_output::sum_size;
use crate::skill_lines::{
    add_omission_marker, allocate_skill_lines, allocated, allocation_fits, capped, entry_line,
    entry_locator, fits_machine, line_models, lines_total, locator_of, marker_fits,
    missing_chars, missing_count, omitted, rendered_line, rendered_lines_cost,
    render_allocated_skill_lines, reserve_non_host_omission_marker, reserved, reserved_fits,
    shown_concat, shown_lines, shown_or_omitted, totals_concat, totals_same_unit, description_bounded, with_marker, LineModel, SkillLine, SkillLineAllocation,
};
use crate::skill_policy::{
    entry_models, extension_policy, line_cost, metadata_line_cost, policy_order, positions, within,
    catalog_render_policy, EntryModel, SkillCatalogEntry, SkillCatalogRenderOutcome,
    SkillCatalogRenderPolicy, SkillMetadataBudget, SkillRenderReport, SkillSourceKind, SourceModel,
};

verus! {

/// Which instructions stand around a list of skills.
#[derive(Clone, Copy, Debug, PartialEq, Eq, Structural)]
pub enum SkillPromptKind {
    Unaliased,
    Host,
    Executor,
    Orchestrator,
}

impl SkillPromptKind {
    /// The kind for a source whose locators are shortened.
    pub open spec fn spec_for_aliased_source(kind: SourceModel) -> SkillPromptKind {
        match kind {
            SourceModel::Host => SkillPromptKind::Host,
            SourceModel::Executor => SkillPromptKind::Executor,
            SourceModel::Orchestrator => SkillPromptKind::Orchestrator,
            SourceModel::Custom(_) => SkillPromptKind::Unaliased,
        }
    }

    /// The kind for a source whose locators are shortened.
    pub fn for_aliased_source(kind: &SkillSourceKind) -> (r: SkillPromptKind)
        ensures
            r == SkillPromptKind::spec_for_aliased_source(kind@),
    {
        match kind {
            SkillSourceKind::Host => SkillPromptKind::Host,
            SkillSourceKind::Executor => SkillPromptKind::Executor,
            SkillSourceKind::Orchestrator => SkillPromptKind::Orchestrator,
            SkillSourceKind::Custom(_) => SkillPromptKind::Unaliased,
        }
    }
}

/// Aliases for the roots of a catalog's locators.
#[derive(Debug)]
pub struct AliasPlan {
    /// The lines that introduce the aliases.
    pub root_lines: Vec<String>,
    /// The shortened locator of each entry of the catalog, where an alias fits it.
    pub shortened: Vec<Option<String>>,
    /// The list with these root lines and no skills.
    pub empty_body: String,
    /// How the model is told to read aliases.
    pub instructions: Option<String>,
}

/// The model of an [`AliasPlan`].
pub struct PlanModel {
    pub root_lines: Seq<Seq<char>>,
    pub shortened: Seq<Option<Seq<char>>>,
    pub empty_body: Seq<char>,
    pub instructions: Option<Seq<char>>,
}

impl View for AliasPlan {
    type V = PlanModel;

    open spec fn view(&self) -> PlanModel {
        PlanModel {
            root_lines: texts(self.root_lines@),
            shortened: self.shortened@.map_values(|text: Option<String>| optional_text(text)),
            empty_body: self.empty_body@,
            instructions: optional_text(self.instructions),
        }
    }
}

/// The model of a plan that may be missing.
pub open spec fn plan_model(plan: Option<AliasPlan>) -> Option<PlanModel> {
    match plan {
        Some(plan) => Some(plan@),
        None => None,
    }
}

/// The skills of one source, with the aliases for the entries in catalog order and in sorted
/// order.
#[derive(Debug)]
pub struct SkillCatalog {
    pub entries: Vec<SkillCatalogEntry>,
    pub listed_plan: Option<AliasPlan>,
    pub sorted_plan: Option<AliasPlan>,
}

/// The model of a [`SkillCatalog`].
pub struct CatalogModel {
    pub entries: Seq<EntryModel>,
    pub listed_plan: Option<PlanModel>,
    pub sorted_plan: Option<PlanModel>,
}

impl View for SkillCatalog {
    type V = CatalogModel;

    open spec fn view(&self) -> CatalogModel {
        CatalogModel {
            entries: entry_models(self.entries@),
            listed_plan: plan_model(self.listed_plan),
            sorted_plan: plan_model(self.sorted_plan),
        }
    }
}

impl CatalogModel {
    /// The visible entries in the order of a policy.
    pub open spec fn order(self, policy: SkillCatalogRenderPolicy) -> Seq<int> {
        policy_order(self.entries, policy)
    }

    /// The aliases for the entries in the order of a policy.
    pub open spec fn plan(self, policy: SkillCatalogRenderPolicy) -> Option<PlanModel> {
        match policy {
            SkillCatalogRenderPolicy::ExtensionCompatible => self.listed_plan,
            _ => self.sorted_plan,
        }
    }
}

/// What stands around a list of skills.
#[derive(Debug)]
pub struct SkillPrompt {
    /// The list without aliases and without skills.
    pub unaliased_body: String,
    pub include_skills_usage_instructions: bool,
}

/// What the aliases of a plan cost on top of the list without aliases.
pub open spec fn alias_cost(
    budget: SkillMetadataBudget,
    prompt: SkillPrompt,
    plan: PlanModel,
) -> usize {
    let instructions = match plan.instructions {
        Some(text) => if prompt.include_skills_usage_instructions {
            line_cost(budget, text) as int
        } else {
            0
        },
        None => 0,
    };
    let aliased = sum_size(budget.spec_cost(plan.empty_body) as int, instructions);
    let unaliased = budget.spec_cost(prompt.unaliased_body@);
    if aliased >= unaliased {
        (aliased - unaliased) as usize
    } else {
        0
    }
}

/// What the aliases of a plan cost on top of the list without aliases.
pub fn aliased_metadata_overhead_cost(
    budget: SkillMetadataBudget,
    prompt: &SkillPrompt,
    plan: &AliasPlan,
) -> (r: usize)
    ensures
        r == alias_cost(budget, *prompt, plan@),
{
    let mut instructions: usize = 0;
    if let Some(text) = &plan.instructions {
        if prompt.include_skills_usage_instructions {
            instructions = metadata_line_cost(budget, text.as_str());
        }
    }
    budget.cost(plan.empty_body.as_str()).saturating_add(instructions).saturating_sub(
        budget.cost(prompt.unaliased_body.as_str()),
    )
}

/// The lines of a catalog before any is cut.
#[derive(Debug)]
pub struct CatalogLines {
    pub prompt_kind: SkillPromptKind,
    pub skills: Vec<SkillLine>,
    pub root_lines: Vec<String>,
    /// What the root lines cost.
    pub root_cost: usize,
}

/// The model of [`CatalogLines`].
#[verifier::ext_equal]
pub struct LinesModel {
    pub prompt_kind: SkillPromptKind,
    pub skills: Seq<LineModel>,
    pub root_lines: Seq<Seq<char>>,
    pub root_cost: usize,
}

impl View for CatalogLines {
    type V = LinesModel;

    open spec fn view(&self) -> LinesModel {
        LinesModel {
            prompt_kind: self.prompt_kind,
            skills: line_models(self.skills@),
            root_lines: texts(self.root_lines@),
            root_cost: self.root_cost,
        }
    }
}

/// The lines of a catalog with the locators of its entries.
pub open spec fn unaliased_lines(
    catalog: CatalogModel,
    policy: SkillCatalogRenderPolicy,
    full_policy: SkillCatalogRenderPolicy,
) -> LinesModel {
    LinesModel {
        prompt_kind: SkillPromptKind::Unaliased,
        skills: catalog.order(policy).map_values(
            |i: int|
                entry_line(
                    catalog.entries[i],
                    policy,
                    full_policy,
                    entry_locator(catalog.entries[i]),
                ),
        ),
        root_lines: seq![],
        root_cost: 0,
    }
}

/// The source of entries that all have the same one, if aliases can stand for its roots.
pub open spec fn aliased_source(entries: Seq<EntryModel>, order: Seq<int>) -> Option<SourceModel> {
    if order.len() == 0 || (exists|i: int|
        0 <= i < order.len() && entries[#[trigger] order[i]].kind != entries[order[0]].kind)
        || entries[order[0]].kind is Custom {
        None
    } else {
        Some(entries[order[0]].kind)
    }
}

/// The locator of an entry where a plan shortens it.
pub open spec fn aliased_locator(catalog: CatalogModel, plan: PlanModel, i: int) -> Seq<char> {
    if catalog.entries[i].alias_root is None || i >= plan.shortened.len()
        || plan.shortened[i] is None {
        entry_locator(catalog.entries[i])
    } else {
        plan.shortened[i]->0
    }
}

/// The lines of a catalog with shortened locators, where there are aliases for them.
pub open spec fn aliased_lines(
    budget: SkillMetadataBudget,
    prompt: SkillPrompt,
    catalog: CatalogModel,
    policy: SkillCatalogRenderPolicy,
    full_policy: SkillCatalogRenderPolicy,
) -> LinesModel {
    match (aliased_source(catalog.entries, catalog.order(policy)), catalog.plan(policy)) {
        (Some(source), Some(plan)) => LinesModel {
            prompt_kind: SkillPromptKind::spec_for_aliased_source(source),
            skills: catalog.order(policy).map_values(
                |i: int|
                    entry_line(
                        catalog.entries[i],
                        policy,
                        full_policy,
                        aliased_locator(catalog, plan, i),
                    ),
            ),
            root_lines: plan.root_lines,
            root_cost: if plan.root_lines.len() == 0 {
                0
            } else {
                alias_cost(budget, prompt, plan)
            },
        },
        _ => unaliased_lines(catalog, policy, full_policy),
    }
}

fn find_aliased_source<'a>(
    entries: &'a Vec<SkillCatalogEntry>,
    order: &Vec<usize>,
) -> (r: Option<&'a SkillSourceKind>)
    requires
        within(positions(order@), entries@.len() as int),
    ensures
        (match r {
            Some(kind) => aliased_source(entry_models(entries@), positions(order@)) == Some(kind@),
            None => aliased_source(entry_models(entries@), positions(order@)) is None,
        }),
{
    let ghost all = entry_models(entries@);
    let ghost list = positions(order@);
    if order.len() == 0 {
        return None;
    }
    proof {
        assert(list[0] == order@[0]);
        assert(all[list[0]] == entries@[order@[0] as int]@);
    }
    let source = &entries[order[0]].kind;
    let mut i: usize = 0;
    while i < order.len()
        invariant
            i <= order@.len(),
            order@.len() > 0,
            all == entry_models(entries@),
            list == positions(order@),
            within(list, entries@.len() as int),
            source@ == all[list[0]].kind,
            forall|j: int| 0 <= j < i ==> all[#[trigger] list[j]].kind == all[list[0]].kind,
        decreases order@.len() - i,
    {
        proof {
            assert(list[i as int] == order@[i as int]);
            assert(all[list[i as int]] == entries@[order@[i as int] as int]@);
        }
        if !entries[order[i]].kind.same(source) {
            return None;
        }
        i += 1;
    }
    if let SkillSourceKind::Custom(_) = source {
        return None;
    }
    Some(source)
}

fn locator_with_aliases(catalog: &SkillCatalog, plan: &AliasPlan, i: usize) -> (r: String)
    requires
        i < catalog.entries@.len(),
    ensures
        r@ == aliased_locator(catalog@, plan@, i as int),
{
    proof {
        assert(catalog@.entries[i as int] == catalog.entries@[i as int]@);
        if i < plan.shortened@.len() {
            assert(plan@.shortened[i as int] == optional_text(plan.shortened@[i as int]));
        }
    }
    if catalog.entries[i].alias_root.is_some() && i < plan.shortened.len() {
        if let Some(text) = &plan.shortened[i] {
            return text.clone();
        }
    }
    locator_of(&catalog.entries[i])
}

impl CatalogLines {
    /// The lines of a catalog with the locators of its entries.
    pub fn unaliased(
        catalog: &SkillCatalog,
        policy: SkillCatalogRenderPolicy,
        full_policy: SkillCatalogRenderPolicy,
    ) -> (r: CatalogLines)
        ensures
            r@ == unaliased_lines(catalog@, policy, full_policy),
    {
        let order = policy.order_entries(&catalog.entries);
        let ghost goal = unaliased_lines(catalog@, policy, full_policy).skills;
        let mut skills: Vec<SkillLine> = Vec::new();
        let mut i: usize = 0;
        while i < order.len()
            invariant
                i <= order@.len(),
                positions(order@) == catalog@.order(policy),
                within(positions(order@), catalog.entries@.len() as int),
                goal == unaliased_lines(catalog@, policy, full_policy).skills,
                line_models(skills@) == goal.take(i as int),
            decreases order@.len() - i,
        {
            let ghost before = skills@;
            proof {
                assert(positions(order@)[i as int] == order@[i as int]);
                assert(catalog@.entries[order@[i as int] as int]
                    == catalog.entries@[order@[i as int] as int]@);
            }
            skills.push(
                SkillLine::new_with_full_policy(&catalog.entries[order[i]], policy, full_policy),
            );
            i += 1;
            proof {
                assert(goal.take(i as int) =~= goal.take(i - 1).push(goal[i - 1]));
                assert(line_models(skills@) =~= line_models(before).push(goal[i - 1]));
            }
        }
        let root_lines: Vec<String> = Vec::new();
        proof {
            assert(goal.take(i as int) =~= goal);
            assert(texts(root_lines@) =~= Seq::<Seq<char>>::empty());
        }
        CatalogLines { prompt_kind: SkillPromptKind::Unaliased, skills, root_lines, root_cost: 0 }
    }

    /// The lines of a catalog with shortened locators, where there are aliases for them.
    pub fn aliased(
        budget: SkillMetadataBudget,
        prompt: &SkillPrompt,
        catalog: &SkillCatalog,
        policy: SkillCatalogRenderPolicy,
        full_policy: SkillCatalogRenderPolicy,
    ) -> (r: CatalogLines)
        ensures
            r@ == aliased_lines(budget, *prompt, catalog@, policy, full_policy),
    {
        let order = policy.order_entries(&catalog.entries);
        let plan: &Option<AliasPlan> = match policy {
            SkillCatalogRenderPolicy::ExtensionCompatible => &catalog.listed_plan,
            _ => &catalog.sorted_plan,
        };
        let source = match find_aliased_source(&catalog.entries, &order) {
            Some(source) => source,
            None => {
                return CatalogLines::unaliased(catalog, policy, full_policy);
            },
        };
        let plan = match plan {
            Some(plan) => plan,
            None => {
                return CatalogLines::unaliased(catalog, policy, full_policy);
            },
        };
        let ghost goal = aliased_lines(budget, *prompt, catalog@, policy, full_policy).skills;
        let mut skills: Vec<SkillLine> = Vec::new();
        let mut i: usize = 0;
        while i < order.len()
            invariant
                i <= order@.len(),
                positions(order@) == catalog@.order(policy),
                within(positions(order@), catalog.entries@.len() as int),
                goal == catalog@.order(policy).map_values(
                    |i: int|
                        entry_line(
                            catalog@.entries[i],
                            policy,
                            full_policy,
                            aliased_locator(catalog@, plan@, i),
                        ),
                ),
                line_models(skills@) == goal.take(i as int),
            decreases order@.len() - i,
        {
            proof {
                assert(positions(order@)[i as int] == order@[i as int]);
                assert(catalog@.entries[order@[i as int] as int]
                    == catalog.entries@[order@[i as int] as int]@);
            }
            let ghost before = skills@;
            let locator = locator_with_aliases(catalog, plan, order[i]);
            skills.push(
                SkillLine::with_locator_and_full_policy(
                    &catalog.entries[order[i]],
                    policy,
                    full_policy,
                    locator,
                ),
            );
            i += 1;
            proof {
                assert(goal.take(i as int) =~= goal.take(i - 1).push(goal[i - 1]));
                assert(line_models(skills@) =~= line_models(before).push(goal[i - 1]));
            }
        }
        proof {
            assert(goal.take(i as int) =~= goal);
        }
        let root_cost: usize = if plan.root_lines.len() == 0 {
            0
        } else {
            aliased_metadata_overhead_cost(budget, prompt, plan)
        };
        CatalogLines {
            prompt_kind: SkillPromptKind::for_aliased_source(source),
            skills,
            root_lines: copy_texts(&plan.root_lines),
            root_cost,
        }
    }
}

/// A list of skills with what stands before it.
#[derive(Debug)]
pub struct CatalogBody {
    pub prompt_kind: SkillPromptKind,
    pub root_lines: Vec<String>,
    pub lines: Vec<String>,
}

/// The model of a [`CatalogBody`].
#[verifier::ext_equal]
pub struct BodyModel {
    pub prompt_kind: SkillPromptKind,
    pub root_lines: Seq<Seq<char>>,
    pub lines: Seq<Seq<char>>,
}

impl View for CatalogBody {
    type V = BodyModel;

    open spec fn view(&self) -> BodyModel {
        BodyModel {
            prompt_kind: self.prompt_kind,
            root_lines: texts(self.root_lines@),
            lines: texts(self.lines@),
        }
    }
}

/// A catalog as it is shown.
#[derive(Debug)]
pub struct RenderedCatalog {
    pub body: CatalogBody,
    pub report: SkillRenderReport,
    pub root_cost: usize,
}

/// The model of a [`RenderedCatalog`].
#[verifier::ext_equal]
pub struct RenderedModel {
    pub body: BodyModel,
    pub report: SkillRenderReport,
    pub root_cost: usize,
}

impl View for RenderedCatalog {
    type V = RenderedModel;

    open spec fn view(&self) -> RenderedModel {
        RenderedModel { body: self.body@, report: self.report, root_cost: self.root_cost }
    }
}

impl RenderedModel {
    /// What the list costs with its root lines.
    pub open spec fn cost(self, budget: SkillMetadataBudget) -> int {
        self.root_cost + lines_total(budget, self.body.lines)
    }

    /// Whether nothing is left out.
    pub open spec fn complete(self) -> bool {
        self.report.omitted_count == 0 && self.report.truncated_description_chars == 0
    }
}

/// What lines and their allocations report.
pub open spec fn report_of(
    lines: Seq<LineModel>,
    allocations: Seq<SkillLineAllocation>,
    left_out: nat,
) -> SkillRenderReport {
    SkillRenderReport {
        total_count: lines.len() as usize,
        included_count: (lines.len() - left_out) as usize,
        omitted_count: left_out as usize,
        truncated_description_chars: capped(missing_chars(lines, allocations) as int),
        truncated_description_count: missing_count(lines, allocations) as usize,
    }
}

/// A catalog alone under a budget.
pub open spec fn rendered_catalog(
    catalog: LinesModel,
    budget: SkillMetadataBudget,
    policy: SkillCatalogRenderPolicy,
) -> RenderedModel {
    let allocations = allocated(catalog.skills, budget);
    let shown = shown_lines(catalog.skills, allocations);
    let (lines, left_out) = if omitted(allocations) > 0 && policy.spec_includes_notice() {
        with_marker(budget, shown, omitted(allocations))
    } else {
        (shown, omitted(allocations))
    };
    RenderedModel {
        body: BodyModel {
            prompt_kind: catalog.prompt_kind,
            root_lines: catalog.root_lines,
            lines,
        },
        report: report_of(catalog.skills, allocations, left_out),
        root_cost: catalog.root_cost,
    }
}

/// A catalog alone never costs more than its budget, and its report counts every skill.
pub proof fn catalog_fits(
    catalog: LinesModel,
    budget: SkillMetadataBudget,
    policy: SkillCatalogRenderPolicy,
)
    requires
        fits_machine(catalog.skills),
        catalog.skills.len() <= usize::MAX,
    ensures
        capped(
            lines_total(budget, rendered_catalog(catalog, budget, policy).body.lines) as int,
        ) <= budget.spec_limit(),
        rendered_catalog(catalog, budget, policy).report.included_count + rendered_catalog(
            catalog,
            budget,
            policy,
        ).report.omitted_count == catalog.skills.len(),
{
    let allocations = allocated(catalog.skills, budget);
    allocation_fits(catalog.skills, budget);
    shown_or_omitted(catalog.skills, allocations);
    marker_fits(budget, shown_lines(catalog.skills, allocations), omitted(allocations));
}

/// Where skills are left out, the lines that are shown stay under the limit even uncut.
proof fn omission_means_small(lines: Seq<LineModel>, budget: SkillMetadataBudget)
    requires
        fits_machine(lines),
        omitted(allocated(lines, budget)) > 0,
    ensures
        lines_total(budget, shown_lines(lines, allocated(lines, budget))) <= budget.spec_limit(),
{
    allocation_fits(lines, budget);
    if budget.spec_limit() == usize::MAX {
        let all = lines.map_values(
            |line: LineModel|
                SkillLineAllocation::DescriptionChars(line.description.len() as usize),
        );
        nothing_omitted(all);
    }
}

proof fn nothing_omitted(allocations: Seq<SkillLineAllocation>)
    requires
        forall|i: int|
            0 <= i < allocations.len() ==> #[trigger] allocations[i] is DescriptionChars,
    ensures
        omitted(allocations) == 0,
    decreases allocations.len(),
{
    if allocations.len() > 0 {
        nothing_omitted(allocations.drop_last());
    }
}

/// A catalog alone under a budget.
pub fn render_catalog(
    catalog: CatalogLines,
    budget: SkillMetadataBudget,
    policy: SkillCatalogRenderPolicy,
) -> (r: RenderedCatalog)
    ensures
        r@ == rendered_catalog(catalog@, budget, policy),
        fits_machine(catalog@.skills),
{
    let total_count: usize = catalog.skills.len();
    let allocations = allocate_skill_lines(&catalog.skills, budget);
    let ghost models = line_models(catalog.skills@);
    proof {
        shown_or_omitted(models, allocations@);
        assert(models.subrange(0, total_count as int) =~= models);
        assert(allocations@.subrange(0, total_count as int) =~= allocations@);
    }
    let rendered = render_allocated_skill_lines(&catalog.skills, &allocations, 0, total_count);
    let mut lines = rendered.lines;
    let mut left_out: usize = rendered.omitted_count;
    if left_out > 0 && policy.includes_omission_notice() {
        proof {
            omission_means_small(models, budget);
            assert(texts(lines@).len() == lines@.len());
        }
        left_out = add_omission_marker(budget, &mut lines, left_out);
    }
    RenderedCatalog {
        body: CatalogBody {
            prompt_kind: catalog.prompt_kind,
            root_lines: catalog.root_lines,
            lines,
        },
        report: SkillRenderReport {
            total_count,
            included_count: total_count - left_out,
            omitted_count: left_out,
            truncated_description_chars: rendered.truncated_description_chars,
            truncated_description_count: rendered.truncated_description_count,
        },
        root_cost: catalog.root_cost,
    }
}

/// Whether a list with aliases shows more than one without: more skills, then more of their
/// descriptions, then the same at a lower cost.
pub open spec fn is_better(
    aliased: RenderedModel,
    absolute: RenderedModel,
    budget: SkillMetadataBudget,
) -> bool {
    if aliased.report.included_count != absolute.report.included_count {
        aliased.report.included_count > absolute.report.included_count
    } else if aliased.report.truncated_description_chars
        != absolute.report.truncated_description_chars {
        aliased.report.truncated_description_chars < absolute.report.truncated_description_chars
    } else {
        capped(aliased.cost(budget)) < capped(absolute.cost(budget))
    }
}

/// Whether a list with aliases shows more than one without.
pub fn aliased_render_is_better(
    aliased: &RenderedCatalog,
    absolute: &RenderedCatalog,
    budget: SkillMetadataBudget,
) -> (r: bool)
    ensures
        r == is_better(aliased@, absolute@, budget),
{
    if aliased.report.included_count != absolute.report.included_count {
        return aliased.report.included_count > absolute.report.included_count;
    }
    if aliased.report.truncated_description_chars != absolute.report.truncated_description_chars {
        return aliased.report.truncated_description_chars
            < absolute.report.truncated_description_chars;
    }
    rendered_lines_cost(budget, aliased.root_cost, &aliased.body.lines) < rendered_lines_cost(
        budget,
        absolute.root_cost,
        &absolute.body.lines,
    )
}

/// The list with aliases, where there are any and the budget holds more than them.
pub open spec fn aliased_catalog(
    budget: SkillMetadataBudget,
    prompt: SkillPrompt,
    catalog: CatalogModel,
    policy: SkillCatalogRenderPolicy,
    full_policy: SkillCatalogRenderPolicy,
) -> Option<RenderedModel> {
    let lines = aliased_lines(budget, prompt, catalog, policy, full_policy);
    if lines.root_lines.len() == 0 || lines.root_cost >= budget.spec_limit() {
        None
    } else {
        Some(
            rendered_catalog(
                lines,
                budget.spec_with_limit((budget.spec_limit() - lines.root_cost) as usize),
                policy,
            ),
        )
    }
}

/// The list with aliases, where there are any and the budget holds more than them.
fn build_aliased_catalog(
    budget: SkillMetadataBudget,
    prompt: &SkillPrompt,
    catalog: &SkillCatalog,
    policy: SkillCatalogRenderPolicy,
    full_policy: SkillCatalogRenderPolicy,
) -> (r: Option<RenderedCatalog>)
    ensures
        (match r {
            Some(rendered) => Some(rendered@),
            None => None,
        }) == aliased_catalog(budget, *prompt, catalog@, policy, full_policy),
{
    let lines = CatalogLines::aliased(budget, prompt, catalog, policy, full_policy);
    if lines.root_lines.len() == 0 {
        return None;
    }
    if lines.root_cost >= budget.limit() {
        return None;
    }
    let adjusted = budget.with_limit(budget.limit() - lines.root_cost);
    Some(render_catalog(lines, adjusted, policy))
}

/// The list of one catalog under one policy.
pub open spec fn selected_catalog(
    budget: SkillMetadataBudget,
    prompt: SkillPrompt,
    catalog: CatalogModel,
    policy: SkillCatalogRenderPolicy,
    full_policy: SkillCatalogRenderPolicy,
) -> RenderedModel {
    let absolute = rendered_catalog(unaliased_lines(catalog, policy, policy), budget, policy);
    match aliased_catalog(budget, prompt, catalog, policy, full_policy) {
        Some(aliased) => if !absolute.complete() && is_better(aliased, absolute, budget) {
            aliased
        } else {
            absolute
        },
        None => absolute,
    }
}

/// Every line in the words of the other policy.
pub open spec fn baseline_lines(lines: Seq<LineModel>) -> Seq<Seq<char>> {
    lines.map_values(|line: LineModel| rendered_line(line, line.full_description))
}

fn render_baselines(lines: &Vec<SkillLine>, from: usize, to: usize) -> (r: Vec<String>)
    requires
        from <= to <= lines@.len(),
    ensures
        texts(r@) == baseline_lines(line_models(lines@).subrange(from as int, to as int)),
{
    let mut out: Vec<String> = Vec::new();
    let mut i: usize = from;
    let ghost goal = baseline_lines(line_models(lines@).subrange(from as int, to as int));
    while i < to
        invariant
            from <= i <= to <= lines@.len(),
            goal == baseline_lines(line_models(lines@).subrange(from as int, to as int)),
            texts(out@) == goal.take(i - from),
        decreases to - i,
    {
        let ghost before = out@;
        out.push(lines[i].render_baseline());
        proof {
            assert(line_models(lines@)[i as int] == lines@[i as int]@);
            assert(goal[i - from] == rendered_line(
                lines@[i as int]@,
                lines@[i as int]@.full_description,
            ));
            assert(goal.take(i + 1 - from) =~= goal.take(i - from).push(goal[i - from]));
            assert(texts(out@) =~= texts(before).push(goal[i - from]));
        }
        i += 1;
    }
    proof {
        assert(goal.take(i - from) =~= goal);
    }
    out
}

/// A list of skills, what it leaves out, and the full list to measure it by.
#[derive(Debug)]
pub struct AvailableSkillsRender {
    pub rendered: RenderedCatalog,
    pub full_body: CatalogBody,
    pub preserve_empty_fragment: bool,
    pub outcome: Option<SkillCatalogRenderOutcome>,
}

/// The model of an [`AvailableSkillsRender`].
#[verifier::ext_equal]
pub struct AvailableModel {
    pub rendered: RenderedModel,
    pub full_body: BodyModel,
    pub preserve_empty_fragment: bool,
    pub outcome: Option<SkillCatalogRenderOutcome>,
}

impl View for AvailableSkillsRender {
    type V = AvailableModel;

    open spec fn view(&self) -> AvailableModel {
        AvailableModel {
            rendered: self.rendered@,
            full_body: self.full_body@,
            preserve_empty_fragment: self.preserve_empty_fragment,
            outcome: self.outcome,
        }
    }
}

/// The model of a list that may be missing.
pub open spec fn available_model(rendered: Option<AvailableSkillsRender>) -> Option<
    AvailableModel,
> {
    match rendered {
        Some(rendered) => Some(rendered@),
        None => None,
    }
}

impl AvailableSkillsRender {
    /// The list to show, if there is anything to show.
    pub fn into_fragment(self) -> (r: Option<CatalogBody>)
        ensures
            (match r {
                Some(body) => Some(body@),
                None => None,
            }) == (if self@.preserve_empty_fragment || self@.rendered.body.lines.len() > 0 {
                Some(self@.rendered.body)
            } else {
                None
            }),
    {
        if self.preserve_empty_fragment || self.rendered.body.lines.len() > 0 {
            Some(self.rendered.body)
        } else {
            None
        }
    }
}

/// The list of one catalog under one policy, whatever it leaves out.
pub open spec fn rendered_once(
    budget: SkillMetadataBudget,
    prompt: SkillPrompt,
    catalog: CatalogModel,
    policy: SkillCatalogRenderPolicy,
    full_policy: SkillCatalogRenderPolicy,
) -> Option<AvailableModel> {
    if catalog.order(policy).len() == 0 {
        None
    } else {
        Some(
            AvailableModel {
                rendered: selected_catalog(budget, prompt, catalog, policy, full_policy),
                full_body: BodyModel {
                    prompt_kind: SkillPromptKind::Unaliased,
                    root_lines: seq![],
                    lines: baseline_lines(unaliased_lines(catalog, policy, full_policy).skills),
                },
                preserve_empty_fragment: policy == SkillCatalogRenderPolicy::CoreCompatible,
                outcome: Some(policy.spec_outcome()),
            },
        )
    }
}

/// The list of one catalog: a compact one that would leave skills out gives way to the full
/// policy.
pub open spec fn available_skills(
    budget: SkillMetadataBudget,
    prompt: SkillPrompt,
    catalog: CatalogModel,
    policy: SkillCatalogRenderPolicy,
    full_policy: SkillCatalogRenderPolicy,
) -> Option<AvailableModel> {
    let once = rendered_once(budget, prompt, catalog, policy, full_policy);
    if policy == SkillCatalogRenderPolicy::StableCompact && once is Some
        && once->0.rendered.report.omitted_count > 0 {
        match rendered_once(budget, prompt, catalog, full_policy, full_policy) {
            Some(full) => Some(
                AvailableModel { outcome: Some(SkillCatalogRenderOutcome::Fallback), ..full },
            ),
            None => None,
        }
    } else {
        once
    }
}

fn render_once(
    catalog: &SkillCatalog,
    policy: SkillCatalogRenderPolicy,
    full_policy: SkillCatalogRenderPolicy,
    budget: SkillMetadataBudget,
    prompt: &SkillPrompt,
) -> (r: Option<AvailableSkillsRender>)
    ensures
        available_model(r) == rendered_once(budget, *prompt, catalog@, policy, full_policy),
{
    let full = CatalogLines::unaliased(catalog, policy, full_policy);
    if full.skills.len() == 0 {
        return None;
    }
    let total: usize = full.skills.len();
    let full_lines = render_baselines(&full.skills, 0, total);
    proof {
        let models = line_models(full.skills@);
        assert(models.subrange(0, total as int) =~= models);
    }
    let absolute = render_catalog(
        CatalogLines::unaliased(catalog, policy, policy),
        budget,
        policy,
    );
    let complete = absolute.report.omitted_count == 0
        && absolute.report.truncated_description_chars == 0;
    let mut selected = absolute;
    if !complete {
        if let Some(aliased) = build_aliased_catalog(budget, prompt, catalog, policy, full_policy) {
            if aliased_render_is_better(&aliased, &selected, budget) {
                selected = aliased;
            }
        }
    }
    let root_lines: Vec<String> = Vec::new();
    proof {
        assert(texts(root_lines@) =~= Seq::<Seq<char>>::empty());
    }
    Some(
        AvailableSkillsRender {
            rendered: selected,
            full_body: CatalogBody {
                prompt_kind: SkillPromptKind::Unaliased,
                root_lines,
                lines: full_lines,
            },
            preserve_empty_fragment: policy == SkillCatalogRenderPolicy::CoreCompatible,
            outcome: Some(policy.outcome()),
        },
    )
}

fn render_available_skills_with_full_policy(
    catalog: &SkillCatalog,
    policy: SkillCatalogRenderPolicy,
    full_policy: SkillCatalogRenderPolicy,
    budget: SkillMetadataBudget,
    prompt: &SkillPrompt,
) -> (r: Option<AvailableSkillsRender>)
    ensures
        available_model(r) == available_skills(budget, *prompt, catalog@, policy, full_policy),
{
    let once = render_once(catalog, policy, full_policy, budget, prompt);
    if policy == SkillCatalogRenderPolicy::StableCompact {
        if let Some(rendered) = &once {
            if rendered.rendered.report.omitted_count > 0 {
                return match render_once(catalog, full_policy, full_policy, budget, prompt) {
                    Some(mut full) => {
                        full.outcome = Some(SkillCatalogRenderOutcome::Fallback);
                        Some(full)
                    },
                    None => None,
                };
            }
        }
    }
    once
}

/// The policy by which a policy's lists are measured when it stands alone.
pub open spec fn measure_of(policy: SkillCatalogRenderPolicy) -> SkillCatalogRenderPolicy {
    match policy {
        SkillCatalogRenderPolicy::StableCompact => SkillCatalogRenderPolicy::ExtensionCompatible,
        _ => policy,
    }
}

/// The list of one catalog.
pub fn render_available_skills(
    catalog: &SkillCatalog,
    policy: SkillCatalogRenderPolicy,
    budget: SkillMetadataBudget,
    prompt: &SkillPrompt,
) -> (r: Option<AvailableSkillsRender>)
    ensures
        available_model(r) == available_skills(
            budget,
            *prompt,
            catalog@,
            policy,
            measure_of(policy),
        ),
{
    let full_policy = match policy {
        SkillCatalogRenderPolicy::StableCompact => SkillCatalogRenderPolicy::ExtensionCompatible,
        _ => policy,
    };
    render_available_skills_with_full_policy(catalog, policy, full_policy, budget, prompt)
}

/// Three catalogs as they are shown together.
#[derive(Debug)]
pub struct CombinedAvailableSkillsRender {
    pub executor: AvailableSkillsRender,
    pub orchestrator: AvailableSkillsRender,
    pub host: AvailableSkillsRender,
}

/// The model of a [`CombinedAvailableSkillsRender`].
#[verifier::ext_equal]
pub struct CombinedModel {
    pub executor: AvailableModel,
    pub orchestrator: AvailableModel,
    pub host: AvailableModel,
}

impl View for CombinedAvailableSkillsRender {
    type V = CombinedModel;

    open spec fn view(&self) -> CombinedModel {
        CombinedModel {
            executor: self.executor@,
            orchestrator: self.orchestrator@,
            host: self.host@,
        }
    }
}

impl CombinedModel {
    /// Whether nothing is left out.
    pub open spec fn complete(self) -> bool {
        self.executor.rendered.complete() && self.orchestrator.rendered.complete()
            && self.host.rendered.complete()
    }

    /// What the lists cost together, with their root lines.
    pub open spec fn cost(self, budget: SkillMetadataBudget) -> int {
        self.executor.rendered.cost(budget) + self.orchestrator.rendered.cost(budget)
            + self.host.rendered.cost(budget)
    }

    /// How many characters of the descriptions are not shown.
    pub open spec fn missing(self) -> usize {
        capped(
            self.executor.rendered.report.truncated_description_chars
                + self.orchestrator.rendered.report.truncated_description_chars
                + self.host.rendered.report.truncated_description_chars,
        )
    }
}

/// One of three catalogs, with the allocations of its lines and the marker that it carries.
pub open spec fn group(
    catalog: LinesModel,
    allocations: Seq<SkillLineAllocation>,
    marker: Option<Seq<char>>,
) -> AvailableModel {
    let shown = shown_lines(catalog.skills, allocations);
    AvailableModel {
        rendered: RenderedModel {
            body: BodyModel {
                prompt_kind: catalog.prompt_kind,
                root_lines: catalog.root_lines,
                lines: match marker {
                    Some(line) => shown.push(line),
                    None => shown,
                },
            },
            report: report_of(catalog.skills, allocations, omitted(allocations)),
            root_cost: catalog.root_cost,
        },
        full_body: BodyModel {
            prompt_kind: catalog.prompt_kind,
            root_lines: catalog.root_lines,
            lines: baseline_lines(catalog.skills),
        },
        preserve_empty_fragment: false,
        outcome: None,
    }
}

/// Three catalogs under one budget: the lines are cut as one list, and the skills of the first
/// two that are left out are counted in a marker behind the last of these two that has any.
pub open spec fn combined(
    executor: LinesModel,
    orchestrator: LinesModel,
    host: LinesModel,
    budget: SkillMetadataBudget,
) -> CombinedModel {
    let all = executor.skills + orchestrator.skills + host.skills;
    let first = executor.skills.len() as int;
    let second = first + orchestrator.skills.len();
    let (allocations, marker) = reserved(all, second, budget, allocated(all, budget));
    CombinedModel {
        executor: group(
            executor,
            allocations.subrange(0, first),
            if first == second {
                marker
            } else {
                None
            },
        ),
        orchestrator: group(
            orchestrator,
            allocations.subrange(first, second),
            if first == second {
                None
            } else {
                marker
            },
        ),
        host: group(host, allocations.subrange(second, all.len() as int), None),
    }
}

fn render_combined_group(
    skill_lines: &Vec<SkillLine>,
    allocations: &Vec<SkillLineAllocation>,
    from: usize,
    to: usize,
    prompt_kind: SkillPromptKind,
    root_lines: Vec<String>,
    root_cost: usize,
    marker: Option<String>,
) -> (r: AvailableSkillsRender)
    requires
        from <= to <= skill_lines@.len(),
        skill_lines@.len() == allocations@.len(),
    ensures
        r@ == group(
            LinesModel {
                prompt_kind,
                skills: line_models(skill_lines@).subrange(from as int, to as int),
                root_lines: texts(root_lines@),
                root_cost,
            },
            allocations@.subrange(from as int, to as int),
            optional_text(marker),
        ),
{
    let rendered = render_allocated_skill_lines(skill_lines, allocations, from, to);
    let ghost models = line_models(skill_lines@).subrange(from as int, to as int);
    let ghost part = allocations@.subrange(from as int, to as int);
    proof {
        shown_or_omitted(models, part);
    }
    let mut lines = rendered.lines;
    let ghost shown = lines@;
    if let Some(line) = marker {
        lines.push(line);
        proof {
            assert(texts(lines@) =~= texts(shown).push(line@));
        }
    }
    let total_count: usize = to - from;
    let full_lines = render_baselines(skill_lines, from, to);
    AvailableSkillsRender {
        full_body: CatalogBody {
            prompt_kind,
            root_lines: copy_texts(&root_lines),
            lines: full_lines,
        },
        rendered: RenderedCatalog {
            body: CatalogBody { prompt_kind, root_lines, lines },
            report: SkillRenderReport {
                total_count,
                included_count: total_count - rendered.omitted_count,
                omitted_count: rendered.omitted_count,
                truncated_description_chars: rendered.truncated_description_chars,
                truncated_description_count: rendered.truncated_description_count,
            },
            root_cost,
        },
        preserve_empty_fragment: false,
        outcome: None,
    }
}

fn append_lines(lines: &mut Vec<SkillLine>, more: Vec<SkillLine>)
    ensures
        line_models(final(lines)@) == line_models(old(lines)@) + line_models(more@),
{
    let mut rest = more;
    lines.append(&mut rest);
    proof {
        assert(line_models(lines@) =~= line_models(old(lines)@) + line_models(more@));
    }
}

/// Whether three lists of lines together are few enough to be one list.
pub open spec fn few_enough(executor: LinesModel, orchestrator: LinesModel, host: LinesModel) -> bool {
    executor.skills.len() + orchestrator.skills.len() + host.skills.len() <= usize::MAX
}

/// Three catalogs under one budget.
pub fn render_combined_lines(
    executor: CatalogLines,
    orchestrator: CatalogLines,
    host: CatalogLines,
    budget: SkillMetadataBudget,
) -> (r: CombinedAvailableSkillsRender)
    requires
        few_enough(executor@, orchestrator@, host@),
    ensures
        r@ == combined(executor@, orchestrator@, host@, budget),
        fits_machine(executor@.skills + orchestrator@.skills + host@.skills),
{
    let executor_end: usize = executor.skills.len();
    proof {
        assert(line_models(executor.skills@).len() == executor.skills@.len());
        assert(line_models(orchestrator.skills@).len() == orchestrator.skills@.len());
        assert(line_models(host.skills@).len() == host.skills@.len());
    }
    let orchestrator_end: usize = executor_end + orchestrator.skills.len();
    let mut lines = executor.skills;
    append_lines(&mut lines, orchestrator.skills);
    append_lines(&mut lines, host.skills);
    let ghost all = executor@.skills + orchestrator@.skills + host@.skills;
    let total: usize = lines.len();
    proof {
        assert(line_models(lines@) == all);
        assert(line_models(lines@).len() == lines@.len());
        assert(all.subrange(0, executor_end as int) =~= executor@.skills);
        assert(all.subrange(executor_end as int, orchestrator_end as int)
            =~= orchestrator@.skills);
        assert(all.subrange(orchestrator_end as int, total as int) =~= host@.skills);
    }
    let mut allocations = allocate_skill_lines(&lines, budget);
    let marker = reserve_non_host_omission_marker(
        &lines,
        orchestrator_end,
        budget,
        &mut allocations,
    );
    let (executor_marker, orchestrator_marker) = if executor_end == orchestrator_end {
        (marker, None)
    } else {
        (None, marker)
    };
    CombinedAvailableSkillsRender {
        executor: render_combined_group(
            &lines,
            &allocations,
            0,
            executor_end,
            executor.prompt_kind,
            executor.root_lines,
            executor.root_cost,
            executor_marker,
        ),
        orchestrator: render_combined_group(
            &lines,
            &allocations,
            executor_end,
            orchestrator_end,
            orchestrator.prompt_kind,
            orchestrator.root_lines,
            orchestrator.root_cost,
            orchestrator_marker,
        ),
        host: render_combined_group(
            &lines,
            &allocations,
            orchestrator_end,
            total,
            host.prompt_kind,
            host.root_lines,
            host.root_cost,
            None,
        ),
    }
}

/// What the root lines of three catalogs cost together.
pub open spec fn table_cost(
    executor: LinesModel,
    orchestrator: LinesModel,
    host: LinesModel,
) -> usize {
    capped(executor.root_cost + orchestrator.root_cost + host.root_cost)
}

/// Three catalogs of which some have aliases, where the budget holds more than these.
pub open spec fn aliased_combined(
    executor: LinesModel,
    orchestrator: LinesModel,
    host: LinesModel,
    budget: SkillMetadataBudget,
) -> Option<CombinedModel> {
    let table = table_cost(executor, orchestrator, host);
    if (executor.root_lines.len() == 0 && orchestrator.root_lines.len() == 0
        && host.root_lines.len() == 0) || table >= budget.spec_limit() {
        None
    } else {
        Some(
            combined(
                executor,
                orchestrator,
                host,
                budget.spec_with_limit((budget.spec_limit() - table) as usize),
            ),
        )
    }
}

/// The model of three lists that may be missing.
pub open spec fn combined_model(rendered: Option<CombinedAvailableSkillsRender>) -> Option<
    CombinedModel,
> {
    match rendered {
        Some(rendered) => Some(rendered@),
        None => None,
    }
}

fn build_aliased_combined_catalog(
    executor: CatalogLines,
    orchestrator: CatalogLines,
    host: CatalogLines,
    budget: SkillMetadataBudget,
) -> (r: Option<CombinedAvailableSkillsRender>)
    requires
        few_enough(executor@, orchestrator@, host@),
    ensures
        combined_model(r) == aliased_combined(executor@, orchestrator@, host@, budget),
{
    if executor.root_lines.len() == 0 && orchestrator.root_lines.len() == 0
        && host.root_lines.len() == 0 {
        return None;
    }
    let table: usize = executor.root_cost.saturating_add(orchestrator.root_cost).saturating_add(
        host.root_cost,
    );
    if table >= budget.limit() {
        return None;
    }
    let adjusted = budget.with_limit(budget.limit() - table);
    Some(render_combined_lines(executor, orchestrator, host, adjusted))
}

/// Whether three lists show more than three others: more skills of the first catalog, then of
/// the second, then of the third, then more of the descriptions, then the same at a lower cost.
pub open spec fn combined_is_better(
    candidate: CombinedModel,
    current: CombinedModel,
    budget: SkillMetadataBudget,
) -> bool {
    if candidate.executor.rendered.report.included_count
        != current.executor.rendered.report.included_count {
        candidate.executor.rendered.report.included_count
            > current.executor.rendered.report.included_count
    } else if candidate.orchestrator.rendered.report.included_count
        != current.orchestrator.rendered.report.included_count {
        candidate.orchestrator.rendered.report.included_count
            > current.orchestrator.rendered.report.included_count
    } else if candidate.host.rendered.report.included_count
        != current.host.rendered.report.included_count {
        candidate.host.rendered.report.included_count > current.host.rendered.report.included_count
    } else if candidate.missing() != current.missing() {
        candidate.missing() < current.missing()
    } else {
        capped(candidate.cost(budget)) < capped(current.cost(budget))
    }
}

fn combined_available_skills_cost(
    budget: SkillMetadataBudget,
    rendered: &CombinedAvailableSkillsRender,
) -> (r: usize)
    ensures
        r == capped(rendered@.cost(budget)),
{
    let executor: usize = rendered_lines_cost(
        budget,
        rendered.executor.rendered.root_cost,
        &rendered.executor.rendered.body.lines,
    );
    let orchestrator: usize = rendered_lines_cost(
        budget,
        executor.saturating_add(rendered.orchestrator.rendered.root_cost),
        &rendered.orchestrator.rendered.body.lines,
    );
    rendered_lines_cost(
        budget,
        orchestrator.saturating_add(rendered.host.rendered.root_cost),
        &rendered.host.rendered.body.lines,
    )
}

fn combined_truncated_chars(rendered: &CombinedAvailableSkillsRender) -> (r: usize)
    ensures
        r == rendered@.missing(),
{
    rendered.executor.rendered.report.truncated_description_chars.saturating_add(
        rendered.orchestrator.rendered.report.truncated_description_chars,
    ).saturating_add(rendered.host.rendered.report.truncated_description_chars)
}

/// Whether three lists show more than three others.
pub fn combined_render_is_better(
    candidate: &CombinedAvailableSkillsRender,
    current: &CombinedAvailableSkillsRender,
    budget: SkillMetadataBudget,
) -> (r: bool)
    ensures
        r == combined_is_better(candidate@, current@, budget),
{
    let new_counts = (
        candidate.executor.rendered.report.included_count,
        candidate.orchestrator.rendered.report.included_count,
        candidate.host.rendered.report.included_count,
    );
    let old_counts = (
        current.executor.rendered.report.included_count,
        current.orchestrator.rendered.report.included_count,
        current.host.rendered.report.included_count,
    );
    if new_counts.0 != old_counts.0 {
        return new_counts.0 > old_counts.0;
    }
    if new_counts.1 != old_counts.1 {
        return new_counts.1 > old_counts.1;
    }
    if new_counts.2 != old_counts.2 {
        return new_counts.2 > old_counts.2;
    }
    let new_missing: usize = combined_truncated_chars(candidate);
    let old_missing: usize = combined_truncated_chars(current);
    if new_missing != old_missing {
        return new_missing < old_missing;
    }
    combined_available_skills_cost(budget, candidate) < combined_available_skills_cost(
        budget,
        current,
    )
}

/// Whether nothing is left out of three lists.
pub fn combined_catalog_fully_rendered(rendered: &CombinedAvailableSkillsRender) -> (r: bool)
    ensures
        r == rendered@.complete(),
{
    rendered.executor.rendered.report.omitted_count == 0
        && rendered.executor.rendered.report.truncated_description_chars == 0
        && rendered.orchestrator.rendered.report.omitted_count == 0
        && rendered.orchestrator.rendered.report.truncated_description_chars == 0
        && rendered.host.rendered.report.omitted_count == 0
        && rendered.host.rendered.report.truncated_description_chars == 0
}

/// The better of three lists and a candidate that may be missing.
pub open spec fn preferred(
    candidate: Option<CombinedModel>,
    current: CombinedModel,
    budget: SkillMetadataBudget,
) -> CombinedModel {
    match candidate {
        Some(candidate) => if combined_is_better(candidate, current, budget) {
            candidate
        } else {
            current
        },
        None => current,
    }
}

fn prefer(
    candidate: Option<CombinedAvailableSkillsRender>,
    current: CombinedAvailableSkillsRender,
    budget: SkillMetadataBudget,
) -> (r: CombinedAvailableSkillsRender)
    ensures
        r@ == preferred(combined_model(candidate), current@, budget),
{
    match candidate {
        Some(candidate) => if combined_render_is_better(&candidate, &current, budget) {
            candidate
        } else {
            current
        },
        None => current,
    }
}

/// The policy for the skills of the host.
pub open spec fn host_policy(stable_compact: bool) -> SkillCatalogRenderPolicy {
    if stable_compact {
        SkillCatalogRenderPolicy::StableCompact
    } else {
        SkillCatalogRenderPolicy::CoreCompatible
    }
}

/// Three catalogs and what they are shown under.
pub struct Catalogs {
    pub executor: CatalogModel,
    pub orchestrator: CatalogModel,
    pub host: CatalogModel,
    pub budget: SkillMetadataBudget,
    pub prompt: SkillPrompt,
    pub stable_compact: bool,
}

impl Catalogs {
    /// The lines of the first catalog.
    pub open spec fn executor_lines(self, aliased: bool) -> LinesModel {
        let policy = extension_policy(self.stable_compact);
        let full = SkillCatalogRenderPolicy::ExtensionCompatible;
        if aliased {
            aliased_lines(self.budget, self.prompt, self.executor, policy, full)
        } else {
            unaliased_lines(self.executor, policy, full)
        }
    }

    /// The lines of the second catalog.
    pub open spec fn orchestrator_lines(self, aliased: bool) -> LinesModel {
        let policy = extension_policy(self.stable_compact);
        let full = SkillCatalogRenderPolicy::ExtensionCompatible;
        if aliased {
            aliased_lines(self.budget, self.prompt, self.orchestrator, policy, full)
        } else {
            unaliased_lines(self.orchestrator, policy, full)
        }
    }

    /// The lines of the third catalog.
    pub open spec fn host_lines(self, aliased: bool) -> LinesModel {
        let policy = host_policy(self.stable_compact);
        let full = SkillCatalogRenderPolicy::CoreCompatible;
        if aliased {
            aliased_lines(self.budget, self.prompt, self.host, policy, full)
        } else {
            unaliased_lines(self.host, policy, full)
        }
    }

    /// The lists with aliases for the given catalogs.
    pub open spec fn candidate(self, executor: bool, orchestrator: bool, host: bool) -> Option<
        CombinedModel,
    > {
        aliased_combined(
            self.executor_lines(executor),
            self.orchestrator_lines(orchestrator),
            self.host_lines(host),
            self.budget,
        )
    }

    /// The lists without aliases.
    pub open spec fn absolute(self) -> CombinedModel {
        combined(
            self.executor_lines(false),
            self.orchestrator_lines(false),
            self.host_lines(false),
            self.budget,
        )
    }

    /// The lists that show the most.
    pub open spec fn selected(self) -> CombinedModel {
        if self.absolute().complete() {
            self.absolute()
        } else {
            preferred(
                self.candidate(true, true, true),
                preferred(
                    self.candidate(false, true, false),
                    preferred(
                        self.candidate(true, false, false),
                        preferred(
                            self.candidate(false, false, true),
                            self.absolute(),
                            self.budget,
                        ),
                        self.budget,
                    ),
                    self.budget,
                ),
                self.budget,
            )
        }
    }

    /// How many catalogs have a visible skill.
    pub open spec fn nonempty(self) -> int {
        (if self.executor_lines(false).skills.len() > 0 {
            1int
        } else {
            0
        }) + (if self.orchestrator_lines(false).skills.len() > 0 {
            1int
        } else {
            0
        }) + (if self.host_lines(false).skills.len() > 0 {
            1int
        } else {
            0
        })
    }

    /// Whether the visible skills are few enough to be one list.
    pub open spec fn few(self) -> bool {
        self.executor.entries.len() + self.orchestrator.entries.len() + self.host.entries.len()
            <= usize::MAX
    }
}

proof fn listed_at_most(entries: Seq<EntryModel>, n: int)
    requires
        0 <= n <= entries.len(),
    ensures
        crate::skill_policy::listed_order(entries, n).len() <= n,
    decreases n,
{
    if n > 0 {
        listed_at_most(entries, n - 1);
    }
}

proof fn inserted_len(entries: Seq<EntryModel>, order: Seq<int>, position: int)
    ensures
        crate::skill_policy::insert_position_of(entries, order, position).len() == order.len() + 1,
    decreases order.len(),
{
    if order.len() > 0 {
        inserted_len(entries, order.drop_last(), position);
    }
}

proof fn sorted_like_listed(entries: Seq<EntryModel>, n: int)
    requires
        0 <= n <= entries.len(),
    ensures
        crate::skill_policy::sorted_order(entries, n).len()
            == crate::skill_policy::listed_order(entries, n).len(),
    decreases n,
{
    if n > 0 {
        sorted_like_listed(entries, n - 1);
        inserted_len(entries, crate::skill_policy::sorted_order(entries, n - 1), n - 1);
    }
}

/// Every policy shows the same number of entries, and no more than there are.
pub proof fn order_lengths(entries: Seq<EntryModel>, policy: SkillCatalogRenderPolicy)
    ensures
        policy_order(entries, policy).len() == policy_order(
            entries,
            SkillCatalogRenderPolicy::ExtensionCompatible,
        ).len(),
        policy_order(entries, policy).len() <= entries.len(),
{
    listed_at_most(entries, entries.len() as int);
    sorted_like_listed(entries, entries.len() as int);
}

proof fn lists_are_few(catalogs: Catalogs)
    requires
        catalogs.few(),
    ensures
        forall|a: bool, b: bool, c: bool|
            few_enough(
                #[trigger] catalogs.executor_lines(a),
                #[trigger] catalogs.orchestrator_lines(b),
                #[trigger] catalogs.host_lines(c),
            ),
{
    order_lengths(catalogs.executor.entries, extension_policy(catalogs.stable_compact));
    order_lengths(catalogs.orchestrator.entries, extension_policy(catalogs.stable_compact));
    order_lengths(catalogs.host.entries, host_policy(catalogs.stable_compact));
}

/// The lists of three catalogs.
#[derive(Debug)]
pub struct RenderedSkillCatalogs {
    pub executor: Option<AvailableSkillsRender>,
    pub orchestrator: Option<AvailableSkillsRender>,
    pub host: Option<AvailableSkillsRender>,
}

/// The model of [`RenderedSkillCatalogs`].
#[verifier::ext_equal]
pub struct RenderedCatalogsModel {
    pub executor: Option<AvailableModel>,
    pub orchestrator: Option<AvailableModel>,
    pub host: Option<AvailableModel>,
}

impl View for RenderedSkillCatalogs {
    type V = RenderedCatalogsModel;

    open spec fn view(&self) -> RenderedCatalogsModel {
        RenderedCatalogsModel {
            executor: available_model(self.executor),
            orchestrator: available_model(self.orchestrator),
            host: available_model(self.host),
        }
    }
}

/// A list with another outcome.
pub open spec fn outcome_set(
    rendered: Option<AvailableModel>,
    outcome: SkillCatalogRenderOutcome,
) -> Option<AvailableModel> {
    match rendered {
        Some(rendered) => Some(AvailableModel { outcome: Some(outcome), ..rendered }),
        None => None,
    }
}

impl RenderedCatalogsModel {
    /// The lists with another outcome.
    pub open spec fn with_outcome(
        self,
        outcome: SkillCatalogRenderOutcome,
    ) -> RenderedCatalogsModel {
        RenderedCatalogsModel {
            executor: outcome_set(self.executor, outcome),
            orchestrator: outcome_set(self.orchestrator, outcome),
            host: outcome_set(self.host, outcome),
        }
    }
}

fn set_outcome(
    rendered: Option<AvailableSkillsRender>,
    outcome: SkillCatalogRenderOutcome,
) -> (r: Option<AvailableSkillsRender>)
    ensures
        available_model(r) == outcome_set(available_model(rendered), outcome),
{
    match rendered {
        Some(mut rendered) => {
            rendered.outcome = Some(outcome);
            Some(rendered)
        },
        None => None,
    }
}

impl RenderedSkillCatalogs {
    /// The lists with another outcome.
    pub fn with_outcome(self, outcome: SkillCatalogRenderOutcome) -> (r: RenderedSkillCatalogs)
        ensures
            r@ == self@.with_outcome(outcome),
    {
        RenderedSkillCatalogs {
            executor: set_outcome(self.executor, outcome),
            orchestrator: set_outcome(self.orchestrator, outcome),
            host: set_outcome(self.host, outcome),
        }
    }
}

impl Catalogs {
    /// The lists of three catalogs: one alone has the budget for itself, more share it; compact
    /// lists that leave anything out give way to full ones.
    pub open spec fn rendered(self) -> RenderedCatalogsModel {
        let policy = extension_policy(self.stable_compact);
        let full = SkillCatalogRenderPolicy::ExtensionCompatible;
        if self.nonempty() <= 1 {
            RenderedCatalogsModel {
                executor: available_skills(self.budget, self.prompt, self.executor, policy, full),
                orchestrator: available_skills(
                    self.budget,
                    self.prompt,
                    self.orchestrator,
                    policy,
                    full,
                ),
                host: available_skills(
                    self.budget,
                    self.prompt,
                    self.host,
                    host_policy(self.stable_compact),
                    SkillCatalogRenderPolicy::CoreCompatible,
                ),
            }.with_outcome(policy.spec_outcome())
        } else if self.stable_compact && !self.selected().complete() {
            Catalogs { stable_compact: false, ..self }.selected_lists().with_outcome(
                SkillCatalogRenderOutcome::Fallback,
            )
        } else {
            self.selected_lists().with_outcome(policy.spec_outcome())
        }
    }

    /// The lists that show the most.
    pub open spec fn selected_lists(self) -> RenderedCatalogsModel {
        RenderedCatalogsModel {
            executor: Some(self.selected().executor),
            orchestrator: Some(self.selected().orchestrator),
            host: Some(self.selected().host),
        }
    }
}

fn select_combined(
    executor_catalog: &SkillCatalog,
    orchestrator_catalog: &SkillCatalog,
    host_catalog: &SkillCatalog,
    budget: SkillMetadataBudget,
    prompt: &SkillPrompt,
    stable_compact: bool,
) -> (r: CombinedAvailableSkillsRender)
    requires
        (Catalogs {
            executor: executor_catalog@,
            orchestrator: orchestrator_catalog@,
            host: host_catalog@,
            budget,
            prompt: *prompt,
            stable_compact,
        }).few(),
    ensures
        r@ == (Catalogs {
            executor: executor_catalog@,
            orchestrator: orchestrator_catalog@,
            host: host_catalog@,
            budget,
            prompt: *prompt,
            stable_compact,
        }).selected(),
{
    let ghost catalogs = Catalogs {
        executor: executor_catalog@,
        orchestrator: orchestrator_catalog@,
        host: host_catalog@,
        budget,
        prompt: *prompt,
        stable_compact,
    };
    proof {
        lists_are_few(catalogs);
    }
    let policy = catalog_render_policy(stable_compact);
    let host = if stable_compact {
        SkillCatalogRenderPolicy::StableCompact
    } else {
        SkillCatalogRenderPolicy::CoreCompatible
    };
    let full = SkillCatalogRenderPolicy::ExtensionCompatible;
    let host_full = SkillCatalogRenderPolicy::CoreCompatible;
    let absolute = render_combined_lines(
        CatalogLines::unaliased(executor_catalog, policy, full),
        CatalogLines::unaliased(orchestrator_catalog, policy, full),
        CatalogLines::unaliased(host_catalog, host, host_full),
        budget,
    );
    if combined_catalog_fully_rendered(&absolute) {
        return absolute;
    }
    let host_only = build_aliased_combined_catalog(
        CatalogLines::unaliased(executor_catalog, policy, full),
        CatalogLines::unaliased(orchestrator_catalog, policy, full),
        CatalogLines::aliased(budget, prompt, host_catalog, host, host_full),
        budget,
    );
    let selected = prefer(host_only, absolute, budget);
    let executor_only = build_aliased_combined_catalog(
        CatalogLines::aliased(budget, prompt, executor_catalog, policy, full),
        CatalogLines::unaliased(orchestrator_catalog, policy, full),
        CatalogLines::unaliased(host_catalog, host, host_full),
        budget,
    );
    let selected = prefer(executor_only, selected, budget);
    let orchestrator_only = build_aliased_combined_catalog(
        CatalogLines::unaliased(executor_catalog, policy, full),
        CatalogLines::aliased(budget, prompt, orchestrator_catalog, policy, full),
        CatalogLines::unaliased(host_catalog, host, host_full),
        budget,
    );
    let selected = prefer(orchestrator_only, selected, budget);
    let all_sources = build_aliased_combined_catalog(
        CatalogLines::aliased(budget, prompt, executor_catalog, policy, full),
        CatalogLines::aliased(budget, prompt, orchestrator_catalog, policy, full),
        CatalogLines::aliased(budget, prompt, host_catalog, host, host_full),
        budget,
    );
    prefer(all_sources, selected, budget)
}

fn has_visible(catalog: &SkillCatalog) -> (r: bool)
    ensures
        r == (policy_order(
            catalog@.entries,
            SkillCatalogRenderPolicy::ExtensionCompatible,
        ).len() > 0),
{
    let order = SkillCatalogRenderPolicy::ExtensionCompatible.order_entries(&catalog.entries);
    proof {
        assert(positions(order@).len() == order@.len());
    }
    order.len() > 0
}

/// The lists of three catalogs.
pub fn render_combined_available_skills(
    executor_catalog: &SkillCatalog,
    orchestrator_catalog: &SkillCatalog,
    host_catalog: &SkillCatalog,
    budget: SkillMetadataBudget,
    prompt: &SkillPrompt,
    stable_compact: bool,
) -> (r: RenderedSkillCatalogs)
    requires
        executor_catalog.entries@.len() + orchestrator_catalog.entries@.len()
            + host_catalog.entries@.len() <= usize::MAX,
    ensures
        r@ == (Catalogs {
            executor: executor_catalog@,
            orchestrator: orchestrator_catalog@,
            host: host_catalog@,
            budget,
            prompt: *prompt,
            stable_compact,
        }).rendered(),
{
    let policy = catalog_render_policy(stable_compact);
    let full = SkillCatalogRenderPolicy::ExtensionCompatible;
    let has_executor = has_visible(executor_catalog);
    let has_orchestrator = has_visible(orchestrator_catalog);
    let has_host = has_visible(host_catalog);
    proof {
        order_lengths(executor_catalog@.entries, policy);
        order_lengths(orchestrator_catalog@.entries, policy);
        order_lengths(host_catalog@.entries, host_policy(stable_compact));
    }
    if !(has_executor && has_orchestrator) && !(has_executor && has_host) && !(has_orchestrator
        && has_host) {
        let host = if stable_compact {
            SkillCatalogRenderPolicy::StableCompact
        } else {
            SkillCatalogRenderPolicy::CoreCompatible
        };
        return RenderedSkillCatalogs {
            executor: render_available_skills_with_full_policy(
                executor_catalog,
                policy,
                full,
                budget,
                prompt,
            ),
            orchestrator: render_available_skills_with_full_policy(
                orchestrator_catalog,
                policy,
                full,
                budget,
                prompt,
            ),
            host: render_available_skills_with_full_policy(
                host_catalog,
                host,
                SkillCatalogRenderPolicy::CoreCompatible,
                budget,
                prompt,
            ),
        }.with_outcome(policy.outcome());
    }
    let mut outcome = policy.outcome();
    let mut selected = select_combined(
        executor_catalog,
        orchestrator_catalog,
        host_catalog,
        budget,
        prompt,
        stable_compact,
    );
    if stable_compact && !combined_catalog_fully_rendered(&selected) {
        selected = select_combined(
            executor_catalog,
            orchestrator_catalog,
            host_catalog,
            budget,
            prompt,
            false,
        );
        outcome = SkillCatalogRenderOutcome::Fallback;
    }
    RenderedSkillCatalogs {
        executor: Some(selected.executor),
        orchestrator: Some(selected.orchestrator),
        host: Some(selected.host),
    }.with_outcome(outcome)
}

/// Three lists together never cost more than their budget, the marker and all.
pub proof fn combined_lists_fit(
    executor: LinesModel,
    orchestrator: LinesModel,
    host: LinesModel,
    budget: SkillMetadataBudget,
)
    requires
        fits_machine(executor.skills + orchestrator.skills + host.skills),
    ensures
        capped(
            (lines_total(
                budget,
                combined(executor, orchestrator, host, budget).executor.rendered.body.lines,
            ) + lines_total(
                budget,
                combined(executor, orchestrator, host, budget).orchestrator.rendered.body.lines,
            ) + lines_total(
                budget,
                combined(executor, orchestrator, host, budget).host.rendered.body.lines,
            )) as int,
        ) <= budget.spec_limit(),
{
    let all = executor.skills + orchestrator.skills + host.skills;
    let first = executor.skills.len() as int;
    let second = first + orchestrator.skills.len();
    allocation_fits(all, budget);
    reserved_fits(all, second, budget, allocated(all, budget));
    let (allocations, marker) = reserved(all, second, budget, allocated(all, budget));
    let x = allocations.subrange(0, first);
    let y = allocations.subrange(first, second);
    let z = allocations.subrange(second, all.len() as int);
    assert(x + y + z =~= allocations);
    shown_concat(executor.skills, orchestrator.skills, x, y);
    shown_concat(executor.skills + orchestrator.skills, host.skills, x + y, z);
    let a = shown_lines(executor.skills, x);
    let b = shown_lines(orchestrator.skills, y);
    let c = shown_lines(host.skills, z);
    totals_concat(budget, a, b);
    totals_concat(budget, a + b, c);
    if let Some(line) = marker {
        assert(a.push(line).drop_last() =~= a);
        assert(b.push(line).drop_last() =~= b);
    }
}

proof fn lines_bounded(catalogs: Catalogs, a: bool, b: bool, c: bool)
    ensures
        fits_machine(
            catalogs.executor_lines(a).skills + catalogs.orchestrator_lines(b).skills
                + catalogs.host_lines(c).skills,
        ),
{
    let all = catalogs.executor_lines(a).skills + catalogs.orchestrator_lines(b).skills
        + catalogs.host_lines(c).skills;
    assert forall|i: int| 0 <= i < all.len() implies (#[trigger] all[i]).description.len()
        <= usize::MAX by {
        let policy = extension_policy(catalogs.stable_compact);
        let e = catalogs.executor_lines(a).skills.len();
        let o = catalogs.orchestrator_lines(b).skills.len();
        if i < e {
            description_bounded(
                policy.spec_description(
                    catalogs.executor.entries[catalogs.executor.order(policy)[i]],
                ),
            );
        } else if i < e + o {
            description_bounded(
                policy.spec_description(
                    catalogs.orchestrator.entries[catalogs.orchestrator.order(policy)[i - e]],
                ),
            );
        } else {
            let policy = host_policy(catalogs.stable_compact);
            description_bounded(
                policy.spec_description(
                    catalogs.host.entries[catalogs.host.order(policy)[i - e - o]],
                ),
            );
        }
    }
}

proof fn candidate_fits(catalogs: Catalogs, a: bool, b: bool, c: bool)
    ensures
        catalogs.candidate(a, b, c) matches Some(candidate) ==> capped(
            candidate.cost(catalogs.budget),
        ) <= catalogs.budget.spec_limit(),
{
    let budget = catalogs.budget;
    let e = catalogs.executor_lines(a);
    let o = catalogs.orchestrator_lines(b);
    let h = catalogs.host_lines(c);
    if let Some(candidate) = catalogs.candidate(a, b, c) {
        let limit = (budget.spec_limit() - table_cost(e, o, h)) as usize;
        lines_bounded(catalogs, a, b, c);
        combined_lists_fit(e, o, h, budget.spec_with_limit(limit));
        totals_same_unit(budget, limit, candidate.executor.rendered.body.lines);
        totals_same_unit(budget, limit, candidate.orchestrator.rendered.body.lines);
        totals_same_unit(budget, limit, candidate.host.rendered.body.lines);
    }
}

/// The three lists that are chosen never cost more than the budget, aliases and all.
pub proof fn selected_lists_fit(catalogs: Catalogs)
    ensures
        capped(catalogs.selected().cost(catalogs.budget)) <= catalogs.budget.spec_limit(),
{
    lines_bounded(catalogs, false, false, false);
    combined_lists_fit(
        catalogs.executor_lines(false),
        catalogs.orchestrator_lines(false),
        catalogs.host_lines(false),
        catalogs.budget,
    );
    candidate_fits(catalogs, false, false, true);
    candidate_fits(catalogs, true, false, false);
    candidate_fits(catalogs, false, true, false);
    candidate_fits(catalogs, true, true, true);
}

/// The list of one catalog never costs more than the budget, aliases and all.
pub proof fn available_skills_fit(
    budget: SkillMetadataBudget,
    prompt: SkillPrompt,
    catalog: CatalogModel,
    policy: SkillCatalogRenderPolicy,
    full_policy: SkillCatalogRenderPolicy,
)
    requires
        catalog.entries.len() <= usize::MAX,
    ensures
        available_skills(budget, prompt, catalog, policy, full_policy) matches Some(available)
            ==> capped(available.rendered.cost(budget)) <= budget.spec_limit(),
{
    once_fits(budget, prompt, catalog, policy, full_policy);
    once_fits(budget, prompt, catalog, full_policy, full_policy);
}

proof fn catalog_lines_bounded(
    budget: SkillMetadataBudget,
    prompt: SkillPrompt,
    catalog: CatalogModel,
    policy: SkillCatalogRenderPolicy,
    full_policy: SkillCatalogRenderPolicy,
)
    ensures
        fits_machine(unaliased_lines(catalog, policy, full_policy).skills),
        fits_machine(aliased_lines(budget, prompt, catalog, policy, full_policy).skills),
{
    let order = catalog.order(policy);
    let plain = unaliased_lines(catalog, policy, full_policy).skills;
    let short = aliased_lines(budget, prompt, catalog, policy, full_policy).skills;
    assert forall|i: int| 0 <= i < plain.len() implies (#[trigger] plain[i]).description.len()
        <= usize::MAX by {
        description_bounded(policy.spec_description(catalog.entries[order[i]]));
    }
    assert forall|i: int| 0 <= i < short.len() implies (#[trigger] short[i]).description.len()
        <= usize::MAX by {
        description_bounded(policy.spec_description(catalog.entries[order[i]]));
    }
}

proof fn once_fits(
    budget: SkillMetadataBudget,
    prompt: SkillPrompt,
    catalog: CatalogModel,
    policy: SkillCatalogRenderPolicy,
    full_policy: SkillCatalogRenderPolicy,
)
    requires
        catalog.entries.len() <= usize::MAX,
    ensures
        rendered_once(budget, prompt, catalog, policy, full_policy) matches Some(available)
            ==> capped(available.rendered.cost(budget)) <= budget.spec_limit(),
{
    order_lengths(catalog.entries, policy);
    catalog_lines_bounded(budget, prompt, catalog, policy, policy);
    catalog_lines_bounded(budget, prompt, catalog, policy, full_policy);
    catalog_fits(unaliased_lines(catalog, policy, policy), budget, policy);
    let lines = aliased_lines(budget, prompt, catalog, policy, full_policy);
    if let Some(aliased) = aliased_catalog(budget, prompt, catalog, policy, full_policy) {
        let limit = (budget.spec_limit() - lines.root_cost) as usize;
        catalog_fits(lines, budget.spec_with_limit(limit), policy);
        totals_same_unit(budget, limit, aliased.body.lines);
    }
}

/// Compact lists of several catalogs leave nothing out: where they would, the full lists stand
/// in their place, as a fallback.
pub proof fn compact_lists_are_complete(catalogs: Catalogs)
    requires
        catalogs.nonempty() > 1,
        catalogs.stable_compact,
        catalogs.rendered().host->0.outcome == Some(SkillCatalogRenderOutcome::Compact),
    ensures
        catalogs.rendered() == catalogs.selected_lists().with_outcome(
            SkillCatalogRenderOutcome::Compact,
        ),
        catalogs.selected().complete(),
{
}

/// What a plan of aliases for a catalog is made from: the prefix of the aliases, the entries in
/// the order in which their roots count, and the roots where they are the entries' own.
#[derive(Debug)]
pub struct AliasRequest {
    pub prefix: &'static str,
    pub order: Vec<usize>,
    pub roots: Option<Vec<String>>,
}

/// The rank of an entry's root.
pub open spec fn root_rank(entry: EntryModel) -> usize {
    match entry.alias_root_order {
        Some(rank) => rank,
        None => usize::MAX,
    }
}

/// An order with one more position: behind all whose root does not rank higher.
pub open spec fn insert_by_rank(entries: Seq<EntryModel>, order: Seq<int>, position: int) -> Seq<
    int,
>
    decreases order.len(),
{
    if order.len() == 0 {
        seq![position]
    } else if root_rank(entries[position]) < root_rank(entries[order.last()]) {
        insert_by_rank(entries, order.drop_last(), position).push(order.last())
    } else {
        order.push(position)
    }
}

/// Positions sorted by the rank of their roots; equal ones keep their order.
pub open spec fn by_rank(entries: Seq<EntryModel>, order: Seq<int>) -> Seq<int>
    decreases order.len(),
{
    if order.len() == 0 {
        seq![]
    } else {
        insert_by_rank(entries, by_rank(entries, order.drop_last()), order.last())
    }
}

/// The roots of the entries that have one.
pub open spec fn roots_of(entries: Seq<EntryModel>, order: Seq<int>) -> Seq<Seq<char>>
    decreases order.len(),
{
    if order.len() == 0 {
        seq![]
    } else {
        let before = roots_of(entries, order.drop_last());
        match entries[order.last()].alias_root {
            Some(root) => before.push(root),
            None => before,
        }
    }
}

/// The prefix of the aliases of a source.
pub open spec fn alias_prefix(source: SourceModel) -> Seq<char> {
    match source {
        SourceModel::Host => "r"@,
        SourceModel::Executor => "e"@,
        _ => "o"@,
    }
}

fn insert_ranked(entries: &Vec<SkillCatalogEntry>, order: &mut Vec<usize>, position: usize)
    requires
        position < entries@.len(),
        within(positions(old(order)@), entries@.len() as int),
    ensures
        positions(final(order)@) == insert_by_rank(
            entry_models(entries@),
            positions(old(order)@),
            position as int,
        ),
        within(positions(final(order)@), entries@.len() as int),
{
    let ghost all = entry_models(entries@);
    let ghost list = positions(order@);
    let rank: usize = match entries[position].alias_root_order {
        Some(rank) => rank,
        None => usize::MAX,
    };
    let mut i: usize = order.len();
    proof {
        assert(list.take(i as int) =~= list);
        assert(list.skip(i as int) =~= Seq::<int>::empty());
        assert(insert_by_rank(all, list, position as int) =~= insert_by_rank(
            all,
            list.take(i as int),
            position as int,
        ) + list.skip(i as int));
        assert(all[position as int] == entries@[position as int]@);
    }
    while i > 0
        invariant
            *order == *old(order),
            i <= order@.len(),
            all == entry_models(entries@),
            list == positions(order@),
            position < entries@.len(),
            within(list, entries@.len() as int),
            rank == root_rank(all[position as int]),
            insert_by_rank(all, list, position as int) == insert_by_rank(
                all,
                list.take(i as int),
                position as int,
            ) + list.skip(i as int),
        ensures
            i > 0 ==> rank >= root_rank(all[list[i - 1]]),
        decreases i,
    {
        proof {
            assert(list[i - 1] == order@[i - 1]);
            assert(all[list[i - 1]] == entries@[order@[i - 1] as int]@);
        }
        let other: usize = match entries[order[i - 1]].alias_root_order {
            Some(rank) => rank,
            None => usize::MAX,
        };
        if rank >= other {
            break;
        }
        proof {
            assert(list.take(i as int).drop_last() =~= list.take(i - 1));
            assert(insert_by_rank(all, list.take(i - 1), position as int).push(list[i - 1])
                + list.skip(i as int) =~= insert_by_rank(
                all,
                list.take(i - 1),
                position as int,
            ) + list.skip(i - 1));
        }
        i -= 1;
    }
    proof {
        assert(insert_by_rank(all, list.take(i as int), position as int) =~= list.take(
            i as int,
        ).push(position as int));
        assert(list.take(i as int).push(position as int) + list.skip(i as int) =~= list.insert(
            i as int,
            position as int,
        ));
    }
    order.insert(i, position);
    proof {
        assert(positions(order@) =~= list.insert(i as int, position as int));
        assert forall|j: int| 0 <= j < positions(order@).len() implies 0 <= #[trigger] positions(
            order@,
        )[j] < entries@.len() by {
            if j < i {
                assert(positions(order@)[j] == list[j]);
            } else if j > i {
                assert(positions(order@)[j] == list[j - 1]);
            }
        }
    }
}

/// Whether this is what a plan for a catalog is made from.
pub open spec fn requests_plan(
    request: Option<AliasRequest>,
    catalog: CatalogModel,
    policy: SkillCatalogRenderPolicy,
) -> bool {
    let ordered = by_rank(catalog.entries, catalog.order(policy));
    match (aliased_source(catalog.entries, catalog.order(policy)), request) {
        (Some(source), Some(request)) => {
            &&& request.prefix@ == alias_prefix(source)
            &&& positions(request.order@) == ordered
            &&& match request.roots {
                Some(roots) => !(source is Host) && texts(roots@) == roots_of(
                    catalog.entries,
                    ordered,
                ),
                None => source is Host,
            }
        },
        (None, None) => true,
        _ => false,
    }
}

/// What a plan of aliases for a catalog is made from; `None` where its visible entries come from
/// different sources, or from one that has no aliases.
pub fn build_alias_plan(catalog: &SkillCatalog, policy: SkillCatalogRenderPolicy) -> (r: Option<
    AliasRequest,
>)
    ensures
        requests_plan(r, catalog@, policy),
{
    let listed = policy.order_entries(&catalog.entries);
    let ghost all = entry_models(catalog.entries@);
    let ghost list = positions(listed@);
    let source = match find_aliased_source(&catalog.entries, &listed) {
        Some(source) => source,
        None => {
            return None;
        },
    };
    let mut order: Vec<usize> = Vec::new();
    let mut i: usize = 0;
    proof {
        assert(list.take(0) =~= Seq::<int>::empty());
        assert(positions(order@) =~= Seq::<int>::empty());
    }
    while i < listed.len()
        invariant
            i <= listed@.len(),
            all == entry_models(catalog.entries@),
            list == positions(listed@),
            within(list, catalog.entries@.len() as int),
            positions(order@) == by_rank(all, list.take(i as int)),
            within(positions(order@), catalog.entries@.len() as int),
        decreases listed@.len() - i,
    {
        proof {
            assert(list[i as int] == listed@[i as int]);
            assert(list.take(i + 1).drop_last() =~= list.take(i as int));
        }
        insert_ranked(&catalog.entries, &mut order, listed[i]);
        i += 1;
    }
    proof {
        assert(list.take(i as int) =~= list);
    }
    let ghost ordered = positions(order@);
    let is_host = match source {
        SkillSourceKind::Host => true,
        _ => false,
    };
    if is_host {
        return Some(AliasRequest { prefix: "r", order, roots: None });
    }
    let mut roots: Vec<String> = Vec::new();
    let mut j: usize = 0;
    proof {
        assert(ordered.take(0) =~= Seq::<int>::empty());
        assert(texts(roots@) =~= Seq::<Seq<char>>::empty());
    }
    while j < order.len()
        invariant
            j <= order@.len(),
            all == entry_models(catalog.entries@),
            ordered == positions(order@),
            within(ordered, catalog.entries@.len() as int),
            texts(roots@) == roots_of(all, ordered.take(j as int)),
        decreases order@.len() - j,
    {
        let ghost before = roots@;
        proof {
            assert(ordered[j as int] == order@[j as int]);
            assert(all[ordered[j as int]] == catalog.entries@[order@[j as int] as int]@);
            assert(ordered.take(j + 1).drop_last() =~= ordered.take(j as int));
        }
        if let Some(root) = &catalog.entries[order[j]].alias_root {
            roots.push(root.clone());
            proof {
                assert(texts(roots@) =~= texts(before).push(root@));
            }
        }
        j += 1;
    }
    proof {
        assert(ordered.take(j as int) =~= ordered);
    }
    let prefix: &'static str = match source {
        SkillSourceKind::Executor => "e",
        _ => "o",
    };
    Some(AliasRequest { prefix, order, roots: Some(roots) })
}

} // verus!

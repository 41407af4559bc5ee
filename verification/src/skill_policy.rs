//! How much of the model context the list of skills may take, and how its entries are chosen,
//! ordered and accounted for.

use vstd::prelude::*;
use vstd::string::*;
use vstd::utf8::*;

use crate::numbers::{decimal, decimal_text};
use crate::protocol::optional_text;
use crate::read_tool_output::sum_size;
use crate::text::{
    byte_len, bytes_less_irreflexive, bytes_less_transitive, same_text, str_less, text_less,
    text_less_total, utf8_len,
};

verus! {

/// The budget in characters where the context window is not known.
pub const DEFAULT_SKILL_METADATA_CHAR_BUDGET: usize = 8000;

/// The largest budget in tokens that can be configured.
pub const MAX_CONFIGURED_SKILL_METADATA_TOKEN_BUDGET: usize = 10000;

/// The part of the context window that the list of skills may take.
pub const SKILL_METADATA_CONTEXT_WINDOW_PERCENT: usize = 2;

/// From how many missing characters per skill on the user is warned.
pub const SKILL_DESCRIPTION_TRUNCATION_WARNING_THRESHOLD_CHARS: usize = 100;

/// Where a skill comes from.
#[derive(Debug)]
pub enum SkillSourceKind {
    Host,
    Executor,
    Orchestrator,
    Custom(String),
}

/// The model of a [`SkillSourceKind`].
pub enum SourceModel {
    Host,
    Executor,
    Orchestrator,
    Custom(Seq<char>),
}

impl View for SkillSourceKind {
    type V = SourceModel;

    open spec fn view(&self) -> SourceModel {
        match self {
            SkillSourceKind::Host => SourceModel::Host,
            SkillSourceKind::Executor => SourceModel::Executor,
            SkillSourceKind::Orchestrator => SourceModel::Orchestrator,
            SkillSourceKind::Custom(name) => SourceModel::Custom(name@),
        }
    }
}

impl SkillSourceKind {
    /// Whether two sources are the same.
    pub fn same(&self, other: &SkillSourceKind) -> (r: bool)
        ensures
            r == (self@ == other@),
    {
        match (self, other) {
            (SkillSourceKind::Host, SkillSourceKind::Host) => true,
            (SkillSourceKind::Executor, SkillSourceKind::Executor) => true,
            (SkillSourceKind::Orchestrator, SkillSourceKind::Orchestrator) => true,
            (SkillSourceKind::Custom(a), SkillSourceKind::Custom(b)) => same_text(
                a.as_str(),
                b.as_str(),
            ),
            _ => false,
        }
    }
}

/// Who installed a skill.
#[derive(Clone, Copy, Debug, PartialEq, Eq, Structural)]
pub enum SkillScope {
    System,
    Admin,
    Repo,
    User,
}

/// One skill of a catalog.
#[derive(Debug)]
pub struct SkillCatalogEntry {
    pub kind: SkillSourceKind,
    /// The package that the skill is in.
    pub id: String,
    pub name: String,
    pub description: String,
    pub short_description: Option<String>,
    /// The resource that holds the skill's prompt.
    pub main_prompt: String,
    /// The path of the skill as the model sees it.
    pub rendered_path: String,
    pub prompt_scope: Option<SkillScope>,
    /// The root that an alias can stand for.
    pub alias_root: Option<String>,
    pub alias_root_order: Option<usize>,
    pub model_visible: bool,
}

/// The model of a [`SkillCatalogEntry`].
pub struct EntryModel {
    pub kind: SourceModel,
    pub id: Seq<char>,
    pub name: Seq<char>,
    pub description: Seq<char>,
    pub short_description: Option<Seq<char>>,
    pub main_prompt: Seq<char>,
    pub rendered_path: Seq<char>,
    pub prompt_scope: Option<SkillScope>,
    pub alias_root: Option<Seq<char>>,
    pub alias_root_order: Option<usize>,
    pub model_visible: bool,
}

impl View for SkillCatalogEntry {
    type V = EntryModel;

    open spec fn view(&self) -> EntryModel {
        EntryModel {
            kind: self.kind@,
            id: self.id@,
            name: self.name@,
            description: self.description@,
            short_description: optional_text(self.short_description),
            main_prompt: self.main_prompt@,
            rendered_path: self.rendered_path@,
            prompt_scope: self.prompt_scope,
            alias_root: optional_text(self.alias_root),
            alias_root_order: self.alias_root_order,
            model_visible: self.model_visible,
        }
    }
}

/// The models of the entries of a catalog.
pub open spec fn entry_models(entries: Seq<SkillCatalogEntry>) -> Seq<EntryModel> {
    entries.map_values(|entry: SkillCatalogEntry| entry@)
}

/// How entries are described and ordered.
#[derive(Clone, Copy, Debug, PartialEq, Eq, Structural)]
pub enum SkillCatalogRenderPolicy {
    CoreCompatible,
    ExtensionCompatible,
    StableCompact,
}

/// What became of a rendering.
#[derive(Clone, Copy, Debug, PartialEq, Eq, Structural)]
pub enum SkillCatalogRenderOutcome {
    Legacy,
    Compact,
    Fallback,
}

impl SkillCatalogRenderOutcome {
    /// The outcome's name.
    pub open spec fn spec_name(self) -> Seq<char> {
        match self {
            SkillCatalogRenderOutcome::Legacy => "legacy"@,
            SkillCatalogRenderOutcome::Compact => "compact"@,
            SkillCatalogRenderOutcome::Fallback => "fallback"@,
        }
    }

    /// The outcome's name.
    pub fn as_str(self) -> (r: &'static str)
        ensures
            r@ == self.spec_name(),
    {
        match self {
            SkillCatalogRenderOutcome::Legacy => "legacy",
            SkillCatalogRenderOutcome::Compact => "compact",
            SkillCatalogRenderOutcome::Fallback => "fallback",
        }
    }
}

/// The rank of a scope in the list of skills.
pub open spec fn scope_rank(scope: Option<SkillScope>) -> int {
    match scope {
        Some(SkillScope::System) => 0,
        Some(SkillScope::Admin) => 1,
        Some(SkillScope::Repo) => 2,
        Some(SkillScope::User) => 3,
        None => 4,
    }
}

/// Whether one entry stands strictly before another: by scope, then by name, then by prompt.
pub open spec fn entry_before(a: EntryModel, b: EntryModel) -> bool {
    if scope_rank(a.prompt_scope) != scope_rank(b.prompt_scope) {
        scope_rank(a.prompt_scope) < scope_rank(b.prompt_scope)
    } else if a.name != b.name {
        text_less(a.name, b.name)
    } else {
        text_less(a.main_prompt, b.main_prompt)
    }
}

/// An order of entries, given by their positions in the catalog, with one more position: behind
/// all that do not have to stand behind it.
pub open spec fn insert_position_of(
    entries: Seq<EntryModel>,
    order: Seq<int>,
    position: int,
) -> Seq<int>
    decreases order.len(),
{
    if order.len() == 0 {
        seq![position]
    } else if entry_before(entries[position], entries[order.last()]) {
        insert_position_of(entries, order.drop_last(), position).push(order.last())
    } else {
        order.push(position)
    }
}

/// The positions of the visible entries among the first `n`, in catalog order.
pub open spec fn listed_order(entries: Seq<EntryModel>, n: int) -> Seq<int>
    decreases n,
{
    if n <= 0 {
        seq![]
    } else if entries[n - 1].model_visible {
        listed_order(entries, n - 1).push(n - 1)
    } else {
        listed_order(entries, n - 1)
    }
}

/// The positions of the visible entries among the first `n`, sorted; equal ones keep their order.
pub open spec fn sorted_order(entries: Seq<EntryModel>, n: int) -> Seq<int>
    decreases n,
{
    if n <= 0 {
        seq![]
    } else if entries[n - 1].model_visible {
        insert_position_of(entries, sorted_order(entries, n - 1), n - 1)
    } else {
        sorted_order(entries, n - 1)
    }
}

/// The positions of the visible entries in the order of a policy.
pub open spec fn policy_order(entries: Seq<EntryModel>, policy: SkillCatalogRenderPolicy) -> Seq<
    int,
> {
    match policy {
        SkillCatalogRenderPolicy::ExtensionCompatible => listed_order(
            entries,
            entries.len() as int,
        ),
        _ => sorted_order(entries, entries.len() as int),
    }
}

/// The integers that positions stand for.
pub open spec fn positions(order: Seq<usize>) -> Seq<int> {
    order.map_values(|i: usize| i as int)
}

fn rank_of(scope: Option<SkillScope>) -> (r: u8)
    ensures
        r == scope_rank(scope),
{
    match scope {
        Some(SkillScope::System) => 0,
        Some(SkillScope::Admin) => 1,
        Some(SkillScope::Repo) => 2,
        Some(SkillScope::User) => 3,
        None => 4,
    }
}

fn comes_before(a: &SkillCatalogEntry, b: &SkillCatalogEntry) -> (r: bool)
    ensures
        r == entry_before(a@, b@),
{
    let x: u8 = rank_of(a.prompt_scope);
    let y: u8 = rank_of(b.prompt_scope);
    if x != y {
        x < y
    } else if !same_text(a.name.as_str(), b.name.as_str()) {
        str_less(a.name.as_str(), b.name.as_str())
    } else {
        str_less(a.main_prompt.as_str(), b.main_prompt.as_str())
    }
}

/// Whether positions lie within a catalog.
pub open spec fn within(order: Seq<int>, count: int) -> bool {
    forall|i: int| 0 <= i < order.len() ==> 0 <= #[trigger] order[i] < count
}

fn insert_sorted(entries: &Vec<SkillCatalogEntry>, order: &mut Vec<usize>, position: usize)
    requires
        position < entries@.len(),
        within(positions(old(order)@), entries@.len() as int),
    ensures
        positions(final(order)@) == insert_position_of(
            entry_models(entries@),
            positions(old(order)@),
            position as int,
        ),
        within(positions(final(order)@), entries@.len() as int),
{
    let ghost all = entry_models(entries@);
    let ghost list = positions(order@);
    let mut i: usize = order.len();
    proof {
        assert(list.take(i as int) =~= list);
        assert(list.skip(i as int) =~= Seq::<int>::empty());
        assert forall|j: int| 0 <= j < order@.len() implies #[trigger] order@[j] < entries@.len() by {
            assert(list[j] == order@[j]);
        }
        assert(insert_position_of(all, list, position as int) =~= insert_position_of(
            all,
            list.take(i as int),
            position as int,
        ) + list.skip(i as int));
    }
    while i > 0 && comes_before(&entries[position], &entries[order[i - 1]])
        invariant
            i <= order@.len(),
            *order == *old(order),
            all == entry_models(entries@),
            list == positions(order@),
            position < entries@.len(),
            within(list, entries@.len() as int),
            insert_position_of(all, list, position as int) == insert_position_of(
                all,
                list.take(i as int),
                position as int,
            ) + list.skip(i as int),
            forall|j: int| 0 <= j < order@.len() ==> #[trigger] order@[j] < entries@.len(),
        decreases i,
    {
        proof {
            assert(list[i - 1] == order@[i - 1]);
            assert(all[list[i - 1]] == entries@[order@[i - 1] as int]@);
            assert(all[position as int] == entries@[position as int]@);
            assert(list.take(i as int).drop_last() =~= list.take(i - 1));
            assert(insert_position_of(all, list.take(i - 1), position as int).push(list[i - 1])
                + list.skip(i as int) =~= insert_position_of(
                all,
                list.take(i - 1),
                position as int,
            ) + list.skip(i - 1));
        }
        i -= 1;
    }
    proof {
        if i > 0 {
            assert(list[i - 1] == order@[i - 1]);
            assert(all[list[i - 1]] == entries@[order@[i - 1] as int]@);
            assert(all[position as int] == entries@[position as int]@);
        }
        assert(insert_position_of(all, list.take(i as int), position as int) =~= list.take(
            i as int,
        ).push(position as int));
        assert(list.take(i as int).push(position as int) + list.skip(i as int) =~= list.insert(
            i as int,
            position as int,
        ));
    }
    order.insert(i, position);
    proof {
        assert(positions(order@) =~= list.insert(i as int, position as int));
        assert forall|j: int| 0 <= j < positions(order@).len() implies 0 <= #[trigger] positions(
            order@,
        )[j] < entries@.len() by {
            if j < i {
                assert(positions(order@)[j] == list[j]);
            } else if j > i {
                assert(positions(order@)[j] == list[j - 1]);
            }
        }
    }
}

impl SkillCatalogRenderPolicy {
    /// The description of an entry under this policy.
    pub open spec fn spec_description(self, entry: EntryModel) -> Seq<char> {
        match self {
            SkillCatalogRenderPolicy::CoreCompatible => entry.description,
            _ => match entry.short_description {
                Some(short) => short,
                None => entry.description,
            },
        }
    }

    /// The description of an entry under this policy.
    pub fn description(self, entry: &SkillCatalogEntry) -> (r: &str)
        ensures
            r@ == self.spec_description(entry@),
    {
        match self {
            SkillCatalogRenderPolicy::CoreCompatible => entry.description.as_str(),
            _ => match &entry.short_description {
                Some(short) => short.as_str(),
                None => entry.description.as_str(),
            },
        }
    }

    /// The positions of the visible entries in the order of this policy.
    pub fn order_entries(self, entries: &Vec<SkillCatalogEntry>) -> (r: Vec<usize>)
        ensures
            positions(r@) == policy_order(entry_models(entries@), self),
            within(positions(r@), entries@.len() as int),
    {
        let ghost all = entry_models(entries@);
        let listed = self == SkillCatalogRenderPolicy::ExtensionCompatible;
        let mut order: Vec<usize> = Vec::new();
        let mut i: usize = 0;
        proof {
            assert(positions(order@) =~= Seq::<int>::empty());
        }
        while i < entries.len()
            invariant
                i <= entries@.len(),
                all == entry_models(entries@),
                positions(order@) == (if listed {
                    listed_order(all, i as int)
                } else {
                    sorted_order(all, i as int)
                }),
                within(positions(order@), entries@.len() as int),
            decreases entries@.len() - i,
        {
            proof {
                assert(all[i as int] == entries@[i as int]@);
            }
            if entries[i].model_visible {
                if listed {
                    let ghost before = order@;
                    order.push(i);
                    proof {
                        assert(positions(order@) =~= positions(before).push(i as int));
                    }
                } else {
                    insert_sorted(entries, &mut order, i);
                }
            }
            i += 1;
        }
        order
    }

    /// Whether entries that are left out are mentioned.
    pub open spec fn spec_includes_notice(self) -> bool {
        self != SkillCatalogRenderPolicy::CoreCompatible
    }

    /// Whether entries that are left out are mentioned.
    pub fn includes_omission_notice(self) -> (r: bool)
        ensures
            r == self.spec_includes_notice(),
    {
        self != SkillCatalogRenderPolicy::CoreCompatible
    }

    /// What a rendering under this policy counts as.
    pub open spec fn spec_outcome(self) -> SkillCatalogRenderOutcome {
        match self {
            SkillCatalogRenderPolicy::StableCompact => SkillCatalogRenderOutcome::Compact,
            _ => SkillCatalogRenderOutcome::Legacy,
        }
    }

    /// What a rendering under this policy counts as.
    pub fn outcome(self) -> (r: SkillCatalogRenderOutcome)
        ensures
            r == self.spec_outcome(),
    {
        match self {
            SkillCatalogRenderPolicy::StableCompact => SkillCatalogRenderOutcome::Compact,
            _ => SkillCatalogRenderOutcome::Legacy,
        }
    }
}

/// The policy for skills of extensions.
pub open spec fn extension_policy(stable_compact: bool) -> SkillCatalogRenderPolicy {
    if stable_compact {
        SkillCatalogRenderPolicy::StableCompact
    } else {
        SkillCatalogRenderPolicy::ExtensionCompatible
    }
}

/// The policy for skills of extensions.
pub fn catalog_render_policy(stable_compact: bool) -> (r: SkillCatalogRenderPolicy)
    ensures
        r == extension_policy(stable_compact),
{
    if stable_compact {
        SkillCatalogRenderPolicy::StableCompact
    } else {
        SkillCatalogRenderPolicy::ExtensionCompatible
    }
}

/// How much the list of skills may cost, and in which unit.
#[derive(Clone, Copy, Debug, PartialEq, Eq, Structural)]
pub enum SkillMetadataBudget {
    Tokens(usize),
    Characters(usize),
}

impl SkillMetadataBudget {
    /// The largest cost.
    pub open spec fn spec_limit(self) -> usize {
        match self {
            SkillMetadataBudget::Tokens(limit) => limit,
            SkillMetadataBudget::Characters(limit) => limit,
        }
    }

    /// The largest cost.
    pub fn limit(self) -> (r: usize)
        ensures
            r == self.spec_limit(),
    {
        match self {
            SkillMetadataBudget::Tokens(limit) => limit,
            SkillMetadataBudget::Characters(limit) => limit,
        }
    }

    /// The same unit with another limit.
    pub open spec fn spec_with_limit(self, limit: usize) -> SkillMetadataBudget {
        match self {
            SkillMetadataBudget::Tokens(_) => SkillMetadataBudget::Tokens(limit),
            SkillMetadataBudget::Characters(_) => SkillMetadataBudget::Characters(limit),
        }
    }

    /// The same unit with another limit.
    pub fn with_limit(self, limit: usize) -> (r: SkillMetadataBudget)
        ensures
            r == self.spec_with_limit(limit),
    {
        match self {
            SkillMetadataBudget::Tokens(_) => SkillMetadataBudget::Tokens(limit),
            SkillMetadataBudget::Characters(_) => SkillMetadataBudget::Characters(limit),
        }
    }

    /// The cost of a text of so many characters and bytes.
    pub open spec fn counted(self, chars: int, bytes: int) -> usize {
        match self {
            SkillMetadataBudget::Tokens(_) => sum_size(bytes, 3) / 4,
            SkillMetadataBudget::Characters(_) => sum_size(chars, 0),
        }
    }

    /// The cost of a text of so many characters and bytes.
    pub fn cost_from_counts(self, chars: usize, bytes: usize) -> (r: usize)
        ensures
            r == self.counted(chars as int, bytes as int),
    {
        match self {
            SkillMetadataBudget::Tokens(_) => bytes.saturating_add(3) / 4,
            SkillMetadataBudget::Characters(_) => chars,
        }
    }

    /// The cost of a text.
    pub open spec fn spec_cost(self, text: Seq<char>) -> usize {
        self.counted(text.len() as int, utf8_len(text) as int)
    }

    /// The cost of a text.
    pub fn cost(self, text: &str) -> (r: usize)
        ensures
            r == self.spec_cost(text@),
    {
        self.cost_from_counts(text.unicode_len(), byte_len(text))
    }
}

/// The cost of a line with its line end.
pub open spec fn line_cost(budget: SkillMetadataBudget, line: Seq<char>) -> usize {
    budget.counted(line.len() as int + 1, utf8_len(line) as int + 1)
}

/// The cost of a line with its line end.
pub fn metadata_line_cost(budget: SkillMetadataBudget, line: &str) -> (r: usize)
    ensures
        r == line_cost(budget, line@),
{
    match budget {
        SkillMetadataBudget::Tokens(_) => {
            let bytes: usize = byte_len(line).saturating_add(1);
            bytes.saturating_add(3) / 4
        },
        SkillMetadataBudget::Characters(_) => line.unicode_len().saturating_add(1),
    }
}

/// The budget for the list of skills.
pub open spec fn metadata_budget(
    context_window: Option<i64>,
    max_context_tokens: Option<usize>,
) -> SkillMetadataBudget {
    match max_context_tokens {
        Some(tokens) => SkillMetadataBudget::Tokens(
            if tokens < MAX_CONFIGURED_SKILL_METADATA_TOKEN_BUDGET {
                tokens
            } else {
                MAX_CONFIGURED_SKILL_METADATA_TOKEN_BUDGET
            },
        ),
        None => if context_window is Some && 0 < context_window->0 <= usize::MAX {
            let part = if context_window->0 * 2 > usize::MAX {
                usize::MAX as int / 100
            } else {
                context_window->0 * 2 / 100
            };
            SkillMetadataBudget::Tokens(
                if part < 1 {
                    1
                } else {
                    part as usize
                },
            )
        } else {
            SkillMetadataBudget::Characters(DEFAULT_SKILL_METADATA_CHAR_BUDGET)
        },
    }
}

/// The budget for the list of skills: what is configured, or a part of the context window, or a
/// fixed number of characters.
pub fn skill_metadata_budget(
    context_window: Option<i64>,
    max_context_tokens: Option<usize>,
) -> (r: SkillMetadataBudget)
    ensures
        r == metadata_budget(context_window, max_context_tokens),
{
    if let Some(tokens) = max_context_tokens {
        return SkillMetadataBudget::Tokens(
            if tokens < MAX_CONFIGURED_SKILL_METADATA_TOKEN_BUDGET {
                tokens
            } else {
                MAX_CONFIGURED_SKILL_METADATA_TOKEN_BUDGET
            },
        );
    }
    match context_window {
        Some(window) => {
            if window > 0 && window as u64 <= usize::MAX as u64 {
                let size: usize = window as usize;
                let scaled: usize = match size.checked_mul(SKILL_METADATA_CONTEXT_WINDOW_PERCENT) {
                    Some(scaled) => scaled,
                    None => usize::MAX,
                };
                let part: usize = scaled / 100;
                SkillMetadataBudget::Tokens(
                    if part < 1 {
                        1
                    } else {
                        part
                    },
                )
            } else {
                SkillMetadataBudget::Characters(DEFAULT_SKILL_METADATA_CHAR_BUDGET)
            }
        },
        None => SkillMetadataBudget::Characters(DEFAULT_SKILL_METADATA_CHAR_BUDGET),
    }
}

/// What a rendering shows and what it leaves out.
#[derive(Debug, Clone, Copy, PartialEq, Eq, Structural)]
pub struct SkillRenderReport {
    pub total_count: usize,
    pub included_count: usize,
    pub omitted_count: usize,
    pub truncated_description_chars: usize,
    pub truncated_description_count: usize,
}

/// The warning when descriptions were shortened.
pub open spec fn shortened_warning() -> Seq<char> {
    "Skill descriptions were shortened to fit the skills context budget. Codex can still see every skill, but some descriptions are shorter. Disable unused skills or plugins to leave more room for the rest."@
}

impl SkillRenderReport {
    /// The missing characters per skill, rounded up.
    pub open spec fn average_missing(self) -> int {
        if self.total_count == 0 || self.truncated_description_chars == 0 {
            0
        } else {
            sum_size(self.truncated_description_chars as int, self.total_count - 1) as int
                / self.total_count as int
        }
    }

    /// The warning for the user, if one is due.
    pub open spec fn warning(self) -> Option<Seq<char>> {
        if self.omitted_count > 0 {
            Some(
                "Exceeded skills context budget. All skill descriptions were removed and "@
                    + decimal(self.omitted_count as nat) + " additional "@ + (
                if self.omitted_count == 1 {
                    "skill was"@
                } else {
                    "skills were"@
                }) + " not included in the model-visible skills list."@,
            )
        } else if self.average_missing() > SKILL_DESCRIPTION_TRUNCATION_WARNING_THRESHOLD_CHARS {
            Some(shortened_warning())
        } else {
            None
        }
    }

    /// The missing characters per skill, rounded up.
    pub fn average_truncated_description_chars(&self) -> (r: usize)
        ensures
            r == self.average_missing(),
    {
        if self.total_count == 0 || self.truncated_description_chars == 0 {
            return 0;
        }
        self.truncated_description_chars.saturating_add(self.total_count - 1) / self.total_count
    }

    /// The warning for the user, if one is due.
    pub fn warning_message(&self) -> (r: Option<String>)
        ensures
            optional_text(r) == self.warning(),
    {
        if self.omitted_count > 0 {
            let mut message = String::from_str(
                "Exceeded skills context budget. All skill descriptions were removed and ",
            );
            message.append(decimal_text(self.omitted_count as u64).as_str());
            message.append(" additional ");
            if self.omitted_count == 1 {
                message.append("skill was");
            } else {
                message.append("skills were");
            }
            message.append(" not included in the model-visible skills list.");
            return Some(message);
        }
        if self.average_truncated_description_chars()
            > SKILL_DESCRIPTION_TRUNCATION_WARNING_THRESHOLD_CHARS {
            Some(
                "Skill descriptions were shortened to fit the skills context budget. Codex can still see every skill, but some descriptions are shorter. Disable unused skills or plugins to leave more room for the rest.".to_owned(),
            )
        } else {
            None
        }
    }
}

/// The size of a rendering next to that of the full list.
#[derive(Debug, Clone, Copy, PartialEq, Eq, Structural)]
pub struct SkillRenderSize {
    pub full_body_bytes: usize,
    pub rendered_body_bytes: usize,
    pub full_body_tokens: usize,
    pub rendered_body_tokens: usize,
    pub outcome: Option<SkillCatalogRenderOutcome>,
}

impl SkillRenderSize {
    /// The sizes of two bodies, in bytes and in tokens of four bytes.
    pub fn measured(
        full_body_bytes: usize,
        rendered_body_bytes: usize,
        outcome: Option<SkillCatalogRenderOutcome>,
    ) -> (r: SkillRenderSize)
        ensures
            r == (SkillRenderSize {
                full_body_bytes,
                rendered_body_bytes,
                full_body_tokens: (sum_size(full_body_bytes as int, 3) / 4) as usize,
                rendered_body_tokens: (sum_size(rendered_body_bytes as int, 3) / 4) as usize,
                outcome,
            }),
    {
        SkillRenderSize {
            full_body_bytes,
            rendered_body_bytes,
            full_body_tokens: full_body_bytes.saturating_add(3) / 4,
            rendered_body_tokens: rendered_body_bytes.saturating_add(3) / 4,
            outcome,
        }
    }

    /// The same sizes with another outcome.
    pub fn with_outcome(self, outcome: SkillCatalogRenderOutcome) -> (r: SkillRenderSize)
        ensures
            r == (SkillRenderSize { outcome: Some(outcome), ..self }),
    {
        SkillRenderSize {
            full_body_bytes: self.full_body_bytes,
            rendered_body_bytes: self.rendered_body_bytes,
            full_body_tokens: self.full_body_tokens,
            rendered_body_tokens: self.rendered_body_tokens,
            outcome: Some(outcome),
        }
    }
}

proof fn entry_before_irreflexive(a: EntryModel)
    ensures
        !entry_before(a, a),
{
    bytes_less_irreflexive(encode_utf8(a.main_prompt));
}

proof fn entry_before_transitive(a: EntryModel, b: EntryModel, c: EntryModel)
    requires
        !entry_before(b, a),
        !entry_before(c, b),
    ensures
        !entry_before(c, a),
{
    text_less_weak(a.name, b.name, c.name);
    text_less_weak(a.main_prompt, b.main_prompt, c.main_prompt);
    text_less_total(a.name, b.name);
    text_less_total(b.name, c.name);
    text_less_total(a.name, c.name);
}

proof fn text_less_weak(a: Seq<char>, b: Seq<char>, c: Seq<char>)
    ensures
        !text_less(b, a) && !text_less(c, b) ==> !text_less(c, a),
{
    text_less_total(a, b);
    text_less_total(b, c);
    text_less_total(a, c);
    if !text_less(b, a) && !text_less(c, b) && a != b && b != c {
        bytes_less_transitive(encode_utf8(a), encode_utf8(b), encode_utf8(c));
    }
}

/// Whether positions are in order: none stands before one that has to stand before it, and equal
/// ones stand as in the catalog.
pub open spec fn in_order(entries: Seq<EntryModel>, order: Seq<int>) -> bool {
    forall|i: int, j: int|
        0 <= i < j < order.len() ==> !entry_before(
            entries[#[trigger] order[j]],
            entries[#[trigger] order[i]],
        ) && (entry_before(entries[order[i]], entries[order[j]]) || order[i] < order[j])
}

/// Whether positions are those of the visible entries among the first `n`.
pub open spec fn holds_visible(entries: Seq<EntryModel>, order: Seq<int>, n: int) -> bool {
    &&& forall|i: int|
        0 <= i < order.len() ==> 0 <= #[trigger] order[i] < n && entries[order[i]].model_visible
    &&& forall|k: int|
        0 <= k < n && (#[trigger] entries[k]).model_visible ==> order.contains(k)
}

proof fn insert_keeps_order(entries: Seq<EntryModel>, order: Seq<int>, position: int)
    requires
        in_order(entries, order),
        forall|i: int| 0 <= i < order.len() ==> #[trigger] order[i] < position,
    ensures
        in_order(entries, insert_position_of(entries, order, position)),
        insert_position_of(entries, order, position).len() == order.len() + 1,
        insert_position_of(entries, order, position).contains(position),
        forall|i: int|
            0 <= i < order.len() ==> insert_position_of(entries, order, position).contains(
                #[trigger] order[i],
            ),
        forall|i: int|
            0 <= i <= order.len() ==> (#[trigger] insert_position_of(entries, order, position)[i]
                == position || order.contains(insert_position_of(entries, order, position)[i])),
    decreases order.len(),
{
    let after = insert_position_of(entries, order, position);
    if order.len() == 0 {
        assert(after[0] == position);
    } else if entry_before(entries[position], entries[order.last()]) {
        let fewer = order.drop_last();
        let inner = insert_position_of(entries, fewer, position);
        insert_keeps_order(entries, fewer, position);
        assert(after =~= inner.push(order.last()));
        assert(after[after.len() - 1] == order.last());
        let at = choose|k: int| 0 <= k < inner.len() && inner[k] == position;
        assert(after[at] == position);
        assert forall|i: int, j: int| 0 <= i < j < after.len() implies !entry_before(
            entries[#[trigger] after[j]],
            entries[#[trigger] after[i]],
        ) && (entry_before(entries[after[i]], entries[after[j]]) || after[i] < after[j]) by {
            if j == after.len() - 1 {
                assert(after[i] == inner[i]);
                if inner[i] == position {
                    entry_before_asymmetric(entries[position], entries[order.last()]);
                } else {
                    assert(fewer.contains(inner[i]));
                    let k = choose|k: int| 0 <= k < fewer.len() && fewer[k] == inner[i];
                    assert(order[k] == fewer[k]);
                    assert(order[order.len() - 1] == order.last());
                }
            } else {
                assert(after[i] == inner[i] && after[j] == inner[j]);
            }
        }
        assert forall|i: int| 0 <= i < order.len() implies after.contains(#[trigger] order[i]) by {
            if i < order.len() - 1 {
                assert(order[i] == fewer[i]);
                assert(inner.contains(fewer[i]));
                let k = choose|k: int| 0 <= k < inner.len() && inner[k] == fewer[i];
                assert(after[k] == order[i]);
            }
        }
        assert forall|i: int| 0 <= i <= order.len() implies (#[trigger] after[i] == position
            || order.contains(after[i])) by {
            if i < order.len() {
                assert(after[i] == inner[i]);
                if inner[i] != position {
                    assert(fewer.contains(inner[i]));
                    let k = choose|k: int| 0 <= k < fewer.len() && fewer[k] == inner[i];
                    assert(order[k] == inner[i]);
                }
            } else {
                assert(order[order.len() - 1] == after[i]);
            }
        }
    } else {
        assert(after =~= order.push(position));
        assert(after[order.len() as int] == position);
        assert forall|i: int, j: int| 0 <= i < j < after.len() implies !entry_before(
            entries[#[trigger] after[j]],
            entries[#[trigger] after[i]],
        ) && (entry_before(entries[after[i]], entries[after[j]]) || after[i] < after[j]) by {
            if j == after.len() - 1 {
                assert(after[i] == order[i]);
                if i < order.len() - 1 {
                    assert(order[order.len() - 1] == order.last());
                    entry_before_transitive(
                        entries[order[i]],
                        entries[order.last()],
                        entries[position],
                    );
                }
            } else {
                assert(after[i] == order[i] && after[j] == order[j]);
            }
        }
        assert forall|i: int| 0 <= i < order.len() implies after.contains(#[trigger] order[i]) by {
            assert(after[i] == order[i]);
        }
    }
}

proof fn entry_before_asymmetric(a: EntryModel, b: EntryModel)
    requires
        entry_before(a, b),
    ensures
        !entry_before(b, a),
{
    text_less_total(a.name, b.name);
    text_less_total(a.main_prompt, b.main_prompt);
}

proof fn sorted_is_in_order(entries: Seq<EntryModel>, n: int)
    requires
        0 <= n <= entries.len(),
    ensures
        in_order(entries, sorted_order(entries, n)),
        holds_visible(entries, sorted_order(entries, n), n),
    decreases n,
{
    if n > 0 {
        sorted_is_in_order(entries, n - 1);
        let before = sorted_order(entries, n - 1);
        if entries[n - 1].model_visible {
            insert_keeps_order(entries, before, n - 1);
            let after = sorted_order(entries, n);
            assert forall|k: int| 0 <= k < n && (#[trigger] entries[k]).model_visible implies
                after.contains(k) by {
                if k < n - 1 {
                    assert(before.contains(k));
                    let i = choose|i: int| 0 <= i < before.len() && before[i] == k;
                    assert(after.contains(before[i]));
                }
            }
            assert forall|i: int| 0 <= i < after.len() implies 0 <= #[trigger] after[i] < n
                && entries[after[i]].model_visible by {
                if after[i] != n - 1 {
                    assert(before.contains(after[i]));
                    let k = choose|k: int| 0 <= k < before.len() && before[k] == after[i];
                    assert(before[k] == after[i]);
                }
            }
        }
    }
}

/// The sorted list holds every visible entry once, ordered by scope, name and prompt; entries
/// that are equal in these stand as in the catalog.
pub proof fn sorted_policy_is_stable(
    entries: Seq<EntryModel>,
    policy: SkillCatalogRenderPolicy,
)
    requires
        policy != SkillCatalogRenderPolicy::ExtensionCompatible,
    ensures
        in_order(entries, policy_order(entries, policy)),
        holds_visible(entries, policy_order(entries, policy), entries.len() as int),
        policy_order(entries, policy).no_duplicates(),
{
    sorted_is_in_order(entries, entries.len() as int);
    let order = policy_order(entries, policy);
    assert forall|i: int, j: int| 0 <= i < j < order.len() implies order[i] != order[j] by {
        entry_before_irreflexive(entries[order[i]]);
    }
}

} // verus!

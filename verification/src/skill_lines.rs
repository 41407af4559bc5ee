//! The lines of the list of skills, and how much of each description fits a budget.

use vstd::prelude::*;
use vstd::string::*;

use crate::history::texts;
use crate::numbers::{decimal, decimal_text};
use crate::read_tool_output::sum_size;
use crate::skill_policy::{
    line_cost, metadata_line_cost, EntryModel, SkillCatalogEntry, SkillCatalogRenderPolicy,
    SkillMetadataBudget, SkillSourceKind, SourceModel,
};
use crate::text::{
    byte_len, char_byte_len, chars_of, encode_concat, encode_empty, encode_push,
    take_bytes_at_char_boundary, text_of, utf8_len, prefix_within,
};

verus! {

/// The most bytes of a skill's prompt that are shown.
pub const MAX_SKILL_PROMPT_BYTES: usize = 8000;

/// The most characters of a description in the list of skills.
pub const MAX_CATALOG_SKILL_DESCRIPTION_CHARS: usize = 1024;

/// What stands for the rest of a description.
pub const TRUNCATED_SKILL_DESCRIPTION_SUFFIX: &'static str = "...";

/// The most bytes of a skill's name.
pub const MAX_SKILL_NAME_BYTES: usize = 256;

/// The most bytes of a skill's path.
pub const MAX_SKILL_PATH_BYTES: usize = 1024;

/// A description as the list of skills holds it.
pub open spec fn bounded_description(description: Seq<char>) -> Seq<char> {
    if description.len() <= 1024 {
        description
    } else {
        description.take(1021) + "..."@
    }
}

/// A description cut to at most [`MAX_CATALOG_SKILL_DESCRIPTION_CHARS`] characters.
pub fn truncate_catalog_skill_description(description: &str) -> (r: String)
    ensures
        r@ == bounded_description(description@),
        r@.len() <= MAX_CATALOG_SKILL_DESCRIPTION_CHARS,
{
    proof {
        reveal_strlit("...");
    }
    let chars = chars_of(description);
    if chars.len() <= MAX_CATALOG_SKILL_DESCRIPTION_CHARS {
        return text_of(&chars, 0, chars.len());
    }
    let mut cut = text_of(&chars, 0, MAX_CATALOG_SKILL_DESCRIPTION_CHARS - 3);
    cut.append(TRUNCATED_SKILL_DESCRIPTION_SUFFIX);
    proof {
        assert(description@.subrange(0, 1021) =~= description@.take(1021));
    }
    cut
}

/// The start of a text that fits so many bytes, and whether anything is missing.
pub fn truncate_utf8_to_bytes(contents: &str, max_bytes: usize) -> (r: (String, bool))
    ensures
        r.0@ == prefix_within(contents@, max_bytes as int),
        r.1 == (utf8_len(r.0@) < utf8_len(contents@)),
{
    let cut = take_bytes_at_char_boundary(contents, max_bytes);
    let shorter = byte_len(cut.as_str()) < byte_len(contents);
    (cut, shorter)
}

/// The start of a skill's prompt that is shown, and whether anything is missing.
pub fn truncate_main_prompt_contents(contents: &str) -> (r: (String, bool))
    ensures
        r.0@ == prefix_within(contents@, MAX_SKILL_PROMPT_BYTES as int),
        r.1 == (utf8_len(r.0@) < utf8_len(contents@)),
{
    truncate_utf8_to_bytes(contents, MAX_SKILL_PROMPT_BYTES)
}

/// One line of the list of skills before its description is cut.
#[derive(Debug)]
pub struct SkillLine {
    pub name: String,
    pub description: String,
    pub full_description: String,
    pub locator: String,
    pub locator_kind: &'static str,
}

/// The model of a [`SkillLine`].
pub struct LineModel {
    pub name: Seq<char>,
    pub description: Seq<char>,
    pub full_description: Seq<char>,
    pub locator: Seq<char>,
    pub locator_kind: Seq<char>,
}

impl View for SkillLine {
    type V = LineModel;

    open spec fn view(&self) -> LineModel {
        LineModel {
            name: self.name@,
            description: self.description@,
            full_description: self.full_description@,
            locator: self.locator@,
            locator_kind: self.locator_kind@,
        }
    }
}

/// The models of lines.
pub open spec fn line_models(lines: Seq<SkillLine>) -> Seq<LineModel> {
    lines.map_values(|line: SkillLine| line@)
}

/// By what an entry is found when no alias stands for it.
pub open spec fn entry_locator(entry: EntryModel) -> Seq<char> {
    match entry.kind {
        SourceModel::Executor | SourceModel::Orchestrator => entry.id,
        SourceModel::Host | SourceModel::Custom(_) => entry.rendered_path,
    }
}

/// By what an entry is found when no alias stands for it.
pub fn locator_of(entry: &SkillCatalogEntry) -> (r: String)
    ensures
        r@ == entry_locator(entry@),
{
    match &entry.kind {
        SkillSourceKind::Executor | SkillSourceKind::Orchestrator => entry.id.clone(),
        SkillSourceKind::Host | SkillSourceKind::Custom(_) => entry.rendered_path.clone(),
    }
}

/// What a locator of a source is called.
pub open spec fn locator_kind_of(kind: SourceModel) -> Seq<char> {
    match kind {
        SourceModel::Host => "file"@,
        SourceModel::Executor => "executor package"@,
        SourceModel::Orchestrator => "orchestrator package"@,
        SourceModel::Custom(_) => "custom resource"@,
    }
}

/// The line of an entry.
pub open spec fn entry_line(
    entry: EntryModel,
    policy: SkillCatalogRenderPolicy,
    full_policy: SkillCatalogRenderPolicy,
    locator: Seq<char>,
) -> LineModel {
    LineModel {
        name: entry.name,
        description: bounded_description(policy.spec_description(entry)),
        full_description: bounded_description(full_policy.spec_description(entry)),
        locator,
        locator_kind: locator_kind_of(entry.kind),
    }
}

/// A line with the given description.
pub open spec fn rendered_line(line: LineModel, description: Seq<char>) -> Seq<char> {
    if description.len() == 0 {
        "- "@ + line.name + ": ("@ + line.locator_kind + ": "@ + line.locator + ")"@
    } else {
        "- "@ + line.name + ": "@ + description + " ("@ + line.locator_kind + ": "@ + line.locator
            + ")"@
    }
}

/// A line with the first `chars` characters of its description.
pub open spec fn line_with_chars(line: LineModel, chars: int) -> Seq<char> {
    rendered_line(
        line,
        line.description.take(
            if chars < line.description.len() {
                chars
            } else {
                line.description.len() as int
            },
        ),
    )
}

impl SkillLine {
    /// The line of an entry with the locator of its own.
    pub fn new(entry: &SkillCatalogEntry, policy: SkillCatalogRenderPolicy) -> (r: SkillLine)
        ensures
            r@ == entry_line(entry@, policy, policy, entry_locator(entry@)),
    {
        SkillLine::new_with_full_policy(entry, policy, policy)
    }

    /// The line of an entry with the locator of its own.
    pub fn new_with_full_policy(
        entry: &SkillCatalogEntry,
        policy: SkillCatalogRenderPolicy,
        full_policy: SkillCatalogRenderPolicy,
    ) -> (r: SkillLine)
        ensures
            r@ == entry_line(entry@, policy, full_policy, entry_locator(entry@)),
    {
        SkillLine::with_locator_and_full_policy(entry, policy, full_policy, locator_of(entry))
    }

    /// The line of an entry with a given locator.
    pub fn with_locator_and_full_policy(
        entry: &SkillCatalogEntry,
        policy: SkillCatalogRenderPolicy,
        full_policy: SkillCatalogRenderPolicy,
        locator: String,
    ) -> (r: SkillLine)
        ensures
            r@ == entry_line(entry@, policy, full_policy, locator@),
    {
        let locator_kind: &'static str = match &entry.kind {
            SkillSourceKind::Host => "file",
            SkillSourceKind::Executor => "executor package",
            SkillSourceKind::Orchestrator => "orchestrator package",
            SkillSourceKind::Custom(_) => "custom resource",
        };
        SkillLine {
            name: entry.name.clone(),
            description: truncate_catalog_skill_description(policy.description(entry)),
            full_description: truncate_catalog_skill_description(full_policy.description(entry)),
            locator,
            locator_kind,
        }
    }

    /// The cost of the line with its whole description.
    pub fn full_cost(&self, budget: SkillMetadataBudget) -> (r: usize)
        ensures
            r == line_cost(budget, rendered_line(self@, self@.description)),
    {
        metadata_line_cost(budget, self.render_full().as_str())
    }

    /// The cost of the line without a description.
    pub fn minimum_cost(&self, budget: SkillMetadataBudget) -> (r: usize)
        ensures
            r == line_cost(budget, rendered_line(self@, seq![])),
    {
        metadata_line_cost(budget, self.render_minimum().as_str())
    }

    /// The number of characters of the description.
    pub fn description_char_count(&self) -> (r: usize)
        ensures
            r == self@.description.len(),
    {
        self.description.as_str().unicode_len()
    }

    /// The line with its whole description.
    pub fn render_full(&self) -> (r: String)
        ensures
            r@ == rendered_line(self@, self@.description),
    {
        self.render_with_description(self.description.as_str())
    }

    /// The line with the whole description of the other policy.
    pub fn render_baseline(&self) -> (r: String)
        ensures
            r@ == rendered_line(self@, self@.full_description),
    {
        self.render_with_description(self.full_description.as_str())
    }

    /// The line without a description.
    pub fn render_minimum(&self) -> (r: String)
        ensures
            r@ == rendered_line(self@, seq![]),
    {
        proof {
            reveal_strlit("");
            assert(""@ =~= Seq::<char>::empty());
        }
        self.render_with_description("")
    }

    /// The line with the first characters of its description.
    pub fn render_with_description_chars(&self, description_chars: usize) -> (r: String)
        ensures
            r@ == line_with_chars(self@, description_chars as int),
    {
        let chars = chars_of(self.description.as_str());
        let end: usize = if description_chars < chars.len() {
            description_chars
        } else {
            chars.len()
        };
        let part = text_of(&chars, 0, end);
        proof {
            assert(chars@.subrange(0, end as int) =~= chars@.take(end as int));
        }
        self.render_with_description(part.as_str())
    }

    /// The line with the given description.
    pub fn render_with_description(&self, description: &str) -> (r: String)
        ensures
            r@ == rendered_line(self@, description@),
    {
        let mut line = String::from_str("- ");
        line.append(self.name.as_str());
        if description.unicode_len() == 0 {
            line.append(": (");
        } else {
            line.append(": ");
            line.append(description);
            line.append(" (");
        }
        line.append(self.locator_kind);
        line.append(": ");
        line.append(self.locator.as_str());
        line.append(")");
        line
    }
}

/// The number that stands for an integer where larger ones are cut off.
pub open spec fn capped(n: int) -> usize {
    sum_size(n, 0)
}

/// The cost of lines together.
pub open spec fn lines_total(budget: SkillMetadataBudget, lines: Seq<Seq<char>>) -> nat
    decreases lines.len(),
{
    if lines.len() == 0 {
        0
    } else {
        lines_total(budget, lines.drop_last()) + line_cost(budget, lines.last()) as nat
    }
}

/// What becomes of a line.
#[derive(Clone, Copy, Debug, PartialEq, Eq, Structural)]
pub enum SkillLineAllocation {
    Omitted,
    DescriptionChars(usize),
}

/// The lines that are shown.
pub open spec fn shown_lines(lines: Seq<LineModel>, allocations: Seq<SkillLineAllocation>) -> Seq<
    Seq<char>,
>
    decreases lines.len(),
{
    if lines.len() == 0 || lines.len() != allocations.len() {
        seq![]
    } else {
        let before = shown_lines(lines.drop_last(), allocations.drop_last());
        match allocations.last() {
            SkillLineAllocation::Omitted => before,
            SkillLineAllocation::DescriptionChars(chars) => before.push(
                line_with_chars(lines.last(), chars as int),
            ),
        }
    }
}

/// The cost of what is shown.
pub open spec fn shown_total(
    lines: Seq<LineModel>,
    allocations: Seq<SkillLineAllocation>,
    budget: SkillMetadataBudget,
) -> nat {
    lines_total(budget, shown_lines(lines, allocations))
}

/// Every line in full.
pub open spec fn full_lines(lines: Seq<LineModel>) -> Seq<Seq<char>> {
    lines.map_values(|line: LineModel| rendered_line(line, line.description))
}

/// Every line without its description.
pub open spec fn bare_lines(lines: Seq<LineModel>) -> Seq<Seq<char>> {
    lines.map_values(|line: LineModel| rendered_line(line, seq![]))
}

/// What the first characters of a description cost on top of the bare line.
pub open spec fn extra_cost(line: LineModel, budget: SkillMetadataBudget, chars: int) -> int {
    line_cost(budget, line_with_chars(line, chars)) - line_cost(budget, rendered_line(line, seq![]))
}

/// Where the distribution of description space stands.
pub struct Distribution {
    /// How many characters each line has.
    pub chars: Seq<usize>,
    /// What is left of the budget.
    pub remaining: int,
    /// Whether the current round gave anything to a line.
    pub changed: bool,
}

/// One more character for the line at `index`, if it has one more and the budget allows it.
pub open spec fn offer_char(
    lines: Seq<LineModel>,
    budget: SkillMetadataBudget,
    state: Distribution,
    index: int,
) -> Distribution {
    let chars = state.chars[index] as int;
    let delta = extra_cost(lines[index], budget, chars + 1) - extra_cost(
        lines[index],
        budget,
        chars,
    );
    if chars < lines[index].description.len() && delta <= state.remaining {
        Distribution {
            chars: state.chars.update(index, (chars + 1) as usize),
            remaining: state.remaining - delta,
            changed: true,
        }
    } else {
        state
    }
}

/// A round, as far as the first `n` lines.
pub open spec fn round(
    lines: Seq<LineModel>,
    budget: SkillMetadataBudget,
    state: Distribution,
    n: int,
) -> Distribution
    decreases n,
{
    if n <= 0 {
        Distribution { changed: false, ..state }
    } else {
        offer_char(lines, budget, round(lines, budget, state, n - 1), n - 1)
    }
}

/// How many characters the first `n` lines do not have.
pub open spec fn withheld(lines: Seq<LineModel>, chars: Seq<usize>, n: int) -> nat
    decreases n,
{
    if n <= 0 {
        0
    } else {
        withheld(lines, chars, n - 1) + (if chars[n - 1] < lines[n - 1].description.len() {
            (lines[n - 1].description.len() - chars[n - 1]) as nat
        } else {
            0
        })
    }
}

proof fn withheld_update(lines: Seq<LineModel>, chars: Seq<usize>, n: int, index: int)
    requires
        0 <= index < chars.len(),
        chars.len() == lines.len(),
        0 <= n <= lines.len(),
        chars[index] < lines[index].description.len(),
        chars[index] < usize::MAX,
    ensures
        withheld(lines, chars.update(index, (chars[index] + 1) as usize), n) == withheld(
            lines,
            chars,
            n,
        ) - (if index < n {
            1int
        } else {
            0
        }),
    decreases n,
{
    if n > 0 {
        withheld_update(lines, chars, n - 1, index);
    }
}

pub(crate) proof fn round_progress(
    lines: Seq<LineModel>,
    budget: SkillMetadataBudget,
    state: Distribution,
    n: int,
)
    requires
        state.chars.len() == lines.len(),
        fits_machine(lines),
        0 <= n <= lines.len(),
    ensures
        round(lines, budget, state, n).chars.len() == lines.len(),
        withheld(lines, round(lines, budget, state, n).chars, lines.len() as int) <= withheld(
            lines,
            state.chars,
            lines.len() as int,
        ),
        round(lines, budget, state, n).changed ==> withheld(
            lines,
            round(lines, budget, state, n).chars,
            lines.len() as int,
        ) < withheld(lines, state.chars, lines.len() as int),
    decreases n,
{
    if n > 0 {
        round_progress(lines, budget, state, n - 1);
        let before = round(lines, budget, state, n - 1);
        if before.chars[n - 1] < lines[n - 1].description.len() {
            withheld_update(lines, before.chars, lines.len() as int, n - 1);
        }
    }
}

/// Whether the lengths of the descriptions are machine numbers.
pub open spec fn fits_machine(lines: Seq<LineModel>) -> bool {
    forall|i: int| 0 <= i < lines.len() ==> (#[trigger] lines[i]).description.len() <= usize::MAX
}

/// Rounds until one gives nothing to any line.
pub open spec fn rounds(
    lines: Seq<LineModel>,
    budget: SkillMetadataBudget,
    state: Distribution,
) -> Distribution
    decreases withheld(lines, state.chars, lines.len() as int),
    when state.chars.len() == lines.len() && fits_machine(lines)
    via rounds_end
{
    let after = round(lines, budget, state, lines.len() as int);
    if after.changed {
        rounds(lines, budget, after)
    } else {
        after
    }
}

#[via_fn]
proof fn rounds_end(lines: Seq<LineModel>, budget: SkillMetadataBudget, state: Distribution) {
    round_progress(lines, budget, state, lines.len() as int);
}

/// The distribution before the first round.
pub open spec fn undistributed(count: nat, limit: int) -> Distribution {
    Distribution { chars: Seq::new(count, |i: int| 0usize), remaining: limit, changed: false }
}

/// The bare lines that fit, each taken if it fits behind those taken before it.
pub open spec fn bare_that_fit(
    lines: Seq<LineModel>,
    budget: SkillMetadataBudget,
) -> Seq<SkillLineAllocation>
    decreases lines.len(),
{
    if lines.len() == 0 {
        seq![]
    } else {
        let before = bare_that_fit(lines.drop_last(), budget);
        let used = shown_total(lines.drop_last(), before, budget);
        before.push(
            if capped(used + line_cost(budget, rendered_line(lines.last(), seq![])))
                <= budget.spec_limit() {
                SkillLineAllocation::DescriptionChars(0)
            } else {
                SkillLineAllocation::Omitted
            },
        )
    }
}

/// What becomes of each line: all in full where they fit; else all, with the space that is left
/// dealt out to the descriptions in turns; else as many bare lines as fit.
pub open spec fn allocated(
    lines: Seq<LineModel>,
    budget: SkillMetadataBudget,
) -> Seq<SkillLineAllocation> {
    let bare = lines_total(budget, bare_lines(lines));
    if capped(lines_total(budget, full_lines(lines)) as int) <= budget.spec_limit() {
        lines.map_values(
            |line: LineModel|
                SkillLineAllocation::DescriptionChars(line.description.len() as usize),
        )
    } else if capped(bare as int) <= budget.spec_limit() {
        rounds(
            lines,
            budget,
            undistributed(lines.len(), budget.spec_limit() - bare),
        ).chars.map_values(|chars: usize| SkillLineAllocation::DescriptionChars(chars))
    } else {
        bare_that_fit(lines, budget)
    }
}

proof fn totals_push(budget: SkillMetadataBudget, lines: Seq<Seq<char>>, line: Seq<char>)
    ensures
        lines_total(budget, lines.push(line)) == lines_total(budget, lines) + line_cost(
            budget,
            line,
        ),
{
    assert(lines.push(line).drop_last() =~= lines);
}

/// The cost of a line grows with the characters of its description, one by one.
pub proof fn cost_grows(line: LineModel, budget: SkillMetadataBudget, chars: int)
    requires
        0 <= chars <= line.description.len(),
    ensures
        line_with_chars(line, 0) == rendered_line(line, seq![]),
        chars > 0 ==> line_with_chars(line, chars).len() == rendered_line(line, seq![]).len()
            + chars + 1,
        chars > 0 ==> utf8_len(line_with_chars(line, chars)) == utf8_len(
            rendered_line(line, seq![]),
        ) + utf8_len(line.description.take(chars)) + 1,
        chars > 0 ==> extra_cost(line, budget, chars - 1) <= extra_cost(line, budget, chars),
        extra_cost(line, budget, chars) >= 0,
        extra_cost(line, budget, 0) == 0,
    decreases chars,
{
    assert(line.description.take(0) =~= Seq::<char>::empty());
    if chars > 0 {
        cost_grows(line, budget, chars - 1);
        let part = line.description.take(chars);
        let head = "- "@ + line.name;
        let tail = line.locator_kind + ": "@ + line.locator + ")"@;
        reveal_strlit(": (");
        reveal_strlit(": ");
        reveal_strlit(" (");
        assert(rendered_line(line, seq![]) =~= head + (": ("@ + tail));
        assert(line_with_chars(line, chars) =~= head + (": "@ + (part + (" ("@ + tail))));
        encode_concat(head, ": ("@ + tail);
        encode_concat(": ("@, tail);
        encode_concat(head, ": "@ + (part + (" ("@ + tail)));
        encode_concat(": "@, part + (" ("@ + tail));
        encode_concat(part, " ("@ + tail);
        encode_concat(" ("@, tail);
        let colon = ": "@;
        let open = " ("@;
        assert(": ("@ =~= colon.push('('));
        encode_push(colon, '(');
        assert(open =~= seq![' ', '(']);
        assert(seq![' ', '('] =~= Seq::<char>::empty().push(' ').push('('));
        encode_empty();
        encode_push(Seq::<char>::empty(), ' ');
        encode_push(Seq::<char>::empty().push(' '), '(');
        let shorter = line.description.take(chars - 1);
        assert(part =~= shorter.push(line.description[chars - 1]));
        encode_push(shorter, line.description[chars - 1]);
        if chars == 1 {
            assert(shorter =~= Seq::<char>::empty());
        }
    }
}

/// The costs of the first characters of a line's description.
struct DescriptionBudgetLine {
    description_char_count: usize,
    extra_costs: Vec<usize>,
}

impl DescriptionBudgetLine {
    spec fn describes(&self, line: LineModel, budget: SkillMetadataBudget) -> bool {
        &&& self.description_char_count == line.description.len()
        &&& self.extra_costs@.len() == line.description.len() + 1
        &&& forall|k: int|
            0 <= k <= line.description.len() ==> #[trigger] self.extra_costs@[k] == extra_cost(
                line,
                budget,
                k,
            )
    }

    fn new(line: &SkillLine, budget: SkillMetadataBudget) -> (r: DescriptionBudgetLine)
        ensures
            r.describes(line@, budget),
    {
        let minimum_line = line.render_minimum();
        let minimum_chars: usize = minimum_line.as_str().unicode_len().saturating_add(1);
        let minimum_bytes: usize = byte_len(minimum_line.as_str()).saturating_add(1);
        let minimum_cost: usize = budget.cost_from_counts(minimum_chars, minimum_bytes);
        let ghost bare = rendered_line(line@, seq![]);
        let chars = chars_of(line.description.as_str());
        let mut extra_costs: Vec<usize> = Vec::new();
        extra_costs.push(0);
        let mut prefix_bytes: usize = 0;
        let mut i: usize = 0;
        proof {
            cost_grows(line@, budget, 0);
            encode_empty();
            assert(chars@.take(0) =~= Seq::<char>::empty());
            assert(minimum_cost == line_cost(budget, bare));
        }
        while i < chars.len()
            invariant
                i <= chars@.len(),
                chars@ == line@.description,
                bare == rendered_line(line@, seq![]),
                minimum_chars == sum_size(bare.len() as int, 1),
                minimum_bytes == sum_size(utf8_len(bare) as int, 1),
                minimum_cost == line_cost(budget, bare),
                prefix_bytes == capped(utf8_len(chars@.take(i as int)) as int),
                extra_costs@.len() == i + 1,
                forall|k: int|
                    0 <= k <= i ==> #[trigger] extra_costs@[k] == extra_cost(line@, budget, k),
            decreases chars@.len() - i,
        {
            proof {
                assert(chars@.take(i + 1) =~= chars@.take(i as int).push(chars@[i as int]));
                encode_push(chars@.take(i as int), chars@[i as int]);
                cost_grows(line@, budget, i + 1);
            }
            prefix_bytes = prefix_bytes.saturating_add(char_byte_len(chars[i]));
            i += 1;
            let rendered_chars: usize = minimum_chars.saturating_add(i).saturating_add(1);
            let rendered_bytes: usize = minimum_bytes.saturating_add(prefix_bytes).saturating_add(
                1,
            );
            let with_prefix: usize = budget.cost_from_counts(rendered_chars, rendered_bytes);
            let cost: usize = with_prefix.saturating_sub(minimum_cost);
            proof {
                assert(with_prefix == line_cost(budget, line_with_chars(line@, i as int)));
            }
            extra_costs.push(cost);
        }
        DescriptionBudgetLine { description_char_count: chars.len(), extra_costs }
    }
}

/// Whether no line has more characters than its description.
pub open spec fn chars_exist(lines: Seq<LineModel>, chars: Seq<usize>) -> bool {
    &&& chars.len() == lines.len()
    &&& forall|i: int| 0 <= i < lines.len() ==> #[trigger] chars[i] <= lines[i].description.len()
}

/// What the characters of the first `n` lines cost on top of the bare lines.
pub open spec fn extras(
    lines: Seq<LineModel>,
    budget: SkillMetadataBudget,
    chars: Seq<usize>,
    n: int,
) -> int
    decreases n,
{
    if n <= 0 {
        0
    } else {
        extras(lines, budget, chars, n - 1) + extra_cost(
            lines[n - 1],
            budget,
            chars[n - 1] as int,
        )
    }
}

proof fn extras_update(
    lines: Seq<LineModel>,
    budget: SkillMetadataBudget,
    chars: Seq<usize>,
    n: int,
    index: int,
    value: usize,
)
    requires
        0 <= index < chars.len(),
        chars.len() == lines.len(),
        0 <= n <= lines.len(),
    ensures
        extras(lines, budget, chars.update(index, value), n) == extras(lines, budget, chars, n) + (
        if index < n {
            extra_cost(lines[index], budget, value as int) - extra_cost(
                lines[index],
                budget,
                chars[index] as int,
            )
        } else {
            0
        }),
    decreases n,
{
    if n > 0 {
        extras_update(lines, budget, chars, n - 1, index, value);
    }
}

/// What holds of a distribution: the characters exist, and they and what is left make up the
/// budget.
pub open spec fn accounted(
    lines: Seq<LineModel>,
    budget: SkillMetadataBudget,
    state: Distribution,
    limit: int,
) -> bool {
    &&& chars_exist(lines, state.chars)
    &&& state.remaining >= 0
    &&& state.remaining + extras(lines, budget, state.chars, lines.len() as int) == limit
}

proof fn round_accounted(
    lines: Seq<LineModel>,
    budget: SkillMetadataBudget,
    state: Distribution,
    n: int,
    limit: int,
)
    requires
        fits_machine(lines),
        accounted(lines, budget, state, limit),
        0 <= n <= lines.len(),
    ensures
        accounted(lines, budget, round(lines, budget, state, n), limit),
    decreases n,
{
    if n > 0 {
        round_accounted(lines, budget, state, n - 1, limit);
        let before = round(lines, budget, state, n - 1);
        let chars = before.chars[n - 1];
        if chars < lines[n - 1].description.len() {
            extras_update(
                lines,
                budget,
                before.chars,
                lines.len() as int,
                n - 1,
                (chars + 1) as usize,
            );
        }
    }
}

proof fn rounds_accounted(
    lines: Seq<LineModel>,
    budget: SkillMetadataBudget,
    state: Distribution,
    limit: int,
)
    requires
        fits_machine(lines),
        accounted(lines, budget, state, limit),
    ensures
        accounted(lines, budget, rounds(lines, budget, state), limit),
    decreases withheld(lines, state.chars, lines.len() as int),
{
    let after = round(lines, budget, state, lines.len() as int);
    round_accounted(lines, budget, state, lines.len() as int, limit);
    round_progress(lines, budget, state, lines.len() as int);
    if after.changed {
        rounds_accounted(lines, budget, after, limit);
    }
}

proof fn undistributed_accounted(lines: Seq<LineModel>, budget: SkillMetadataBudget, limit: int)
    requires
        limit >= 0,
    ensures
        accounted(lines, budget, undistributed(lines.len(), limit), limit),
{
    no_extras(lines, budget, lines.len() as int);
}

proof fn no_extras(lines: Seq<LineModel>, budget: SkillMetadataBudget, n: int)
    requires
        0 <= n <= lines.len(),
    ensures
        extras(lines, budget, Seq::new(lines.len(), |i: int| 0usize), n) == 0,
    decreases n,
{
    if n > 0 {
        no_extras(lines, budget, n - 1);
        cost_grows(lines[n - 1], budget, 0);
    }
}

proof fn chars_total(lines: Seq<LineModel>, budget: SkillMetadataBudget, chars: Seq<usize>)
    requires
        chars_exist(lines, chars),
    ensures
        shown_total(
            lines,
            chars.map_values(|chars: usize| SkillLineAllocation::DescriptionChars(chars)),
            budget,
        ) == lines_total(budget, bare_lines(lines)) + extras(
            lines,
            budget,
            chars,
            lines.len() as int,
        ),
    decreases lines.len(),
{
    let allocations = chars.map_values(|chars: usize| SkillLineAllocation::DescriptionChars(chars));
    if lines.len() > 0 {
        let fewer = lines.drop_last();
        let less = chars.drop_last();
        chars_total(fewer, budget, less);
        assert(allocations.drop_last() =~= less.map_values(
            |chars: usize| SkillLineAllocation::DescriptionChars(chars),
        ));
        assert(bare_lines(lines).drop_last() =~= bare_lines(fewer));
        extras_prefix(lines, budget, chars, fewer.len() as int);
        totals_push(
            budget,
            shown_lines(fewer, allocations.drop_last()),
            line_with_chars(lines.last(), chars.last() as int),
        );
    }
}

proof fn extras_prefix(
    lines: Seq<LineModel>,
    budget: SkillMetadataBudget,
    chars: Seq<usize>,
    n: int,
)
    requires
        0 <= n < lines.len(),
        chars.len() == lines.len(),
    ensures
        extras(lines.drop_last(), budget, chars.drop_last(), n) == extras(lines, budget, chars, n),
    decreases n,
{
    if n > 0 {
        extras_prefix(lines, budget, chars, n - 1);
    }
}

proof fn full_total(lines: Seq<LineModel>, budget: SkillMetadataBudget)
    requires
        fits_machine(lines),
    ensures
        shown_lines(
            lines,
            lines.map_values(
                |line: LineModel|
                    SkillLineAllocation::DescriptionChars(line.description.len() as usize),
            ),
        ) == full_lines(lines),
    decreases lines.len(),
{
    if lines.len() > 0 {
        let fewer = lines.drop_last();
        full_total(fewer, budget);
        assert(lines.map_values(
            |line: LineModel|
                SkillLineAllocation::DescriptionChars(line.description.len() as usize),
        ).drop_last() =~= fewer.map_values(
            |line: LineModel|
                SkillLineAllocation::DescriptionChars(line.description.len() as usize),
        ));
        let line = lines.last();
        assert(line == lines[lines.len() - 1]);
        assert(line.description.take(line.description.len() as int) =~= line.description);
        assert(full_lines(fewer).push(rendered_line(line, line.description)) =~= full_lines(lines));
    } else {
        assert(full_lines(lines) =~= Seq::<Seq<char>>::empty());
    }
}

proof fn bare_fit(lines: Seq<LineModel>, budget: SkillMetadataBudget)
    ensures
        bare_that_fit(lines, budget).len() == lines.len(),
        capped(shown_total(lines, bare_that_fit(lines, budget), budget) as int)
            <= budget.spec_limit(),
    decreases lines.len(),
{
    if lines.len() > 0 {
        let fewer = lines.drop_last();
        bare_fit(fewer, budget);
        let before = bare_that_fit(fewer, budget);
        let after = bare_that_fit(lines, budget);
        assert(after.drop_last() =~= before);
        cost_grows(lines.last(), budget, 0);
        totals_push(
            budget,
            shown_lines(fewer, before),
            rendered_line(lines.last(), seq![]),
        );
    }
}

/// The lines that are shown never cost more than the budget allows.
pub proof fn allocation_fits(lines: Seq<LineModel>, budget: SkillMetadataBudget)
    requires
        fits_machine(lines),
    ensures
        allocated(lines, budget).len() == lines.len(),
        capped(shown_total(lines, allocated(lines, budget), budget) as int) <= budget.spec_limit(),
{
    let bare = lines_total(budget, bare_lines(lines));
    if capped(lines_total(budget, full_lines(lines)) as int) <= budget.spec_limit() {
        full_total(lines, budget);
    } else if capped(bare as int) <= budget.spec_limit() {
        let limit = budget.spec_limit() - bare;
        undistributed_accounted(lines, budget, limit);
        rounds_accounted(lines, budget, undistributed(lines.len(), limit), limit);
        chars_total(lines, budget, rounds(lines, budget, undistributed(lines.len(), limit)).chars);
    } else {
        bare_fit(lines, budget);
    }
}

proof fn idle_round(
    lines: Seq<LineModel>,
    budget: SkillMetadataBudget,
    state: Distribution,
    n: int,
)
    requires
        0 <= n <= lines.len(),
        state.chars.len() == lines.len(),
        !round(lines, budget, state, n).changed,
    ensures
        round(lines, budget, state, n).chars == state.chars,
        round(lines, budget, state, n).remaining == state.remaining,
        forall|i: int|
            0 <= i < n && #[trigger] state.chars[i] < lines[i].description.len() ==> extra_cost(
                lines[i],
                budget,
                state.chars[i] + 1,
            ) - extra_cost(lines[i], budget, state.chars[i] as int) > state.remaining,
    decreases n,
{
    if n > 0 {
        idle_round(lines, budget, state, n - 1);
    }
}

/// When the space has been dealt out, no description could have one more character: for every
/// line that does not have all of its own, the next one would cost more than what is left.
pub proof fn no_room_is_left(
    lines: Seq<LineModel>,
    budget: SkillMetadataBudget,
    state: Distribution,
    index: int,
)
    requires
        fits_machine(lines),
        state.chars.len() == lines.len(),
        0 <= index < lines.len(),
        rounds(lines, budget, state).chars[index] < lines[index].description.len(),
    ensures
        extra_cost(lines[index], budget, rounds(lines, budget, state).chars[index] + 1)
            - extra_cost(
            lines[index],
            budget,
            rounds(lines, budget, state).chars[index] as int,
        ) > rounds(lines, budget, state).remaining,
    decreases withheld(lines, state.chars, lines.len() as int),
{
    let after = round(lines, budget, state, lines.len() as int);
    round_progress(lines, budget, state, lines.len() as int);
    if after.changed {
        no_room_is_left(lines, budget, after, index);
    } else {
        idle_round(lines, budget, state, lines.len() as int);
    }
}

/// The characters of each description when the space that bare lines leave is dealt out in
/// turns, one character at a time.
fn allocate_description_chars(
    budget: SkillMetadataBudget,
    skill_lines: &Vec<SkillLine>,
    limit: usize,
) -> (r: Vec<usize>)
    ensures
        r@ == rounds(
            line_models(skill_lines@),
            budget,
            undistributed(skill_lines@.len(), limit as int),
        ).chars,
        fits_machine(line_models(skill_lines@)),
{
    let ghost lines = line_models(skill_lines@);
    let mut budget_lines: Vec<DescriptionBudgetLine> = Vec::new();
    let mut char_allocations: Vec<usize> = Vec::new();
    let mut current_extra_costs: Vec<usize> = Vec::new();
    let mut i: usize = 0;
    while i < skill_lines.len()
        invariant
            i <= skill_lines@.len(),
            lines == line_models(skill_lines@),
            budget_lines@.len() == i,
            char_allocations@ == Seq::new(i as nat, |k: int| 0usize),
            current_extra_costs@ == Seq::new(i as nat, |k: int| 0usize),
            forall|k: int|
                0 <= k < i ==> (#[trigger] budget_lines@[k]).describes(lines[k], budget),
        decreases skill_lines@.len() - i,
    {
        proof {
            assert(lines[i as int] == skill_lines@[i as int]@);
        }
        budget_lines.push(DescriptionBudgetLine::new(&skill_lines[i], budget));
        char_allocations.push(0);
        current_extra_costs.push(0);
        i += 1;
        proof {
            assert(char_allocations@ =~= Seq::new(i as nat, |k: int| 0usize));
            assert(current_extra_costs@ =~= Seq::new(i as nat, |k: int| 0usize));
        }
    }
    let total: usize = skill_lines.len();
    let mut remaining: usize = limit;
    let ghost start = undistributed(lines.len(), limit as int);
    let ghost mut state = start;
    let mut changed = true;
    proof {
        assert forall|k: int| 0 <= k < lines.len() implies (
        #[trigger] lines[k]).description.len() <= usize::MAX by {
            assert(budget_lines@[k].describes(lines[k], budget));
        }
        assert forall|k: int| 0 <= k < total implies #[trigger] current_extra_costs@[k]
            == extra_cost(lines[k], budget, state.chars[k] as int) by {
            cost_grows(lines[k], budget, 0);
        }
    }
    while changed
        invariant
            total == lines.len(),
            lines == line_models(skill_lines@),
            fits_machine(lines),
            budget_lines@.len() == total,
            forall|k: int|
                0 <= k < total ==> (#[trigger] budget_lines@[k]).describes(lines[k], budget),
            char_allocations@ == state.chars,
            chars_exist(lines, state.chars),
            remaining == state.remaining,
            current_extra_costs@.len() == total,
            forall|k: int|
                0 <= k < total ==> #[trigger] current_extra_costs@[k] == extra_cost(
                    lines[k],
                    budget,
                    state.chars[k] as int,
                ),
            changed ==> rounds(lines, budget, start) == rounds(lines, budget, state),
            !changed ==> rounds(lines, budget, start) == state,
        decreases
                withheld(lines, state.chars, total as int),
                (if changed {
                    1int
                } else {
                    0
                }),
    {
        changed = false;
        let ghost before = state;
        let mut index: usize = 0;
        proof {
            state = round(lines, budget, before, 0);
        }
        while index < total
            invariant
                index <= total,
                total == lines.len(),
                fits_machine(lines),
                budget_lines@.len() == total,
                forall|k: int|
                    0 <= k < total ==> (#[trigger] budget_lines@[k]).describes(lines[k], budget),
                char_allocations@ == state.chars,
                chars_exist(lines, state.chars),
                remaining == state.remaining,
                current_extra_costs@.len() == total,
                forall|k: int|
                    0 <= k < total ==> #[trigger] current_extra_costs@[k] == extra_cost(
                        lines[k],
                        budget,
                        state.chars[k] as int,
                    ),
                state == round(lines, budget, before, index as int),
                changed == state.changed,
            decreases total - index,
        {
            let ghost now = state;
            let chars: usize = char_allocations[index];
            proof {
                state = round(lines, budget, before, index + 1);
                assert(budget_lines@[index as int].describes(lines[index as int], budget));
            }
            if chars < budget_lines[index].description_char_count {
                let next_chars: usize = chars + 1;
                proof {
                    cost_grows(lines[index as int], budget, next_chars as int);
                    assert(budget_lines@[index as int].extra_costs@[next_chars as int]
                        == extra_cost(lines[index as int], budget, next_chars as int));
                }
                let next_cost: usize = budget_lines[index].extra_costs[next_chars];
                let delta: usize = next_cost.saturating_sub(current_extra_costs[index]);
                if delta <= remaining {
                    char_allocations.set(index, next_chars);
                    current_extra_costs.set(index, next_cost);
                    remaining = remaining - delta;
                    changed = true;
                }
            }
            index += 1;
        }
        proof {
            round_progress(lines, budget, before, total as int);
        }
    }
    char_allocations
}

/// What becomes of each line under a budget.
pub fn allocate_skill_lines(
    skill_lines: &Vec<SkillLine>,
    budget: SkillMetadataBudget,
) -> (r: Vec<SkillLineAllocation>)
    ensures
        r@ == allocated(line_models(skill_lines@), budget),
        r@.len() == skill_lines@.len(),
        fits_machine(line_models(skill_lines@)),
{
    let ghost lines = line_models(skill_lines@);
    let mut full: Vec<SkillLineAllocation> = Vec::new();
    let mut full_cost: usize = 0;
    let mut minimum_cost: usize = 0;
    let mut i: usize = 0;
    proof {
        assert(full_lines(lines.take(0)) =~= Seq::<Seq<char>>::empty());
        assert(bare_lines(lines.take(0)) =~= Seq::<Seq<char>>::empty());
        assert(full@ =~= lines.take(0).map_values(
            |line: LineModel|
                SkillLineAllocation::DescriptionChars(line.description.len() as usize),
        ));
    }
    while i < skill_lines.len()
        invariant
            i <= skill_lines@.len(),
            lines == line_models(skill_lines@),
            full_cost == capped(lines_total(budget, full_lines(lines.take(i as int))) as int),
            minimum_cost == capped(lines_total(budget, bare_lines(lines.take(i as int))) as int),
            full@ == lines.take(i as int).map_values(
                |line: LineModel|
                    SkillLineAllocation::DescriptionChars(line.description.len() as usize),
            ),
            forall|k: int|
                0 <= k < i ==> (#[trigger] lines[k]).description.len() <= usize::MAX,
        decreases skill_lines@.len() - i,
    {
        let ghost now = lines.take(i as int);
        let ghost next = lines.take(i + 1);
        proof {
            assert(lines[i as int] == skill_lines@[i as int]@);
            assert(next =~= now.push(lines[i as int]));
            assert(full_lines(next) =~= full_lines(now).push(
                rendered_line(lines[i as int], lines[i as int].description),
            ));
            assert(bare_lines(next) =~= bare_lines(now).push(
                rendered_line(lines[i as int], seq![]),
            ));
            totals_push(
                budget,
                full_lines(now),
                rendered_line(lines[i as int], lines[i as int].description),
            );
            totals_push(budget, bare_lines(now), rendered_line(lines[i as int], seq![]));
        }
        full_cost = full_cost.saturating_add(skill_lines[i].full_cost(budget));
        minimum_cost = minimum_cost.saturating_add(skill_lines[i].minimum_cost(budget));
        full.push(SkillLineAllocation::DescriptionChars(skill_lines[i].description_char_count()));
        i += 1;
        proof {
            assert(full@ =~= next.map_values(
                |line: LineModel|
                    SkillLineAllocation::DescriptionChars(line.description.len() as usize),
            ));
        }
    }
    proof {
        assert(lines.take(i as int) =~= lines);
        allocation_fits(lines, budget);
    }
    if full_cost <= budget.limit() {
        return full;
    }
    if minimum_cost <= budget.limit() {
        let chars = allocate_description_chars(
            budget,
            skill_lines,
            budget.limit() - minimum_cost,
        );
        let mut allocations: Vec<SkillLineAllocation> = Vec::new();
        let mut j: usize = 0;
        while j < chars.len()
            invariant
                j <= chars@.len(),
                allocations@ == chars@.take(j as int).map_values(
                    |chars: usize| SkillLineAllocation::DescriptionChars(chars),
                ),
            decreases chars@.len() - j,
        {
            allocations.push(SkillLineAllocation::DescriptionChars(chars[j]));
            j += 1;
            proof {
                assert(allocations@ =~= chars@.take(j as int).map_values(
                    |chars: usize| SkillLineAllocation::DescriptionChars(chars),
                ));
            }
        }
        proof {
            assert(chars@.take(j as int) =~= chars@);
        }
        return allocations;
    }
    let mut used: usize = 0;
    let mut allocations: Vec<SkillLineAllocation> = Vec::new();
    let mut j: usize = 0;
    while j < skill_lines.len()
        invariant
            j <= skill_lines@.len(),
            lines == line_models(skill_lines@),
            allocations@ == bare_that_fit(lines.take(j as int), budget),
            used == capped(shown_total(lines.take(j as int), allocations@, budget) as int),
        decreases skill_lines@.len() - j,
    {
        let ghost now = lines.take(j as int);
        let ghost next = lines.take(j + 1);
        let ghost before = allocations@;
        proof {
            assert(lines[j as int] == skill_lines@[j as int]@);
            assert(next.drop_last() =~= now);
            assert(next.last() == lines[j as int]);
            bare_fit(now, budget);
            cost_grows(lines[j as int], budget, 0);
            totals_push(
                budget,
                shown_lines(now, before),
                rendered_line(lines[j as int], seq![]),
            );
        }
        let next_used: usize = used.saturating_add(skill_lines[j].minimum_cost(budget));
        if next_used <= budget.limit() {
            used = next_used;
            allocations.push(SkillLineAllocation::DescriptionChars(0));
        } else {
            allocations.push(SkillLineAllocation::Omitted);
        }
        proof {
            assert(allocations@.drop_last() =~= before);
        }
        j += 1;
    }
    proof {
        assert(lines.take(j as int) =~= lines);
    }
    allocations
}

/// How many characters of its description a line does not show.
pub open spec fn missing(line: LineModel, allocation: SkillLineAllocation) -> nat {
    match allocation {
        SkillLineAllocation::Omitted => line.description.len(),
        SkillLineAllocation::DescriptionChars(chars) => if chars < line.description.len() {
            (line.description.len() - chars) as nat
        } else {
            0
        },
    }
}

/// How many characters of the descriptions are not shown.
pub open spec fn missing_chars(
    lines: Seq<LineModel>,
    allocations: Seq<SkillLineAllocation>,
) -> nat
    decreases lines.len(),
{
    if lines.len() == 0 || lines.len() != allocations.len() {
        0
    } else {
        missing_chars(lines.drop_last(), allocations.drop_last()) + missing(
            lines.last(),
            allocations.last(),
        )
    }
}

/// How many descriptions are not shown whole.
pub open spec fn missing_count(
    lines: Seq<LineModel>,
    allocations: Seq<SkillLineAllocation>,
) -> nat
    decreases lines.len(),
{
    if lines.len() == 0 || lines.len() != allocations.len() {
        0
    } else {
        missing_count(lines.drop_last(), allocations.drop_last()) + (if missing(
            lines.last(),
            allocations.last(),
        ) > 0 {
            1nat
        } else {
            0
        })
    }
}

/// How many lines are left out.
pub open spec fn omitted(allocations: Seq<SkillLineAllocation>) -> nat
    decreases allocations.len(),
{
    if allocations.len() == 0 {
        0
    } else {
        omitted(allocations.drop_last()) + (if allocations.last() is Omitted {
            1nat
        } else {
            0
        })
    }
}

/// The lines that are shown, and what they leave out.
#[derive(Debug)]
pub struct RenderedSkillLines {
    pub lines: Vec<String>,
    pub omitted_count: usize,
    pub truncated_description_chars: usize,
    pub truncated_description_count: usize,
}

impl RenderedSkillLines {
    /// Whether this is what the allocations show of the lines.
    pub open spec fn shows(
        &self,
        lines: Seq<LineModel>,
        allocations: Seq<SkillLineAllocation>,
    ) -> bool {
        &&& texts(self.lines@) == shown_lines(lines, allocations)
        &&& self.omitted_count == omitted(allocations)
        &&& self.truncated_description_chars == capped(missing_chars(lines, allocations) as int)
        &&& self.truncated_description_count == missing_count(lines, allocations)
    }
}

/// The lines from `from` to `to` as the allocations show them.
pub fn render_allocated_skill_lines(
    skill_lines: &Vec<SkillLine>,
    allocations: &Vec<SkillLineAllocation>,
    from: usize,
    to: usize,
) -> (r: RenderedSkillLines)
    requires
        from <= to <= skill_lines@.len(),
        skill_lines@.len() == allocations@.len(),
    ensures
        r.shows(
            line_models(skill_lines@).subrange(from as int, to as int),
            allocations@.subrange(from as int, to as int),
        ),
        r.omitted_count <= to - from,
{
    let ghost models = line_models(skill_lines@);
    let mut lines: Vec<String> = Vec::new();
    let mut omitted_count: usize = 0;
    let mut truncated_description_chars: usize = 0;
    let mut truncated_description_count: usize = 0;
    let mut i: usize = from;
    proof {
        assert(models.subrange(from as int, from as int) =~= Seq::<LineModel>::empty());
        assert(allocations@.subrange(from as int, from as int) =~= Seq::<
            SkillLineAllocation,
        >::empty());
        assert(texts(lines@) =~= Seq::<Seq<char>>::empty());
    }
    while i < to
        invariant
            from <= i <= to <= skill_lines@.len(),
            skill_lines@.len() == allocations@.len(),
            models == line_models(skill_lines@),
            texts(lines@) == shown_lines(
                models.subrange(from as int, i as int),
                allocations@.subrange(from as int, i as int),
            ),
            omitted_count == omitted(allocations@.subrange(from as int, i as int)),
            omitted_count <= i - from,
            truncated_description_chars == capped(
                missing_chars(
                    models.subrange(from as int, i as int),
                    allocations@.subrange(from as int, i as int),
                ) as int,
            ),
            truncated_description_count == missing_count(
                models.subrange(from as int, i as int),
                allocations@.subrange(from as int, i as int),
            ),
            truncated_description_count <= i - from,
        decreases to - i,
    {
        let ghost now = models.subrange(from as int, i as int);
        let ghost taken = allocations@.subrange(from as int, i as int);
        let ghost shown = lines@;
        proof {
            assert(models[i as int] == skill_lines@[i as int]@);
            assert(models.subrange(from as int, i + 1) =~= now.push(models[i as int]));
            assert(now.push(models[i as int]).drop_last() =~= now);
            assert(allocations@.subrange(from as int, i + 1) =~= taken.push(
                allocations@[i as int],
            ));
            assert(taken.push(allocations@[i as int]).drop_last() =~= taken);
        }
        let description_char_count: usize = skill_lines[i].description_char_count();
        match allocations[i] {
            SkillLineAllocation::Omitted => {
                omitted_count += 1;
                truncated_description_chars = truncated_description_chars.saturating_add(
                    description_char_count,
                );
                if description_char_count > 0 {
                    truncated_description_count += 1;
                }
            },
            SkillLineAllocation::DescriptionChars(description_chars) => {
                let truncated_chars: usize = description_char_count.saturating_sub(
                    description_chars,
                );
                if truncated_chars > 0 {
                    truncated_description_chars = truncated_description_chars.saturating_add(
                        truncated_chars,
                    );
                    truncated_description_count += 1;
                }
                lines.push(skill_lines[i].render_with_description_chars(description_chars));
                proof {
                    assert(texts(lines@) =~= texts(shown).push(
                        line_with_chars(models[i as int], description_chars as int),
                    ));
                }
            },
        }
        i += 1;
    }
    RenderedSkillLines {
        lines,
        omitted_count,
        truncated_description_chars,
        truncated_description_count,
    }
}

/// The line that says how many skills are left out.
pub open spec fn marker(omitted: nat) -> Seq<char> {
    "- "@ + decimal(omitted) + " additional "@ + (if omitted == 1 {
        "skill"@
    } else {
        "skills"@
    }) + " omitted from this bounded skills list."@
}

/// The line that says how many skills are left out.
pub fn omission_marker(omitted: usize) -> (r: String)
    ensures
        r@ == marker(omitted as nat),
{
    let mut line = String::from_str("- ");
    line.append(decimal_text(omitted as u64).as_str());
    line.append(" additional ");
    if omitted == 1 {
        line.append("skill");
    } else {
        line.append("skills");
    }
    line.append(" omitted from this bounded skills list.");
    line
}

/// The cost of rendered lines on top of a cost.
pub fn rendered_lines_cost(
    budget: SkillMetadataBudget,
    start: usize,
    lines: &Vec<String>,
) -> (r: usize)
    ensures
        r == capped(start + lines_total(budget, texts(lines@))),
{
    let mut used: usize = start;
    let mut i: usize = 0;
    proof {
        assert(texts(lines@).take(0) =~= Seq::<Seq<char>>::empty());
    }
    while i < lines.len()
        invariant
            i <= lines@.len(),
            used == capped(start + lines_total(budget, texts(lines@).take(i as int))),
        decreases lines@.len() - i,
    {
        proof {
            let all = texts(lines@);
            assert(all.take(i + 1) =~= all.take(i as int).push(all[i as int]));
            totals_push(budget, all.take(i as int), all[i as int]);
        }
        used = used.saturating_add(metadata_line_cost(budget, lines[i].as_str()));
        i += 1;
    }
    proof {
        assert(texts(lines@).take(i as int) =~= texts(lines@));
    }
    used
}

/// Rendered lines with the marker behind them, or, where it does not fit, with as many fewer as
/// it takes; and how many skills are then left out.
pub open spec fn with_marker(
    budget: SkillMetadataBudget,
    lines: Seq<Seq<char>>,
    omitted: nat,
) -> (Seq<Seq<char>>, nat)
    decreases lines.len(),
{
    if capped(lines_total(budget, lines) + line_cost(budget, marker(omitted)))
        <= budget.spec_limit() {
        (lines.push(marker(omitted)), omitted)
    } else if lines.len() == 0 {
        (lines, omitted)
    } else {
        with_marker(budget, lines.drop_last(), omitted + 1)
    }
}

/// The marker never brings the lines over the budget, and every line that is taken out is
/// counted.
pub proof fn marker_fits(budget: SkillMetadataBudget, lines: Seq<Seq<char>>, omitted: nat)
    requires
        capped(lines_total(budget, lines) as int) <= budget.spec_limit(),
    ensures
        capped(lines_total(budget, with_marker(budget, lines, omitted).0) as int)
            <= budget.spec_limit(),
        omitted <= with_marker(budget, lines, omitted).1 <= omitted + lines.len(),
    decreases lines.len(),
{
    totals_push(budget, lines, marker(omitted));
    if capped(lines_total(budget, lines) + line_cost(budget, marker(omitted)))
        > budget.spec_limit() && lines.len() > 0 {
        marker_fits(budget, lines.drop_last(), omitted + 1);
    }
}

/// Puts the marker behind rendered lines.
pub fn add_omission_marker(
    budget: SkillMetadataBudget,
    lines: &mut Vec<String>,
    omitted: usize,
) -> (r: usize)
    requires
        lines_total(budget, texts(old(lines)@)) <= budget.spec_limit(),
        omitted + old(lines)@.len() <= usize::MAX,
    ensures
        (texts(final(lines)@), r as nat) == with_marker(
            budget,
            texts(old(lines)@),
            omitted as nat,
        ),
        r <= omitted + old(lines)@.len(),
{
    let ghost goal = with_marker(budget, texts(lines@), omitted as nat);
    let mut left_out: usize = omitted;
    let mut total_cost: usize = rendered_lines_cost(budget, 0, lines);
    loop
        invariant
            total_cost == lines_total(budget, texts(lines@)),
            left_out + lines@.len() == omitted + old(lines)@.len(),
            omitted + old(lines)@.len() <= usize::MAX,
            goal == with_marker(budget, texts(lines@), left_out as nat),
            goal == with_marker(budget, texts(old(lines)@), omitted as nat),
        decreases lines@.len(),
    {
        let line = omission_marker(left_out);
        let cost: usize = metadata_line_cost(budget, line.as_str());
        let ghost now = lines@;
        if total_cost.saturating_add(cost) <= budget.limit() {
            lines.push(line);
            proof {
                assert(texts(lines@) =~= texts(now).push(marker(left_out as nat)));
            }
            return left_out;
        }
        match lines.pop() {
            Some(last) => {
                proof {
                    assert(texts(lines@) =~= texts(now).drop_last());
                    assert(texts(now).last() == last@);
                }
                total_cost = total_cost.saturating_sub(
                    metadata_line_cost(budget, last.as_str()),
                );
                left_out = left_out + 1;
            },
            None => {
                proof {
                    assert(lines@ =~= now);
                }
                return left_out;
            },
        }
    }
}

/// The position of the last line that is shown.
pub open spec fn last_shown(allocations: Seq<SkillLineAllocation>) -> Option<int>
    decreases allocations.len(),
{
    if allocations.len() == 0 {
        None
    } else if allocations.last() is DescriptionChars {
        Some(allocations.len() - 1)
    } else {
        last_shown(allocations.drop_last())
    }
}

proof fn last_shown_is_shown(allocations: Seq<SkillLineAllocation>)
    ensures
        last_shown(allocations) matches Some(i) ==> 0 <= i < allocations.len() && allocations[i]
            is DescriptionChars,
    decreases allocations.len(),
{
    if allocations.len() > 0 && !(allocations.last() is DescriptionChars) {
        last_shown_is_shown(allocations.drop_last());
    }
}

proof fn omitted_update(allocations: Seq<SkillLineAllocation>, index: int)
    requires
        0 <= index < allocations.len(),
        allocations[index] is DescriptionChars,
    ensures
        omitted(allocations.update(index, SkillLineAllocation::Omitted)) == omitted(allocations)
            + 1,
    decreases allocations.len(),
{
    let after = allocations.update(index, SkillLineAllocation::Omitted);
    if index < allocations.len() - 1 {
        omitted_update(allocations.drop_last(), index);
        assert(after.drop_last() =~= allocations.drop_last().update(
            index,
            SkillLineAllocation::Omitted,
        ));
    } else {
        assert(after.drop_last() =~= allocations.drop_last());
    }
}

proof fn omitted_at_most(allocations: Seq<SkillLineAllocation>)
    ensures
        omitted(allocations) <= allocations.len(),
    decreases allocations.len(),
{
    if allocations.len() > 0 {
        omitted_at_most(allocations.drop_last());
    }
}

/// The allocations and the marker when skills before `end` are left out: lines are taken out
/// from the end of the list until the marker fits.
pub open spec fn reserved(
    lines: Seq<LineModel>,
    end: int,
    budget: SkillMetadataBudget,
    allocations: Seq<SkillLineAllocation>,
) -> (Seq<SkillLineAllocation>, Option<Seq<char>>)
    decreases allocations.len() - omitted(allocations),
    via reserved_ends
{
    let left_out = omitted(allocations.take(end));
    if left_out == 0 {
        (allocations, None)
    } else if capped(shown_total(lines, allocations, budget) + line_cost(budget, marker(left_out)))
        <= budget.spec_limit() {
        (allocations, Some(marker(left_out)))
    } else {
        match last_shown(allocations) {
            None => (allocations, None),
            Some(index) => reserved(
                lines,
                end,
                budget,
                allocations.update(index, SkillLineAllocation::Omitted),
            ),
        }
    }
}

#[via_fn]
proof fn reserved_ends(
    lines: Seq<LineModel>,
    end: int,
    budget: SkillMetadataBudget,
    allocations: Seq<SkillLineAllocation>,
) {
    one_fewer_shown(allocations);
}

proof fn one_fewer_shown(allocations: Seq<SkillLineAllocation>)
    ensures
        last_shown(allocations) matches Some(index) ==> 0 <= index < allocations.len() && omitted(
            allocations,
        ) < omitted(allocations.update(index, SkillLineAllocation::Omitted))
            <= allocations.len(),
{
    last_shown_is_shown(allocations);
    if let Some(index) = last_shown(allocations) {
        omitted_update(allocations, index);
        omitted_at_most(allocations.update(index, SkillLineAllocation::Omitted));
    }
}

proof fn shown_update(
    lines: Seq<LineModel>,
    allocations: Seq<SkillLineAllocation>,
    budget: SkillMetadataBudget,
    index: int,
)
    requires
        lines.len() == allocations.len(),
        0 <= index < allocations.len(),
    ensures
        shown_total(lines, allocations.update(index, SkillLineAllocation::Omitted), budget)
            <= shown_total(lines, allocations, budget),
    decreases lines.len(),
{
    let after = allocations.update(index, SkillLineAllocation::Omitted);
    let before = shown_lines(lines.drop_last(), allocations.drop_last());
    if let SkillLineAllocation::DescriptionChars(chars) = allocations.last() {
        totals_push(budget, before, line_with_chars(lines.last(), chars as int));
    }
    if index < allocations.len() - 1 {
        shown_update(lines.drop_last(), allocations.drop_last(), budget, index);
        assert(after.drop_last() =~= allocations.drop_last().update(
            index,
            SkillLineAllocation::Omitted,
        ));
        if let SkillLineAllocation::DescriptionChars(chars) = allocations.last() {
            totals_push(
                budget,
                shown_lines(lines.drop_last(), after.drop_last()),
                line_with_chars(lines.last(), chars as int),
            );
        }
    } else {
        assert(after.drop_last() =~= allocations.drop_last());
    }
}

/// The lines that are shown and the marker never cost more than the budget allows together.
pub proof fn reserved_fits(
    lines: Seq<LineModel>,
    end: int,
    budget: SkillMetadataBudget,
    allocations: Seq<SkillLineAllocation>,
)
    requires
        lines.len() == allocations.len(),
        capped(shown_total(lines, allocations, budget) as int) <= budget.spec_limit(),
    ensures
        reserved(lines, end, budget, allocations).0.len() == lines.len(),
        capped(
            shown_total(lines, reserved(lines, end, budget, allocations).0, budget) + (match reserved(
                lines,
                end,
                budget,
                allocations,
            ).1 {
                Some(line) => line_cost(budget, line) as int,
                None => 0,
            }),
        ) <= budget.spec_limit(),
    decreases allocations.len() - omitted(allocations),
{
    one_fewer_shown(allocations);
    let left_out = omitted(allocations.take(end));
    if left_out > 0 && capped(
        shown_total(lines, allocations, budget) + line_cost(budget, marker(left_out)),
    ) > budget.spec_limit() {
        if let Some(index) = last_shown(allocations) {
            shown_update(lines, allocations, budget, index);
            reserved_fits(
                lines,
                end,
                budget,
                allocations.update(index, SkillLineAllocation::Omitted),
            );
        }
    }
}

/// The cost of what the allocations show.
fn allocated_skill_lines_cost(
    skill_lines: &Vec<SkillLine>,
    allocations: &Vec<SkillLineAllocation>,
    budget: SkillMetadataBudget,
) -> (r: usize)
    requires
        skill_lines@.len() == allocations@.len(),
    ensures
        r == capped(shown_total(line_models(skill_lines@), allocations@, budget) as int),
{
    let ghost lines = line_models(skill_lines@);
    let mut used: usize = 0;
    let mut i: usize = 0;
    proof {
        assert(lines.take(0) =~= Seq::<LineModel>::empty());
    }
    while i < skill_lines.len()
        invariant
            i <= skill_lines@.len(),
            skill_lines@.len() == allocations@.len(),
            lines == line_models(skill_lines@),
            used == capped(
                shown_total(lines.take(i as int), allocations@.take(i as int), budget) as int,
            ),
        decreases skill_lines@.len() - i,
    {
        proof {
            assert(lines[i as int] == skill_lines@[i as int]@);
            assert(lines.take(i + 1).drop_last() =~= lines.take(i as int));
            assert(allocations@.take(i + 1).drop_last() =~= allocations@.take(i as int));
            if let SkillLineAllocation::DescriptionChars(chars) = allocations@[i as int] {
                totals_push(
                    budget,
                    shown_lines(lines.take(i as int), allocations@.take(i as int)),
                    line_with_chars(lines[i as int], chars as int),
                );
            }
        }
        if let SkillLineAllocation::DescriptionChars(chars) = allocations[i] {
            used = used.saturating_add(
                metadata_line_cost(
                    budget,
                    skill_lines[i].render_with_description_chars(chars).as_str(),
                ),
            );
        }
        i += 1;
    }
    proof {
        assert(lines.take(i as int) =~= lines);
        assert(allocations@.take(i as int) =~= allocations@);
    }
    used
}

fn count_omitted(allocations: &Vec<SkillLineAllocation>, end: usize) -> (r: usize)
    requires
        end <= allocations@.len(),
    ensures
        r == omitted(allocations@.take(end as int)),
{
    let mut count: usize = 0;
    let mut i: usize = 0;
    while i < end
        invariant
            i <= end <= allocations@.len(),
            count == omitted(allocations@.take(i as int)),
            count <= i,
        decreases end - i,
    {
        proof {
            assert(allocations@.take(i + 1).drop_last() =~= allocations@.take(i as int));
        }
        if let SkillLineAllocation::Omitted = allocations[i] {
            count += 1;
        }
        i += 1;
    }
    count
}

fn find_last_shown(allocations: &Vec<SkillLineAllocation>) -> (r: Option<usize>)
    ensures
        (match r {
            Some(i) => last_shown(allocations@) == Some(i as int) && i < allocations@.len(),
            None => last_shown(allocations@) is None,
        }),
{
    let mut i: usize = allocations.len();
    proof {
        assert(allocations@.take(i as int) =~= allocations@);
    }
    while i > 0
        invariant
            i <= allocations@.len(),
            last_shown(allocations@) == last_shown(allocations@.take(i as int)),
        decreases i,
    {
        proof {
            assert(allocations@.take(i as int).drop_last() =~= allocations@.take(i - 1));
        }
        if let SkillLineAllocation::DescriptionChars(_) = allocations[i - 1] {
            return Some(i - 1);
        }
        i -= 1;
    }
    None
}

/// Makes room for the marker when skills before `orchestrator_end` are left out.
pub fn reserve_non_host_omission_marker(
    skill_lines: &Vec<SkillLine>,
    orchestrator_end: usize,
    budget: SkillMetadataBudget,
    allocations: &mut Vec<SkillLineAllocation>,
) -> (r: Option<String>)
    requires
        skill_lines@.len() == old(allocations)@.len(),
        orchestrator_end <= skill_lines@.len(),
    ensures
        final(allocations)@.len() == skill_lines@.len(),
        (final(allocations)@, crate::protocol::optional_text(r)) == reserved(
            line_models(skill_lines@),
            orchestrator_end as int,
            budget,
            old(allocations)@,
        ),
{
    let ghost lines = line_models(skill_lines@);
    let ghost goal = reserved(lines, orchestrator_end as int, budget, allocations@);
    loop
        invariant
            lines == line_models(skill_lines@),
            skill_lines@.len() == allocations@.len(),
            orchestrator_end <= skill_lines@.len(),
            goal == reserved(lines, orchestrator_end as int, budget, allocations@),
            goal == reserved(lines, orchestrator_end as int, budget, old(allocations)@),
        decreases allocations@.len() - omitted(allocations@),
    {
        let omitted_count: usize = count_omitted(allocations, orchestrator_end);
        if omitted_count == 0 {
            return None;
        }
        let line = omission_marker(omitted_count);
        let used: usize = allocated_skill_lines_cost(skill_lines, allocations, budget);
        if used.saturating_add(metadata_line_cost(budget, line.as_str())) <= budget.limit() {
            return Some(line);
        }
        proof {
            one_fewer_shown(allocations@);
        }
        match find_last_shown(allocations) {
            None => {
                return None;
            },
            Some(index) => {
                allocations.set(index, SkillLineAllocation::Omitted);
            },
        }
    }
}

/// Every line is either shown or left out.
pub proof fn shown_or_omitted(lines: Seq<LineModel>, allocations: Seq<SkillLineAllocation>)
    requires
        lines.len() == allocations.len(),
    ensures
        shown_lines(lines, allocations).len() + omitted(allocations) == lines.len(),
        missing_count(lines, allocations) <= lines.len(),
    decreases lines.len(),
{
    if lines.len() > 0 {
        shown_or_omitted(lines.drop_last(), allocations.drop_last());
    }
}

/// Two lists of lines one behind the other show what each of them shows.
pub proof fn shown_concat(
    first: Seq<LineModel>,
    second: Seq<LineModel>,
    x: Seq<SkillLineAllocation>,
    y: Seq<SkillLineAllocation>,
)
    requires
        first.len() == x.len(),
        second.len() == y.len(),
    ensures
        shown_lines(first + second, x + y) == shown_lines(first, x) + shown_lines(second, y),
    decreases second.len(),
{
    if second.len() == 0 {
        assert(first + second =~= first);
        assert(x + y =~= x);
        assert(shown_lines(first, x) + shown_lines(second, y) =~= shown_lines(first, x));
    } else {
        shown_concat(first, second.drop_last(), x, y.drop_last());
        assert((first + second).drop_last() =~= first + second.drop_last());
        assert((x + y).drop_last() =~= x + y.drop_last());
        if let SkillLineAllocation::DescriptionChars(chars) = y.last() {
            let line = line_with_chars(second.last(), chars as int);
            assert((shown_lines(first, x) + shown_lines(
                second.drop_last(),
                y.drop_last(),
            )).push(line) =~= shown_lines(first, x) + shown_lines(
                second.drop_last(),
                y.drop_last(),
            ).push(line));
        }
    }
}

/// Two lists of lines one behind the other cost what both of them cost.
pub proof fn totals_concat(
    budget: SkillMetadataBudget,
    first: Seq<Seq<char>>,
    second: Seq<Seq<char>>,
)
    ensures
        lines_total(budget, first + second) == lines_total(budget, first) + lines_total(
            budget,
            second,
        ),
    decreases second.len(),
{
    if second.len() == 0 {
        assert(first + second =~= first);
    } else {
        totals_concat(budget, first, second.drop_last());
        assert((first + second).drop_last() =~= first + second.drop_last());
    }
}

/// The cost of lines does not depend on the limit of the budget.
pub proof fn totals_same_unit(budget: SkillMetadataBudget, limit: usize, lines: Seq<Seq<char>>)
    ensures
        lines_total(budget.spec_with_limit(limit), lines) == lines_total(budget, lines),
    decreases lines.len(),
{
    if lines.len() > 0 {
        totals_same_unit(budget, limit, lines.drop_last());
    }
}

/// A description is bounded whatever the entry holds.
pub proof fn description_bounded(description: Seq<char>)
    ensures
        bounded_description(description).len() <= MAX_CATALOG_SKILL_DESCRIPTION_CHARS,
{
    reveal_strlit("...");
}

} // verus!

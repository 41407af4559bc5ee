//! What the line of a skill says, and how the space of the list is dealt out.

use vstd::prelude::*;

use crate::numbers::decimal;
use crate::skill_lines::{
    allocated, bare_lines, bare_that_fit, bounded_description, capped, entry_line, entry_locator,
    fits_machine, full_lines, last_shown, line_with_chars, lines_total, locator_kind_of, marker,
    missing, missing_chars, missing_count, omitted, rendered_line, reserved, round, round_progress,
    rounds, shown_lines, shown_total, undistributed, with_marker, withheld, Distribution,
    LineModel, SkillLineAllocation,
};
use crate::skill_policy::{
    line_cost, EntryModel, SkillCatalogRenderPolicy, SkillMetadataBudget, SourceModel,
};

verus! {

/// A description of at most 1024 characters is kept; of a longer one the first 1021, and three
/// dots.
pub proof fn long_descriptions_are_cut(description: Seq<char>)
    ensures
        description.len() <= 1024 ==> bounded_description(description) == description,
        description.len() > 1024 ==> bounded_description(description) == description.subrange(
            0,
            1021,
        ) + "..."@,
{
    if description.len() > 1024 {
        assert(description.take(1021) =~= description.subrange(0, 1021));
    }
}

/// The line of an entry holds its name, the descriptions of the two policies, the locator and what
/// a locator of its source is called. An entry is found by its package where an executor or an
/// orchestrator holds it, and else by its path.
pub proof fn lines_name_their_entry(
    entry: EntryModel,
    policy: SkillCatalogRenderPolicy,
    other: SkillCatalogRenderPolicy,
    locator: Seq<char>,
)
    ensures
        ({
            let line = entry_line(entry, policy, other, locator);
            &&& line.name == entry.name && line.locator == locator
            &&& line.description == bounded_description(policy.spec_description(entry))
            &&& line.full_description == bounded_description(other.spec_description(entry))
            &&& line.locator_kind == locator_kind_of(entry.kind)
        }),
        (match entry.kind {
            SourceModel::Host => entry_locator(entry) == entry.rendered_path && locator_kind_of(
                entry.kind,
            ) == "file"@,
            SourceModel::Executor => entry_locator(entry) == entry.id && locator_kind_of(entry.kind)
                == "executor package"@,
            SourceModel::Orchestrator => entry_locator(entry) == entry.id && locator_kind_of(
                entry.kind,
            ) == "orchestrator package"@,
            SourceModel::Custom(_) => entry_locator(entry) == entry.rendered_path
                && locator_kind_of(entry.kind) == "custom resource"@,
        }),
{
}

/// A line says the name, the description where there is one, and how the skill is found.
pub proof fn lines_say(line: LineModel, description: Seq<char>, chars: int)
    requires
        chars >= 0,
    ensures
        description.len() > 0 ==> rendered_line(line, description) == "- "@ + line.name + ": "@
            + description + " ("@ + line.locator_kind + ": "@ + line.locator + ")"@,
        rendered_line(line, seq![]) == "- "@ + line.name + ": ("@ + line.locator_kind + ": "@
            + line.locator + ")"@,
        chars < line.description.len() ==> line_with_chars(line, chars) == rendered_line(
            line,
            line.description.take(chars),
        ),
        chars >= line.description.len() ==> line_with_chars(line, chars) == rendered_line(
            line,
            line.description,
        ),
{
    assert(line.description.take(line.description.len() as int) =~= line.description);
}

/// What is shown, what it costs, what is missing of it and what is left out is so line by line.
pub proof fn lines_are_shown_one_by_one(
    lines: Seq<LineModel>,
    allocations: Seq<SkillLineAllocation>,
    line: LineModel,
    allocation: SkillLineAllocation,
    budget: SkillMetadataBudget,
    texts: Seq<Seq<char>>,
    text: Seq<char>,
)
    requires
        lines.len() == allocations.len(),
    ensures
        shown_lines(seq![], seq![]).len() == 0,
        shown_lines(lines.push(line), allocations.push(allocation)) == (match allocation {
            SkillLineAllocation::Omitted => shown_lines(lines, allocations),
            SkillLineAllocation::DescriptionChars(chars) => shown_lines(lines, allocations).push(
                line_with_chars(line, chars as int),
            ),
        }),
        lines_total(budget, seq![]) == 0,
        lines_total(budget, texts.push(text)) == lines_total(budget, texts) + line_cost(
            budget,
            text,
        ),
        shown_total(lines, allocations, budget) == lines_total(
            budget,
            shown_lines(lines, allocations),
        ),
        omitted(seq![]) == 0,
        omitted(allocations.push(allocation)) == omitted(allocations) + (
        if allocation is Omitted {
            1nat
        } else {
            0
        }),
        missing_chars(seq![], seq![]) == 0 && missing_count(seq![], seq![]) == 0,
        missing_chars(lines.push(line), allocations.push(allocation)) == missing_chars(
            lines,
            allocations,
        ) + missing(line, allocation),
        missing_count(lines.push(line), allocations.push(allocation)) == missing_count(
            lines,
            allocations,
        ) + (if missing(line, allocation) > 0 {
            1nat
        } else {
            0
        }),
        (match allocation {
            SkillLineAllocation::Omitted => missing(line, allocation) == line.description.len(),
            SkillLineAllocation::DescriptionChars(chars) => if chars < line.description.len() {
                missing(line, allocation) + chars == line.description.len()
            } else {
                missing(line, allocation) == 0
            },
        }),
{
    assert(lines.push(line).drop_last() =~= lines);
    assert(allocations.push(allocation).drop_last() =~= allocations);
    assert(lines.push(line).last() == line);
    assert(allocations.push(allocation).last() == allocation);
    assert(texts.push(text).drop_last() =~= texts);
    assert(texts.push(text).last() == text);
}

proof fn rounds_keep_length(lines: Seq<LineModel>, budget: SkillMetadataBudget, state: Distribution)
    requires
        state.chars.len() == lines.len(),
        fits_machine(lines),
    ensures
        rounds(lines, budget, state).chars.len() == lines.len(),
    decreases withheld(lines, state.chars, lines.len() as int),
{
    let after = round(lines, budget, state, lines.len() as int);
    round_progress(lines, budget, state, lines.len() as int);
    if after.changed {
        rounds_keep_length(lines, budget, after);
    }
}

/// Where all lines fit in full they are shown in full; else, where all fit without their
/// descriptions, none is left out; else no line has a description.
pub proof fn space_is_dealt_out(lines: Seq<LineModel>, budget: SkillMetadataBudget, i: int)
    requires
        0 <= i < lines.len(),
        fits_machine(lines),
        lines_total(budget, full_lines(lines)) <= usize::MAX,
        lines_total(budget, bare_lines(lines)) <= usize::MAX,
    ensures
        ({
            let full = lines_total(budget, full_lines(lines)) <= budget.spec_limit();
            let bare = lines_total(budget, bare_lines(lines)) <= budget.spec_limit();
            let dealt = allocated(lines, budget);
            &&& dealt.len() == lines.len()
            &&& full ==> dealt[i] == SkillLineAllocation::DescriptionChars(
                lines[i].description.len() as usize,
            )
            &&& !full && bare ==> dealt[i] is DescriptionChars
            &&& !full && !bare ==> dealt[i] is Omitted || dealt[i]
                == SkillLineAllocation::DescriptionChars(0)
        }),
        full_lines(lines)[i] == rendered_line(lines[i], lines[i].description),
        bare_lines(lines)[i] == rendered_line(lines[i], seq![]),
{
    let bare = lines_total(budget, bare_lines(lines));
    if lines_total(budget, full_lines(lines)) > budget.spec_limit() {
        if bare <= budget.spec_limit() {
            rounds_keep_length(
                lines,
                budget,
                undistributed(lines.len(), budget.spec_limit() - bare),
            );
        } else {
            bare_only(lines, budget, i);
        }
    }
}

proof fn bare_only(lines: Seq<LineModel>, budget: SkillMetadataBudget, i: int)
    requires
        0 <= i < lines.len(),
    ensures
        bare_that_fit(lines, budget).len() == lines.len(),
        bare_that_fit(lines, budget)[i] is Omitted || bare_that_fit(lines, budget)[i]
            == SkillLineAllocation::DescriptionChars(0),
    decreases lines.len(),
{
    bare_length(lines.drop_last(), budget);
    if i < lines.len() - 1 {
        bare_only(lines.drop_last(), budget, i);
    }
}

proof fn bare_length(lines: Seq<LineModel>, budget: SkillMetadataBudget)
    ensures
        bare_that_fit(lines, budget).len() == lines.len(),
    decreases lines.len(),
{
    if lines.len() > 0 {
        bare_length(lines.drop_last(), budget);
    }
}

/// Where not all bare lines fit, each is shown that fits behind those shown before it; none that
/// fits is left out.
pub proof fn fitting_bare_lines_are_shown(
    lines: Seq<LineModel>,
    line: LineModel,
    budget: SkillMetadataBudget,
)
    requires
        shown_total(lines, bare_that_fit(lines, budget), budget) + line_cost(
            budget,
            rendered_line(line, seq![]),
        ) <= usize::MAX,
    ensures
        bare_that_fit(seq![], budget).len() == 0,
        bare_that_fit(lines.push(line), budget) == bare_that_fit(lines, budget).push(
            if shown_total(lines, bare_that_fit(lines, budget), budget) + line_cost(
                budget,
                rendered_line(line, seq![]),
            ) <= budget.spec_limit() {
                SkillLineAllocation::DescriptionChars(0)
            } else {
                SkillLineAllocation::Omitted
            },
        ),
{
    assert(lines.push(line).drop_last() =~= lines);
    assert(lines.push(line).last() == line);
}

/// Space is dealt out in turns, a character for each line: a line gets its next character where it
/// has one and what is left pays for it, and no line gets more than one in a round. Nothing is dealt
/// out before the first round.
pub proof fn characters_are_dealt_in_turns(
    lines: Seq<LineModel>,
    budget: SkillMetadataBudget,
    state: Distribution,
    n: int,
    count: nat,
    limit: int,
    i: int,
)
    requires
        0 <= n < lines.len(),
        state.chars.len() == lines.len(),
        fits_machine(lines),
        0 <= i < count,
    ensures
        ({
            let before = round(lines, budget, state, n);
            let after = round(lines, budget, state, n + 1);
            let has = before.chars[n] as int;
            let price = line_cost(budget, line_with_chars(lines[n], has + 1)) - line_cost(
                budget,
                line_with_chars(lines[n], has),
            );
            if has < lines[n].description.len() && price <= before.remaining {
                after.chars == before.chars.update(n, (has + 1) as usize) && after.remaining
                    == before.remaining - price && after.changed
            } else {
                after == before
            }
        }),
        round(lines, budget, state, 0).chars == state.chars,
        undistributed(count, limit).chars.len() == count,
        undistributed(count, limit).chars[i] == 0,
        undistributed(count, limit).remaining == limit,
{
}

/// The line for what is left out says how many skills that are.
pub proof fn marker_says_how_many(n: nat)
    ensures
        n == 1 ==> marker(n) == "- "@ + decimal(1) + " additional "@ + "skill"@
            + " omitted from this bounded skills list."@,
        n != 1 ==> marker(n) == "- "@ + decimal(n) + " additional "@ + "skills"@
            + " omitted from this bounded skills list."@,
{
}

/// Lines make room for the marker from the end, no more than it takes: what is left are the first
/// lines, the marker stands behind them where it fits, and it counts the lines that went too.
pub proof fn lines_make_room_for_the_marker(
    budget: SkillMetadataBudget,
    lines: Seq<Seq<char>>,
    left_out: nat,
)
    ensures
        ({
            let (shown, count) = with_marker(budget, lines, left_out);
            let kept = lines.len() - (count - left_out);
            &&& left_out <= count && 0 <= kept <= lines.len()
            &&& shown == lines.take(kept).push(marker(count)) || (kept == 0 && shown.len() == 0)
            &&& shown.len() > 0 ==> capped(
                lines_total(budget, lines.take(kept)) + line_cost(budget, marker(count)),
            ) <= budget.spec_limit()
            &&& forall|k: int|
                kept < k <= lines.len() ==> capped(
                    lines_total(budget, #[trigger] lines.take(k)) + line_cost(
                        budget,
                        marker((left_out + lines.len() - k) as nat),
                    ),
                ) > budget.spec_limit()
        }),
    decreases lines.len(),
{
    assert(lines.take(lines.len() as int) =~= lines);
    if capped(lines_total(budget, lines) + line_cost(budget, marker(left_out)))
        > budget.spec_limit() && lines.len() > 0 {
        let front = lines.drop_last();
        lines_make_room_for_the_marker(budget, front, left_out + 1);
        let (shown, count) = with_marker(budget, front, left_out + 1);
        let kept = front.len() - (count - left_out - 1);
        assert(front.take(kept) =~= lines.take(kept));
        assert forall|k: int| kept < k <= lines.len() implies capped(
            lines_total(budget, #[trigger] lines.take(k)) + line_cost(
                budget,
                marker((left_out + lines.len() - k) as nat),
            ),
        ) > budget.spec_limit() by {
            if k < lines.len() {
                assert(front.take(k) =~= lines.take(k));
                assert((left_out + 1 + front.len() - k) as nat == (left_out + lines.len()
                    - k) as nat);
            }
        }
    }
}

proof fn last_shown_found(allocations: Seq<SkillLineAllocation>)
    ensures
        (match last_shown(allocations) {
            Some(at) => 0 <= at < allocations.len() && allocations[at] is DescriptionChars
                && forall|i: int|
                at < i < allocations.len() ==> #[trigger] allocations[i] is Omitted,
            None => forall|i: int|
                0 <= i < allocations.len() ==> #[trigger] allocations[i] is Omitted,
        }),
    decreases allocations.len(),
{
    if allocations.len() > 0 && allocations.last() is Omitted {
        let front = allocations.drop_last();
        last_shown_found(front);
        assert forall|i: int| 0 <= i < front.len() implies front[i] == #[trigger] allocations[i] by {}
    }
}

/// Room for the marker is made by leaving out further lines from the end: where a line is dealt
/// anything else than it was, it and every line behind it is left out. The marker counts the
/// lines in front of `end` that are left out, and there is none where no such line is.
pub proof fn room_is_made_from_the_end(
    lines: Seq<LineModel>,
    end: int,
    budget: SkillMetadataBudget,
    allocations: Seq<SkillLineAllocation>,
)
    requires
        0 <= end <= allocations.len(),
        lines.len() == allocations.len(),
    ensures
        ({
            let (dealt, line) = reserved(lines, end, budget, allocations);
            &&& dealt.len() == allocations.len()
            &&& (line matches Some(text) ==> text == marker(omitted(dealt.take(end)))
                && omitted(dealt.take(end)) > 0)
            &&& omitted(allocations.take(end)) == 0 ==> dealt == allocations && line is None
            &&& forall|i: int, j: int|
                0 <= i <= j < dealt.len() && #[trigger] dealt[i] != allocations[i]
                    ==> #[trigger] dealt[j] is Omitted
        }),
    decreases allocations.len() - omitted(allocations),
{
    let left_out = omitted(allocations.take(end));
    let (dealt, line) = reserved(lines, end, budget, allocations);
    if left_out > 0 && capped(
        shown_total(lines, allocations, budget) + line_cost(budget, marker(left_out)),
    ) > budget.spec_limit() {
        last_shown_found(allocations);
        match last_shown(allocations) {
            None => {},
            Some(index) => {
                let fewer = allocations.update(index, SkillLineAllocation::Omitted);
                more_left_out(allocations, index);
                at_most_all(fewer);
                omitted_grows(allocations, index, end);
                room_is_made_from_the_end(lines, end, budget, fewer);
                assert forall|i: int, j: int|
                    0 <= i <= j < dealt.len() && #[trigger] dealt[i] != allocations[i] implies
                    #[trigger] dealt[j] is Omitted by {
                    if dealt[i] == fewer[i] {
                        assert(i == index);
                        if j > index && dealt[j] == fewer[j] {
                            assert(allocations[j] is Omitted);
                        }
                    }
                }
            },
        }
    }
}

proof fn more_left_out(allocations: Seq<SkillLineAllocation>, index: int)
    requires
        0 <= index < allocations.len(),
        allocations[index] is DescriptionChars,
    ensures
        omitted(allocations.update(index, SkillLineAllocation::Omitted)) == omitted(allocations)
            + 1,
        omitted(allocations) <= allocations.len(),
    decreases allocations.len(),
{
    let fewer = allocations.update(index, SkillLineAllocation::Omitted);
    let front = allocations.drop_last();
    at_most_all(allocations);
    if index == allocations.len() - 1 {
        assert(fewer.drop_last() =~= front);
    } else {
        assert(fewer.drop_last() =~= front.update(index, SkillLineAllocation::Omitted));
        more_left_out(front, index);
    }
}

proof fn at_most_all(allocations: Seq<SkillLineAllocation>)
    ensures
        omitted(allocations) <= allocations.len(),
    decreases allocations.len(),
{
    if allocations.len() > 0 {
        at_most_all(allocations.drop_last());
    }
}

proof fn omitted_grows(allocations: Seq<SkillLineAllocation>, index: int, end: int)
    requires
        0 <= index < allocations.len(),
        0 <= end <= allocations.len(),
        allocations[index] is DescriptionChars,
    ensures
        omitted(allocations.take(end)) <= omitted(
            allocations.update(index, SkillLineAllocation::Omitted).take(end),
        ),
{
    let fewer = allocations.update(index, SkillLineAllocation::Omitted);
    if index < end {
        assert(fewer.take(end) =~= allocations.take(end).update(
            index,
            SkillLineAllocation::Omitted,
        ));
        more_left_out(allocations.take(end), index);
    } else {
        assert(fewer.take(end) =~= allocations.take(end));
    }
}

} // verus!

//! What the tools are described with, and how skills are ordered, counted and budgeted.

use vstd::prelude::*;

use crate::authority_coverage::{eligible_count, source_index, tag_of, visible_count};
use crate::numbers::decimal;
use crate::skill_policy::{
    entry_before, extension_policy, line_cost, listed_order, metadata_budget, policy_order,
    scope_rank, EntryModel, SkillCatalogRenderOutcome, SkillCatalogRenderPolicy,
    SkillMetadataBudget, SkillRenderReport, SkillScope, SourceModel,
};
use crate::text::{text_less, utf8_len};
use crate::tool_specs::{
    read_file_parameters, read_tool_output_parameters, ParameterKind, ParameterModel,
};

verus! {

/// The file reader is described with a path, which alone is required, an offset, and limits of
/// bytes and lines; and with an environment where there is a choice of them.
pub proof fn file_reader_is_described(choice: bool)
    ensures
        ({
            let all = read_file_parameters(choice);
            let own = if choice { all.drop_first() } else { all };
            &&& choice ==> all.len() == 5 && all[0] == (ParameterModel {
                name: "environment_id"@,
                kind: ParameterKind::Text,
                description: Some(
                    "Environment id from <environment_context>. Omit to use the primary environment."@,
                ),
                required: false,
            })
            &&& own == seq![
                ParameterModel {
                    name: "max_bytes"@,
                    kind: ParameterKind::Integer,
                    description: Some(
                        "Maximum serialized response size in bytes; defaults to 32768 and cannot exceed 131072. The model-facing result is conservatively capped at 8192 bytes including its metadata."@,
                    ),
                    required: false,
                },
                ParameterModel {
                    name: "max_lines"@,
                    kind: ParameterKind::Integer,
                    description: Some(
                        "Maximum returned line fragments; defaults to 200 and cannot exceed 2000."@,
                    ),
                    required: false,
                },
                ParameterModel {
                    name: "offset"@,
                    kind: ParameterKind::Integer,
                    description: Some(
                        "Zero-based byte offset from a previous read_file next_offset; defaults to 0."@,
                    ),
                    required: false,
                },
                ParameterModel {
                    name: "path"@,
                    kind: ParameterKind::Text,
                    description: Some(
                        "Path relative to the selected environment's working directory."@,
                    ),
                    required: true,
                },
            ]
        }),
{
    let all = read_file_parameters(choice);
    if choice {
        assert(all.drop_first() =~= read_file_parameters(false));
    }
    assert(read_file_parameters(false) =~= seq![
        read_file_parameters(false)[0],
        read_file_parameters(false)[1],
        read_file_parameters(false)[2],
        read_file_parameters(false)[3],
    ]);
}

/// The reader of stored outputs is described with an artifact, which alone is required, a mode, a
/// query, and integers and flags that say where to read on.
pub proof fn output_reader_is_described(i: int)
    requires
        0 <= i < read_tool_output_parameters().len(),
    ensures
        read_tool_output_parameters().len() == 9,
        read_tool_output_parameters()[i].description is None,
        read_tool_output_parameters()[i].required <==> i == 0,
        read_tool_output_parameters().map_values(|p: ParameterModel| p.name) == seq![
            "artifact_id"@,
            "byte_offset"@,
            "limit"@,
            "line_continuation"@,
            "mode"@,
            "offset"@,
            "query"@,
            "scan_continuation"@,
            "scan_lines_remaining"@,
        ],
        read_tool_output_parameters()[i].kind == (if i == 0 || i == 6 {
            ParameterKind::Text
        } else if i == 3 || i == 7 {
            ParameterKind::Boolean
        } else if i == 4 {
            ParameterKind::RetrievalMode
        } else {
            ParameterKind::Integer
        }),
{
    assert(read_tool_output_parameters().map_values(|p: ParameterModel| p.name) =~= seq![
        "artifact_id"@,
        "byte_offset"@,
        "limit"@,
        "line_continuation"@,
        "mode"@,
        "offset"@,
        "query"@,
        "scan_continuation"@,
        "scan_lines_remaining"@,
    ]);
}

/// The broad sources and their names.
pub proof fn sources_have_names(name: Seq<char>)
    ensures
        tag_of(source_index(SourceModel::Host)) == "host"@,
        tag_of(source_index(SourceModel::Executor)) == "executor"@,
        tag_of(source_index(SourceModel::Orchestrator)) == "orchestrator"@,
        tag_of(source_index(SourceModel::Custom(name))) == "custom"@,
        source_index(SourceModel::Host) == 0,
        source_index(SourceModel::Executor) == 1,
        source_index(SourceModel::Orchestrator) == 2,
        source_index(SourceModel::Custom(name)) == 3,
{
}

/// The visible entries of a source are counted one by one: an entry counts where it is visible and
/// of that source, and as eligible where its position is eligible too.
pub proof fn visible_entries_are_counted(
    entries: Seq<EntryModel>,
    eligible: Set<usize>,
    source: int,
    n: int,
)
    requires
        0 <= n < entries.len(),
    ensures
        visible_count(entries, source, 0) == 0,
        eligible_count(entries, eligible, source, 0) == 0,
        ({
            let counts = entries[n].model_visible && source_index(entries[n].kind) == source;
            &&& visible_count(entries, source, n + 1) == visible_count(entries, source, n) + (
            if counts {
                1nat
            } else {
                0
            })
            &&& eligible_count(entries, eligible, source, n + 1) == eligible_count(
                entries,
                eligible,
                source,
                n,
            ) + (if counts && eligible.contains(n as usize) {
                1nat
            } else {
                0
            })
        }),
{
}

/// Each visible entry is counted for one source: the counts of the four sources together are the
/// number of visible entries, and no more entries are eligible than visible.
pub proof fn sources_share_the_entries(
    entries: Seq<EntryModel>,
    eligible: Set<usize>,
    source: int,
    n: int,
)
    requires
        0 <= n <= entries.len(),
    ensures
        visible_count(entries, 0, n) + visible_count(entries, 1, n) + visible_count(entries, 2, n)
            + visible_count(entries, 3, n) == entries.take(n).filter(
            |e: EntryModel| e.model_visible,
        ).len(),
        eligible_count(entries, eligible, source, n) <= visible_count(entries, source, n),
    decreases n,
{
    reveal(Seq::filter);
    if n > 0 {
        sources_share_the_entries(entries, eligible, source, n - 1);
        assert(entries.take(n).drop_last() =~= entries.take(n - 1));
        assert(entries.take(n).last() == entries[n - 1]);
    }
}

/// Entries are ordered by scope (system, admin, repository, user, none), then by name, then by
/// prompt.
pub proof fn entries_are_ordered(a: EntryModel, b: EntryModel)
    ensures
        scope_rank(Some(SkillScope::System)) < scope_rank(Some(SkillScope::Admin)),
        scope_rank(Some(SkillScope::Admin)) < scope_rank(Some(SkillScope::Repo)),
        scope_rank(Some(SkillScope::Repo)) < scope_rank(Some(SkillScope::User)),
        scope_rank(Some(SkillScope::User)) < scope_rank(None),
        scope_rank(a.prompt_scope) < scope_rank(b.prompt_scope) ==> entry_before(a, b),
        a.prompt_scope == b.prompt_scope && a.name != b.name ==> (entry_before(a, b) <==> text_less(
            a.name,
            b.name,
        )),
        a.prompt_scope == b.prompt_scope && a.name == b.name ==> (entry_before(a, b) <==> text_less(
            a.main_prompt,
            b.main_prompt,
        )),
        scope_rank(a.prompt_scope) > scope_rank(b.prompt_scope) ==> !entry_before(a, b),
{
}

/// In catalog order the visible entries stand as in the catalog, all of them and no others.
pub proof fn listed_entries_stand_as_in_the_catalog(entries: Seq<EntryModel>, n: int)
    requires
        0 <= n <= entries.len(),
    ensures
        forall|i: int, j: int|
            0 <= i < j < listed_order(entries, n).len() ==> #[trigger] listed_order(entries, n)[i]
                < #[trigger] listed_order(entries, n)[j],
        forall|i: int|
            0 <= i < listed_order(entries, n).len() ==> 0 <= #[trigger] listed_order(entries, n)[i]
                < n && entries[listed_order(entries, n)[i]].model_visible,
        forall|k: int|
            0 <= k < n && (#[trigger] entries[k]).model_visible ==> listed_order(
                entries,
                n,
            ).contains(k),
        policy_order(entries, SkillCatalogRenderPolicy::ExtensionCompatible) == listed_order(
            entries,
            entries.len() as int,
        ),
    decreases n,
{
    if n > 0 {
        listed_entries_stand_as_in_the_catalog(entries, n - 1);
        let before = listed_order(entries, n - 1);
        let now = listed_order(entries, n);
        assert forall|k: int| 0 <= k < n && (#[trigger] entries[k]).model_visible implies now.contains(
            k,
        ) by {
            if k < n - 1 {
                let i = before.index_of(k);
                assert(now[i] == k);
            } else {
                assert(now[now.len() - 1] == k);
            }
        }
    }
}

/// The short description is shown where there is one, but not where the core's list is kept; left
/// out entries are mentioned under all policies but that; only the compact policy counts as compact.
pub proof fn policies_differ(entry: EntryModel, compact: bool)
    ensures
        SkillCatalogRenderPolicy::CoreCompatible.spec_description(entry) == entry.description,
        SkillCatalogRenderPolicy::ExtensionCompatible.spec_description(entry) == (
        match entry.short_description {
            Some(short) => short,
            None => entry.description,
        }),
        SkillCatalogRenderPolicy::StableCompact.spec_description(entry) == (
        match entry.short_description {
            Some(short) => short,
            None => entry.description,
        }),
        !SkillCatalogRenderPolicy::CoreCompatible.spec_includes_notice(),
        SkillCatalogRenderPolicy::ExtensionCompatible.spec_includes_notice(),
        SkillCatalogRenderPolicy::StableCompact.spec_includes_notice(),
        SkillCatalogRenderPolicy::CoreCompatible.spec_outcome() is Legacy,
        SkillCatalogRenderPolicy::ExtensionCompatible.spec_outcome() is Legacy,
        SkillCatalogRenderPolicy::StableCompact.spec_outcome() is Compact,
        extension_policy(compact) is StableCompact <==> compact,
        extension_policy(compact) is ExtensionCompatible <==> !compact,
        SkillCatalogRenderOutcome::Legacy.spec_name() == "legacy"@,
        SkillCatalogRenderOutcome::Compact.spec_name() == "compact"@,
        SkillCatalogRenderOutcome::Fallback.spec_name() == "fallback"@,
{
}

/// A text costs its characters, or a token for every four bytes, rounded up; a line costs its text
/// and a line end. Another limit leaves the unit as it is.
pub proof fn texts_cost(text: Seq<char>, limit: usize, other: usize)
    requires
        utf8_len(text) + 4 <= usize::MAX,
        text.len() + 1 <= usize::MAX,
    ensures
        SkillMetadataBudget::Characters(limit).spec_cost(text) == text.len(),
        ({
            let tokens = SkillMetadataBudget::Tokens(limit).spec_cost(text);
            tokens * 4 >= utf8_len(text) && tokens * 4 < utf8_len(text) + 4
        }),
        line_cost(SkillMetadataBudget::Characters(limit), text) == text.len() + 1,
        ({
            let tokens = line_cost(SkillMetadataBudget::Tokens(limit), text);
            tokens * 4 >= utf8_len(text) + 1 && tokens * 4 < utf8_len(text) + 5
        }),
        SkillMetadataBudget::Tokens(limit).spec_limit() == limit,
        SkillMetadataBudget::Characters(limit).spec_limit() == limit,
        SkillMetadataBudget::Tokens(limit).spec_with_limit(other) == SkillMetadataBudget::Tokens(
            other,
        ),
        SkillMetadataBudget::Characters(limit).spec_with_limit(other)
            == SkillMetadataBudget::Characters(other),
{
}

/// The budget of the list is what is configured, up to ten thousand tokens; else two of every
/// hundred tokens of a known context window, but at least one; else eight thousand characters.
pub proof fn list_budget_is_chosen(window: i64, tokens: usize, configured: Option<i64>)
    ensures
        metadata_budget(configured, Some(tokens)) == SkillMetadataBudget::Tokens(
            if tokens < 10000 {
                tokens
            } else {
                10000
            },
        ),
        metadata_budget(None, None) == SkillMetadataBudget::Characters(8000),
        window <= 0 ==> metadata_budget(Some(window), None) == SkillMetadataBudget::Characters(
            8000,
        ),
        0 < window < 50 ==> metadata_budget(Some(window), None) == SkillMetadataBudget::Tokens(1),
        50 <= window && window * 2 <= usize::MAX ==> (metadata_budget(Some(window), None) matches
            SkillMetadataBudget::Tokens(n) && n * 100 <= window * 2 && window * 2 < (n + 1) * 100),
{
}

/// A warning is due where skills were left out, and says how many; or where more than a hundred
/// characters are missing for each skill on average, rounded up; and else none is.
pub proof fn warnings_are_due(report: SkillRenderReport)
    requires
        report.truncated_description_chars + report.total_count <= usize::MAX,
    ensures
        ({
            let (missing, total) = (report.truncated_description_chars, report.total_count);
            &&& total > 0 ==> report.average_missing() * total >= missing
                && report.average_missing() * total < missing + total
            &&& total == 0 || missing == 0 ==> report.average_missing() == 0
            &&& report.omitted_count == 1 ==> report.warning() == Some(
                "Exceeded skills context budget. All skill descriptions were removed and "@
                    + decimal(1) + " additional "@ + "skill was"@
                    + " not included in the model-visible skills list."@,
            )
            &&& report.omitted_count > 1 ==> report.warning() == Some(
                "Exceeded skills context budget. All skill descriptions were removed and "@
                    + decimal(report.omitted_count as nat) + " additional "@ + "skills were"@
                    + " not included in the model-visible skills list."@,
            )
            &&& report.omitted_count == 0 && report.average_missing() > 100 ==> report.warning()
                == Some(
                "Skill descriptions were shortened to fit the skills context budget. Codex can still see every skill, but some descriptions are shorter. Disable unused skills or plugins to leave more room for the rest."@,
            )
            &&& report.omitted_count == 0 && report.average_missing() <= 100 ==> report.warning()
                is None
        }),
{
    let (missing, total) = (
        report.truncated_description_chars as int,
        report.total_count as int,
    );
    if total > 0 && missing > 0 {
        let average = (missing + total - 1) / total;
        assert(average * total >= missing && average * total < missing + total) by (nonlinear_arith)
            requires
                total > 0,
                missing > 0,
                average == (missing + total - 1) / total,
        ;
    }
}

} // verus!

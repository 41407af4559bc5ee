//! How many skills of each source are visible, and how many of them are eligible.

use std::collections::HashSet;
use vstd::prelude::*;
use vstd::std_specs::hash::*;

use crate::skill_policy::{entry_models, EntryModel, SkillSourceKind, SourceModel};
use crate::skill_render::SkillCatalog;

verus! {

/// The number of broad sources.
pub const AUTHORITY_COUNT: usize = 4;

/// The name of each broad source.
pub fn authority_tag(index: usize) -> (r: Option<&'static str>)
    ensures
        (match r {
            Some(tag) => index < AUTHORITY_COUNT && tag@ == tag_of(index as int),
            None => index >= AUTHORITY_COUNT,
        }),
{
    if index == 0 {
        Some("host")
    } else if index == 1 {
        Some("executor")
    } else if index == 2 {
        Some("orchestrator")
    } else if index == 3 {
        Some("custom")
    } else {
        None
    }
}

/// The name of a broad source.
pub open spec fn tag_of(index: int) -> Seq<char> {
    if index == 0 {
        "host"@
    } else if index == 1 {
        "executor"@
    } else if index == 2 {
        "orchestrator"@
    } else {
        "custom"@
    }
}

/// The skills of one broad source.
#[derive(Clone, Copy, Debug, PartialEq, Eq, Structural)]
pub struct AuthorityCoverage {
    pub catalog_entries: usize,
    pub eligible_entries: usize,
}

/// The place of a source among the broad ones.
pub open spec fn source_index(kind: SourceModel) -> int {
    match kind {
        SourceModel::Host => 0,
        SourceModel::Executor => 1,
        SourceModel::Orchestrator => 2,
        SourceModel::Custom(_) => 3,
    }
}

/// The place of a source among the broad ones.
pub fn authority_index(kind: &SkillSourceKind) -> (r: usize)
    ensures
        r == source_index(kind@),
        r < AUTHORITY_COUNT,
{
    match kind {
        SkillSourceKind::Host => 0,
        SkillSourceKind::Executor => 1,
        SkillSourceKind::Orchestrator => 2,
        SkillSourceKind::Custom(_) => 3,
    }
}

/// How many of the first `n` entries are visible and of a source.
pub open spec fn visible_count(entries: Seq<EntryModel>, source: int, n: int) -> nat
    decreases n,
{
    if n <= 0 {
        0
    } else {
        visible_count(entries, source, n - 1) + (if entries[n - 1].model_visible && source_index(
            entries[n - 1].kind,
        ) == source {
            1nat
        } else {
            0
        })
    }
}

/// How many of the first `n` entries are visible, of a source, and eligible.
pub open spec fn eligible_count(
    entries: Seq<EntryModel>,
    eligible: Set<usize>,
    source: int,
    n: int,
) -> nat
    decreases n,
{
    if n <= 0 {
        0
    } else {
        eligible_count(entries, eligible, source, n - 1) + (if entries[n - 1].model_visible
            && source_index(entries[n - 1].kind) == source && eligible.contains(
            (n - 1) as usize,
        ) {
            1nat
        } else {
            0
        })
    }
}

/// The coverage of each broad source: its visible entries, and those of them whose position in
/// the catalog is eligible.
pub fn authority_coverage(catalog: &SkillCatalog, eligible_ids: &HashSet<usize>) -> (r:
    [AuthorityCoverage; 4])
    ensures
        forall|s: int|
            0 <= s < 4 ==> (#[trigger] r@[s]).catalog_entries == visible_count(
                catalog@.entries,
                s,
                catalog@.entries.len() as int,
            ) && r@[s].eligible_entries == eligible_count(
                catalog@.entries,
                eligible_ids@,
                s,
                catalog@.entries.len() as int,
            ),
{
    broadcast use group_hash_axioms;

    let none = AuthorityCoverage { catalog_entries: 0, eligible_entries: 0 };
    let mut coverage: [AuthorityCoverage; 4] = [none, none, none, none];
    let mut id: usize = 0;
    let ghost entries = catalog@.entries;
    while id < catalog.entries.len()
        invariant
            id <= catalog.entries@.len(),
            entries == entry_models(catalog.entries@),
            forall|s: int|
                0 <= s < 4 ==> (#[trigger] coverage@[s]).catalog_entries == visible_count(
                    entries,
                    s,
                    id as int,
                ) && coverage@[s].eligible_entries == eligible_count(
                    entries,
                    eligible_ids@,
                    s,
                    id as int,
                ) && coverage@[s].eligible_entries <= coverage@[s].catalog_entries <= id,
        decreases catalog.entries@.len() - id,
    {
        proof {
            assert(entries[id as int] == catalog.entries@[id as int]@);
        }
        if catalog.entries[id].model_visible {
            let index: usize = authority_index(&catalog.entries[id].kind);
            let mut authority = coverage[index];
            authority.catalog_entries = authority.catalog_entries + 1;
            if eligible_ids.contains(&id) {
                authority.eligible_entries = authority.eligible_entries + 1;
            }
            coverage[index] = authority;
        }
        id += 1;
    }
    coverage
}

} // verus!

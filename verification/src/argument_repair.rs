//! Repair of tool arguments before a tool sees them: which calls are eligible, what a repair
//! leaves behind, and what the model is told of it.

use vstd::prelude::*;
use vstd::string::*;
use vstd::utf8::*;

use crate::history::{
    first, is_stable_rule, is_stable_tool_argument_repair_rule, stable_rules,
    stable_rules_are_stable, texts, ReceiptModel,
    ToolArgumentRepairOutcome, ToolArgumentRepairReason, ToolArgumentRepairReceipt,
    ToolArgumentRepairToolFamily, MAX_TOOL_ARGUMENT_REPAIR_RULES,
};
use crate::numbers::{decimal, decimal_text};
use crate::read_tool_output::sum_size;
use crate::text::{
    byte_len, bytes_less_irreflexive, bytes_less_transitive, same_text, str_less, text_less,
    text_less_total, utf8_len,
};

verus! {

/// The cohort that telemetry files these repairs under.
pub const FEATURE_COHORT: &'static str = "tool_argument_repair_v1";

/// Why a call that is not eligible is not repaired.
pub const POLICY_MISS_REASON: &'static str = "not_allowlisted";

/// What stands for a missing reason.
pub const NO_REASON: &'static str = "none";

/// The most repaired calls that one disclosure counts by family and rule.
pub const MAX_DISCLOSED_REPAIRED_CALLS: usize = 32;

/// Names with how often each occurred.
pub type CountModel = Seq<(Seq<char>, usize)>;

/// A list of names with one more occurrence of one; the list is ordered by name.
pub open spec fn bumped(counts: CountModel, name: Seq<char>) -> CountModel
    decreases counts.len(),
{
    if counts.len() == 0 {
        seq![(name, 1usize)]
    } else if counts.last().0 == name {
        counts.update(counts.len() - 1, (name, sum_size(counts.last().1 as int, 1)))
    } else if text_less(counts.last().0, name) {
        counts.push((name, 1usize))
    } else {
        bumped(counts.drop_last(), name).push(counts.last())
    }
}

/// A list of names with one more occurrence of each of several.
pub open spec fn bumped_all(counts: CountModel, names: Seq<Seq<char>>) -> CountModel
    decreases names.len(),
{
    if names.len() == 0 {
        counts
    } else {
        bumped(bumped_all(counts, names.drop_last()), names.last())
    }
}

/// The model of names with their counts.
pub open spec fn count_model(counts: Seq<(String, usize)>) -> CountModel {
    counts.map_values(|entry: (String, usize)| (entry.0@, entry.1))
}

fn bump(counts: &mut Vec<(String, usize)>, name: &str)
    ensures
        count_model(final(counts)@) == bumped(count_model(old(counts)@), name@),
{
    let ghost before = count_model(counts@);
    let mut i: usize = counts.len();
    proof {
        assert(before.take(i as int) =~= before);
        assert(bumped(before, name@) =~= bumped(before.take(i as int), name@) + before.skip(
            i as int,
        ));
    }
    while i > 0
        invariant
            i <= counts@.len(),
            *counts == *old(counts),
            before == count_model(counts@),
            bumped(before, name@) == bumped(before.take(i as int), name@) + before.skip(i as int),
        ensures
            i > 0 ==> before[i - 1].0 != name@ && text_less(before[i - 1].0, name@),
        decreases i,
    {
        proof {
            assert(before[i - 1] == (counts@[i - 1].0@, counts@[i - 1].1));
            assert(before.take(i as int).drop_last() =~= before.take(i - 1));
        }
        if same_text(counts[i - 1].0.as_str(), name) {
            let entry = (counts[i - 1].0.clone(), counts[i - 1].1.saturating_add(1));
            counts.set(i - 1, entry);
            proof {
                let part = before.take(i as int);
                assert(count_model(counts@) =~= part.update(
                    i - 1,
                    (name@, sum_size(before[i - 1].1 as int, 1)),
                ) + before.skip(i as int));
            }
            return ;
        }
        if str_less(counts[i - 1].0.as_str(), name) {
            break;
        }
        proof {
            assert(bumped(before.take(i - 1), name@).push(before[i - 1]) + before.skip(i as int)
                =~= bumped(before.take(i - 1), name@) + before.skip(i - 1));
        }
        i -= 1;
    }
    proof {
        assert(bumped(before.take(i as int), name@) =~= before.take(i as int).push(
            (name@, 1usize),
        ));
        assert(before.take(i as int).push((name@, 1usize)) + before.skip(i as int)
            =~= before.insert(i as int, (name@, 1usize)));
    }
    let copy = name.to_owned();
    counts.insert(i, (copy, 1));
    proof {
        assert(count_model(counts@) =~= before.insert(i as int, (name@, 1usize)));
    }
}

/// Whether names stand in order, each once.
pub open spec fn by_name(counts: CountModel) -> bool {
    forall|i: int, j: int|
        0 <= i < j < counts.len() ==> text_less((#[trigger] counts[i]).0, (#[trigger] counts[j]).0)
}

/// Whether no name occurs more often than `max`.
pub open spec fn at_most_each(counts: CountModel, max: int) -> bool {
    forall|i: int| 0 <= i < counts.len() ==> (#[trigger] counts[i]).1 <= max
}

/// Whether a name occurs.
pub open spec fn names(counts: CountModel, name: Seq<char>) -> bool {
    exists|i: int| 0 <= i < counts.len() && (#[trigger] counts[i]).0 == name
}

proof fn bumped_keeps(counts: CountModel, name: Seq<char>, max: int)
    requires
        by_name(counts),
        at_most_each(counts, max),
        max >= 0,
    ensures
        by_name(bumped(counts, name)),
        at_most_each(bumped(counts, name), max + 1),
        forall|other: Seq<char>|
            #[trigger] names(bumped(counts, name), other) ==> other == name || names(
                counts,
                other,
            ),
    decreases counts.len(),
{
    let after = bumped(counts, name);
    if counts.len() > 0 {
        let last = counts.last();
        if last.0 == name {
            assert forall|i: int, j: int| 0 <= i < j < after.len() implies text_less(
                (#[trigger] after[i]).0,
                (#[trigger] after[j]).0,
            ) by {
                assert(after[i].0 == counts[i].0 && after[j].0 == counts[j].0);
            }
            assert forall|other: Seq<char>| #[trigger] names(after, other) implies other == name
                || names(counts, other) by {
                let i = choose|i: int| 0 <= i < after.len() && (#[trigger] after[i]).0 == other;
                assert(counts[i].0 == other);
            }
        } else if text_less(last.0, name) {
            assert forall|i: int, j: int| 0 <= i < j < after.len() implies text_less(
                (#[trigger] after[i]).0,
                (#[trigger] after[j]).0,
            ) by {
                assert(after[i] == counts[i]);
                if j < counts.len() {
                    assert(after[j] == counts[j]);
                } else if i < counts.len() - 1 {
                    assert(text_less(counts[i].0, counts[counts.len() - 1].0));
                    bytes_less_transitive(
                        encode_utf8(counts[i].0),
                        encode_utf8(last.0),
                        encode_utf8(name),
                    );
                }
            }
            assert forall|other: Seq<char>| #[trigger] names(after, other) implies other == name
                || names(counts, other) by {
                let i = choose|i: int| 0 <= i < after.len() && (#[trigger] after[i]).0 == other;
                if i < counts.len() {
                    assert(counts[i].0 == other);
                }
            }
        } else {
            let fewer = counts.drop_last();
            let inner = bumped(fewer, name);
            assert(by_name(fewer)) by {
                assert forall|i: int, j: int| 0 <= i < j < fewer.len() implies text_less(
                    (#[trigger] fewer[i]).0,
                    (#[trigger] fewer[j]).0,
                ) by {
                    assert(fewer[i] == counts[i] && fewer[j] == counts[j]);
                }
            }
            assert(at_most_each(fewer, max)) by {
                assert forall|i: int| 0 <= i < fewer.len() implies (#[trigger] fewer[i]).1
                    <= max by {
                    assert(fewer[i] == counts[i]);
                }
            }
            bumped_keeps(fewer, name, max);
            text_less_total(last.0, name);
            assert forall|i: int, j: int| 0 <= i < j < after.len() implies text_less(
                (#[trigger] after[i]).0,
                (#[trigger] after[j]).0,
            ) by {
                assert(after[i] == inner[i]);
                if j < inner.len() {
                    assert(after[j] == inner[j]);
                } else {
                    assert(names(inner, inner[i].0));
                    if inner[i].0 != name {
                        let k = choose|k: int|
                            0 <= k < fewer.len() && (#[trigger] fewer[k]).0 == inner[i].0;
                        assert(counts[k] == fewer[k]);
                        assert(text_less(counts[k].0, counts[counts.len() - 1].0));
                    }
                }
            }
            assert forall|i: int| 0 <= i < after.len() implies (#[trigger] after[i]).1 <= max
                + 1 by {
                if i < inner.len() {
                    assert(after[i] == inner[i]);
                } else {
                    assert(after[i] == counts[counts.len() - 1]);
                }
            }
            assert forall|other: Seq<char>| #[trigger] names(after, other) implies other == name
                || names(counts, other) by {
                let i = choose|i: int| 0 <= i < after.len() && (#[trigger] after[i]).0 == other;
                if i < inner.len() {
                    assert(inner[i].0 == other);
                    assert(names(inner, other));
                    if other != name {
                        let k = choose|k: int|
                            0 <= k < fewer.len() && (#[trigger] fewer[k]).0 == other;
                        assert(counts[k].0 == other);
                    }
                } else {
                    assert(counts[counts.len() - 1].0 == other);
                }
            }
        }
    } else {
        assert(after[0].0 == name);
    }
}

proof fn bumped_all_keeps(counts: CountModel, list: Seq<Seq<char>>, max: int)
    requires
        by_name(counts),
        at_most_each(counts, max),
        max >= 0,
    ensures
        by_name(bumped_all(counts, list)),
        at_most_each(bumped_all(counts, list), max + list.len()),
        forall|other: Seq<char>|
            #[trigger] names(bumped_all(counts, list), other) ==> list.contains(other) || names(
                counts,
                other,
            ),
    decreases list.len(),
{
    if list.len() > 0 {
        let fewer = list.drop_last();
        bumped_all_keeps(counts, fewer, max);
        bumped_keeps(bumped_all(counts, fewer), list.last(), max + fewer.len());
        assert forall|other: Seq<char>| #[trigger] names(bumped_all(counts, list), other) implies
            list.contains(other) || names(counts, other) by {
            if other == list.last() {
                assert(list[list.len() - 1] == other);
            } else {
                assert(names(bumped_all(counts, fewer), other));
                if fewer.contains(other) {
                    let i = choose|i: int| 0 <= i < fewer.len() && fewer[i] == other;
                    assert(list[i] == other);
                }
            }
        }
    }
}

/// Names with their counts, as text.
pub open spec fn counts_text(counts: CountModel) -> Seq<char>
    decreases counts.len(),
{
    if counts.len() == 0 {
        seq![]
    } else {
        let entry = counts.last().0 + ":"@ + decimal(counts.last().1 as nat);
        if counts.len() == 1 {
            entry
        } else {
            counts_text(counts.drop_last()) + ","@ + entry
        }
    }
}

/// Names with their counts, as text.
fn format_counts(counts: &Vec<(String, usize)>) -> (r: String)
    ensures
        r@ == counts_text(count_model(counts@)),
{
    let mut text = String::new();
    let mut i: usize = 0;
    let ghost model = count_model(counts@);
    proof {
        assert(model.take(0) =~= Seq::empty());
        assert(text@ =~= counts_text(model.take(0)));
    }
    while i < counts.len()
        invariant
            i <= counts@.len(),
            model == count_model(counts@),
            text@ == counts_text(model.take(i as int)),
        decreases counts@.len() - i,
    {
        let ghost before = text@;
        proof {
            assert(model[i as int] == (counts@[i as int].0@, counts@[i as int].1));
            assert(model.take(i + 1).drop_last() =~= model.take(i as int));
        }
        if i > 0 {
            text.append(",");
        }
        text.append(counts[i].0.as_str());
        text.append(":");
        text.append(decimal_text(counts[i].1 as u64).as_str());
        proof {
            let entry = counts@[i as int].0@ + ":"@ + decimal(counts@[i as int].1 as nat);
            if i == 0 {
                assert(before =~= Seq::<char>::empty());
                assert(text@ =~= entry);
            } else {
                assert(text@ =~= before + ","@ + entry);
            }
        }
        i += 1;
    }
    proof {
        assert(model.take(i as int) =~= model);
    }
    text
}

/// The name of a tool family.
pub open spec fn family_name(family: ToolArgumentRepairToolFamily) -> Seq<char> {
    match family {
        ToolArgumentRepairToolFamily::ReadFile => "read_file"@,
        ToolArgumentRepairToolFamily::Unlisted => "unlisted"@,
    }
}

/// The name of a tool family.
pub fn family_label(family: ToolArgumentRepairToolFamily) -> (r: &'static str)
    ensures
        r@ == family_name(family),
{
    match family {
        ToolArgumentRepairToolFamily::ReadFile => "read_file",
        ToolArgumentRepairToolFamily::Unlisted => "unlisted",
    }
}

/// The name of an outcome.
pub open spec fn outcome_name(outcome: ToolArgumentRepairOutcome) -> Seq<char> {
    match outcome {
        ToolArgumentRepairOutcome::PolicyMiss => "policy_miss"@,
        ToolArgumentRepairOutcome::ValidUnchanged => "valid_unchanged"@,
        ToolArgumentRepairOutcome::Repaired => "repaired"@,
        ToolArgumentRepairOutcome::NotRepairable => "not_repairable"@,
        ToolArgumentRepairOutcome::LimitExceeded => "limit_exceeded"@,
        ToolArgumentRepairOutcome::UnsupportedSchema => "unsupported_schema"@,
    }
}

/// The name of an outcome.
pub fn outcome_label(outcome: ToolArgumentRepairOutcome) -> (r: &'static str)
    ensures
        r@ == outcome_name(outcome),
{
    match outcome {
        ToolArgumentRepairOutcome::PolicyMiss => "policy_miss",
        ToolArgumentRepairOutcome::ValidUnchanged => "valid_unchanged",
        ToolArgumentRepairOutcome::Repaired => "repaired",
        ToolArgumentRepairOutcome::NotRepairable => "not_repairable",
        ToolArgumentRepairOutcome::LimitExceeded => "limit_exceeded",
        ToolArgumentRepairOutcome::UnsupportedSchema => "unsupported_schema",
    }
}

/// The name of a reason.
pub open spec fn reason_name(reason: ToolArgumentRepairReason) -> Seq<char> {
    match reason {
        ToolArgumentRepairReason::NotAllowlisted => "not_allowlisted"@,
        ToolArgumentRepairReason::UnsupportedSchema => "unsupported_schema"@,
        ToolArgumentRepairReason::LimitExceeded => "limit_exceeded"@,
        ToolArgumentRepairReason::ValidationFailure => "validation_failure"@,
    }
}

/// The name of a reason.
pub fn reason_label(reason: ToolArgumentRepairReason) -> (r: &'static str)
    ensures
        r@ == reason_name(reason),
{
    match reason {
        ToolArgumentRepairReason::NotAllowlisted => "not_allowlisted",
        ToolArgumentRepairReason::UnsupportedSchema => "unsupported_schema",
        ToolArgumentRepairReason::LimitExceeded => "limit_exceeded",
        ToolArgumentRepairReason::ValidationFailure => "validation_failure",
    }
}

/// Where a tool call comes from.
#[derive(Debug)]
pub enum ToolCallSource {
    Direct,
    CodeMode { cell_id: String, runtime_tool_call_id: String },
}

/// What an [`ArgumentRepairDisclosureAccumulator`] has counted.
#[verifier::ext_equal]
pub struct RepairCounts {
    pub retained: usize,
    pub dropped: usize,
    pub families: CountModel,
    pub rules: CountModel,
    pub nested_receipt: Option<ReceiptModel>,
}

/// The counts before any call.
pub open spec fn no_repairs() -> RepairCounts {
    RepairCounts {
        retained: 0,
        dropped: 0,
        families: seq![],
        rules: seq![],
        nested_receipt: None,
    }
}

/// The counts with one more call.
pub open spec fn recorded(
    counts: RepairCounts,
    receipt: Option<ReceiptModel>,
    source: ToolCallSource,
) -> RepairCounts {
    match receipt {
        Some(receipt) => if receipt.outcome != ToolArgumentRepairOutcome::Repaired {
            counts
        } else if counts.retained >= MAX_DISCLOSED_REPAIRED_CALLS {
            RepairCounts { dropped: sum_size(counts.dropped as int, 1), ..counts }
        } else {
            RepairCounts {
                retained: (counts.retained + 1) as usize,
                dropped: counts.dropped,
                families: bumped(counts.families, family_name(receipt.tool_family)),
                rules: bumped_all(
                    counts.rules,
                    first(stable_rules(receipt.rules), MAX_TOOL_ARGUMENT_REPAIR_RULES as int),
                ),
                nested_receipt: if source is CodeMode && counts.nested_receipt is None {
                    Some(receipt)
                } else {
                    counts.nested_receipt
                },
            }
        },
        None => counts,
    }
}

/// What holds of counts whatever was recorded: they count no more calls than a disclosure
/// holds, and name nothing but families and stable rules, each once.
pub open spec fn coherent(counts: RepairCounts) -> bool {
    &&& counts.retained <= MAX_DISCLOSED_REPAIRED_CALLS
    &&& counts.retained == 0 ==> counts.families.len() == 0 && counts.rules.len() == 0
        && counts.nested_receipt is None && counts.dropped == 0
    &&& by_name(counts.families)
    &&& at_most_each(counts.families, counts.retained as int)
    &&& forall|name: Seq<char>| #[trigger]
        names(counts.families, name) ==> name == "read_file"@ || name == "unlisted"@
    &&& by_name(counts.rules)
    &&& at_most_each(counts.rules, counts.retained * MAX_TOOL_ARGUMENT_REPAIR_RULES)
    &&& forall|name: Seq<char>| #[trigger] names(counts.rules, name) ==> is_stable_rule(name)
}

/// Whatever is recorded, the counts stay bounded and free of anything that a call contained.
pub proof fn recorded_stays_coherent(
    counts: RepairCounts,
    receipt: Option<ReceiptModel>,
    source: ToolCallSource,
)
    requires
        coherent(counts),
    ensures
        coherent(recorded(counts, receipt, source)),
{
    if let Some(receipt) = receipt {
        if receipt.outcome == ToolArgumentRepairOutcome::Repaired && counts.retained
            < MAX_DISCLOSED_REPAIRED_CALLS {
            let rules = first(
                stable_rules(receipt.rules),
                MAX_TOOL_ARGUMENT_REPAIR_RULES as int,
            );
            bumped_keeps(
                counts.families,
                family_name(receipt.tool_family),
                counts.retained as int,
            );
            bumped_all_keeps(
                counts.rules,
                rules,
                counts.retained * MAX_TOOL_ARGUMENT_REPAIR_RULES,
            );
            stable_rules_are_stable(receipt.rules);
            let after = recorded(counts, Some(receipt), source);
            assert forall|name: Seq<char>| #[trigger] names(after.rules, name) implies
                is_stable_rule(name) by {
                if rules.contains(name) {
                    let i = choose|i: int| 0 <= i < rules.len() && rules[i] == name;
                    assert(stable_rules(receipt.rules)[i] == name);
                } else {
                    assert(names(counts.rules, name));
                }
            }
            assert forall|name: Seq<char>| #[trigger] names(after.families, name) implies name
                == "read_file"@ || name == "unlisted"@ by {
                if name != family_name(receipt.tool_family) {
                    assert(names(counts.families, name));
                }
            }
        }
    }
}

/// Every repaired call is counted, as retained or as dropped.
pub proof fn every_repair_is_counted(
    counts: RepairCounts,
    receipt: ReceiptModel,
    source: ToolCallSource,
)
    requires
        receipt.outcome == ToolArgumentRepairOutcome::Repaired,
        coherent(counts),
        counts.dropped < usize::MAX,
    ensures
        recorded(counts, Some(receipt), source).retained + recorded(
            counts,
            Some(receipt),
            source,
        ).dropped == counts.retained + counts.dropped + 1,
{
}

proof fn distinct_names(counts: CountModel, allowed: Set<Seq<char>>)
    requires
        by_name(counts),
        allowed.finite(),
        forall|i: int| 0 <= i < counts.len() ==> allowed.contains((#[trigger] counts[i]).0),
    ensures
        counts.len() <= allowed.len(),
{
    let list = counts.map_values(|entry: (Seq<char>, usize)| entry.0);
    assert forall|i: int, j: int| 0 <= i < j < list.len() implies list[i] != list[j] by {
        assert(text_less(counts[i].0, counts[j].0));
        bytes_less_irreflexive(encode_utf8(counts[i].0));
    }
    list.unique_seq_to_set();
    assert forall|name: Seq<char>| #[trigger] list.to_set().contains(name) implies allowed.contains(
        name,
    ) by {
        let i = choose|i: int| 0 <= i < list.len() && list[i] == name;
        assert(counts[i].0 == name);
    }
    vstd::set_lib::lemma_len_subset(list.to_set(), allowed);
}

proof fn decimal_len(n: nat, digits: nat)
    requires
        digits >= 1,
        n < pow10(digits),
    ensures
        decimal(n).len() <= digits,
    decreases digits,
{
    if n >= 10 {
        reveal_with_fuel(pow10, 2);
        decimal_len(n / 10, (digits - 1) as nat);
    }
}

spec fn pow10(n: nat) -> nat
    decreases n,
{
    if n == 0 {
        1
    } else {
        10 * pow10((n - 1) as nat)
    }
}

proof fn counts_text_len(counts: CountModel, name_len: nat, max: int)
    requires
        at_most_each(counts, max),
        max < 1000,
        forall|i: int| 0 <= i < counts.len() ==> (#[trigger] counts[i]).0.len() <= name_len,
    ensures
        counts_text(counts).len() <= counts.len() * (name_len + 5),
    decreases counts.len(),
{
    if counts.len() > 0 {
        let fewer = counts.drop_last();
        assert forall|i: int| 0 <= i < fewer.len() implies (#[trigger] fewer[i]).1 <= max
            && fewer[i].0.len() <= name_len by {
            assert(fewer[i] == counts[i]);
        }
        counts_text_len(fewer, name_len, max);
        reveal_with_fuel(pow10, 5);
        assert(counts[counts.len() - 1] == counts.last());
        decimal_len(counts.last().1 as nat, 3);
        reveal_strlit(":");
        reveal_strlit(",");
        assert(counts.len() * (name_len + 5) == fewer.len() * (name_len + 5) + (name_len + 5))
            by (nonlinear_arith)
            requires
                counts.len() == fewer.len() + 1,
        ;
    }
}

/// What the model is told of repairs.
pub open spec fn disclosure_text(counts: RepairCounts) -> Seq<char> {
    "tool_argument_repair outcome=\"repaired\" repaired_call_count=\""@ + decimal(
        counts.retained as nat,
    ) + "\" dropped_call_count=\""@ + decimal(counts.dropped as nat) + "\" families=\""@
        + counts_text(counts.families) + "\" rules=\""@ + counts_text(counts.rules) + "\""@
}

/// One bounded disclosure for the model, emitted after a response's tool outputs.
#[derive(Debug)]
pub struct ArgumentRepairDisclosure {
    /// The internal source that the text is filed under.
    pub source: &'static str,
    pub body: String,
    pub nested_receipt: Option<ToolArgumentRepairReceipt>,
}

/// The model of a receipt that may be missing.
pub open spec fn receipt_model(receipt: Option<ToolArgumentRepairReceipt>) -> Option<
    ReceiptModel,
> {
    match receipt {
        Some(receipt) => Some(receipt@),
        None => None,
    }
}

/// The longest disclosure, in characters.
pub const MAX_DISCLOSURE_CHARS: usize = 600;

/// A disclosure is bounded whatever was recorded.
pub proof fn disclosure_is_bounded(counts: RepairCounts)
    requires
        coherent(counts),
    ensures
        disclosure_text(counts).len() <= MAX_DISCLOSURE_CHARS,
{
    let families = Set::<Seq<char>>::empty().insert("read_file"@).insert("unlisted"@);
    assert forall|i: int| 0 <= i < counts.families.len() implies families.contains(
        (#[trigger] counts.families[i]).0,
    ) && counts.families[i].0.len() <= 9 by {
        reveal_strlit("read_file");
        reveal_strlit("unlisted");
        assert(names(counts.families, counts.families[i].0));
    }
    distinct_names(counts.families, families);
    counts_text_len(counts.families, 9, counts.retained as int);
    let rules = Set::<Seq<char>>::empty().insert("optional_null_removed"@).insert(
        "stringified_array_decoded"@,
    ).insert("stringified_object_decoded"@).insert("scalar_wrapped_in_array"@).insert(
        "numeric_string_typed"@,
    ).insert("boolean_string_typed"@).insert("known_field_alias"@).insert(
        "markdown_path_unwrapped"@,
    );
    assert forall|i: int| 0 <= i < counts.rules.len() implies rules.contains(
        (#[trigger] counts.rules[i]).0,
    ) && counts.rules[i].0.len() <= 26 by {
        reveal_strlit("optional_null_removed");
        reveal_strlit("stringified_array_decoded");
        reveal_strlit("stringified_object_decoded");
        reveal_strlit("scalar_wrapped_in_array");
        reveal_strlit("numeric_string_typed");
        reveal_strlit("boolean_string_typed");
        reveal_strlit("known_field_alias");
        reveal_strlit("markdown_path_unwrapped");
        assert(names(counts.rules, counts.rules[i].0));
    }
    distinct_names(counts.rules, rules);
    counts_text_len(counts.rules, 26, counts.retained * MAX_TOOL_ARGUMENT_REPAIR_RULES);
    assert(families.len() <= 2);
    assert(rules.len() <= 8);
    let f = counts.families.len();
    let r = counts.rules.len();
    assert(f * 14 <= 28) by (nonlinear_arith)
        requires
            f <= 2,
    ;
    assert(r * 31 <= 248) by (nonlinear_arith)
        requires
            r <= 8,
    ;
    reveal_with_fuel(pow10, 25);
    decimal_len(counts.retained as nat, 2);
    decimal_len(counts.dropped as nat, 20);
    reveal_strlit("tool_argument_repair outcome=\"repaired\" repaired_call_count=\"");
    reveal_strlit("\" dropped_call_count=\"");
    reveal_strlit("\" families=\"");
    reveal_strlit("\" rules=\"");
    reveal_strlit("\"");
}

/// Counts successful repairs so that parallel and nested calls cannot flood the history.
#[derive(Debug)]
pub struct ArgumentRepairDisclosureAccumulator {
    retained_calls: usize,
    dropped_calls: usize,
    family_counts: Vec<(String, usize)>,
    rule_counts: Vec<(String, usize)>,
    nested_receipt: Option<ToolArgumentRepairReceipt>,
}

impl View for ArgumentRepairDisclosureAccumulator {
    type V = RepairCounts;

    closed spec fn view(&self) -> RepairCounts {
        RepairCounts {
            retained: self.retained_calls,
            dropped: self.dropped_calls,
            families: count_model(self.family_counts@),
            rules: count_model(self.rule_counts@),
            nested_receipt: receipt_model(self.nested_receipt),
        }
    }
}

impl Default for ArgumentRepairDisclosureAccumulator {
    fn default() -> (r: Self)
        ensures
            r@ == no_repairs(),
    {
        let r = ArgumentRepairDisclosureAccumulator {
            retained_calls: 0,
            dropped_calls: 0,
            family_counts: Vec::new(),
            rule_counts: Vec::new(),
            nested_receipt: None,
        };
        proof {
            assert(r@ =~= no_repairs());
        }
        r
    }
}

impl ArgumentRepairDisclosureAccumulator {
    #[verifier::type_invariant]
    spec fn well_formed(&self) -> bool {
        coherent(self@)
    }

    /// Counts one call.
    pub fn record(&mut self, receipt: Option<&ToolArgumentRepairReceipt>, source: &ToolCallSource)
        ensures
            final(self)@ == recorded(
                old(self)@,
                (match receipt {
                    Some(receipt) => Some(receipt@),
                    None => None,
                }),
                *source,
            ),
            coherent(old(self)@),
    {
        proof {
            use_type_invariant(&*self);
        }
        let receipt = match receipt {
            Some(receipt) => receipt,
            None => {
                return ;
            },
        };
        if receipt.outcome != ToolArgumentRepairOutcome::Repaired {
            return ;
        }
        if self.retained_calls >= MAX_DISCLOSED_REPAIRED_CALLS {
            self.dropped_calls = self.dropped_calls.saturating_add(1);
            return ;
        }
        let mut families: Vec<(String, usize)> = Vec::new();
        let mut counts: Vec<(String, usize)> = Vec::new();
        std::mem::swap(&mut families, &mut self.family_counts);
        std::mem::swap(&mut counts, &mut self.rule_counts);
        bump(&mut families, family_label(receipt.tool_family));
        let ghost start = count_model(counts@);
        let ghost rules = texts(receipt.rules@);
        let ghost limit = MAX_TOOL_ARGUMENT_REPAIR_RULES as int;
        let mut taken: usize = 0;
        let mut i: usize = 0;
        proof {
            assert(rules.take(0) =~= Seq::<Seq<char>>::empty());
        }
        while i < receipt.rules.len()
            invariant
                i <= receipt.rules@.len(),
                rules == texts(receipt.rules@),
                limit == MAX_TOOL_ARGUMENT_REPAIR_RULES,
                taken <= limit,
                taken == first(stable_rules(rules.take(i as int)), limit).len(),
                count_model(counts@) == bumped_all(
                    start,
                    first(stable_rules(rules.take(i as int)), limit),
                ),
            decreases receipt.rules@.len() - i,
        {
            let ghost kept = stable_rules(rules.take(i as int));
            proof {
                assert(rules[i as int] == receipt.rules@[i as int]@);
                assert(rules.take(i + 1).drop_last() =~= rules.take(i as int));
            }
            if is_stable_tool_argument_repair_rule(receipt.rules[i].as_str()) {
                proof {
                    let more = kept.push(rules[i as int]);
                    if taken < limit {
                        assert(first(more, limit).drop_last() =~= first(kept, limit));
                    } else {
                        assert(first(more, limit) =~= first(kept, limit));
                    }
                }
                if taken < MAX_TOOL_ARGUMENT_REPAIR_RULES {
                    bump(&mut counts, receipt.rules[i].as_str());
                    taken += 1;
                }
            }
            i += 1;
        }
        proof {
            assert(rules.take(i as int) =~= rules);
            recorded_stays_coherent(old(self)@, Some(receipt@), *source);
        }
        let mut nested: Option<ToolArgumentRepairReceipt> = None;
        std::mem::swap(&mut nested, &mut self.nested_receipt);
        if let ToolCallSource::CodeMode { .. } = source {
            if nested.is_none() {
                nested = Some(receipt.clone());
            }
        }
        let updated = ArgumentRepairDisclosureAccumulator {
            retained_calls: self.retained_calls + 1,
            dropped_calls: self.dropped_calls,
            family_counts: families,
            rule_counts: counts,
            nested_receipt: nested,
        };
        *self = updated;
    }

    /// Hands out what has been counted, and starts anew.
    pub fn take_disclosure(&mut self) -> (r: Option<ArgumentRepairDisclosure>)
        ensures
            final(self)@ == no_repairs(),
            (match r {
                Some(disclosure) => {
                    &&& old(self)@.retained > 0
                    &&& disclosure.source@ == "tool_argument_repair"@
                    &&& disclosure.body@ == disclosure_text(old(self)@)
                    &&& disclosure.body@.len() <= MAX_DISCLOSURE_CHARS
                    &&& receipt_model(disclosure.nested_receipt) == old(self)@.nested_receipt
                },
                None => old(self)@ == no_repairs(),
            }),
    {
        proof {
            use_type_invariant(&*self);
        }
        if self.retained_calls == 0 && self.dropped_calls == 0 {
            proof {
                assert(self@ =~= no_repairs());
            }
            return None;
        }
        proof {
            disclosure_is_bounded(self@);
        }
        let mut summary = ArgumentRepairDisclosureAccumulator::default();
        std::mem::swap(&mut summary, self);
        let mut body = String::from_str(
            "tool_argument_repair outcome=\"repaired\" repaired_call_count=\"",
        );
        body.append(decimal_text(summary.retained_calls as u64).as_str());
        body.append("\" dropped_call_count=\"");
        body.append(decimal_text(summary.dropped_calls as u64).as_str());
        body.append("\" families=\"");
        body.append(format_counts(&summary.family_counts).as_str());
        body.append("\" rules=\"");
        body.append(format_counts(&summary.rule_counts).as_str());
        body.append("\"");
        Some(
            ArgumentRepairDisclosure {
                source: "tool_argument_repair",
                body,
                nested_receipt: summary.nested_receipt,
            },
        )
    }
}

/// What a tool is called with.
#[derive(Debug)]
pub enum ToolPayload {
    Function { arguments: String },
    Custom { input: String },
    /// A search, with the size of its arguments as JSON.
    ToolSearch { arguments_bytes: usize },
}

/// The size of a payload.
pub open spec fn payload_bytes(payload: ToolPayload) -> nat {
    match payload {
        ToolPayload::Function { arguments } => utf8_len(arguments@),
        ToolPayload::Custom { input } => utf8_len(input@),
        ToolPayload::ToolSearch { arguments_bytes } => arguments_bytes as nat,
    }
}

/// The size of a payload.
pub fn arguments_bytes(payload: &ToolPayload) -> (r: usize)
    ensures
        r == payload_bytes(*payload),
{
    match payload {
        ToolPayload::Function { arguments } => byte_len(arguments.as_str()),
        ToolPayload::Custom { input } => byte_len(input.as_str()),
        ToolPayload::ToolSearch { arguments_bytes } => *arguments_bytes,
    }
}

/// What decides whether a call may be repaired.
#[derive(Debug)]
pub struct RepairCandidate {
    pub feature_enabled: bool,
    /// Whether the tool's name is in the default namespace.
    pub default_namespace: bool,
    pub tool_name: String,
    /// Whether the tool is a function.
    pub is_function_tool: bool,
    /// Whether the tool has a repair policy.
    pub has_policy: bool,
}

/// The family of a call.
pub open spec fn family_of(candidate: RepairCandidate) -> ToolArgumentRepairToolFamily {
    if candidate.default_namespace && candidate.tool_name@ == "read_file"@ {
        ToolArgumentRepairToolFamily::ReadFile
    } else {
        ToolArgumentRepairToolFamily::Unlisted
    }
}

/// The family of a call.
pub fn tool_family(candidate: &RepairCandidate) -> (r: ToolArgumentRepairToolFamily)
    ensures
        r == family_of(*candidate),
{
    if candidate.default_namespace && same_text(candidate.tool_name.as_str(), "read_file") {
        ToolArgumentRepairToolFamily::ReadFile
    } else {
        ToolArgumentRepairToolFamily::Unlisted
    }
}

/// What telemetry learns of one call.
#[derive(Debug)]
pub struct TelemetrySnapshot {
    pub family: ToolArgumentRepairToolFamily,
    pub outcome: ToolArgumentRepairOutcome,
    pub reason: Option<&'static str>,
    pub input_bytes: usize,
    pub effective_bytes: usize,
    pub candidate_work: usize,
    pub rules: Vec<String>,
}

/// What is to be done with a call.
#[derive(Debug)]
pub enum RepairPlan {
    /// Nothing.
    Ignore,
    /// Nothing but telemetry.
    PolicyMiss(TelemetrySnapshot),
    /// The arguments are to be validated against the tool's schema and policy.
    Validate(ToolArgumentRepairToolFamily),
}

/// Whether a snapshot reports a call that may not be repaired.
pub open spec fn is_policy_miss(
    snapshot: TelemetrySnapshot,
    family: ToolArgumentRepairToolFamily,
    bytes: nat,
) -> bool {
    &&& snapshot.family == family
    &&& snapshot.outcome == ToolArgumentRepairOutcome::PolicyMiss
    &&& snapshot.reason is Some
    &&& snapshot.reason->0@ == POLICY_MISS_REASON@
    &&& snapshot.input_bytes == bytes
    &&& snapshot.effective_bytes == bytes
    &&& snapshot.candidate_work == 0
    &&& snapshot.rules@.len() == 0
}

fn policy_miss(family: ToolArgumentRepairToolFamily, bytes: usize) -> (r: TelemetrySnapshot)
    ensures
        is_policy_miss(r, family, bytes as nat),
{
    TelemetrySnapshot {
        family,
        outcome: ToolArgumentRepairOutcome::PolicyMiss,
        reason: Some(POLICY_MISS_REASON),
        input_bytes: bytes,
        effective_bytes: bytes,
        candidate_work: 0,
        rules: Vec::new(),
    }
}

/// What is to be done with a call: only a function call of a tool in the default namespace that
/// is a function and has a repair policy is validated.
pub fn plan_repair(candidate: &RepairCandidate, payload: &ToolPayload) -> (r: RepairPlan)
    ensures
        (match r {
            RepairPlan::Ignore => !candidate.feature_enabled,
            RepairPlan::PolicyMiss(snapshot) => {
                &&& candidate.feature_enabled
                &&& !(payload is Function && candidate.default_namespace
                    && candidate.is_function_tool && candidate.has_policy)
                &&& is_policy_miss(
                    snapshot,
                    if payload is Function {
                        family_of(*candidate)
                    } else {
                        ToolArgumentRepairToolFamily::Unlisted
                    },
                    payload_bytes(*payload),
                )
            },
            RepairPlan::Validate(family) => {
                &&& candidate.feature_enabled && payload is Function && candidate.default_namespace
                    && candidate.is_function_tool && candidate.has_policy
                &&& family == family_of(*candidate)
            },
        }),
{
    if !candidate.feature_enabled {
        return RepairPlan::Ignore;
    }
    let bytes: usize = arguments_bytes(payload);
    match payload {
        ToolPayload::Function { .. } => {},
        _ => {
            return RepairPlan::PolicyMiss(
                policy_miss(ToolArgumentRepairToolFamily::Unlisted, bytes),
            );
        },
    }
    let family = tool_family(candidate);
    if !candidate.default_namespace || !candidate.is_function_tool || !candidate.has_policy {
        return RepairPlan::PolicyMiss(policy_miss(family, bytes));
    }
    RepairPlan::Validate(family)
}

/// What validation made of the arguments.
#[derive(Debug)]
pub enum ArgumentRepairOutcome {
    ValidUnchanged,
    Repaired { arguments: String, rules: Vec<String> },
    NotRepairable,
    LimitExceeded,
    UnsupportedSchema,
}

/// What is filed for an outcome of validation.
pub open spec fn receipt_outcome(outcome: ArgumentRepairOutcome) -> (
    ToolArgumentRepairOutcome,
    Option<ToolArgumentRepairReason>,
    Seq<Seq<char>>,
) {
    match outcome {
        ArgumentRepairOutcome::ValidUnchanged => (
            ToolArgumentRepairOutcome::ValidUnchanged,
            None,
            seq![],
        ),
        ArgumentRepairOutcome::Repaired { arguments, rules } => (
            ToolArgumentRepairOutcome::Repaired,
            None,
            texts(rules@),
        ),
        ArgumentRepairOutcome::NotRepairable => (
            ToolArgumentRepairOutcome::NotRepairable,
            Some(ToolArgumentRepairReason::ValidationFailure),
            seq![],
        ),
        ArgumentRepairOutcome::LimitExceeded => (
            ToolArgumentRepairOutcome::LimitExceeded,
            Some(ToolArgumentRepairReason::LimitExceeded),
            seq![],
        ),
        ArgumentRepairOutcome::UnsupportedSchema => (
            ToolArgumentRepairOutcome::UnsupportedSchema,
            Some(ToolArgumentRepairReason::UnsupportedSchema),
            seq![],
        ),
    }
}

/// The receipt of a validated call.
pub open spec fn repair_receipt(
    family: ToolArgumentRepairToolFamily,
    before: ToolPayload,
    after: ToolPayload,
    outcome: ArgumentRepairOutcome,
    candidate_work: usize,
    duration_micros: u128,
) -> ReceiptModel {
    ReceiptModel {
        tool_family: family,
        outcome: receipt_outcome(outcome).0,
        rules: receipt_outcome(outcome).2,
        input_bytes: payload_bytes(before) as usize,
        effective_bytes: payload_bytes(after) as usize,
        candidate_work,
        repair_duration_micros: if duration_micros > u64::MAX {
            u64::MAX
        } else {
            duration_micros as u64
        },
        reason: receipt_outcome(outcome).1,
    }
}

/// Puts repaired arguments into the payload, and files the receipt of the call.
pub fn settle_repair(
    payload: &mut ToolPayload,
    family: ToolArgumentRepairToolFamily,
    outcome: ArgumentRepairOutcome,
    candidate_work: usize,
    duration_micros: u128,
) -> (r: ToolArgumentRepairReceipt)
    ensures
        (match outcome {
            ArgumentRepairOutcome::Repaired { arguments, rules } => *final(payload)
                == (ToolPayload::Function { arguments }),
            _ => *final(payload) == *old(payload),
        }),
        r@ == repair_receipt(
            family,
            *old(payload),
            *final(payload),
            outcome,
            candidate_work,
            duration_micros,
        ),
{
    let input_bytes: usize = arguments_bytes(payload);
    let mut kept: Vec<String> = Vec::new();
    proof {
        assert(texts(kept@) =~= Seq::<Seq<char>>::empty());
    }
    let (filed, reason) = match outcome {
        ArgumentRepairOutcome::ValidUnchanged => (ToolArgumentRepairOutcome::ValidUnchanged, None),
        ArgumentRepairOutcome::Repaired { arguments, rules } => {
            *payload = ToolPayload::Function { arguments };
            kept = rules;
            (ToolArgumentRepairOutcome::Repaired, None)
        },
        ArgumentRepairOutcome::NotRepairable => (
            ToolArgumentRepairOutcome::NotRepairable,
            Some(ToolArgumentRepairReason::ValidationFailure),
        ),
        ArgumentRepairOutcome::LimitExceeded => (
            ToolArgumentRepairOutcome::LimitExceeded,
            Some(ToolArgumentRepairReason::LimitExceeded),
        ),
        ArgumentRepairOutcome::UnsupportedSchema => (
            ToolArgumentRepairOutcome::UnsupportedSchema,
            Some(ToolArgumentRepairReason::UnsupportedSchema),
        ),
    };
    let effective_bytes: usize = arguments_bytes(payload);
    let repair_duration_micros: u64 = if duration_micros > u64::MAX as u128 {
        u64::MAX
    } else {
        duration_micros as u64
    };
    ToolArgumentRepairReceipt {
        tool_family: family,
        outcome: filed,
        rules: kept,
        input_bytes,
        effective_bytes,
        candidate_work,
        repair_duration_micros,
        reason,
    }
}

/// What telemetry learns of a validated call.
pub fn telemetry_of(receipt: &ToolArgumentRepairReceipt) -> (r: TelemetrySnapshot)
    ensures
        r.family == receipt.tool_family,
        r.outcome == receipt.outcome,
        (match r.reason {
            Some(text) => receipt.reason is Some && text@ == reason_name(receipt.reason->0),
            None => receipt.reason is None,
        }),
        r.input_bytes == receipt.input_bytes,
        r.effective_bytes == receipt.effective_bytes,
        r.candidate_work == receipt.candidate_work,
        r.rules@ == receipt.rules@,
{
    TelemetrySnapshot {
        family: receipt.tool_family,
        outcome: receipt.outcome,
        reason: match receipt.reason {
            Some(reason) => Some(reason_label(reason)),
            None => None,
        },
        input_bytes: receipt.input_bytes,
        effective_bytes: receipt.effective_bytes,
        candidate_work: receipt.candidate_work,
        rules: crate::history::copy_texts(&receipt.rules),
    }
}

/// Rule names with a comma between each two.
pub open spec fn joined(rules: Seq<Seq<char>>) -> Seq<char>
    decreases rules.len(),
{
    if rules.len() == 0 {
        seq![]
    } else if rules.len() == 1 {
        rules[0]
    } else {
        joined(rules.drop_last()) + ","@ + rules.last()
    }
}

/// The tags of a snapshot.
pub open spec fn telemetry_tags(snapshot: TelemetrySnapshot) -> Seq<(Seq<char>, Seq<char>)> {
    seq![
        ("feature_cohort"@, FEATURE_COHORT@),
        ("tool_family"@, family_name(snapshot.family)),
        ("outcome"@, outcome_name(snapshot.outcome)),
        (
            "reason"@,
            match snapshot.reason {
                Some(reason) => reason@,
                None => NO_REASON@,
            },
        ),
        ("rule_count"@, decimal(snapshot.rules@.len())),
        (
            "rule_ids"@,
            if snapshot.rules@.len() == 0 {
                "none"@
            } else {
                joined(texts(snapshot.rules@))
            },
        ),
    ]
}

/// The models of tags.
pub open spec fn tag_models(tags: Seq<(&'static str, String)>) -> Seq<(Seq<char>, Seq<char>)> {
    tags.map_values(|tag: (&'static str, String)| (tag.0@, tag.1@))
}

fn join_rules(rules: &Vec<String>) -> (r: String)
    ensures
        r@ == joined(texts(rules@)),
{
    let mut text = String::new();
    let ghost all = texts(rules@);
    let mut i: usize = 0;
    proof {
        assert(all.take(0) =~= Seq::<Seq<char>>::empty());
        assert(text@ =~= Seq::<char>::empty());
    }
    while i < rules.len()
        invariant
            i <= rules@.len(),
            all == texts(rules@),
            text@ == joined(all.take(i as int)),
        decreases rules@.len() - i,
    {
        let ghost before = text@;
        proof {
            assert(all[i as int] == rules@[i as int]@);
            assert(all.take(i + 1).drop_last() =~= all.take(i as int));
        }
        if i > 0 {
            text.append(",");
        }
        text.append(rules[i].as_str());
        proof {
            if i == 0 {
                assert(before =~= Seq::<char>::empty());
                assert(text@ =~= all[0]);
            }
        }
        i += 1;
    }
    proof {
        assert(all.take(i as int) =~= all);
    }
    text
}

impl TelemetrySnapshot {
    /// The tags of every measurement of this call.
    pub fn tags(&self) -> (r: Vec<(&'static str, String)>)
        ensures
            tag_models(r@) == telemetry_tags(*self),
    {
        let reason: &'static str = match self.reason {
            Some(reason) => reason,
            None => NO_REASON,
        };
        let rule_ids = if self.rules.len() == 0 {
            "none".to_owned()
        } else {
            join_rules(&self.rules)
        };
        let mut tags: Vec<(&'static str, String)> = Vec::new();
        tags.push(("feature_cohort", FEATURE_COHORT.to_owned()));
        tags.push(("tool_family", family_label(self.family).to_owned()));
        tags.push(("outcome", outcome_label(self.outcome).to_owned()));
        tags.push(("reason", reason.to_owned()));
        tags.push(("rule_count", decimal_text(self.rules.len() as u64)));
        tags.push(("rule_ids", rule_ids));
        proof {
            assert(tag_models(tags@) =~= telemetry_tags(*self));
        }
        tags
    }
}

/// A size as a measurement.
pub fn saturating_i64(value: usize) -> (r: i64)
    ensures
        r == (if value > i64::MAX {
            i64::MAX as int
        } else {
            value as int
        }),
{
    if value as u64 > i64::MAX as u64 {
        i64::MAX
    } else {
        value as i64
    }
}

/// A receipt says "repaired" exactly where validation repaired the arguments, gives a reason
/// exactly where the arguments were refused, and names rules only of a repair.
pub proof fn receipt_follows_outcome(outcome: ArgumentRepairOutcome)
    ensures
        receipt_outcome(outcome).0 == ToolArgumentRepairOutcome::Repaired <==> outcome is Repaired,
        receipt_outcome(outcome).1 is None <==> outcome is ValidUnchanged || outcome is Repaired,
        !(outcome is Repaired) ==> receipt_outcome(outcome).2.len() == 0,
{
}

} // verus!

//! What is counted, filed and told of repaired tool arguments.

use vstd::prelude::*;

use crate::argument_repair::{
    bumped, bumped_all, by_name, counts_text, disclosure_text, family_name, family_of,
    is_policy_miss, joined, no_repairs, outcome_name, payload_bytes, reason_name, recorded, repair_receipt,
    telemetry_tags, ArgumentRepairOutcome, CountModel, RepairCandidate, RepairCounts,
    TelemetrySnapshot, ToolCallSource, ToolPayload,
};
use crate::history::{
    bounded_receipt, is_stable_rule, stable_rules, texts, ReceiptModel,
    ToolArgumentRepairOutcome, ToolArgumentRepairReason, ToolArgumentRepairToolFamily,
};
use crate::numbers::decimal;
use crate::text::{text_less, text_less_total, utf8_len};

verus! {

proof fn less_is_other(a: Seq<char>, b: Seq<char>)
    requires
        text_less(a, b),
    ensures
        a != b,
{
    text_less_total(a, b);
}

/// Counting a name once more adds one to its count, or puts it in its place with a count of one;
/// every other name keeps its count, and the names stay in order.
pub proof fn counting_adds_one(counts: CountModel, name: Seq<char>)
    requires
        by_name(counts),
    ensures
        by_name(bumped(counts, name)),
        forall|entry: (Seq<char>, usize)|
            entry.0 != name ==> (#[trigger] bumped(counts, name).contains(entry)
                == counts.contains(entry)),
        forall|n: usize|
            #[trigger] counts.contains((name, n)) && n < usize::MAX ==> bumped(
                counts,
                name,
            ).contains((name, (n + 1) as usize)),
        (forall|n: usize| !#[trigger] counts.contains((name, n))) ==> bumped(
            counts,
            name,
        ).contains((name, 1)) && bumped(counts, name).len() == counts.len() + 1,
        forall|i: int|
            0 <= i < bumped(counts, name).len() ==> (#[trigger] bumped(counts, name)[i]).0 == name
                || exists|j: int|
                0 <= j < counts.len() && counts[j].0 == bumped(counts, name)[i].0,
    decreases counts.len(),
{
    let now = bumped(counts, name);
    if counts.len() == 0 {
        assert(now =~= seq![(name, 1usize)]);
        assert(now[0] == (name, 1usize));
        assert forall|entry: (Seq<char>, usize)| entry.0 != name implies (
        #[trigger] now.contains(entry) == counts.contains(entry)) by {}
    } else {
        let last = counts.last();
        let front = counts.drop_last();
        if last.0 == name {
            assert forall|entry: (Seq<char>, usize)| entry.0 != name implies (
            #[trigger] now.contains(entry) == counts.contains(entry)) by {
                if now.contains(entry) {
                    let i = now.index_of(entry);
                    assert(counts[i] == entry);
                }
                if counts.contains(entry) {
                    let i = counts.index_of(entry);
                    assert(now[i] == entry);
                }
            }
            assert forall|n: usize| #[trigger] counts.contains((name, n)) && n < usize::MAX implies
                now.contains((name, (n + 1) as usize)) by {
                let i = counts.index_of((name, n));
                if i < counts.len() - 1 {
                    less_is_other(counts[i].0, counts[counts.len() - 1].0);
                }
                assert(now[now.len() - 1] == (name, (n + 1) as usize));
            }
            assert(counts[counts.len() - 1] == last);
            assert(counts.contains((name, last.1)));
        } else if text_less(last.0, name) {
            assert(now == counts.push((name, 1usize)));
            assert forall|i: int, j: int| 0 <= i < j < now.len() implies text_less(
                (#[trigger] now[i]).0,
                (#[trigger] now[j]).0,
            ) by {
                if j == counts.len() && i < counts.len() - 1 {
                    crate::text::bytes_less_transitive(
                        vstd::utf8::encode_utf8(counts[i].0),
                        vstd::utf8::encode_utf8(counts[counts.len() - 1].0),
                        vstd::utf8::encode_utf8(name),
                    );
                }
            }
            assert forall|i: int| 0 <= i < counts.len() implies (#[trigger] counts[i]).0 != name by {
                assert(text_less(now[i].0, now[counts.len() as int].0));
                less_is_other(counts[i].0, name);
            }
            assert forall|entry: (Seq<char>, usize)| entry.0 != name implies (
            #[trigger] now.contains(entry) == counts.contains(entry)) by {
                if now.contains(entry) {
                    let i = now.index_of(entry);
                    assert(counts[i] == entry);
                }
                if counts.contains(entry) {
                    let i = counts.index_of(entry);
                    assert(now[i] == entry);
                }
            }
            assert forall|n: usize| !#[trigger] counts.contains((name, n)) by {
                if counts.contains((name, n)) {
                    let i = counts.index_of((name, n));
                    assert(counts[i].0 == name);
                }
            }
            assert(now[counts.len() as int] == (name, 1usize));
        } else {
            assert forall|i: int, j: int| 0 <= i < j < front.len() implies text_less(
                (#[trigger] front[i]).0,
                (#[trigger] front[j]).0,
            ) by {
                assert(front[i] == counts[i] && front[j] == counts[j]);
            }
            counting_adds_one(front, name);
            let before = bumped(front, name);
            assert(now == before.push(last));
            text_less_total(last.0, name);
            assert(text_less(name, last.0));
            assert forall|i: int, j: int| 0 <= i < j < now.len() implies text_less(
                (#[trigger] now[i]).0,
                (#[trigger] now[j]).0,
            ) by {
                if j == before.len() {
                    assert(now[i] == before[i]);
                    if before[i].0 != name {
                        let k = choose|k: int| 0 <= k < front.len() && front[k].0 == before[i].0;
                        assert(counts[k].0 == before[i].0);
                        assert(text_less(counts[k].0, counts[counts.len() - 1].0));
                    }
                } else {
                    assert(now[i] == before[i] && now[j] == before[j]);
                }
            }
            assert forall|entry: (Seq<char>, usize)|
                now.contains(entry) == (before.contains(entry) || entry == last) by {
                if now.contains(entry) {
                    let i = now.index_of(entry);
                    if i < before.len() {
                        assert(before[i] == entry);
                    }
                }
                if before.contains(entry) {
                    let i = before.index_of(entry);
                    assert(now[i] == entry);
                }
                if entry == last {
                    assert(now[before.len() as int] == entry);
                }
            }
            assert forall|entry: (Seq<char>, usize)|
                counts.contains(entry) == (front.contains(entry) || entry == last) by {
                if counts.contains(entry) {
                    let i = counts.index_of(entry);
                    if i < front.len() {
                        assert(front[i] == entry);
                    }
                }
                if front.contains(entry) {
                    let i = front.index_of(entry);
                    assert(counts[i] == entry);
                }
                if entry == last {
                    assert(counts[counts.len() - 1] == entry);
                }
            }
            assert forall|i: int| 0 <= i < now.len() implies (#[trigger] now[i]).0 == name
                || exists|j: int| 0 <= j < counts.len() && counts[j].0 == now[i].0 by {
                if i < before.len() {
                    assert(now[i] == before[i]);
                    if before[i].0 != name {
                        let k = choose|k: int| 0 <= k < front.len() && front[k].0 == before[i].0;
                        assert(counts[k].0 == now[i].0);
                    }
                } else {
                    assert(counts[counts.len() - 1].0 == now[i].0);
                }
            }
        }
    }
}

/// Several names are counted one after the other.
pub proof fn names_are_counted_in_turn(counts: CountModel, names: Seq<Seq<char>>, name: Seq<char>)
    ensures
        bumped_all(counts, seq![]) == counts,
        bumped_all(counts, names.push(name)) == bumped(bumped_all(counts, names), name),
{
    assert(names.push(name).drop_last() =~= names);
    assert(names.push(name).last() == name);
}

/// A call is counted where its arguments were repaired, and no other is. Of the first thirty-two
/// the family and the first eight stable rules are counted, and the first receipt of a nested call
/// is kept; of all further ones only that they were.
pub proof fn repaired_calls_are_counted(
    counts: RepairCounts,
    receipt: ReceiptModel,
    source: ToolCallSource,
)
    ensures
        recorded(counts, None, source) == counts,
        ({
            let now = recorded(counts, Some(receipt), source);
            let repaired = receipt.outcome == ToolArgumentRepairOutcome::Repaired;
            let rules = stable_rules(receipt.rules);
            &&& !repaired ==> now == counts
            &&& repaired && counts.retained >= 32 ==> now.retained == counts.retained
                && now.families == counts.families && now.rules == counts.rules
                && now.nested_receipt == counts.nested_receipt && now.dropped == (if counts.dropped
                == usize::MAX {
                usize::MAX as int
            } else {
                counts.dropped + 1
            })
            &&& repaired && counts.retained < 32 ==> now.retained == counts.retained + 1
                && now.dropped == counts.dropped && now.families == bumped(
                counts.families,
                match receipt.tool_family {
                    ToolArgumentRepairToolFamily::ReadFile => "read_file"@,
                    ToolArgumentRepairToolFamily::Unlisted => "unlisted"@,
                },
            ) && now.rules == bumped_all(
                counts.rules,
                if rules.len() <= 8 {
                    rules
                } else {
                    rules.take(8)
                },
            ) && now.nested_receipt == (if source is CodeMode && counts.nested_receipt is None {
                Some(receipt)
            } else {
                counts.nested_receipt
            })
        }),
{
}

/// Names with their counts are written with a colon behind each name and a comma between each two.
pub proof fn counts_are_written(a: CountModel, b: CountModel, name: Seq<char>, n: usize)
    requires
        a.len() > 0,
        b.len() > 0,
    ensures
        counts_text(seq![]) == Seq::<char>::empty(),
        counts_text(seq![(name, n)]) == name + ":"@ + decimal(n as nat),
        counts_text(a + b) == counts_text(a) + ","@ + counts_text(b),
    decreases b.len(),
{
    assert(seq![(name, n)].last() == (name, n));
    assert((a + b).drop_last() =~= a + b.drop_last());
    assert((a + b).last() == b.last());
    if b.len() == 1 {
        assert(a + b.drop_last() =~= a);
        assert(counts_text(a + b) =~= counts_text(a) + ","@ + counts_text(b));
    } else {
        counts_are_written(a, b.drop_last(), name, n);
        assert(counts_text(a + b) =~= counts_text(a) + ","@ + counts_text(b));
    }
}

/// What the model is told of repairs: how many calls were repaired and how many of them are not
/// named, and the families and the rules with their counts.
pub proof fn disclosure_tells_the_counts(counts: RepairCounts)
    ensures
        disclosure_text(counts)
            == "tool_argument_repair outcome=\"repaired\" repaired_call_count=\""@ + decimal(
            counts.retained as nat,
        ) + "\" dropped_call_count=\""@ + decimal(counts.dropped as nat) + "\" families=\""@
            + counts_text(counts.families) + "\" rules=\""@ + counts_text(counts.rules) + "\""@,
{
}

/// The names under which families, outcomes and reasons are filed.
pub proof fn filed_names(
    family: ToolArgumentRepairToolFamily,
    outcome: ToolArgumentRepairOutcome,
    reason: ToolArgumentRepairReason,
)
    ensures
        family_name(family) == (match family {
            ToolArgumentRepairToolFamily::ReadFile => "read_file"@,
            ToolArgumentRepairToolFamily::Unlisted => "unlisted"@,
        }),
        outcome_name(outcome) == (match outcome {
            ToolArgumentRepairOutcome::PolicyMiss => "policy_miss"@,
            ToolArgumentRepairOutcome::ValidUnchanged => "valid_unchanged"@,
            ToolArgumentRepairOutcome::Repaired => "repaired"@,
            ToolArgumentRepairOutcome::NotRepairable => "not_repairable"@,
            ToolArgumentRepairOutcome::LimitExceeded => "limit_exceeded"@,
            ToolArgumentRepairOutcome::UnsupportedSchema => "unsupported_schema"@,
        }),
        reason_name(reason) == (match reason {
            ToolArgumentRepairReason::NotAllowlisted => "not_allowlisted"@,
            ToolArgumentRepairReason::UnsupportedSchema => "unsupported_schema"@,
            ToolArgumentRepairReason::LimitExceeded => "limit_exceeded"@,
            ToolArgumentRepairReason::ValidationFailure => "validation_failure"@,
        }),
{
}

/// A call is of the listed family exactly where the tool is `read_file` of the default namespace.
pub proof fn only_read_file_is_listed(candidate: RepairCandidate)
    ensures
        family_of(candidate) is ReadFile <==> candidate.default_namespace
            && candidate.tool_name@ == "read_file"@,
{
}

/// The size of a payload is that of its arguments or its input.
pub proof fn payloads_are_measured(payload: ToolPayload)
    ensures
        (match payload {
            ToolPayload::Function { arguments } => payload_bytes(payload) == utf8_len(arguments@),
            ToolPayload::Custom { input } => payload_bytes(payload) == utf8_len(input@),
            ToolPayload::ToolSearch { arguments_bytes } => payload_bytes(payload)
                == arguments_bytes,
        }),
{
}

/// A call that may not be repaired is filed with its size before and after, which are the same,
/// without work or rules, as not listed.
pub proof fn policy_misses_are_filed(
    snapshot: TelemetrySnapshot,
    family: ToolArgumentRepairToolFamily,
    bytes: nat,
)
    ensures
        is_policy_miss(snapshot, family, bytes) <==> {
            &&& snapshot.family == family
            &&& snapshot.outcome is PolicyMiss
            &&& (match snapshot.reason {
                Some(reason) => reason@ == "not_allowlisted"@,
                None => false,
            })
            &&& snapshot.input_bytes == bytes && snapshot.effective_bytes == bytes
            &&& snapshot.candidate_work == 0 && snapshot.rules@.len() == 0
        },
{
}

/// The receipt of a call says its family, what became of it and why, the size of its arguments
/// before and after, the work and the time; the rules are those of the repair.
pub proof fn receipts_are_filed(
    family: ToolArgumentRepairToolFamily,
    before: ToolPayload,
    after: ToolPayload,
    outcome: ArgumentRepairOutcome,
    work: usize,
    micros: u128,
)
    requires
        payload_bytes(before) <= usize::MAX,
        payload_bytes(after) <= usize::MAX,
    ensures
        ({
            let receipt = repair_receipt(family, before, after, outcome, work, micros);
            &&& receipt.tool_family == family
            &&& receipt.input_bytes == payload_bytes(before)
            &&& receipt.effective_bytes == payload_bytes(after)
            &&& receipt.candidate_work == work
            &&& micros <= u64::MAX ==> receipt.repair_duration_micros == micros
            &&& micros > u64::MAX ==> receipt.repair_duration_micros == u64::MAX
            &&& (match outcome {
                ArgumentRepairOutcome::ValidUnchanged => receipt.outcome is ValidUnchanged
                    && receipt.reason is None && receipt.rules.len() == 0,
                ArgumentRepairOutcome::Repaired { rules, .. } => receipt.outcome is Repaired
                    && receipt.reason is None && receipt.rules == texts(rules@),
                ArgumentRepairOutcome::NotRepairable => receipt.outcome is NotRepairable
                    && receipt.reason == Some(ToolArgumentRepairReason::ValidationFailure)
                    && receipt.rules.len() == 0,
                ArgumentRepairOutcome::LimitExceeded => receipt.outcome is LimitExceeded
                    && receipt.reason == Some(ToolArgumentRepairReason::LimitExceeded)
                    && receipt.rules.len() == 0,
                ArgumentRepairOutcome::UnsupportedSchema => receipt.outcome is UnsupportedSchema
                    && receipt.reason == Some(ToolArgumentRepairReason::UnsupportedSchema)
                    && receipt.rules.len() == 0,
            })
        }),
{
}

/// The tags of a measurement are the cohort, the family, the outcome, the reason, the number of
/// rules and the rules themselves; what is missing is tagged as none.
pub proof fn tags_of_a_measurement(snapshot: TelemetrySnapshot)
    ensures
        telemetry_tags(snapshot) == seq![
            ("feature_cohort"@, "tool_argument_repair_v1"@),
            ("tool_family"@, family_name(snapshot.family)),
            ("outcome"@, outcome_name(snapshot.outcome)),
            (
                "reason"@,
                match snapshot.reason {
                    Some(reason) => reason@,
                    None => "none"@,
                },
            ),
            ("rule_count"@, decimal(snapshot.rules@.len())),
            (
                "rule_ids"@,
                if snapshot.rules@.len() == 0 {
                    "none"@
                } else {
                    joined(texts(snapshot.rules@))
                },
            ),
        ],
{
}

/// Rules are joined with a comma between each two.
pub proof fn rules_are_joined(a: Seq<Seq<char>>, b: Seq<Seq<char>>, rule: Seq<char>)
    requires
        a.len() > 0,
        b.len() > 0,
    ensures
        joined(seq![]) == Seq::<char>::empty(),
        joined(seq![rule]) == rule,
        joined(a + b) == joined(a) + ","@ + joined(b),
    decreases b.len(),
{
    assert((a + b).drop_last() =~= a + b.drop_last());
    assert((a + b).last() == b.last());
    if b.len() == 1 {
        assert(a + b.drop_last() =~= a);
        assert(b.last() == b[0]);
        assert(joined(a + b) =~= joined(a) + ","@ + joined(b));
    } else {
        rules_are_joined(a, b.drop_last(), rule);
        assert(joined(a + b) =~= joined(a) + ","@ + joined(b));
    }
}

proof fn stable_rules_filtered(rules: Seq<Seq<char>>, keep: spec_fn(Seq<char>) -> bool)
    requires
        forall|rule: Seq<char>| #[trigger] keep(rule) == is_stable_rule(rule),
    ensures
        stable_rules(rules) == rules.filter(keep),
    decreases rules.len(),
{
    reveal(Seq::filter);
    if rules.len() > 0 {
        stable_rules_filtered(rules.drop_last(), keep);
        assert(keep(rules.last()) == is_stable_rule(rules.last()));
    }
}

/// A receipt that is kept is cut to its limits: the first eight of its stable rules, in order, of
/// sizes at most 64 KiB, of work at most 4096 steps, of time at most a minute. What it says of the
/// call stays.
pub proof fn receipts_are_cut(receipt: ReceiptModel)
    ensures
        ({
            let kept = bounded_receipt(receipt);
            let stable = receipt.rules.filter(|rule: Seq<char>| is_stable_rule(rule));
            &&& kept.tool_family == receipt.tool_family
            &&& kept.outcome == receipt.outcome
            &&& kept.reason == receipt.reason
            &&& kept.rules == (if stable.len() <= 8 {
                stable
            } else {
                stable.take(8)
            })
            &&& kept.input_bytes == (if receipt.input_bytes < 65536 {
                receipt.input_bytes
            } else {
                65536
            })
            &&& kept.effective_bytes == (if receipt.effective_bytes < 65536 {
                receipt.effective_bytes
            } else {
                65536
            })
            &&& kept.candidate_work == (if receipt.candidate_work < 4096 {
                receipt.candidate_work
            } else {
                4096
            })
            &&& kept.repair_duration_micros == (if receipt.repair_duration_micros < 60_000_000 {
                receipt.repair_duration_micros
            } else {
                60_000_000
            })
        }),
{
    stable_rules_filtered(receipt.rules, |rule: Seq<char>| is_stable_rule(rule));
}

/// The names that are stable, and no others.
pub proof fn stable_rule_names(rule: Seq<char>)
    ensures
        is_stable_rule(rule) <==> seq![
            "optional_null_removed"@,
            "stringified_array_decoded"@,
            "stringified_object_decoded"@,
            "scalar_wrapped_in_array"@,
            "numeric_string_typed"@,
            "boolean_string_typed"@,
            "known_field_alias"@,
            "markdown_path_unwrapped"@,
        ].contains(rule),
{
    let all = seq![
        "optional_null_removed"@,
        "stringified_array_decoded"@,
        "stringified_object_decoded"@,
        "scalar_wrapped_in_array"@,
        "numeric_string_typed"@,
        "boolean_string_typed"@,
        "known_field_alias"@,
        "markdown_path_unwrapped"@,
    ];
    assert(all[0] == "optional_null_removed"@);
    assert(all[1] == "stringified_array_decoded"@);
    assert(all[2] == "stringified_object_decoded"@);
    assert(all[3] == "scalar_wrapped_in_array"@);
    assert(all[4] == "numeric_string_typed"@);
    assert(all[5] == "boolean_string_typed"@);
    assert(all[6] == "known_field_alias"@);
    assert(all[7] == "markdown_path_unwrapped"@);
    if is_stable_rule(rule) {
        assert(all.contains(rule));
    }
    if all.contains(rule) {
        let i = all.index_of(rule);
        assert(all[i] == rule);
    }
}

/// At first nothing is counted, and nothing is told of it.
pub proof fn nothing_is_counted_at_first()
    ensures
        no_repairs().retained == 0,
        no_repairs().dropped == 0,
        no_repairs().families.len() == 0,
        no_repairs().rules.len() == 0,
        no_repairs().nested_receipt is None,
{
}

} // verus!

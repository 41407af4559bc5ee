//! Model-history domain types: response items with metadata that only the harness sees.

use vstd::prelude::*;
use vstd::string::*;

use crate::protocol::{ResponseItem, ResponseItemModel};
use crate::text::same_text;

verus! {

/// Maximum serialized text carried by a store-backed tool-output control item.
pub const STORE_BACKED_TOOL_OUTPUT_MAX_BYTES: usize = 32768;

/// Maximum history-only artifact references retained on one metadata carrier.
pub const MAX_STORE_BACKED_ARTIFACT_REFERENCES: usize = 256;

/// Maximum stable rule occurrences retained in one argument-repair receipt.
pub const MAX_TOOL_ARGUMENT_REPAIR_RULES: usize = 8;

/// Maximum byte value retained for one argument-repair measurement.
pub const MAX_TOOL_ARGUMENT_REPAIR_BYTES: usize = 65536;

/// Maximum candidate-work count retained in one argument-repair receipt.
pub const MAX_TOOL_ARGUMENT_REPAIR_CANDIDATE_WORK: usize = 4096;

/// Maximum repair duration retained in one argument-repair receipt.
pub const MAX_TOOL_ARGUMENT_REPAIR_DURATION_MICROS: u64 = 60_000_000;

/// Trusted tool families used by the bounded argument-repair cohort.
#[derive(Clone, Copy, Debug, PartialEq, Eq, Structural)]
pub enum ToolArgumentRepairToolFamily {
    ReadFile,
    Unlisted,
}

/// Stable result categories for one argument-repair attempt.
#[derive(Clone, Copy, Debug, PartialEq, Eq, Structural)]
pub enum ToolArgumentRepairOutcome {
    PolicyMiss,
    ValidUnchanged,
    Repaired,
    NotRepairable,
    LimitExceeded,
    UnsupportedSchema,
}

/// Stable reasons that can accompany a non-repaired attempt.
#[derive(Clone, Copy, Debug, PartialEq, Eq, Structural)]
pub enum ToolArgumentRepairReason {
    NotAllowlisted,
    UnsupportedSchema,
    LimitExceeded,
    ValidationFailure,
}

/// Bounded history-only receipt for the effective arguments used by a tool handler.
#[derive(Debug, PartialEq, Eq)]
pub struct ToolArgumentRepairReceipt {
    pub tool_family: ToolArgumentRepairToolFamily,
    pub outcome: ToolArgumentRepairOutcome,
    pub rules: Vec<String>,
    pub input_bytes: usize,
    pub effective_bytes: usize,
    pub candidate_work: usize,
    pub repair_duration_micros: u64,
    pub reason: Option<ToolArgumentRepairReason>,
}

/// The model of a [`ToolArgumentRepairReceipt`].
pub struct ReceiptModel {
    pub tool_family: ToolArgumentRepairToolFamily,
    pub outcome: ToolArgumentRepairOutcome,
    pub rules: Seq<Seq<char>>,
    pub input_bytes: usize,
    pub effective_bytes: usize,
    pub candidate_work: usize,
    pub repair_duration_micros: u64,
    pub reason: Option<ToolArgumentRepairReason>,
}

/// The models of a list of texts.
pub open spec fn texts(list: Seq<String>) -> Seq<Seq<char>> {
    list.map_values(|text: String| text@)
}

/// A copy of a list of texts.
pub fn copy_texts(list: &Vec<String>) -> (r: Vec<String>)
    ensures
        r@ == list@,
{
    let mut out: Vec<String> = Vec::new();
    let mut i: usize = 0;
    while i < list.len()
        invariant
            i <= list@.len(),
            out@ == list@.take(i as int),
        decreases list@.len() - i,
    {
        proof {
            assert(list@.take(i + 1) =~= list@.take(i as int).push(list@[i as int]));
        }
        out.push(list[i].clone());
        i += 1;
    }
    proof {
        assert(list@.take(i as int) =~= list@);
    }
    out
}

impl View for ToolArgumentRepairReceipt {
    type V = ReceiptModel;

    open spec fn view(&self) -> ReceiptModel {
        ReceiptModel {
            tool_family: self.tool_family,
            outcome: self.outcome,
            rules: texts(self.rules@),
            input_bytes: self.input_bytes,
            effective_bytes: self.effective_bytes,
            candidate_work: self.candidate_work,
            repair_duration_micros: self.repair_duration_micros,
            reason: self.reason,
        }
    }
}

impl Clone for ToolArgumentRepairReceipt {
    fn clone(&self) -> (r: Self)
        ensures
            r@ == self@,
    {
        ToolArgumentRepairReceipt {
            tool_family: self.tool_family,
            outcome: self.outcome,
            rules: copy_texts(&self.rules),
            input_bytes: self.input_bytes,
            effective_bytes: self.effective_bytes,
            candidate_work: self.candidate_work,
            repair_duration_micros: self.repair_duration_micros,
            reason: self.reason,
        }
    }
}

/// Whether `rule` is one of the stable argument-repair rule names.
pub open spec fn is_stable_rule(rule: Seq<char>) -> bool {
    ||| rule == "optional_null_removed"@
    ||| rule == "stringified_array_decoded"@
    ||| rule == "stringified_object_decoded"@
    ||| rule == "scalar_wrapped_in_array"@
    ||| rule == "numeric_string_typed"@
    ||| rule == "boolean_string_typed"@
    ||| rule == "known_field_alias"@
    ||| rule == "markdown_path_unwrapped"@
}

/// The stable rule names among `rules`, in order.
pub open spec fn stable_rules(rules: Seq<Seq<char>>) -> Seq<Seq<char>>
    decreases rules.len(),
{
    if rules.len() == 0 {
        seq![]
    } else if is_stable_rule(rules.last()) {
        stable_rules(rules.drop_last()).push(rules.last())
    } else {
        stable_rules(rules.drop_last())
    }
}

/// The first `count` elements, or all when there are fewer.
pub open spec fn first<T>(list: Seq<T>, count: int) -> Seq<T> {
    if list.len() <= count {
        list
    } else {
        list.take(count)
    }
}

/// The smaller of two numbers.
pub open spec fn at_most(n: int, limit: int) -> int {
    if n < limit {
        n
    } else {
        limit
    }
}

/// What a receipt keeps of the one it is made from.
pub open spec fn bounded_receipt(receipt: ReceiptModel) -> ReceiptModel {
    ReceiptModel {
        rules: first(stable_rules(receipt.rules), MAX_TOOL_ARGUMENT_REPAIR_RULES as int),
        input_bytes: at_most(
            receipt.input_bytes as int,
            MAX_TOOL_ARGUMENT_REPAIR_BYTES as int,
        ) as usize,
        effective_bytes: at_most(
            receipt.effective_bytes as int,
            MAX_TOOL_ARGUMENT_REPAIR_BYTES as int,
        ) as usize,
        candidate_work: at_most(
            receipt.candidate_work as int,
            MAX_TOOL_ARGUMENT_REPAIR_CANDIDATE_WORK as int,
        ) as usize,
        repair_duration_micros: at_most(
            receipt.repair_duration_micros as int,
            MAX_TOOL_ARGUMENT_REPAIR_DURATION_MICROS as int,
        ) as u64,
        ..receipt
    }
}

/// Whether `rule` is one of the stable argument-repair rule names.
pub fn is_stable_tool_argument_repair_rule(rule: &str) -> (r: bool)
    ensures
        r == is_stable_rule(rule@),
{
    same_text(rule, "optional_null_removed") || same_text(rule, "stringified_array_decoded")
        || same_text(rule, "stringified_object_decoded") || same_text(
        rule,
        "scalar_wrapped_in_array",
    ) || same_text(rule, "numeric_string_typed") || same_text(rule, "boolean_string_typed")
        || same_text(rule, "known_field_alias") || same_text(rule, "markdown_path_unwrapped")
}

/// Takes one rule name of a persisted receipt: unknown names are dropped, and a name behind the
/// last allowed one is refused with the length that the list would have.
pub fn accept_rule_id(rules: &mut Vec<String>, rule: String) -> (r: Result<(), usize>)
    requires
        old(rules)@.len() < usize::MAX,
    ensures
        match r {
            Err(length) => old(rules)@.len() >= MAX_TOOL_ARGUMENT_REPAIR_RULES && length == old(
                rules,
            )@.len() + 1 && final(rules)@ == old(rules)@,
            Ok(_) => old(rules)@.len() < MAX_TOOL_ARGUMENT_REPAIR_RULES && final(rules)@ == (
            if is_stable_rule(rule@) {
                old(rules)@.push(rule)
            } else {
                old(rules)@
            }),
        },
{
    if rules.len() >= MAX_TOOL_ARGUMENT_REPAIR_RULES {
        return Err(rules.len() + 1);
    }
    if is_stable_tool_argument_repair_rule(rule.as_str()) {
        rules.push(rule);
    }
    Ok(())
}

/// A byte measurement of a persisted receipt, capped.
pub fn bounded_repair_bytes(bytes: usize) -> (r: usize)
    ensures
        r == at_most(bytes as int, MAX_TOOL_ARGUMENT_REPAIR_BYTES as int),
{
    if bytes < MAX_TOOL_ARGUMENT_REPAIR_BYTES {
        bytes
    } else {
        MAX_TOOL_ARGUMENT_REPAIR_BYTES
    }
}

/// A candidate-work count of a persisted receipt, capped.
pub fn bounded_candidate_work(work: usize) -> (r: usize)
    ensures
        r == at_most(work as int, MAX_TOOL_ARGUMENT_REPAIR_CANDIDATE_WORK as int),
{
    if work < MAX_TOOL_ARGUMENT_REPAIR_CANDIDATE_WORK {
        work
    } else {
        MAX_TOOL_ARGUMENT_REPAIR_CANDIDATE_WORK
    }
}

/// A duration of a persisted receipt, capped.
pub fn bounded_repair_duration(micros: u64) -> (r: u64)
    ensures
        r == at_most(micros as int, MAX_TOOL_ARGUMENT_REPAIR_DURATION_MICROS as int),
{
    if micros < MAX_TOOL_ARGUMENT_REPAIR_DURATION_MICROS {
        micros
    } else {
        MAX_TOOL_ARGUMENT_REPAIR_DURATION_MICROS
    }
}

/// A validated-at-use, history-only reference to an existing managed output artifact.
#[derive(Debug, PartialEq, Eq)]
pub struct StoreBackedArtifactReference {
    pub artifact_id: String,
}

impl Clone for StoreBackedArtifactReference {
    fn clone(&self) -> (r: Self)
        ensures
            r == *self,
    {
        StoreBackedArtifactReference { artifact_id: self.artifact_id.clone() }
    }
}

/// The identifiers that a list of references holds.
pub open spec fn reference_ids(list: Seq<StoreBackedArtifactReference>) -> Seq<Seq<char>> {
    list.map_values(|reference: StoreBackedArtifactReference| reference.artifact_id@)
}

/// The references of persisted metadata: only the first are kept.
pub fn bounded_artifact_references(references: &Vec<StoreBackedArtifactReference>) -> (r: Vec<
    StoreBackedArtifactReference,
>)
    ensures
        r@ == first(references@, MAX_STORE_BACKED_ARTIFACT_REFERENCES as int),
{
    let mut out: Vec<StoreBackedArtifactReference> = Vec::new();
    let mut i: usize = 0;
    while i < references.len() && i < MAX_STORE_BACKED_ARTIFACT_REFERENCES
        invariant
            i <= references@.len(),
            i <= MAX_STORE_BACKED_ARTIFACT_REFERENCES,
            out@ == references@.take(i as int),
        decreases references@.len() - i,
    {
        proof {
            assert(references@.take(i + 1) =~= references@.take(i as int).push(
                references@[i as int],
            ));
        }
        out.push(references[i].clone());
        i += 1;
    }
    proof {
        assert(references@.take(references@.len() as int) =~= references@);
    }
    out
}

/// Metadata owned by the harness and persisted with a response item.
#[derive(Debug, PartialEq, Eq)]
pub struct CodexHarnessMetadata {
    /// Whether a developer message was supplied by an app-server client.
    pub client_authored: bool,
    /// Whether the item is a control document whose artifact the harness verified.
    store_backed_output: bool,
    /// Bounded, history-only references retained across compaction.
    store_backed_artifact_references: Vec<StoreBackedArtifactReference>,
    /// Bounded effective-call metadata for tool argument repair.
    tool_argument_repair: Option<ToolArgumentRepairReceipt>,
}

/// The model of [`CodexHarnessMetadata`].
pub struct MetadataModel {
    pub client_authored: bool,
    pub store_backed: bool,
    pub references: Seq<Seq<char>>,
    pub repair: Option<ReceiptModel>,
}

/// The metadata of an item about which nothing is known.
pub open spec fn default_metadata() -> MetadataModel {
    MetadataModel { client_authored: false, store_backed: false, references: seq![], repair: None }
}

/// The metadata of a verified store-backed control document.
pub open spec fn store_backed_metadata() -> MetadataModel {
    MetadataModel { client_authored: false, store_backed: true, references: seq![], repair: None }
}

/// Whether metadata obeys its size limits.
pub open spec fn metadata_bounded(metadata: MetadataModel) -> bool {
    &&& metadata.references.len() <= MAX_STORE_BACKED_ARTIFACT_REFERENCES
    &&& metadata.repair matches Some(receipt) ==> {
        &&& receipt.rules.len() <= MAX_TOOL_ARGUMENT_REPAIR_RULES
        &&& forall|i: int| 0 <= i < receipt.rules.len() ==> is_stable_rule(#[trigger] receipt.rules[i])
        &&& receipt.input_bytes <= MAX_TOOL_ARGUMENT_REPAIR_BYTES
        &&& receipt.effective_bytes <= MAX_TOOL_ARGUMENT_REPAIR_BYTES
        &&& receipt.candidate_work <= MAX_TOOL_ARGUMENT_REPAIR_CANDIDATE_WORK
        &&& receipt.repair_duration_micros <= MAX_TOOL_ARGUMENT_REPAIR_DURATION_MICROS
    }
}

impl CodexHarnessMetadata {
    /// What this metadata says.
    pub closed spec fn view(&self) -> MetadataModel {
        MetadataModel {
            client_authored: self.client_authored,
            store_backed: self.store_backed_output,
            references: reference_ids(self.store_backed_artifact_references@),
            repair: match self.tool_argument_repair {
                Some(receipt) => Some(receipt@),
                None => None,
            },
        }
    }

    /// Whether a developer message was supplied by an app-server client: the public field, as the
    /// view says it.
    pub fn is_client_authored(&self) -> (r: bool)
        ensures
            r == self@.client_authored,
    {
        self.client_authored
    }

    /// Sets whether a developer message was supplied by an app-server client: the public field, and
    /// nothing else.
    pub fn set_client_authored(&mut self, client_authored: bool)
        ensures
            final(self)@ == (MetadataModel { client_authored, ..old(self)@ }),
    {
        self.client_authored = client_authored;
    }

    /// Marks a developer message supplied by an app-server client.
    pub fn client_authored() -> (r: Self)
        ensures
            r@ == (MetadataModel { client_authored: true, ..default_metadata() }),
    {
        let mut r = CodexHarnessMetadata::default();
        r.client_authored = true;
        r
    }

    /// Marks a bounded tool-output control document whose artifact was verified
    /// in the managed store by the harness.
    pub fn store_backed_tool_output() -> (r: Self)
        ensures
            r@ == store_backed_metadata(),
    {
        let mut r = CodexHarnessMetadata::default();
        r.store_backed_output = true;
        r
    }

    /// Adds a bounded effective-call receipt while preserving other harness metadata.
    pub fn with_tool_argument_repair(self, receipt: ToolArgumentRepairReceipt) -> (r: Self)
        ensures
            r@ == (MetadataModel { repair: Some(bounded_receipt(receipt@)), ..self@ }),
    {
        let mut metadata = self;
        metadata.set_tool_argument_repair(receipt);
        metadata
    }

    /// Replaces the effective-call receipt on this metadata value.
    pub fn set_tool_argument_repair(&mut self, receipt: ToolArgumentRepairReceipt)
        ensures
            final(self)@ == (MetadataModel {
                repair: Some(bounded_receipt(receipt@)),
                ..old(self)@
            }),
    {
        let ghost all = texts(receipt.rules@);
        let mut rules: Vec<String> = Vec::new();
        let mut i: usize = 0;
        while i < receipt.rules.len() && rules.len() < MAX_TOOL_ARGUMENT_REPAIR_RULES
            invariant
                i <= receipt.rules@.len(),
                all == texts(receipt.rules@),
                texts(rules@) == stable_rules(all.take(i as int)),
                rules@.len() <= MAX_TOOL_ARGUMENT_REPAIR_RULES,
            decreases receipt.rules@.len() - i,
        {
            proof {
                assert(all.take(i + 1).drop_last() =~= all.take(i as int));
                assert(all[i as int] == receipt.rules@[i as int]@);
            }
            if is_stable_tool_argument_repair_rule(receipt.rules[i].as_str()) {
                let ghost before = rules@;
                rules.push(receipt.rules[i].clone());
                proof {
                    assert(texts(rules@) =~= texts(before).push(all[i as int]));
                }
            }
            i += 1;
        }
        proof {
            stable_rules_prefix(all, i as int);
            assert(all.take(all.len() as int) =~= all);
            assert(stable_rules(all.take(i as int)) =~= first(
                stable_rules(all),
                MAX_TOOL_ARGUMENT_REPAIR_RULES as int,
            ));
        }
        self.tool_argument_repair = Some(
            ToolArgumentRepairReceipt {
                tool_family: receipt.tool_family,
                outcome: receipt.outcome,
                rules,
                input_bytes: bounded_repair_bytes(receipt.input_bytes),
                effective_bytes: bounded_repair_bytes(receipt.effective_bytes),
                candidate_work: bounded_candidate_work(receipt.candidate_work),
                repair_duration_micros: bounded_repair_duration(receipt.repair_duration_micros),
                reason: receipt.reason,
            },
        );
    }

    /// Returns the effective-call receipt, if one was persisted.
    pub fn tool_argument_repair(&self) -> (r: Option<&ToolArgumentRepairReceipt>)
        ensures
            match r {
                Some(receipt) => self@.repair == Some(receipt@),
                None => self@.repair is None,
            },
    {
        self.tool_argument_repair.as_ref()
    }

    /// Returns whether this response item is a verified store-backed control document.
    pub fn is_store_backed_tool_output(&self) -> (r: bool)
        ensures
            r == self@.store_backed,
    {
        self.store_backed_output
    }

    /// Adds bounded history-only artifact references while preserving unrelated metadata.
    pub fn with_store_backed_artifact_references(self, artifact_ids: Vec<String>) -> (r: Self)
        ensures
            r@ == (MetadataModel {
                references: first(
                    texts(artifact_ids@),
                    MAX_STORE_BACKED_ARTIFACT_REFERENCES as int,
                ),
                ..self@
            }),
    {
        let mut metadata = self;
        metadata.set_store_backed_artifact_references(artifact_ids);
        metadata
    }

    /// Replaces the bounded history-only artifact references on this metadata value.
    pub fn set_store_backed_artifact_references(&mut self, artifact_ids: Vec<String>)
        ensures
            final(self)@ == (MetadataModel {
                references: first(
                    texts(artifact_ids@),
                    MAX_STORE_BACKED_ARTIFACT_REFERENCES as int,
                ),
                ..old(self)@
            }),
    {
        let ghost all = texts(artifact_ids@);
        let mut references: Vec<StoreBackedArtifactReference> = Vec::new();
        let mut i: usize = 0;
        while i < artifact_ids.len() && i < MAX_STORE_BACKED_ARTIFACT_REFERENCES
            invariant
                i <= artifact_ids@.len(),
                i <= MAX_STORE_BACKED_ARTIFACT_REFERENCES,
                all == texts(artifact_ids@),
                reference_ids(references@) == all.take(i as int),
            decreases artifact_ids@.len() - i,
        {
            let ghost before = references@;
            references.push(StoreBackedArtifactReference { artifact_id: artifact_ids[i].clone() });
            proof {
                assert(reference_ids(references@) =~= reference_ids(before).push(all[i as int]));
                assert(all.take(i + 1) =~= all.take(i as int).push(all[i as int]));
            }
            i += 1;
        }
        proof {
            assert(all.take(all.len() as int) =~= all);
        }
        self.store_backed_artifact_references = references;
    }

    /// Returns history-only artifact references; callers must validate the IDs before use.
    pub fn store_backed_artifact_references(&self) -> (r: &Vec<StoreBackedArtifactReference>)
        ensures
            reference_ids(r@) == self@.references,
    {
        &self.store_backed_artifact_references
    }

    /// Metadata as it was persisted; the receipt and the references are cut to their limits.
    pub fn restored(
        client_authored: bool,
        store_backed: bool,
        references: &Vec<StoreBackedArtifactReference>,
        repair: Option<ToolArgumentRepairReceipt>,
    ) -> (r: Self)
        ensures
            r@ == (MetadataModel {
                client_authored,
                store_backed,
                references: first(
                    reference_ids(references@),
                    MAX_STORE_BACKED_ARTIFACT_REFERENCES as int,
                ),
                repair: match repair {
                    Some(receipt) => Some(bounded_receipt(receipt@)),
                    None => None,
                },
            }),
    {
        let mut metadata = CodexHarnessMetadata::default();
        metadata.client_authored = client_authored;
        metadata.store_backed_output = store_backed;
        metadata.store_backed_artifact_references = bounded_artifact_references(references);
        proof {
            assert(reference_ids(metadata.store_backed_artifact_references@) =~= first(
                reference_ids(references@),
                MAX_STORE_BACKED_ARTIFACT_REFERENCES as int,
            ));
        }
        if let Some(receipt) = repair {
            metadata.set_tool_argument_repair(receipt);
        }
        metadata
    }
}

impl Default for CodexHarnessMetadata {
    fn default() -> (r: Self)
        ensures
            r@ == default_metadata(),
    {
        let references: Vec<StoreBackedArtifactReference> = Vec::new();
        proof {
            assert(reference_ids(references@) =~= Seq::<Seq<char>>::empty());
        }
        CodexHarnessMetadata {
            client_authored: false,
            store_backed_output: false,
            store_backed_artifact_references: references,
            tool_argument_repair: None,
        }
    }
}

impl Clone for CodexHarnessMetadata {
    fn clone(&self) -> (r: Self)
        ensures
            r@ == self@,
    {
        let mut references: Vec<StoreBackedArtifactReference> = Vec::new();
        let mut i: usize = 0;
        while i < self.store_backed_artifact_references.len()
            invariant
                i <= self.store_backed_artifact_references@.len(),
                references@ == self.store_backed_artifact_references@.take(i as int),
            decreases self.store_backed_artifact_references@.len() - i,
        {
            proof {
                let all = self.store_backed_artifact_references@;
                assert(all.take(i + 1) =~= all.take(i as int).push(all[i as int]));
            }
            references.push(self.store_backed_artifact_references[i].clone());
            i += 1;
        }
        proof {
            let all = self.store_backed_artifact_references@;
            assert(all.take(i as int) =~= all);
        }
        CodexHarnessMetadata {
            client_authored: self.client_authored,
            store_backed_output: self.store_backed_output,
            store_backed_artifact_references: references,
            tool_argument_repair: match &self.tool_argument_repair {
                Some(receipt) => Some(receipt.clone()),
                None => None,
            },
        }
    }
}

/// The stable rules of a prefix are a prefix of the stable rules.
proof fn stable_rules_prefix(rules: Seq<Seq<char>>, n: int)
    requires
        0 <= n <= rules.len(),
    ensures
        stable_rules(rules.take(n)).len() <= stable_rules(rules).len(),
        stable_rules(rules.take(n)) == stable_rules(rules).take(
            stable_rules(rules.take(n)).len() as int,
        ),
    decreases rules.len() - n,
{
    if n == rules.len() {
        assert(rules.take(n) =~= rules);
        assert(stable_rules(rules).take(stable_rules(rules).len() as int) =~= stable_rules(rules));
    } else {
        stable_rules_prefix(rules, n + 1);
        let longer = rules.take(n + 1);
        assert(longer.drop_last() =~= rules.take(n));
        let a = stable_rules(rules.take(n));
        let b = stable_rules(longer);
        assert(a =~= b.take(a.len() as int));
        assert(stable_rules(rules).take(a.len() as int) =~= b.take(a.len() as int));
    }
}

/// Every stable rule that is kept is stable.
pub proof fn stable_rules_are_stable(rules: Seq<Seq<char>>)
    ensures
        forall|i: int|
            0 <= i < stable_rules(rules).len() ==> is_stable_rule(
                #[trigger] stable_rules(rules)[i],
            ),
    decreases rules.len(),
{
    if rules.len() > 0 {
        let kept = stable_rules(rules);
        let before = stable_rules(rules.drop_last());
        stable_rules_are_stable(rules.drop_last());
        assert forall|i: int| 0 <= i < kept.len() implies is_stable_rule(#[trigger] kept[i]) by {
            if i < before.len() {
                assert(kept[i] == before[i]);
            }
        }
    }
}

/// Whatever receipt it is given, metadata within its limits stays within them.
pub proof fn receipt_keeps_metadata_bounded(metadata: MetadataModel, receipt: ReceiptModel)
    requires
        metadata_bounded(metadata),
    ensures
        metadata_bounded(MetadataModel { repair: Some(bounded_receipt(receipt)), ..metadata }),
{
    stable_rules_are_stable(receipt.rules);
}

/// Whatever references it is given, metadata within its limits stays within them.
pub proof fn references_keep_metadata_bounded(metadata: MetadataModel, ids: Seq<Seq<char>>)
    requires
        metadata_bounded(metadata),
    ensures
        metadata_bounded(
            MetadataModel {
                references: first(ids, MAX_STORE_BACKED_ARTIFACT_REFERENCES as int),
                ..metadata
            },
        ),
{
}

/// Metadata starts out within its limits.
pub proof fn fresh_metadata_bounded()
    ensures
        metadata_bounded(default_metadata()),
        metadata_bounded(store_backed_metadata()),
        metadata_bounded(MetadataModel { client_authored: true, ..default_metadata() }),
{
}

/// Bounding a receipt twice is bounding it once.
pub proof fn bounded_receipt_idempotent(receipt: ReceiptModel)
    ensures
        bounded_receipt(bounded_receipt(receipt)) == bounded_receipt(receipt),
{
    stable_rules_are_stable(receipt.rules);
    let kept = bounded_receipt(receipt).rules;
    all_stable_kept(kept);
}

proof fn all_stable_kept(rules: Seq<Seq<char>>)
    requires
        forall|i: int| 0 <= i < rules.len() ==> is_stable_rule(#[trigger] rules[i]),
    ensures
        stable_rules(rules) == rules,
    decreases rules.len(),
{
    if rules.len() > 0 {
        all_stable_kept(rules.drop_last());
        assert(rules.drop_last().push(rules.last()) =~= rules);
    } else {
        assert(rules =~= Seq::<Seq<char>>::empty());
    }
}

/// A stable rule name is short and holds only lower-case letters and underscores, so it can
/// carry no content.
pub proof fn stable_rules_are_content_free(rule: Seq<char>)
    requires
        is_stable_rule(rule),
    ensures
        0 < rule.len() <= 64,
        forall|i: int| 0 <= i < rule.len() ==> ('a' <= #[trigger] rule[i] <= 'z' || rule[i] == '_'),
{
    reveal_strlit("optional_null_removed");
    reveal_strlit("stringified_array_decoded");
    reveal_strlit("stringified_object_decoded");
    reveal_strlit("scalar_wrapped_in_array");
    reveal_strlit("numeric_string_typed");
    reveal_strlit("boolean_string_typed");
    reveal_strlit("known_field_alias");
    reveal_strlit("markdown_path_unwrapped");
}

/// A model-history item with room for history-only metadata.
#[derive(Debug)]
pub struct ResponseItemEnvelope {
    pub item: ResponseItem,
    pub metadata: Option<CodexHarnessMetadata>,
}

/// The model of a [`ResponseItemEnvelope`].
pub struct EnvelopeModel {
    pub item: ResponseItemModel,
    pub metadata: Option<MetadataModel>,
}

impl View for ResponseItemEnvelope {
    type V = EnvelopeModel;

    open spec fn view(&self) -> EnvelopeModel {
        EnvelopeModel {
            item: self.item@,
            metadata: match self.metadata {
                Some(metadata) => Some(metadata@),
                None => None,
            },
        }
    }
}

impl Clone for ResponseItemEnvelope {
    fn clone(&self) -> (r: Self)
        ensures
            r@ == self@,
    {
        ResponseItemEnvelope {
            item: self.item.clone(),
            metadata: match &self.metadata {
                Some(metadata) => Some(metadata.clone()),
                None => None,
            },
        }
    }
}

/// The models of a history.
pub open spec fn envelope_models(history: Seq<ResponseItemEnvelope>) -> Seq<EnvelopeModel> {
    history.map_values(|envelope: ResponseItemEnvelope| envelope@)
}

impl ResponseItemEnvelope {
    /// Wraps a raw Responses API item for persisted history.
    pub fn new(item: ResponseItem) -> (r: Self)
        ensures
            r@ == (EnvelopeModel { item: item@, metadata: None }),
    {
        ResponseItemEnvelope { item, metadata: None }
    }

    /// Unwraps the raw Responses API item.
    pub fn into_item(self) -> (r: ResponseItem)
        ensures
            r == self.item,
    {
        self.item
    }
}

impl From<ResponseItem> for ResponseItemEnvelope {
    fn from(item: ResponseItem) -> (r: Self) {
        ResponseItemEnvelope { item, metadata: None }
    }
}

impl vstd::std_specs::convert::FromSpecImpl<ResponseItem> for ResponseItemEnvelope {
    open spec fn obeys_from_spec() -> bool {
        true
    }

    open spec fn from_spec(item: ResponseItem) -> Self {
        ResponseItemEnvelope { item, metadata: None }
    }
}

} // verus!

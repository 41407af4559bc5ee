//! What an event shows of the texts that are put in the place of its own.

use vstd::prelude::*;

use crate::display_events::{
    cut_to_policy, dynamic_texts, event_projected, event_texts, item_projected, item_texts,
    mcp_text, parts_text, parts_without_text, projected_parts, projected_value, projected_values,
    result_texts, shortened_budget, text_part, values_inner, values_text, CallToolResult,
    DynamicToolCallOutputContentItem, EventMsg, TurnItem,
};
use crate::history::texts;
use crate::json::{
    json_members, json_string, member, object_text, with_member, JsonModel, Members,
};
use crate::protocol::TruncationPolicy;
use crate::text::{ascii_less, char_width, prefix_within_longest, utf8_len};

verus! {

proof fn textless_parts_are_filtered(parts: Seq<Seq<char>>, keep: spec_fn(Seq<char>) -> bool)
    requires
        forall|part: Seq<char>| #[trigger]
            keep(part) == (match json_members(part) {
                Some(members) => member(members, "text"@) is None,
                None => true,
            }),
    ensures
        parts_without_text(parts) == parts.filter(keep),
    decreases parts.len(),
{
    reveal(Seq::filter);
    if parts.len() > 0 {
        textless_parts_are_filtered(parts.drop_last(), keep);
        assert(keep(parts.last()) == keep(parts.last()));
    }
}

/// Where the joined text of an MCP result is replaced, a part with the new text comes first, and
/// behind it stand exactly the parts that have no member `text`: all of them, in their order.
pub proof fn textless_parts_are_kept(parts: Seq<Seq<char>>, projected: Seq<char>)
    requires
        mcp_text(parts) is Some,
        mcp_text(parts) != Some(projected),
    ensures
        projected_parts(parts, Some(projected)) == seq![
            object_text(
                seq![
                    ("text"@, JsonModel::Text(projected)),
                    ("type"@, JsonModel::Text("text"@)),
                ],
            ),
        ] + parts.filter(
            |part: Seq<char>|
                match json_members(part) {
                    Some(members) => member(members, "text"@) is None,
                    None => true,
                },
        ),
{
    let keep = |part: Seq<char>|
        match json_members(part) {
            Some(members) => member(members, "text"@) is None,
            None => true,
        };
    textless_parts_are_filtered(parts, keep);
    text_part_members(projected);
}

/// A text as a part of an MCP result has the text under `text` and `text` under `type`.
pub proof fn text_part_members(text: Seq<char>)
    ensures
        text_part(text) == object_text(
            seq![("text"@, JsonModel::Text(text)), ("type"@, JsonModel::Text("text"@))],
        ),
{
    reveal_strlit("text");
    reveal_strlit("type");
    let first: Members = with_member(
        seq![],
        "type"@,
        JsonModel::Text("text"@),
    );
    assert(first =~= seq![("type"@, JsonModel::Text("text"@))]);
    assert("text"@[1] == 'e' && "type"@[1] == 'y');
    assert("text"@ != "type"@);
    ascii_less("text"@, "type"@, 1);
    let both = with_member(first, "text"@, JsonModel::Text(text));
    assert(both =~= seq![("text"@, JsonModel::Text(text)), ("type"@, JsonModel::Text("text"@))]);
}

proof fn parts_text_splits(a: Seq<Seq<char>>, b: Seq<Seq<char>>)
    ensures
        parts_text(a + b).1 == (parts_text(a).1 || parts_text(b).1),
        parts_text(a + b).0 == (if parts_text(a).1 && parts_text(b).1 {
            parts_text(a).0 + "\n"@ + parts_text(b).0
        } else if parts_text(a).1 {
            parts_text(a).0
        } else {
            parts_text(b).0
        }),
    decreases b.len(),
{
    if b.len() == 0 {
        assert(a + b =~= a);
        no_text_is_empty(a);
    } else {
        parts_text_splits(a, b.drop_last());
        no_text_is_empty(b.drop_last());
        assert((a + b).drop_last() =~= a + b.drop_last());
        assert((a + b).last() == b.last());
        assert(parts_text(a + b).0 =~= (if parts_text(a).1 && parts_text(b).1 {
            parts_text(a).0 + "\n"@ + parts_text(b).0
        } else if parts_text(a).1 {
            parts_text(a).0
        } else {
            parts_text(b).0
        }));
    }
}

proof fn no_text_is_empty(parts: Seq<Seq<char>>)
    ensures
        !parts_text(parts).1 ==> parts_text(parts).0 == Seq::<char>::empty(),
    decreases parts.len(),
{
    if parts.len() > 0 {
        no_text_is_empty(parts.drop_last());
    }
}

/// The joined text of an MCP result: that of one part is its text member; that of two results
/// behind each other is the one, a line feed and the other, where both have a text. An empty text
/// is not projected.
pub proof fn joined_text_of_parts(a: Seq<Seq<char>>, b: Seq<Seq<char>>, part: Seq<char>)
    ensures
        parts_text(a + b).1 == (parts_text(a).1 || parts_text(b).1),
        parts_text(a).1 && parts_text(b).1 ==> parts_text(a + b).0 == parts_text(a).0 + "\n"@
            + parts_text(b).0,
        parts_text(a).1 && !parts_text(b).1 ==> parts_text(a + b).0 == parts_text(a).0,
        !parts_text(a).1 ==> parts_text(a + b).0 == parts_text(b).0,
        parts_text(seq![part]) == (match json_members(part) {
            Some(members) => match member(members, "text"@) {
                Some(JsonModel::Text(text)) => (text, true),
                _ => (Seq::<char>::empty(), false),
            },
            None => (Seq::<char>::empty(), false),
        }),
        parts_text(seq![]) == (Seq::<char>::empty(), false),
        mcp_text(a) is None <==> parts_text(a).0.len() == 0,
        mcp_text(a) matches Some(text) ==> text == parts_text(a).0,
{
    parts_text_splits(a, b);
    let none: Seq<Seq<char>> = seq![];
    assert(seq![part].drop_last() =~= none);
    reveal_with_fuel(parts_text, 2);
    assert(seq![part].last() == part);
}

/// A list of JSON values is written between brackets, with one comma between each two; a text in
/// its place stands alone, as a JSON string. Only another text takes the place of a value.
pub proof fn value_lists_are_joined(
    a: Seq<Seq<char>>,
    b: Seq<Seq<char>>,
    value: Seq<char>,
    projected: Seq<char>,
)
    requires
        a.len() > 0,
        b.len() > 0,
    ensures
        values_text(seq![]) == "[]"@,
        values_text(seq![value]) == "["@ + value + "]"@,
        values_inner(a + b) == values_inner(a) + ","@ + values_inner(b),
        values_text(a + b) == "["@ + values_inner(a) + ","@ + values_inner(b) + "]"@,
        projected != values_text(a) ==> projected_values(a, projected) == seq![
            json_string(projected),
        ],
        projected != value ==> projected_value(value, projected) == json_string(projected),
        projected_values(a, values_text(a)) == a,
        projected_value(value, value) == value,
{
    let none: Seq<Seq<char>> = seq![];
    reveal_strlit("[");
    reveal_strlit("]");
    reveal_strlit("[]");
    assert(values_text(none) =~= "[]"@);
    inner_splits(a, b);
    assert(values_text(a + b) =~= "["@ + values_inner(a) + ","@ + values_inner(b) + "]"@);
}

proof fn inner_splits(a: Seq<Seq<char>>, b: Seq<Seq<char>>)
    requires
        a.len() > 0,
        b.len() > 0,
    ensures
        values_inner(a + b) == values_inner(a) + ","@ + values_inner(b),
    decreases b.len(),
{
    assert((a + b).drop_last() =~= a + b.drop_last());
    assert((a + b).last() == b.last());
    if b.len() == 1 {
        assert(a + b.drop_last() =~= a);
        assert(b.last() == b[0]);
    } else {
        inner_splits(a, b.drop_last());
        assert(values_inner(a + b) =~= values_inner(a) + ","@ + values_inner(b));
    }
}

/// The four texts of an ended command are projected in the order in which the event holds them,
/// and each projected text takes the place of its own.
pub proof fn command_end_texts(before: EventMsg, after: EventMsg, projected: Seq<Seq<char>>)
    requires
        before is ExecCommandEnd,
        after is ExecCommandEnd,
        event_projected(before, after, projected),
    ensures
        event_texts(before) == seq![
            before->ExecCommandEnd_stdout@,
            before->ExecCommandEnd_stderr@,
            before->ExecCommandEnd_aggregated_output@,
            before->ExecCommandEnd_formatted_output@,
        ],
        projected == seq![
            after->ExecCommandEnd_stdout@,
            after->ExecCommandEnd_stderr@,
            after->ExecCommandEnd_aggregated_output@,
            after->ExecCommandEnd_formatted_output@,
        ],
        after->ExecCommandEnd_details == before->ExecCommandEnd_details,
{
}

/// The two texts of an applied patch are projected in order, each into its own place.
pub proof fn patch_end_texts(before: EventMsg, after: EventMsg, projected: Seq<Seq<char>>)
    requires
        before is PatchApplyEnd,
        after is PatchApplyEnd,
        event_projected(before, after, projected),
    ensures
        event_texts(before) == seq![before->PatchApplyEnd_stdout@, before->PatchApplyEnd_stderr@],
        projected == seq![after->PatchApplyEnd_stdout@, after->PatchApplyEnd_stderr@],
        after->PatchApplyEnd_details == before->PatchApplyEnd_details,
{
}

/// Of a command step, the texts that are there are projected in the order in which the step holds
/// them; each projected text takes the place of its own, and no text comes or goes.
pub proof fn command_step_texts(before: TurnItem, after: TurnItem, projected: Seq<Seq<char>>)
    requires
        before is CommandExecution,
        after is CommandExecution,
        item_projected(before, after, projected),
    ensures
        ({
            let a: int = if before->CommandExecution_stdout is Some { 1 } else { 0 };
            let b: int = if before->CommandExecution_stderr is Some { a + 1 } else { a };
            let c: int = if before->CommandExecution_aggregated_output is Some { b + 1 } else { b };
            let d: int = if before->CommandExecution_formatted_output is Some { c + 1 } else { c };
            let own = item_texts(before);
            &&& own.len() == d && projected.len() == d
            &&& (match (before->CommandExecution_stdout, after->CommandExecution_stdout) {
                (Some(x), Some(y)) => own[0] == x@ && projected[0] == y@,
                (None, None) => true,
                _ => false,
            })
            &&& (match (before->CommandExecution_stderr, after->CommandExecution_stderr) {
                (Some(x), Some(y)) => own[a] == x@ && projected[a] == y@,
                (None, None) => true,
                _ => false,
            })
            &&& (match (
                before->CommandExecution_aggregated_output,
                after->CommandExecution_aggregated_output,
            ) {
                (Some(x), Some(y)) => own[b] == x@ && projected[b] == y@,
                (None, None) => true,
                _ => false,
            })
            &&& (match (
                before->CommandExecution_formatted_output,
                after->CommandExecution_formatted_output,
            ) {
                (Some(x), Some(y)) => own[c] == x@ && projected[c] == y@,
                (None, None) => true,
                _ => false,
            })
            &&& after->CommandExecution_details == before->CommandExecution_details
        }),
{
}

/// Of a file change, the texts that are there are projected in order, each into its own place.
pub proof fn file_change_texts(before: TurnItem, after: TurnItem, projected: Seq<Seq<char>>)
    requires
        before is FileChange,
        after is FileChange,
        item_projected(before, after, projected),
    ensures
        ({
            let a: int = if before->FileChange_stdout is Some { 1 } else { 0 };
            let b: int = if before->FileChange_stderr is Some { a + 1 } else { a };
            let own = item_texts(before);
            &&& own.len() == b && projected.len() == b
            &&& (match (before->FileChange_stdout, after->FileChange_stdout) {
                (Some(x), Some(y)) => own[0] == x@ && projected[0] == y@,
                (None, None) => true,
                _ => false,
            })
            &&& (match (before->FileChange_stderr, after->FileChange_stderr) {
                (Some(x), Some(y)) => own[a] == x@ && projected[a] == y@,
                (None, None) => true,
                _ => false,
            })
            &&& after->FileChange_details == before->FileChange_details
        }),
{
}

/// The texts of the parts of what a dynamic tool returned are those of all its text parts, in
/// order: those of two lists behind each other are the texts of the one and of the other.
pub proof fn dynamic_texts_are_all_texts(
    a: Seq<DynamicToolCallOutputContentItem>,
    b: Seq<DynamicToolCallOutputContentItem>,
    item: DynamicToolCallOutputContentItem,
)
    ensures
        dynamic_texts(a + b) == dynamic_texts(a) + dynamic_texts(b),
        dynamic_texts(seq![item]) == (match item {
            DynamicToolCallOutputContentItem::InputText { text } => seq![text@],
            DynamicToolCallOutputContentItem::Media { .. } => seq![],
        }),
        dynamic_texts(seq![]) == Seq::<Seq<char>>::empty(),
    decreases b.len(),
{
    let none: Seq<DynamicToolCallOutputContentItem> = seq![];
    assert(seq![item].drop_last() =~= none);
    assert(seq![item].last() == item);
    reveal_with_fuel(dynamic_texts, 2);
    if b.len() == 0 {
        assert(a + b =~= a);
        assert(dynamic_texts(a + b) =~= dynamic_texts(a) + dynamic_texts(b));
    } else {
        dynamic_texts_are_all_texts(a, b.drop_last(), item);
        assert((a + b).drop_last() =~= a + b.drop_last());
        assert((a + b).last() == b.last());
        assert(dynamic_texts(a + b) =~= dynamic_texts(a) + dynamic_texts(b));
    }
}

/// Of a dynamic tool call, the texts of its parts are projected in order and its error behind
/// them. Parts without text stay as they are, in their places.
pub proof fn dynamic_call_texts(before: TurnItem, after: TurnItem, projected: Seq<Seq<char>>)
    requires
        before is DynamicToolCall,
        after is DynamicToolCall,
        item_projected(before, after, projected),
    ensures
        ({
            let own = item_texts(before);
            let (parts, shown) = (
                before->DynamicToolCall_content_items,
                after->DynamicToolCall_content_items,
            );
            let n: int = match parts {
                Some(items) => dynamic_texts(items@).len() as int,
                None => 0,
            };
            &&& own.len() == n + (if before->DynamicToolCall_error is Some { 1int } else { 0 })
            &&& (match (parts, shown) {
                (Some(a), Some(x)) => own.take(n) == dynamic_texts(a@) && a@.len() == x@.len() && (
                forall|i: int|
                    0 <= i < a@.len() && #[trigger] a@[i] is Media ==> x@[i] == a@[i]) && projected
                    == dynamic_texts(x@) + (match after->DynamicToolCall_error {
                    Some(error) => seq![error@],
                    None => seq![],
                }),
                (None, None) => true,
                _ => false,
            })
            &&& (match (before->DynamicToolCall_error, after->DynamicToolCall_error) {
                (Some(x), Some(y)) => own[n] == x@ && projected.len() > 0 && projected.last() == y@,
                (None, None) => true,
                _ => false,
            })
            &&& after->DynamicToolCall_details == before->DynamicToolCall_details
        }),
{
    let own = item_texts(before);
    match before->DynamicToolCall_content_items {
        Some(items) => {
            assert(own.take(dynamic_texts(items@).len() as int) =~= dynamic_texts(items@));
        },
        None => {},
    }
    match after->DynamicToolCall_content_items {
        Some(items) => {
            assert(item_texts(after) =~= dynamic_texts(items@) + (
            match after->DynamicToolCall_error {
                Some(error) => seq![error@],
                None => seq![],
            }));
        },
        None => {},
    }
}

/// Of an MCP result, the joined text is projected where there is one, and the structured content
/// behind it; each projected text takes the place of its own.
pub proof fn mcp_result_texts(before: TurnItem, after: TurnItem, projected: Seq<Seq<char>>)
    requires
        before matches TurnItem::McpToolCall { result: Some(_), .. },
        after is McpToolCall,
        item_projected(before, after, projected),
        projected.len() == item_texts(before).len(),
    ensures
        ({
            let (a, x) = (before->McpToolCall_result, after->McpToolCall_result);
            let own = item_texts(before);
            &&& x is Some
            &&& after->McpToolCall_details == before->McpToolCall_details
            &&& (match mcp_text(texts(a->0.content@)) {
                Some(joined) => own.len() > 0 && own[0] == joined && texts(x->0.content@)
                    == projected_parts(texts(a->0.content@), Some(projected[0])),
                None => texts(x->0.content@) == texts(a->0.content@),
            })
            &&& (match (a->0.structured_content, x->0.structured_content) {
                (Some(value), Some(shown)) => own.len() > 0 && own.last() == value@ && shown@ == (
                if projected.last() == value@ {
                    value@
                } else {
                    json_string(projected.last())
                }),
                (None, None) => true,
                _ => false,
            })
        }),
{
}

/// The end of an MCP call shows what the step of the same result shows.
pub proof fn mcp_end_texts(
    before: CallToolResult,
    after: CallToolResult,
    details: String,
    projected: Seq<Seq<char>>,
)
    ensures
        event_texts(EventMsg::McpToolCallEnd { result: Ok(before), details }) == item_texts(
            TurnItem::McpToolCall { result: Some(before), details },
        ),
        event_texts(EventMsg::McpToolCallEnd { result: Ok(before), details }) == result_texts(
            before,
        ),
        event_projected(
            EventMsg::McpToolCallEnd { result: Ok(before), details },
            EventMsg::McpToolCallEnd { result: Ok(after), details },
            projected,
        ) == item_projected(
            TurnItem::McpToolCall { result: Some(before), details },
            TurnItem::McpToolCall { result: Some(after), details },
            projected,
        ),
{
}

/// The results of a web search are projected as one text, in the step and at its end alike; what
/// has no text that is shown stays the same.
pub proof fn web_search_texts(before: TurnItem, after: TurnItem, projected: Seq<Seq<char>>)
    requires
        before is WebSearch,
        after is WebSearch,
        item_projected(before, after, projected),
    ensures
        (match (before->WebSearch_results, after->WebSearch_results) {
            (Some(values), Some(shown)) => item_texts(before) == seq![values_text(texts(values@))]
                && texts(shown@) == (if projected[0] == values_text(texts(values@)) {
                texts(values@)
            } else {
                seq![json_string(projected[0])]
            }),
            (None, None) => item_texts(before).len() == 0,
            _ => false,
        }),
        after->WebSearch_details == before->WebSearch_details,
        forall|details: String| #[trigger]
            event_projected(
                EventMsg::WebSearchEnd { results: before->WebSearch_results, details },
                EventMsg::WebSearchEnd { results: after->WebSearch_results, details },
                projected,
            ),
{
}

/// What holds no text that is shown has none to project, and stays the same.
pub proof fn other_events_stay(before: EventMsg, after: EventMsg, projected: Seq<Seq<char>>)
    requires
        event_projected(before, after, projected),
        before is Other || (before matches EventMsg::ItemCompleted { item, .. } && item is Other)
            || (before matches EventMsg::McpToolCallEnd { result, .. } && result is Err),
    ensures
        after == before,
        event_texts(before).len() == 0,
{
}

/// What a completed step shows is what its item shows.
pub proof fn completed_step_texts(
    before: TurnItem,
    after: TurnItem,
    details: String,
    projected: Seq<Seq<char>>,
)
    ensures
        event_texts(EventMsg::ItemCompleted { item: before, details }) == item_texts(before),
        event_projected(
            EventMsg::ItemCompleted { item: before, details },
            EventMsg::ItemCompleted { item: after, details },
            projected,
        ) == item_projected(before, after, projected),
{
}

/// A text that is shortened once more leaves room for sixty-four bytes, where the policy has them.
pub proof fn shortened_budget_leaves_room(policy: TruncationPolicy)
    ensures
        policy.budget() >= 64 ==> shortened_budget(policy) + 64 == policy.budget(),
        policy.budget() <= 64 ==> shortened_budget(policy) == 0,
{
}

/// A text is cut to the longest start that a policy has room for; one that it has room for stays.
pub proof fn texts_are_cut_to_the_policy(policy: TruncationPolicy, text: Seq<char>)
    ensures
        ({
            let shown = cut_to_policy(policy, text);
            &&& utf8_len(text) <= policy.budget() ==> shown == text
            &&& utf8_len(shown) <= policy.budget()
            &&& shown.len() <= text.len() && shown == text.take(shown.len() as int)
            &&& shown.len() < text.len() ==> utf8_len(shown) + char_width(text[shown.len() as int])
                > policy.budget()
        }),
{
    prefix_within_longest(text, policy.budget() as int);
    assert(text.take(text.len() as int) =~= text);
}

} // verus!

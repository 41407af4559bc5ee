//! Events for display: tool outputs in them are shortened to the output policy, and stay
//! readable.

use vstd::prelude::*;
use vstd::string::*;

use crate::history::{copy_texts, texts};
use crate::json::{
    json_members, json_string, json_string_text, member, object_text, text_member, with_member,
    JsonModel, JsonObject,
};
use crate::protocol::{optional_text, TruncationPolicy};
use crate::text::{
    byte_len, prefix_within, prefix_within_longest, same_text, take_bytes_at_char_boundary,
    utf8_len,
};

verus! {

/// How much of the policy is left to the marker of a second truncation.
pub const DISPLAY_TRUNCATION_MARKER_BUDGET: usize = 64;

/// What is to be done with a text next.
#[derive(Debug)]
pub enum DisplayStep {
    /// The text is settled.
    Done(String),
    /// The text is to be truncated in the middle, with the formatted note in front.
    Format,
    /// The text is to be truncated in the middle, to so many bytes.
    Shorten { text: String, max_bytes: usize },
}

/// The first step for a text: one that fits stays as it is.
pub fn display_text(policy: TruncationPolicy, text: &str) -> (r: DisplayStep)
    ensures
        (match r {
            DisplayStep::Done(done) => done@ == text@ && utf8_len(text@) <= policy.budget(),
            DisplayStep::Format => utf8_len(text@) > policy.budget(),
            DisplayStep::Shorten { .. } => false,
        }),
{
    if byte_len(text) <= policy.byte_budget() {
        DisplayStep::Done(text.to_owned())
    } else {
        DisplayStep::Format
    }
}

/// How much a text that is still too long is shortened to.
pub open spec fn shortened_budget(policy: TruncationPolicy) -> int {
    if policy.budget() < DISPLAY_TRUNCATION_MARKER_BUDGET {
        0
    } else {
        policy.budget() - DISPLAY_TRUNCATION_MARKER_BUDGET
    }
}

/// The step for a formatted text: one that is still too long is shortened once more.
pub fn display_formatted(policy: TruncationPolicy, formatted: String) -> (r: DisplayStep)
    ensures
        (match r {
            DisplayStep::Done(done) => done@ == formatted@ && utf8_len(formatted@)
                <= policy.budget(),
            DisplayStep::Format => false,
            DisplayStep::Shorten { text, max_bytes } => utf8_len(formatted@) > policy.budget()
                && text@ == formatted@ && max_bytes == shortened_budget(policy),
        }),
{
    let budget: usize = policy.byte_budget();
    if byte_len(formatted.as_str()) <= budget {
        DisplayStep::Done(formatted)
    } else {
        DisplayStep::Shorten {
            text: formatted,
            max_bytes: budget.saturating_sub(DISPLAY_TRUNCATION_MARKER_BUDGET),
        }
    }
}

/// The last step: whatever is still too long is cut.
pub open spec fn cut_to_policy(policy: TruncationPolicy, text: Seq<char>) -> Seq<char> {
    if utf8_len(text) > policy.budget() {
        prefix_within(text, policy.budget() as int)
    } else {
        text
    }
}

/// The last step: whatever is still too long is cut.
pub fn display_shortened(policy: TruncationPolicy, shortened: String) -> (r: String)
    ensures
        r@ == cut_to_policy(policy, shortened@),
        utf8_len(r@) <= policy.budget(),
{
    proof {
        prefix_within_longest(shortened@, policy.budget() as int);
    }
    if byte_len(shortened.as_str()) > policy.byte_budget() {
        take_bytes_at_char_boundary(shortened.as_str(), policy.byte_budget())
    } else {
        shortened
    }
}

/// A part of what a dynamic tool returned.
#[derive(Debug)]
pub enum DynamicToolCallOutputContentItem {
    InputText { text: String },
    /// An image or a sound, as JSON text.
    Media { json: String },
}

/// What an MCP tool returned; values are held as their JSON text.
#[derive(Debug)]
pub struct CallToolResult {
    pub content: Vec<String>,
    pub structured_content: Option<String>,
}

/// What one step of a turn did.
#[derive(Debug)]
pub enum TurnItem {
    CommandExecution {
        stdout: Option<String>,
        stderr: Option<String>,
        aggregated_output: Option<String>,
        formatted_output: Option<String>,
        details: String,
    },
    FileChange { stdout: Option<String>, stderr: Option<String>, details: String },
    DynamicToolCall {
        content_items: Option<Vec<DynamicToolCallOutputContentItem>>,
        error: Option<String>,
        details: String,
    },
    McpToolCall { result: Option<CallToolResult>, details: String },
    WebSearch { results: Option<Vec<String>>, details: String },
    /// Any other step, as JSON text.
    Other { details: String },
}

/// An event; what is never projected is held as JSON text in `details`.
#[derive(Debug)]
pub enum EventMsg {
    ItemCompleted { item: TurnItem, details: String },
    McpToolCallEnd { result: Result<CallToolResult, String>, details: String },
    ExecCommandEnd {
        stdout: String,
        stderr: String,
        aggregated_output: String,
        formatted_output: String,
        details: String,
    },
    PatchApplyEnd { stdout: String, stderr: String, details: String },
    WebSearchEnd { results: Option<Vec<String>>, details: String },
    Other { details: String },
}

/// The text of a part of an MCP result, if it has one.
pub open spec fn part_text(part: Seq<char>) -> Option<Seq<char>> {
    match json_members(part) {
        Some(members) => text_member(members, "text"@),
        None => None,
    }
}

/// Whether a part of an MCP result has a member `text`, whatever it holds.
pub open spec fn part_has_text(part: Seq<char>) -> bool {
    json_members(part) matches Some(members) && member(members, "text"@) is Some
}

/// The texts of the parts of an MCP result, a line each; and whether there is any.
pub open spec fn parts_text(parts: Seq<Seq<char>>) -> (Seq<char>, bool)
    decreases parts.len(),
{
    if parts.len() == 0 {
        (seq![], false)
    } else {
        let before = parts_text(parts.drop_last());
        match part_text(parts.last()) {
            Some(text) => (
                if before.1 {
                    before.0 + "\n"@ + text
                } else {
                    text
                },
                true,
            ),
            None => before,
        }
    }
}

/// The parts of an MCP result that have no text.
pub open spec fn parts_without_text(parts: Seq<Seq<char>>) -> Seq<Seq<char>>
    decreases parts.len(),
{
    if parts.len() == 0 {
        seq![]
    } else {
        let before = parts_without_text(parts.drop_last());
        if part_has_text(parts.last()) {
            before
        } else {
            before.push(parts.last())
        }
    }
}

/// A text as a part of an MCP result.
pub open spec fn text_part(text: Seq<char>) -> Seq<char> {
    object_text(
        with_member(
            with_member(seq![], "type"@, JsonModel::Text("text"@)),
            "text"@,
            JsonModel::Text(text),
        ),
    )
}

/// The joined text of an MCP result that is to be projected; `None` where it is empty.
pub open spec fn mcp_text(parts: Seq<Seq<char>>) -> Option<Seq<char>> {
    if parts_text(parts).0.len() == 0 {
        None
    } else {
        Some(parts_text(parts).0)
    }
}

/// The parts of an MCP result once its joined text is projected.
pub open spec fn projected_parts(parts: Seq<Seq<char>>, projected: Option<Seq<char>>) -> Seq<
    Seq<char>,
> {
    match (mcp_text(parts), projected) {
        (Some(text), Some(projected)) => if projected == text {
            parts
        } else {
            seq![text_part(projected)] + parts_without_text(parts)
        },
        _ => parts,
    }
}

/// A JSON value once its text is projected.
pub open spec fn projected_value(value: Seq<char>, projected: Seq<char>) -> Seq<char> {
    if projected == value {
        value
    } else {
        json_string(projected)
    }
}

/// JSON values with a comma between each two.
pub open spec fn values_inner(values: Seq<Seq<char>>) -> Seq<char>
    decreases values.len(),
{
    if values.len() == 0 {
        seq![]
    } else if values.len() == 1 {
        values[0]
    } else {
        values_inner(values.drop_last()) + ","@ + values.last()
    }
}

/// A list of JSON values as JSON text.
pub open spec fn values_text(values: Seq<Seq<char>>) -> Seq<char> {
    "["@ + values_inner(values) + "]"@
}

/// A list of JSON values once its text is projected.
pub open spec fn projected_values(values: Seq<Seq<char>>, projected: Seq<char>) -> Seq<
    Seq<char>,
> {
    if projected == values_text(values) {
        values
    } else {
        seq![json_string(projected)]
    }
}

/// The joined text of an MCP result that is to be projected.
pub fn mcp_result_text(result: &CallToolResult) -> (r: Option<String>)
    ensures
        optional_text(r) == mcp_text(texts(result.content@)),
{
    let ghost parts = texts(result.content@);
    let mut text = String::new();
    let mut any = false;
    let mut i: usize = 0;
    proof {
        assert(parts.take(0) =~= Seq::<Seq<char>>::empty());
        assert(text@ =~= Seq::<char>::empty());
    }
    while i < result.content.len()
        invariant
            i <= result.content@.len(),
            parts == texts(result.content@),
            (text@, any) == parts_text(parts.take(i as int)),
            !any ==> text@.len() == 0,
        decreases result.content@.len() - i,
    {
        let ghost before = text@;
        proof {
            assert(parts[i as int] == result.content@[i as int]@);
            assert(parts.take(i + 1).drop_last() =~= parts.take(i as int));
        }
        if let Some(object) = JsonObject::parse(result.content[i].as_str()) {
            if let Some(part) = object.get_text("text") {
                if any {
                    text.append("\n");
                }
                text.append(part);
                proof {
                    if !any {
                        assert(before =~= Seq::<char>::empty());
                        assert(text@ =~= part@);
                    }
                }
                any = true;
            }
        }
        i += 1;
    }
    proof {
        assert(parts.take(i as int) =~= parts);
    }
    if text.as_str().unicode_len() == 0 {
        None
    } else {
        Some(text)
    }
}

/// Puts projected texts into an MCP result.
pub fn project_mcp(
    result: &CallToolResult,
    text: Option<&str>,
    structured: Option<&str>,
) -> (r: CallToolResult)
    ensures
        texts(r.content@) == projected_parts(
            texts(result.content@),
            (match text {
                Some(text) => Some(text@),
                None => None,
            }),
        ),
        (match (result.structured_content, structured) {
            (Some(value), Some(projected)) => optional_text(r.structured_content) == Some(
                projected_value(value@, projected@),
            ),
            (value, _) => optional_text(r.structured_content) == optional_text(value),
        }),
{
    let ghost parts = texts(result.content@);
    let original = mcp_result_text(result);
    let mut content: Vec<String> = copy_texts(&result.content);
    if let Some(original) = original {
        if let Some(projected) = text {
            if !same_text(projected, original.as_str()) {
                let mut part = JsonObject::new();
                part.set_text("type", "text");
                part.set_text("text", projected);
                let mut kept: Vec<String> = Vec::new();
                kept.push(part.to_text());
                let ghost first = seq![text_part(projected@)];
                let mut i: usize = 0;
                proof {
                    assert(parts.take(0) =~= Seq::<Seq<char>>::empty());
                    assert(texts(kept@) =~= first + parts_without_text(parts.take(0)));
                }
                while i < result.content.len()
                    invariant
                        i <= result.content@.len(),
                        parts == texts(result.content@),
                        texts(kept@) == first + parts_without_text(parts.take(i as int)),
                    decreases result.content@.len() - i,
                {
                    let ghost before = kept@;
                    proof {
                        assert(parts[i as int] == result.content@[i as int]@);
                        assert(parts.take(i + 1).drop_last() =~= parts.take(i as int));
                    }
                    let has_text = match JsonObject::parse(result.content[i].as_str()) {
                        Some(object) => object.get("text").is_some(),
                        None => false,
                    };
                    if !has_text {
                        kept.push(result.content[i].clone());
                        proof {
                            assert(texts(kept@) =~= texts(before).push(parts[i as int]));
                            assert(texts(kept@) =~= first + parts_without_text(
                                parts.take(i + 1),
                            ));
                        }
                    }
                    i += 1;
                }
                proof {
                    assert(parts.take(i as int) =~= parts);
                }
                content = kept;
            }
        }
    }
    let structured_content = match &result.structured_content {
        Some(value) => match structured {
            Some(projected) => if same_text(projected, value.as_str()) {
                Some(value.clone())
            } else {
                Some(json_string_text(projected))
            },
            None => Some(value.clone()),
        },
        None => None,
    };
    CallToolResult { content, structured_content }
}

/// The text of a list of JSON values.
pub fn json_values_text(values: &Vec<String>) -> (r: String)
    ensures
        r@ == values_text(texts(values@)),
{
    let ghost all = texts(values@);
    let mut text = String::from_str("[");
    let mut i: usize = 0;
    proof {
        assert(all.take(0) =~= Seq::<Seq<char>>::empty());
        assert(text@ =~= "["@ + values_inner(all.take(0)));
    }
    while i < values.len()
        invariant
            i <= values@.len(),
            all == texts(values@),
            text@ == "["@ + values_inner(all.take(i as int)),
        decreases values@.len() - i,
    {
        let ghost before = text@;
        proof {
            assert(all[i as int] == values@[i as int]@);
            assert(all.take(i + 1).drop_last() =~= all.take(i as int));
        }
        if i > 0 {
            text.append(",");
        }
        text.append(values[i].as_str());
        proof {
            if i == 0 {
                assert(before =~= "["@);
                assert(text@ =~= "["@ + all[0]);
            } else {
                assert(text@ =~= "["@ + (values_inner(all.take(i as int)) + ","@ + all[i as int]));
            }
        }
        i += 1;
    }
    proof {
        assert(all.take(i as int) =~= all);
    }
    text.append("]");
    text
}

/// Puts a projected text in the place of a list of JSON values.
pub fn project_json(values: &Vec<String>, projected: &str) -> (r: Vec<String>)
    ensures
        texts(r@) == projected_values(texts(values@), projected@),
{
    if same_text(projected, json_values_text(values).as_str()) {
        copy_texts(values)
    } else {
        let mut out: Vec<String> = Vec::new();
        out.push(json_string_text(projected));
        proof {
            assert(texts(out@) =~= seq![json_string(projected@)]);
        }
        out
    }
}

/// The texts of an event that are projected, in order.
pub open spec fn event_texts(event: EventMsg) -> Seq<Seq<char>> {
    match event {
        EventMsg::ItemCompleted { item, .. } => item_texts(item),
        EventMsg::McpToolCallEnd { result: Ok(result), .. } => result_texts(result),
        EventMsg::ExecCommandEnd { stdout, stderr, aggregated_output, formatted_output, .. } => seq![
            stdout@,
            stderr@,
            aggregated_output@,
            formatted_output@,
        ],
        EventMsg::PatchApplyEnd { stdout, stderr, .. } => seq![stdout@, stderr@],
        EventMsg::WebSearchEnd { results: Some(values), .. } => seq![values_text(texts(values@))],
        _ => seq![],
    }
}

/// A text that may be missing, as a list.
pub open spec fn optional_list(text: Option<Seq<char>>) -> Seq<Seq<char>> {
    match text {
        Some(text) => seq![text],
        None => seq![],
    }
}

/// The texts of an MCP result that are projected.
pub open spec fn result_texts(result: CallToolResult) -> Seq<Seq<char>> {
    optional_list(mcp_text(texts(result.content@))) + optional_list(
        optional_text(result.structured_content),
    )
}

/// The texts of the parts of what a dynamic tool returned.
pub open spec fn dynamic_texts(items: Seq<DynamicToolCallOutputContentItem>) -> Seq<Seq<char>>
    decreases items.len(),
{
    if items.len() == 0 {
        seq![]
    } else {
        let before = dynamic_texts(items.drop_last());
        match items.last() {
            DynamicToolCallOutputContentItem::InputText { text } => before.push(text@),
            DynamicToolCallOutputContentItem::Media { .. } => before,
        }
    }
}

/// The texts of a step that are projected, in order.
pub open spec fn item_texts(item: TurnItem) -> Seq<Seq<char>> {
    match item {
        TurnItem::CommandExecution {
            stdout,
            stderr,
            aggregated_output,
            formatted_output,
            ..
        } => optional_list(optional_text(stdout)) + optional_list(optional_text(stderr))
            + optional_list(optional_text(aggregated_output)) + optional_list(
            optional_text(formatted_output),
        ),
        TurnItem::FileChange { stdout, stderr, .. } => optional_list(optional_text(stdout))
            + optional_list(optional_text(stderr)),
        TurnItem::DynamicToolCall { content_items, error, .. } => (match content_items {
            Some(items) => dynamic_texts(items@),
            None => seq![],
        }) + optional_list(optional_text(error)),
        TurnItem::McpToolCall { result: Some(result), .. } => result_texts(result),
        TurnItem::WebSearch { results: Some(values), .. } => seq![values_text(texts(values@))],
        _ => seq![],
    }
}

fn push_optional(out: &mut Vec<String>, text: &Option<String>)
    ensures
        texts(final(out)@) == texts(old(out)@) + optional_list(optional_text(*text)),
{
    if let Some(text) = text {
        out.push(text.clone());
        proof {
            assert(texts(out@) =~= texts(old(out)@) + seq![text@]);
        }
    } else {
        proof {
            assert(texts(out@) =~= texts(old(out)@) + Seq::<Seq<char>>::empty());
        }
    }
}

fn push_result(out: &mut Vec<String>, result: &CallToolResult)
    ensures
        texts(final(out)@) == texts(old(out)@) + result_texts(*result),
{
    let text = mcp_result_text(result);
    push_optional(out, &text);
    push_optional(out, &result.structured_content);
    proof {
        assert(texts(out@) =~= texts(old(out)@) + result_texts(*result));
    }
}

fn push_dynamic(out: &mut Vec<String>, items: &Vec<DynamicToolCallOutputContentItem>)
    ensures
        texts(final(out)@) == texts(old(out)@) + dynamic_texts(items@),
{
    let mut i: usize = 0;
    let ghost start = texts(out@);
    proof {
        assert(items@.take(0) =~= Seq::<DynamicToolCallOutputContentItem>::empty());
        assert(start =~= start + dynamic_texts(items@.take(0)));
    }
    while i < items.len()
        invariant
            i <= items@.len(),
            start == texts(old(out)@),
            texts(out@) == start + dynamic_texts(items@.take(i as int)),
        decreases items@.len() - i,
    {
        let ghost before = out@;
        proof {
            assert(items@.take(i + 1).drop_last() =~= items@.take(i as int));
        }
        if let DynamicToolCallOutputContentItem::InputText { text } = &items[i] {
            out.push(text.clone());
            proof {
                assert(texts(out@) =~= texts(before).push(text@));
                assert(texts(out@) =~= start + dynamic_texts(items@.take(i + 1)));
            }
        }
        i += 1;
    }
    proof {
        assert(items@.take(i as int) =~= items@);
    }
}

fn push_values(out: &mut Vec<String>, values: &Option<Vec<String>>)
    ensures
        texts(final(out)@) == texts(old(out)@) + (match values {
            Some(values) => seq![values_text(texts(values@))],
            None => seq![],
        }),
{
    if let Some(values) = values {
        let text = json_values_text(values);
        out.push(text);
        proof {
            assert(texts(out@) =~= texts(old(out)@) + seq![values_text(texts(values@))]);
        }
    } else {
        proof {
            assert(texts(out@) =~= texts(old(out)@) + Seq::<Seq<char>>::empty());
        }
    }
}

/// The texts of an event that are projected, in order.
pub fn projectable_texts(event: &EventMsg) -> (r: Vec<String>)
    ensures
        texts(r@) == event_texts(*event),
{
    let mut out: Vec<String> = Vec::new();
    proof {
        assert(texts(out@) =~= Seq::<Seq<char>>::empty());
    }
    match event {
        EventMsg::ItemCompleted { item, .. } => {
            match item {
                TurnItem::CommandExecution {
                    stdout,
                    stderr,
                    aggregated_output,
                    formatted_output,
                    ..
                } => {
                    push_optional(&mut out, stdout);
                    push_optional(&mut out, stderr);
                    push_optional(&mut out, aggregated_output);
                    push_optional(&mut out, formatted_output);
                },
                TurnItem::FileChange { stdout, stderr, .. } => {
                    push_optional(&mut out, stdout);
                    push_optional(&mut out, stderr);
                },
                TurnItem::DynamicToolCall { content_items, error, .. } => {
                    if let Some(items) = content_items {
                        push_dynamic(&mut out, items);
                    }
                    push_optional(&mut out, error);
                },
                TurnItem::McpToolCall { result, .. } => {
                    if let Some(result) = result {
                        push_result(&mut out, result);
                    }
                },
                TurnItem::WebSearch { results, .. } => {
                    push_values(&mut out, results);
                },
                TurnItem::Other { .. } => {},
            }
        },
        EventMsg::McpToolCallEnd { result, .. } => {
            if let Ok(result) = result {
                push_result(&mut out, result);
            }
        },
        EventMsg::ExecCommandEnd { stdout, stderr, aggregated_output, formatted_output, .. } => {
            out.push(stdout.clone());
            out.push(stderr.clone());
            out.push(aggregated_output.clone());
            out.push(formatted_output.clone());
        },
        EventMsg::PatchApplyEnd { stdout, stderr, .. } => {
            out.push(stdout.clone());
            out.push(stderr.clone());
        },
        EventMsg::WebSearchEnd { results, .. } => {
            push_values(&mut out, results);
        },
        EventMsg::Other { .. } => {},
    }
    proof {
        assert(texts(out@) =~= event_texts(*event));
    }
    out
}

/// Whether two optional texts are both there or both missing.
pub open spec fn both(a: Option<String>, b: Option<String>) -> bool {
    a is Some == b is Some
}

/// Whether two lists have texts in the same places, and the same parts elsewhere.
pub open spec fn same_but_text(
    a: Seq<DynamicToolCallOutputContentItem>,
    b: Seq<DynamicToolCallOutputContentItem>,
) -> bool {
    &&& a.len() == b.len()
    &&& forall|i: int|
        0 <= i < a.len() ==> ((#[trigger] a[i]) is InputText == b[i] is InputText) && (!(a[i]
            is InputText) ==> a[i] == b[i])
}

/// Whether an MCP result holds these texts in place of its own.
pub open spec fn result_projected(
    before: CallToolResult,
    after: CallToolResult,
    projected: Seq<Seq<char>>,
) -> bool {
    let joined = mcp_text(texts(before.content@));
    let place: int = if joined is Some {
        1
    } else {
        0
    };
    &&& texts(after.content@) == projected_parts(
        texts(before.content@),
        if joined is Some {
            Some(projected[0])
        } else {
            None
        },
    )
    &&& optional_text(after.structured_content) == (match before.structured_content {
        Some(value) => Some(projected_value(value@, projected[place])),
        None => None,
    })
}

/// Whether a list of JSON values holds this text in its place.
pub open spec fn values_projected(
    before: Option<Vec<String>>,
    after: Option<Vec<String>>,
    projected: Seq<Seq<char>>,
) -> bool {
    match before {
        Some(values) => after matches Some(kept) && texts(kept@) == projected_values(
            texts(values@),
            projected[0],
        ),
        None => after is None,
    }
}

/// Whether a step holds these texts in place of its own, and is the same otherwise.
pub open spec fn item_projected(
    before: TurnItem,
    after: TurnItem,
    projected: Seq<Seq<char>>,
) -> bool {
    match (before, after) {
        (
            TurnItem::CommandExecution {
                stdout: a,
                stderr: b,
                aggregated_output: c,
                formatted_output: d,
                details: e,
            },
            TurnItem::CommandExecution {
                stdout: v,
                stderr: w,
                aggregated_output: x,
                formatted_output: y,
                details: z,
            },
        ) => both(a, v) && both(b, w) && both(c, x) && both(d, y) && e == z && item_texts(after)
            == projected,
        (
            TurnItem::FileChange { stdout: a, stderr: b, details: c },
            TurnItem::FileChange { stdout: x, stderr: y, details: z },
        ) => both(a, x) && both(b, y) && c == z && item_texts(after) == projected,
        (
            TurnItem::DynamicToolCall { content_items: a, error: b, details: c },
            TurnItem::DynamicToolCall { content_items: x, error: y, details: z },
        ) => {
            &&& match (a, x) {
                (Some(a), Some(x)) => same_but_text(a@, x@),
                (None, None) => true,
                _ => false,
            }
            &&& both(b, y) && c == z && item_texts(after) == projected
        },
        (
            TurnItem::McpToolCall { result: Some(a), details: b },
            TurnItem::McpToolCall { result: Some(x), details: y },
        ) => result_projected(a, x, projected) && b == y,
        (
            TurnItem::WebSearch { results: a, details: b },
            TurnItem::WebSearch { results: x, details: y },
        ) => values_projected(a, x, projected) && b == y,
        (before, after) => before == after,
    }
}

/// Whether an event holds these texts in place of its own, and is the same otherwise.
pub open spec fn event_projected(
    before: EventMsg,
    after: EventMsg,
    projected: Seq<Seq<char>>,
) -> bool {
    match (before, after) {
        (
            EventMsg::ItemCompleted { item: a, details: b },
            EventMsg::ItemCompleted { item: x, details: y },
        ) => item_projected(a, x, projected) && b == y,
        (
            EventMsg::McpToolCallEnd { result: Ok(a), details: b },
            EventMsg::McpToolCallEnd { result: Ok(x), details: y },
        ) => result_projected(a, x, projected) && b == y,
        (
            EventMsg::ExecCommandEnd { details: a, .. },
            EventMsg::ExecCommandEnd { details: x, .. },
        ) => a == x && event_texts(after) == projected,
        (
            EventMsg::PatchApplyEnd { details: a, .. },
            EventMsg::PatchApplyEnd { details: x, .. },
        ) => a == x && event_texts(after) == projected,
        (
            EventMsg::WebSearchEnd { results: a, details: b },
            EventMsg::WebSearchEnd { results: x, details: y },
        ) => values_projected(a, x, projected) && b == y,
        (before, after) => before == after,
    }
}

fn replace_optional(text: Option<String>, projected: &Vec<String>, at: &mut usize) -> (r: Option<
    String,
>)
    requires
        *old(at) + optional_list(optional_text(text)).len() <= projected@.len(),
    ensures
        both(text, r),
        *final(at) == *old(at) + optional_list(optional_text(text)).len(),
        optional_list(optional_text(r)) == texts(projected@).subrange(
            *old(at) as int,
            *final(at) as int,
        ),
{
    let ghost all = texts(projected@);
    let _total: usize = projected.len();
    match text {
        Some(_) => {
            let replacement = projected[*at].clone();
            *at = *at + 1;
            proof {
                assert(all.subrange(*old(at) as int, *at as int) =~= seq![replacement@]);
            }
            Some(replacement)
        },
        None => {
            proof {
                assert(all.subrange(*old(at) as int, *at as int) =~= Seq::<Seq<char>>::empty());
            }
            None
        },
    }
}

fn replace_dynamic(
    items: &Vec<DynamicToolCallOutputContentItem>,
    projected: &Vec<String>,
    at: &mut usize,
) -> (r: Vec<DynamicToolCallOutputContentItem>)
    requires
        *old(at) + dynamic_texts(items@).len() <= projected@.len(),
    ensures
        same_but_text(items@, r@),
        *final(at) == *old(at) + dynamic_texts(items@).len(),
        dynamic_texts(r@) == texts(projected@).subrange(*old(at) as int, *final(at) as int),
{
    let ghost all = texts(projected@);
    let ghost start = *at as int;
    let total: usize = projected.len();
    let mut out: Vec<DynamicToolCallOutputContentItem> = Vec::new();
    let mut i: usize = 0;
    proof {
        assert(all.subrange(start, start) =~= Seq::<Seq<char>>::empty());
        assert(items@.take(0) =~= Seq::<DynamicToolCallOutputContentItem>::empty());
    }
    while i < items.len()
        invariant
            i <= items@.len(),
            all == texts(projected@),
            start + dynamic_texts(items@).len() <= total,
            total == projected@.len(),
            *at == start + dynamic_texts(items@.take(i as int)).len(),
            same_but_text(items@.take(i as int), out@),
            dynamic_texts(out@) == all.subrange(start, *at as int),
            start >= 0,
        decreases items@.len() - i,
    {
        let ghost made = out@;
        proof {
            assert(items@.take(i + 1).drop_last() =~= items@.take(i as int));
            dynamic_texts_grow(items@, i + 1);
        }
        match &items[i] {
            DynamicToolCallOutputContentItem::InputText { .. } => {
                let text = projected[*at].clone();
                *at = *at + 1;
                out.push(DynamicToolCallOutputContentItem::InputText { text });
            },
            DynamicToolCallOutputContentItem::Media { json } => {
                out.push(DynamicToolCallOutputContentItem::Media { json: json.clone() });
            },
        }
        i += 1;
        proof {
            assert(out@.drop_last() =~= made);
            assert(dynamic_texts(out@) =~= all.subrange(start, *at as int));
            let taken = items@.take(i as int);
            assert forall|k: int| 0 <= k < taken.len() implies ((#[trigger] taken[k]) is InputText
                == out@[k] is InputText) && (!(taken[k] is InputText) ==> taken[k] == out@[k]) by {
                if k < i - 1 {
                    assert(taken[k] == items@.take(i - 1)[k]);
                    assert(out@[k] == made[k]);
                }
            }
        }
    }
    proof {
        assert(items@.take(i as int) =~= items@);
    }
    out
}

proof fn dynamic_texts_grow(items: Seq<DynamicToolCallOutputContentItem>, n: int)
    requires
        0 <= n <= items.len(),
    ensures
        dynamic_texts(items.take(n)).len() <= dynamic_texts(items).len(),
    decreases items.len(),
{
    if n == items.len() {
        assert(items.take(n) =~= items);
    } else {
        dynamic_texts_grow(items.drop_last(), n);
        assert(items.drop_last().take(n) =~= items.take(n));
    }
}

fn replace_result(result: CallToolResult, projected: &Vec<String>) -> (r: CallToolResult)
    requires
        projected@.len() == result_texts(result).len(),
    ensures
        result_projected(result, r, texts(projected@)),
{
    let joined = mcp_result_text(&result);
    let place: usize = if joined.is_some() {
        1
    } else {
        0
    };
    let text: Option<&str> = if joined.is_some() {
        Some(projected[0].as_str())
    } else {
        None
    };
    let structured: Option<&str> = if result.structured_content.is_some() {
        Some(projected[place].as_str())
    } else {
        None
    };
    project_mcp(&result, text, structured)
}

fn replace_values(values: Option<Vec<String>>, projected: &Vec<String>) -> (r: Option<Vec<String>>)
    requires
        values is Some ==> projected@.len() == 1,
    ensures
        values_projected(values, r, texts(projected@)),
{
    match values {
        Some(values) => Some(project_json(&values, projected[0].as_str())),
        None => None,
    }
}

/// Puts projected texts into an event; everything else stays as it is.
pub fn project_event_msg(event: EventMsg, projected: &Vec<String>) -> (r: EventMsg)
    requires
        projected@.len() == event_texts(event).len(),
    ensures
        event_projected(event, r, texts(projected@)),
{
    let ghost all = texts(projected@);
    match event {
        EventMsg::ItemCompleted { item, details } => EventMsg::ItemCompleted {
            item: project_turn_item(item, projected),
            details,
        },
        EventMsg::McpToolCallEnd { result, details } => match result {
            Ok(result) => EventMsg::McpToolCallEnd {
                result: Ok(replace_result(result, projected)),
                details,
            },
            Err(error) => EventMsg::McpToolCallEnd { result: Err(error), details },
        },
        EventMsg::ExecCommandEnd { details, .. } => {
            let after = EventMsg::ExecCommandEnd {
                stdout: projected[0].clone(),
                stderr: projected[1].clone(),
                aggregated_output: projected[2].clone(),
                formatted_output: projected[3].clone(),
                details,
            };
            proof {
                assert(event_texts(after) =~= all);
            }
            after
        },
        EventMsg::PatchApplyEnd { details, .. } => {
            let after = EventMsg::PatchApplyEnd {
                stdout: projected[0].clone(),
                stderr: projected[1].clone(),
                details,
            };
            proof {
                assert(event_texts(after) =~= all);
            }
            after
        },
        EventMsg::WebSearchEnd { results, details } => EventMsg::WebSearchEnd {
            results: replace_values(results, projected),
            details,
        },
        EventMsg::Other { details } => EventMsg::Other { details },
    }
}

fn project_turn_item(item: TurnItem, projected: &Vec<String>) -> (r: TurnItem)
    requires
        projected@.len() == item_texts(item).len(),
    ensures
        item_projected(item, r, texts(projected@)),
{
    let ghost all = texts(projected@);
    let mut at: usize = 0;
    match item {
        TurnItem::CommandExecution {
            stdout,
            stderr,
            aggregated_output,
            formatted_output,
            details,
        } => {
            let stdout = replace_optional(stdout, projected, &mut at);
            let stderr = replace_optional(stderr, projected, &mut at);
            let aggregated_output = replace_optional(aggregated_output, projected, &mut at);
            let formatted_output = replace_optional(formatted_output, projected, &mut at);
            let after = TurnItem::CommandExecution {
                stdout,
                stderr,
                aggregated_output,
                formatted_output,
                details,
            };
            proof {
                assert(item_texts(after) =~= all);
            }
            after
        },
        TurnItem::FileChange { stdout, stderr, details } => {
            let stdout = replace_optional(stdout, projected, &mut at);
            let stderr = replace_optional(stderr, projected, &mut at);
            let after = TurnItem::FileChange { stdout, stderr, details };
            proof {
                assert(item_texts(after) =~= all);
            }
            after
        },
        TurnItem::DynamicToolCall { content_items, error, details } => {
            let content_items = match content_items {
                Some(items) => Some(replace_dynamic(&items, projected, &mut at)),
                None => None,
            };
            let error = replace_optional(error, projected, &mut at);
            let after = TurnItem::DynamicToolCall { content_items, error, details };
            proof {
                assert(item_texts(after) =~= all);
            }
            after
        },
        TurnItem::McpToolCall { result, details } => match result {
            Some(result) => TurnItem::McpToolCall {
                result: Some(replace_result(result, projected)),
                details,
            },
            None => TurnItem::McpToolCall { result: None, details },
        },
        TurnItem::WebSearch { results, details } => TurnItem::WebSearch {
            results: replace_values(results, projected),
            details,
        },
        TurnItem::Other { details } => TurnItem::Other { details },
    }
}

/// What needed no shortening stands unchanged in its place.
pub proof fn fitting_values_stay(values: Seq<Seq<char>>, parts: Seq<Seq<char>>, value: Seq<char>)
    ensures
        projected_values(values, values_text(values)) == values,
        projected_parts(parts, mcp_text(parts)) == parts,
        projected_value(value, value) == value,
{
}

} // verus!

//! What the file reader hands back: a text for the model, and a log line that says nothing of
//! the file.

use vstd::prelude::*;
use vstd::string::*;

use crate::artifact_id::{artifact_id_of, OutputArtifactId};
use crate::json::{
    json_members, json_read, member, object_text, unsigned_member, with_member, JsonModel,
    JsonObject, JsonValue, Members,
};
use crate::protocol::{FunctionCallError, ToolOutputProvenance};
use crate::text::{byte_len, utf8_len};

verus! {

/// The content type of a response.
pub const FILE_READ_CONTENT_TYPE: &'static str = "application/vnd.codex.file-read+json";

/// The result of a read.
#[derive(Debug)]
pub struct ReadFileToolOutput {
    text: String,
    managed: bool,
    rule: &'static str,
}

/// The members of the window that a response holds; none where it holds no window.
pub open spec fn window_members(text: Seq<char>) -> Members {
    match json_members(text) {
        Some(members) => match member(members, "window"@) {
            Some(JsonModel::Raw(window)) => match json_members(window) {
                Some(members) => members,
                None => seq![],
            },
            _ => seq![],
        },
        None => seq![],
    }
}

/// A number of the window that a response holds, or zero.
pub open spec fn window_number(text: Seq<char>, key: Seq<char>) -> u64 {
    match unsigned_member(window_members(text), key) {
        Some(n) => n,
        None => 0,
    }
}

/// The size of the window that a response holds.
pub open spec fn window_size(text: Seq<char>) -> u64 {
    let start = window_number(text, "start_byte"@);
    let end = window_number(text, "end_byte"@);
    if start < end {
        (end - start) as u64
    } else {
        0
    }
}

/// The number of lines that a response names, as it stands there.
pub open spec fn named_fragments(text: Seq<char>) -> JsonModel {
    match member(window_members(text), "line_fragments"@) {
        Some(value) => value,
        None => JsonModel::Null,
    }
}

/// What is logged of a response.
pub open spec fn read_log(text: Seq<char>, managed: bool, rule: Seq<char>) -> Members {
    with_member(
        with_member(
            with_member(
                with_member(
                    with_member(
                        with_member(seq![], "tool_family"@, JsonModel::Text("read_file"@)),
                        "rule"@,
                        JsonModel::Text(rule),
                    ),
                    "outcome"@,
                    JsonModel::Text(
                        if managed {
                            "artifact"@
                        } else {
                            "inline"@
                        },
                    ),
                ),
                "serialized_bytes"@,
                JsonModel::Unsigned(utf8_len(text) as u64),
            ),
            "window_bytes"@,
            JsonModel::Unsigned(window_size(text)),
        ),
        "line_fragments"@,
        named_fragments(text),
    )
}

fn window_object(text: &str) -> (r: JsonObject)
    ensures
        r@ == window_members(text@),
{
    if let Some(object) = JsonObject::parse(text) {
        if let Some(JsonValue::Raw(window)) = object.get("window") {
            if let Some(window) = JsonObject::parse(window.as_str()) {
                return window;
            }
        }
    }
    JsonObject::new()
}

impl ReadFileToolOutput {
    /// The text for the model.
    pub closed spec fn spec_text(&self) -> Seq<char> {
        self.text@
    }

    /// Whether the text refers to a stored result.
    pub closed spec fn spec_managed(&self) -> bool {
        self.managed
    }

    /// The rule that chose the text.
    pub closed spec fn spec_rule(&self) -> Seq<char> {
        self.rule@
    }

    /// A result; a text that is no JSON is refused.
    pub fn new(text: String, managed_artifact: bool, rule: &'static str) -> (r: Result<
        ReadFileToolOutput,
        FunctionCallError,
    >)
        ensures
            (match r {
                Ok(output) => {
                    &&& json_read(text@) is Ok
                    &&& output.spec_text() == text@
                    &&& output.spec_managed() == managed_artifact
                    &&& output.spec_rule() == rule@
                },
                Err(error) => json_read(text@) matches Err(fault) && error@
                    == "read_file produced an invalid structured result: "@ + fault,
            }),
    {
        match JsonObject::read(text.as_str()) {
            Ok(_) => Ok(ReadFileToolOutput { text, managed: managed_artifact, rule }),
            Err(fault) => {
                let mut message = String::from_str(
                    "read_file produced an invalid structured result: ",
                );
                message.append(fault.as_str());
                Err(FunctionCallError::RespondToModel(message))
            },
        }
    }

    /// The text for the model, which is also the structured result.
    pub fn text(&self) -> (r: &str)
        ensures
            r@ == self.spec_text(),
    {
        self.text.as_str()
    }

    /// The rule that chose the text.
    pub fn rule(&self) -> (r: &'static str)
        ensures
            r@ == self.spec_rule(),
    {
        self.rule
    }

    /// Whether the call succeeded: every result is one.
    pub fn success_for_logging(&self) -> (r: bool)
        ensures
            r,
    {
        true
    }

    /// Where the text comes from: only a reference to a stored result is trusted.
    pub fn provenance(&self) -> (r: ToolOutputProvenance)
        ensures
            r == (if self.spec_managed() {
                ToolOutputProvenance::ManagedArtifactReference
            } else {
                ToolOutputProvenance::Untrusted
            }),
    {
        if self.managed {
            ToolOutputProvenance::ManagedArtifactReference
        } else {
            ToolOutputProvenance::Untrusted
        }
    }

    /// The size of the text.
    pub fn response_size(&self) -> (r: usize)
        ensures
            r == utf8_len(self.spec_text()),
    {
        byte_len(self.text.as_str())
    }

    /// The size of the window that the text holds.
    pub fn window_bytes(&self) -> (r: u64)
        ensures
            r == window_size(self.spec_text()),
    {
        let window = window_object(self.text.as_str());
        let start: u64 = match window.get_unsigned("start_byte") {
            Some(n) => n,
            None => 0,
        };
        let end: u64 = match window.get_unsigned("end_byte") {
            Some(n) => n,
            None => 0,
        };
        end.saturating_sub(start)
    }

    /// What is logged: the rule, the outcome and sizes, nothing of the file or of its path.
    pub fn log_output(&self) -> (r: String)
        ensures
            r@ == object_text(
                read_log(self.spec_text(), self.spec_managed(), self.spec_rule()),
            ),
    {
        let mut value = JsonObject::new();
        value.set_text("tool_family", "read_file");
        value.set_text("rule", self.rule);
        value.set_text(
            "outcome",
            if self.managed {
                "artifact"
            } else {
                "inline"
            },
        );
        value.set("serialized_bytes", JsonValue::Unsigned(self.response_size() as u64));
        value.set("window_bytes", JsonValue::Unsigned(self.window_bytes()));
        let window = window_object(self.text.as_str());
        let fragments = match window.get("line_fragments") {
            Some(fragments) => fragments.clone(),
            None => JsonValue::Null,
        };
        value.set("line_fragments", fragments);
        value.to_text()
    }
}

/// The digest by which equal responses are recognised.
pub fn inline_result_digest(text: &str) -> (r: String)
    ensures
        r@ == artifact_id_of(text@),
{
    OutputArtifactId::for_text(text).as_str().to_owned()
}

} // verus!

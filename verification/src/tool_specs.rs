//! How the reading tools are described to the model.

use vstd::prelude::*;
use vstd::string::*;

verus! {

/// The name of the file reader.
pub const READ_FILE_TOOL_NAME: &'static str = "read_file";

/// What a parameter holds.
#[derive(Clone, Copy, Debug, PartialEq, Eq, Structural)]
pub enum ParameterKind {
    Text,
    Integer,
    Boolean,
    /// One of the ways to read a stored output: `bytes`, `lines` or `search`.
    RetrievalMode,
}

/// One parameter of a tool.
#[derive(Clone, Copy, Debug)]
pub struct ToolParameter {
    pub name: &'static str,
    pub kind: ParameterKind,
    pub description: Option<&'static str>,
    pub required: bool,
}

/// The model of a [`ToolParameter`].
pub struct ParameterModel {
    pub name: Seq<char>,
    pub kind: ParameterKind,
    pub description: Option<Seq<char>>,
    pub required: bool,
}

impl View for ToolParameter {
    type V = ParameterModel;

    open spec fn view(&self) -> ParameterModel {
        ParameterModel {
            name: self.name@,
            kind: self.kind,
            description: match self.description {
                Some(text) => Some(text@),
                None => None,
            },
            required: self.required,
        }
    }
}

/// How a tool is described. No parameters other than the listed ones are allowed.
#[derive(Debug)]
pub struct ToolDescription {
    pub name: &'static str,
    pub description: &'static str,
    pub parameters: Vec<ToolParameter>,
    /// The JSON schema of what the tool returns.
    pub output_schema: Option<&'static str>,
}

/// The models of parameters.
pub open spec fn parameter_models(parameters: Seq<ToolParameter>) -> Seq<ParameterModel> {
    parameters.map_values(|parameter: ToolParameter| parameter@)
}

/// A parameter with its description.
pub open spec fn described(
    name: Seq<char>,
    kind: ParameterKind,
    description: Seq<char>,
    required: bool,
) -> ParameterModel {
    ParameterModel { name, kind, description: Some(description), required }
}

/// A parameter without a description.
pub open spec fn plain(name: Seq<char>, kind: ParameterKind, required: bool) -> ParameterModel {
    ParameterModel { name, kind, description: None, required }
}

/// What the file reader does.
pub const READ_FILE_DESCRIPTION: &'static str = "Read a bounded UTF-8 text window from a regular file. Use next_offset for exact byte-based continuation; read_file never returns lossy text or silently skips omitted bytes.";

/// What the reader of stored outputs does.
pub const READ_TOOL_OUTPUT_DESCRIPTION: &'static str = "Read spilled output with mode bytes (default), lines, or search. Offset is a zero-based byte except for one-based lines; line continuations may provide byte_offset, line_continuation, and scan_lines_remaining. Limit is bytes, lines, or matches. Search requires query.";

/// The JSON schema of what the file reader returns: a window, or a reference to a stored one.
pub const FILE_READ_OUTPUT_SCHEMA: &'static str = "{\"oneOf\":[{\"additionalProperties\":false,\"properties\":{\"continuation\":{\"type\":[\"string\",\"null\"]},\"eof\":{\"type\":\"boolean\"},\"fingerprint\":{\"additionalProperties\":false,\"properties\":{\"modified_at_ms\":{\"type\":\"integer\"},\"size_bytes\":{\"type\":\"integer\"},\"window_digest\":{\"type\":\"string\"}},\"required\":[\"size_bytes\",\"modified_at_ms\",\"window_digest\"],\"type\":\"object\"},\"next_offset\":{\"type\":[\"integer\",\"null\"]},\"path\":{\"type\":\"string\"},\"type\":{\"const\":\"file_read\"},\"version\":{\"type\":\"integer\"},\"window\":{\"additionalProperties\":false,\"properties\":{\"end_byte\":{\"type\":\"integer\"},\"line_continues\":{\"type\":\"boolean\"},\"line_fragments\":{\"type\":\"integer\"},\"start_byte\":{\"type\":\"integer\"},\"text\":{\"type\":\"string\"}},\"required\":[\"start_byte\",\"end_byte\",\"text\",\"line_fragments\",\"line_continues\"],\"type\":\"object\"}},\"required\":[\"type\",\"version\",\"path\",\"fingerprint\",\"window\",\"next_offset\",\"eof\",\"continuation\"],\"type\":\"object\"},{\"additionalProperties\":false,\"properties\":{\"approximate_tokens\":{\"type\":\"integer\"},\"artifact_id\":{\"type\":\"string\"},\"content_type\":{\"type\":\"string\"},\"digest\":{\"type\":\"string\"},\"original_bytes\":{\"type\":\"integer\"},\"original_lines\":{\"type\":\"integer\"},\"preview\":{\"additionalProperties\":false,\"properties\":{\"head\":{\"type\":\"string\"},\"tail\":{\"type\":\"string\"}},\"required\":[\"head\",\"tail\"],\"type\":\"object\"},\"retrieval\":{\"type\":\"string\"},\"type\":{\"const\":\"tool_output_artifact\"},\"version\":{\"const\":1}},\"required\":[\"type\",\"artifact_id\"],\"type\":\"object\"}]}";

/// The parameters of the file reader, in order of their names.
pub open spec fn read_file_parameters(include_environment_id: bool) -> Seq<ParameterModel> {
    (if include_environment_id {
        seq![
            described(
                "environment_id"@,
                ParameterKind::Text,
                "Environment id from <environment_context>. Omit to use the primary environment."@,
                false,
            ),
        ]
    } else {
        seq![]
    }) + seq![
        described(
            "max_bytes"@,
            ParameterKind::Integer,
            "Maximum serialized response size in bytes; defaults to 32768 and cannot exceed 131072. The model-facing result is conservatively capped at 8192 bytes including its metadata."@,
            false,
        ),
        described(
            "max_lines"@,
            ParameterKind::Integer,
            "Maximum returned line fragments; defaults to 200 and cannot exceed 2000."@,
            false,
        ),
        described(
            "offset"@,
            ParameterKind::Integer,
            "Zero-based byte offset from a previous read_file next_offset; defaults to 0."@,
            false,
        ),
        described(
            "path"@,
            ParameterKind::Text,
            "Path relative to the selected environment's working directory."@,
            true,
        ),
    ]
}

/// How the file reader is described: the environment is a parameter only where there is a choice
/// of environments.
pub fn create_read_file_tool(include_environment_id: bool) -> (r: ToolDescription)
    ensures
        r.name@ == READ_FILE_TOOL_NAME@,
        r.description@ == READ_FILE_DESCRIPTION@,
        parameter_models(r.parameters@) == read_file_parameters(include_environment_id),
        r.output_schema matches Some(schema) && schema@ == FILE_READ_OUTPUT_SCHEMA@,
{
    let mut parameters: Vec<ToolParameter> = Vec::new();
    if include_environment_id {
        parameters.push(
            ToolParameter {
                name: "environment_id",
                kind: ParameterKind::Text,
                description: Some(
                    "Environment id from <environment_context>. Omit to use the primary environment.",
                ),
                required: false,
            },
        );
    }
    parameters.push(
        ToolParameter {
            name: "max_bytes",
            kind: ParameterKind::Integer,
            description: Some(
                "Maximum serialized response size in bytes; defaults to 32768 and cannot exceed 131072. The model-facing result is conservatively capped at 8192 bytes including its metadata.",
            ),
            required: false,
        },
    );
    parameters.push(
        ToolParameter {
            name: "max_lines",
            kind: ParameterKind::Integer,
            description: Some(
                "Maximum returned line fragments; defaults to 200 and cannot exceed 2000.",
            ),
            required: false,
        },
    );
    parameters.push(
        ToolParameter {
            name: "offset",
            kind: ParameterKind::Integer,
            description: Some(
                "Zero-based byte offset from a previous read_file next_offset; defaults to 0.",
            ),
            required: false,
        },
    );
    parameters.push(
        ToolParameter {
            name: "path",
            kind: ParameterKind::Text,
            description: Some("Path relative to the selected environment's working directory."),
            required: true,
        },
    );
    proof {
        assert(parameter_models(parameters@) =~= read_file_parameters(include_environment_id));
    }
    ToolDescription {
        name: READ_FILE_TOOL_NAME,
        description: READ_FILE_DESCRIPTION,
        parameters,
        output_schema: Some(FILE_READ_OUTPUT_SCHEMA),
    }
}

/// The parameters of the reader of stored outputs, in order of their names.
pub open spec fn read_tool_output_parameters() -> Seq<ParameterModel> {
    seq![
        plain("artifact_id"@, ParameterKind::Text, true),
        plain("byte_offset"@, ParameterKind::Integer, false),
        plain("limit"@, ParameterKind::Integer, false),
        plain("line_continuation"@, ParameterKind::Boolean, false),
        plain("mode"@, ParameterKind::RetrievalMode, false),
        plain("offset"@, ParameterKind::Integer, false),
        plain("query"@, ParameterKind::Text, false),
        plain("scan_continuation"@, ParameterKind::Boolean, false),
        plain("scan_lines_remaining"@, ParameterKind::Integer, false),
    ]
}

fn undescribed(name: &'static str, kind: ParameterKind, required: bool) -> (r: ToolParameter)
    ensures
        r@ == plain(name@, kind, required),
{
    ToolParameter { name, kind, description: None, required }
}

/// How the reader of stored outputs is described.
pub fn create_read_tool_output_tool() -> (r: ToolDescription)
    ensures
        r.name@ == crate::read_tool_output::TOOL_NAME@,
        r.description@ == READ_TOOL_OUTPUT_DESCRIPTION@,
        parameter_models(r.parameters@) == read_tool_output_parameters(),
        r.output_schema is None,
{
    let mut parameters: Vec<ToolParameter> = Vec::new();
    parameters.push(undescribed("artifact_id", ParameterKind::Text, true));
    parameters.push(undescribed("byte_offset", ParameterKind::Integer, false));
    parameters.push(undescribed("limit", ParameterKind::Integer, false));
    parameters.push(undescribed("line_continuation", ParameterKind::Boolean, false));
    parameters.push(undescribed("mode", ParameterKind::RetrievalMode, false));
    parameters.push(undescribed("offset", ParameterKind::Integer, false));
    parameters.push(undescribed("query", ParameterKind::Text, false));
    parameters.push(undescribed("scan_continuation", ParameterKind::Boolean, false));
    parameters.push(undescribed("scan_lines_remaining", ParameterKind::Integer, false));
    proof {
        assert(parameter_models(parameters@) =~= read_tool_output_parameters());
    }
    ToolDescription {
        name: crate::read_tool_output::TOOL_NAME,
        description: READ_TOOL_OUTPUT_DESCRIPTION,
        parameters,
        output_schema: None,
    }
}

} // verus!

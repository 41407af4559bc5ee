//! The file reader: what a call may ask for, how failures are told to the model, and how a
//! window that was read becomes a response.

use vstd::prelude::*;
use vstd::string::*;

use crate::argument_repair::ToolPayload;
use crate::io_error::{IoError, IoErrorKind};
use crate::json::{json_string, json_string_text};
use crate::numbers::{decimal, decimal_text};
use crate::protocol::{
    approx_bytes_for_tokens, bytes_for_tokens, FunctionCallError, TruncationPolicy,
};
use crate::read_file_response::{
    fit_window_to_response_budget, fitted_window, fitted_window_is_exact, render_response,
    response_base_len, response_text, widest_window, ReadBounds, DEFAULT_MAX_BYTES,
    DEFAULT_MAX_LINES, MAX_LINE_FRAGMENT_CHARS, MAX_MODEL_VISIBLE_BYTES, MAX_RESPONSE_BYTES,
    MAX_RESPONSE_LINES, MIN_REQUEST_BYTES,
};
use crate::read_file_window::{ReadFileWindow, ReadFileWindowBounds, WindowModel};
use crate::read_tool_output::value_or;
use crate::text::{byte_len, utf8_len};

verus! {

/// The longest path argument.
pub const MAX_PATH_ARGUMENT_BYTES: usize = 16384;

/// The longest environment identifier.
pub const MAX_ENVIRONMENT_ID_BYTES: usize = 4096;

/// The arguments of a call.
#[derive(Debug)]
pub struct ReadFileArgs {
    pub path: String,
    pub offset: Option<u64>,
    pub max_bytes: Option<usize>,
    pub max_lines: Option<usize>,
    pub environment_id: Option<String>,
}

/// The bounds of a call where they are allowed, or what the model is told.
pub open spec fn bounds_of(args: ReadFileArgs) -> Result<ReadBounds, Seq<char>> {
    let max_bytes = value_or(args.max_bytes, DEFAULT_MAX_BYTES);
    let max_lines = value_or(args.max_lines, DEFAULT_MAX_LINES);
    if !(MIN_REQUEST_BYTES <= max_bytes <= MAX_RESPONSE_BYTES) {
        Err("read_file max_bytes must be between 1 and 131072"@)
    } else if !(1 <= max_lines <= MAX_RESPONSE_LINES) {
        Err("read_file max_lines must be between 1 and 2000"@)
    } else {
        Ok(ReadBounds { offset: value_or(args.offset, 0), max_bytes, max_lines })
    }
}

/// The bounds of a call: sizes and line counts outside the limits are refused.
pub fn parse_bounds(args: &ReadFileArgs) -> (r: Result<ReadBounds, FunctionCallError>)
    ensures
        (match r {
            Ok(bounds) => bounds_of(*args) == Ok::<ReadBounds, Seq<char>>(bounds),
            Err(error) => bounds_of(*args) == Err::<ReadBounds, Seq<char>>(error@),
        }),
{
    let offset: u64 = match args.offset {
        Some(offset) => offset,
        None => 0,
    };
    let max_bytes: usize = match args.max_bytes {
        Some(max_bytes) => max_bytes,
        None => DEFAULT_MAX_BYTES,
    };
    let max_lines: usize = match args.max_lines {
        Some(max_lines) => max_lines,
        None => DEFAULT_MAX_LINES,
    };
    if max_bytes < MIN_REQUEST_BYTES || max_bytes > MAX_RESPONSE_BYTES {
        return Err(FunctionCallError::respond("read_file max_bytes must be between 1 and 131072"));
    }
    if max_lines < 1 || max_lines > MAX_RESPONSE_LINES {
        return Err(FunctionCallError::respond("read_file max_lines must be between 1 and 2000"));
    }
    Ok(ReadBounds { offset, max_bytes, max_lines })
}

/// What a call asks for where it is allowed, or what the model is told.
pub open spec fn plan_of(args: ReadFileArgs) -> Result<ReadBounds, Seq<char>> {
    if utf8_len(args.path@) > MAX_PATH_ARGUMENT_BYTES {
        Err("read_file path must be at most 16384 bytes"@)
    } else if args.environment_id is Some && utf8_len(args.environment_id->0@)
        > MAX_ENVIRONMENT_ID_BYTES {
        Err("read_file environment_id must be at most 4096 bytes"@)
    } else {
        bounds_of(args)
    }
}

/// What a call asks for: paths, environment identifiers and bounds outside the limits are
/// refused.
pub fn plan_read(args: &ReadFileArgs) -> (r: Result<ReadBounds, FunctionCallError>)
    ensures
        (match r {
            Ok(bounds) => plan_of(*args) == Ok::<ReadBounds, Seq<char>>(bounds),
            Err(error) => plan_of(*args) == Err::<ReadBounds, Seq<char>>(error@),
        }),
{
    if byte_len(args.path.as_str()) > MAX_PATH_ARGUMENT_BYTES {
        return Err(FunctionCallError::respond("read_file path must be at most 16384 bytes"));
    }
    if let Some(environment_id) = &args.environment_id {
        if byte_len(environment_id.as_str()) > MAX_ENVIRONMENT_ID_BYTES {
            return Err(
                FunctionCallError::respond("read_file environment_id must be at most 4096 bytes"),
            );
        }
    }
    parse_bounds(args)
}

/// The arguments of a function call; any other payload is refused.
pub fn function_arguments(payload: &ToolPayload) -> (r: Result<&str, FunctionCallError>)
    ensures
        (match r {
            Ok(text) => payload matches ToolPayload::Function { arguments } && text@
                == arguments@,
            Err(error) => !(payload is Function) && error@
                == "read_file requires function arguments"@,
        }),
{
    match payload {
        ToolPayload::Function { arguments } => Ok(arguments.as_str()),
        _ => Err(FunctionCallError::respond("read_file requires function arguments")),
    }
}

/// What the model is told where there is no environment to read in.
pub fn no_environment() -> (r: FunctionCallError)
    ensures
        r@ == "read_file is unavailable because this session has no execution environment"@,
{
    FunctionCallError::respond(
        "read_file is unavailable because this session has no execution environment",
    )
}

/// What the file system is asked for.
pub fn window_bounds(bounds: ReadBounds) -> (r: ReadFileWindowBounds)
    ensures
        r == (ReadFileWindowBounds {
            offset: bounds.offset,
            max_bytes: bounds.max_bytes,
            max_line_fragments: bounds.max_lines,
            max_line_fragment_chars: MAX_LINE_FRAGMENT_CHARS,
        }),
{
    ReadFileWindowBounds {
        offset: bounds.offset,
        max_bytes: bounds.max_bytes,
        max_line_fragments: bounds.max_lines,
        max_line_fragment_chars: MAX_LINE_FRAGMENT_CHARS,
    }
}

/// What the model is told of a failure at a path; without the path where that would be too long.
pub open spec fn path_message(path: Seq<char>, detail: Seq<char>) -> Seq<char> {
    let message = "read_file "@ + detail + " at "@ + json_string(path);
    if utf8_len(message) <= MAX_MODEL_VISIBLE_BYTES {
        message
    } else {
        "read_file could not describe the requested path within the response limit"@
    }
}

/// What the model is told of a failure at a path.
pub fn path_error(path: &str, detail: &str) -> (r: FunctionCallError)
    ensures
        r@ == path_message(path@, detail@),
{
    let mut message = String::from_str("read_file ");
    message.append(detail);
    message.append(" at ");
    message.append(json_string_text(path).as_str());
    if byte_len(message.as_str()) <= MAX_MODEL_VISIBLE_BYTES {
        FunctionCallError::RespondToModel(message)
    } else {
        FunctionCallError::respond(
            "read_file could not describe the requested path within the response limit",
        )
    }
}

/// Whatever a path and a failure say, the model is never told more than it may see.
pub proof fn path_messages_are_bounded(path: Seq<char>, detail: Seq<char>)
    ensures
        utf8_len(path_message(path, detail)) <= MAX_MODEL_VISIBLE_BYTES,
{
    reveal_strlit("read_file could not describe the requested path within the response limit");
    crate::text::utf8_len_bounds(
        "read_file could not describe the requested path within the response limit"@,
    );
}

/// What the model is told of a failure to open a file.
pub open spec fn filesystem_detail(kind: IoErrorKind) -> Seq<char> {
    match kind {
        IoErrorKind::NotFound => "could not find the file"@,
        IoErrorKind::PermissionDenied => "was denied by the filesystem sandbox"@,
        IoErrorKind::InvalidInput => "received an invalid filesystem path"@,
        _ => "could not access the file"@,
    }
}

/// What the model is told of a failure to open a file.
pub fn filesystem_error(path: &str, error: &IoError) -> (r: FunctionCallError)
    ensures
        r@ == path_message(path@, filesystem_detail(error.kind)),
{
    let detail: &'static str = match error.kind {
        IoErrorKind::NotFound => "could not find the file",
        IoErrorKind::PermissionDenied => "was denied by the filesystem sandbox",
        IoErrorKind::InvalidInput => "received an invalid filesystem path",
        _ => "could not access the file",
    };
    path_error(path, detail)
}

/// What the model is told of a failure to read a window.
pub open spec fn window_detail(error: (IoErrorKind, Seq<char>)) -> Seq<char> {
    match error.0 {
        IoErrorKind::InvalidData | IoErrorKind::InvalidInput | IoErrorKind::Interrupted => error.1,
        IoErrorKind::PermissionDenied => "the filesystem sandbox denied the read"@,
        IoErrorKind::Unsupported =>
            "the selected filesystem executor does not support efficient byte-offset reads"@,
        _ => "the streamed filesystem read failed"@,
    }
}

/// What the model is told of a failure to read a window.
pub fn read_window_error(path: &str, error: &IoError) -> (r: FunctionCallError)
    ensures
        r@ == path_message(path@, window_detail(error@)),
{
    let detail: &str = match error.kind {
        IoErrorKind::InvalidData | IoErrorKind::InvalidInput | IoErrorKind::Interrupted =>
            error.message.as_str(),
        IoErrorKind::PermissionDenied => "the filesystem sandbox denied the read",
        IoErrorKind::Unsupported =>
            "the selected filesystem executor does not support efficient byte-offset reads",
        _ => "the streamed filesystem read failed",
    };
    path_error(path, detail)
}

/// What the model is told when a snapshot of a file could not be read.
pub open spec fn snapshot_message(path: Seq<char>, error: (IoErrorKind, Seq<char>)) -> Seq<char> {
    match error.0 {
        IoErrorKind::InvalidInput => path_message(path, error.1),
        IoErrorKind::Interrupted | IoErrorKind::InvalidData | IoErrorKind::Unsupported =>
            path_message(path, window_detail(error)),
        _ => path_message(path, filesystem_detail(error.0)),
    }
}

/// What the model is told when a snapshot of a file could not be read.
pub fn snapshot_error(path: &str, error: &IoError) -> (r: FunctionCallError)
    ensures
        r@ == snapshot_message(path@, error@),
{
    match error.kind {
        IoErrorKind::InvalidInput => path_error(path, error.message.as_str()),
        IoErrorKind::Interrupted | IoErrorKind::InvalidData | IoErrorKind::Unsupported =>
            read_window_error(path, error),
        _ => filesystem_error(path, error),
    }
}

/// The most bytes of a response: what the call asks for, what the model may see, and what the
/// policies allow.
pub open spec fn response_limit(
    bounds: ReadBounds,
    policy: TruncationPolicy,
    configured_token_limit: Option<usize>,
) -> usize {
    let hard = bounds.spec_model_max_bytes();
    let model = if policy.budget() < hard {
        policy.budget()
    } else {
        hard
    };
    match configured_token_limit {
        Some(tokens) => if bytes_for_tokens(tokens) < model {
            bytes_for_tokens(tokens)
        } else {
            model
        },
        None => model,
    }
}

/// The most bytes of a response.
pub fn effective_model_response_max_bytes(
    bounds: ReadBounds,
    policy: TruncationPolicy,
    configured_token_limit: Option<usize>,
) -> (r: usize)
    ensures
        r == response_limit(bounds, policy, configured_token_limit),
{
    let mut limit: usize = bounds.model_max_bytes();
    let model: usize = policy.byte_budget();
    if model < limit {
        limit = model;
    }
    if let Some(tokens) = configured_token_limit {
        let configured: usize = approx_bytes_for_tokens(tokens);
        if configured < limit {
            limit = configured;
        }
    }
    limit
}

/// What was read of a file.
#[derive(Debug)]
pub struct FileSnapshot {
    pub file_size: u64,
    pub modified_at_ms: i64,
    pub window: ReadFileWindow,
}

/// A response that fits.
#[derive(Debug)]
pub struct InlineRead {
    pub window: ReadFileWindow,
    pub inline_result: String,
    pub response_max_bytes: usize,
}

/// The response for a snapshot: its window and its text, or what the model is told.
pub open spec fn response_of(
    path: Seq<char>,
    file_size: nat,
    modified_at_ms: int,
    window: WindowModel,
    bounds: ReadBounds,
    limit: usize,
) -> Result<(WindowModel, Seq<char>), Seq<char>> {
    let base = utf8_len(
        response_text(
            path,
            file_size,
            modified_at_ms,
            widest_window(bounds.offset, bounds.max_lines),
        ),
    );
    if limit == 0 {
        Err("read_file requires a positive output policy"@)
    } else if base > limit {
        Err(
            "read_file response metadata requires "@ + decimal(base)
                + " bytes, above the model-facing limit of "@ + decimal(limit as nat),
        )
    } else {
        match fitted_window(path, file_size, modified_at_ms, window, limit as int) {
            None => Err(
                path_message(path, "response metadata leaves no room for a UTF-8 character"@),
            ),
            Some(fitted) => {
                let text = response_text(path, file_size, modified_at_ms, fitted);
                if utf8_len(text) > limit {
                    Err(
                        "read_file could not fit a structurally valid response within max_bytes"@,
                    )
                } else {
                    Ok((fitted, text))
                }
            },
        }
    }
}

/// The response for a snapshot.
pub fn respond(
    path: &str,
    snapshot: FileSnapshot,
    bounds: ReadBounds,
    policy: TruncationPolicy,
    configured_token_limit: Option<usize>,
) -> (r: Result<InlineRead, FunctionCallError>)
    requires
        snapshot.window.start_byte + utf8_len(snapshot.window.text@) <= u64::MAX,
    ensures
        ({
            let limit = response_limit(bounds, policy, configured_token_limit);
            let response = response_of(
                path@,
                snapshot.file_size as nat,
                snapshot.modified_at_ms as int,
                snapshot.window@,
                bounds,
                limit,
            );
            match r {
                Ok(read) => {
                    &&& response matches Ok((window, text)) && read.window@ == window
                        && read.inline_result@ == text
                    &&& read.response_max_bytes == limit
                },
                Err(error) => response matches Err(message) && error@ == message,
            }
        }),
{
    let base: usize = response_base_len(
        path,
        snapshot.file_size,
        snapshot.modified_at_ms,
        bounds.offset,
        bounds.max_lines,
    );
    let limit: usize = effective_model_response_max_bytes(bounds, policy, configured_token_limit);
    if limit == 0 {
        return Err(FunctionCallError::respond("read_file requires a positive output policy"));
    }
    if base > limit {
        let mut message = String::from_str("read_file response metadata requires ");
        message.append(decimal_text(base as u64).as_str());
        message.append(" bytes, above the model-facing limit of ");
        message.append(decimal_text(limit as u64).as_str());
        return Err(FunctionCallError::RespondToModel(message));
    }
    let window = match fit_window_to_response_budget(
        path,
        snapshot.file_size,
        snapshot.modified_at_ms,
        snapshot.window,
        limit,
    ) {
        Ok(window) => window,
        Err(error) => {
            return Err(read_window_error(path, &error));
        },
    };
    let inline_result = render_response(
        path,
        snapshot.file_size,
        snapshot.modified_at_ms,
        &window,
    );
    if byte_len(inline_result.as_str()) > limit {
        return Err(
            FunctionCallError::respond(
                "read_file could not fit a structurally valid response within max_bytes",
            ),
        );
    }
    Ok(InlineRead { window, inline_result, response_max_bytes: limit })
}

/// A response never is larger than what the call, the model and the policies allow, and what it
/// holds of the file goes on without a gap where the next call is told to go on.
pub proof fn responses_are_bounded(
    path: Seq<char>,
    file_size: nat,
    modified_at_ms: int,
    window: WindowModel,
    bounds: ReadBounds,
    policy: TruncationPolicy,
    configured_token_limit: Option<usize>,
)
    requires
        response_of(
            path,
            file_size,
            modified_at_ms,
            window,
            bounds,
            response_limit(bounds, policy, configured_token_limit),
        ) is Ok,
        window.end_byte == window.start_byte + utf8_len(window.text),
        window.next_offset == (if window.eof {
            None::<nat>
        } else {
            Some(window.end_byte)
        }),
    ensures
        ({
            let (fitted, text) = response_of(
                path,
                file_size,
                modified_at_ms,
                window,
                bounds,
                response_limit(bounds, policy, configured_token_limit),
            )->Ok_0;
            &&& utf8_len(text) <= bounds.max_bytes
            &&& utf8_len(text) <= MAX_MODEL_VISIBLE_BYTES
            &&& utf8_len(text) <= policy.budget()
            &&& configured_token_limit matches Some(tokens) ==> utf8_len(text) <= bytes_for_tokens(
                tokens,
            )
            &&& fitted.start_byte == window.start_byte
            &&& fitted.text.len() <= window.text.len()
            &&& fitted.text == window.text.take(fitted.text.len() as int)
            &&& window.text.len() > 0 ==> fitted.text.len() > 0
            &&& fitted.next_offset == (if fitted.eof {
                None::<nat>
            } else {
                Some(fitted.start_byte + utf8_len(fitted.text))
            })
        }),
{
    fitted_window_is_exact(
        path,
        file_size,
        modified_at_ms,
        window,
        response_limit(bounds, policy, configured_token_limit) as int,
    );
}

} // verus!

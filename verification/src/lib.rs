//! Bounded tool context for a coding agent.

use vstd::prelude::*;

pub mod argument_repair;
pub mod argument_repair_laws;
pub mod artifact_control_ids;
pub mod artifact_id;
pub mod artifact_search;
pub mod authority_coverage;
pub mod carried_control_laws;
pub mod content_items;
pub mod content_laws;
pub mod control_laws;
pub mod display_events;
pub mod display_laws;
pub mod exec_metadata;
pub mod exec_metadata_laws;
pub mod file_windows;
pub mod head_tail_buffer;
pub mod history;
pub mod inheritance;
pub mod inheritance_laws;
pub mod io_error;
pub mod json;
pub mod line_positions;
pub mod listing_laws;
pub mod numbers;
pub mod projector;
pub mod projector_laws;
pub mod protocol;
pub mod read_file;
pub mod read_file_dedup;
pub mod read_file_laws;
pub mod read_file_ledger;
pub mod read_file_output;
pub mod read_file_response;
pub mod read_file_snapshot;
pub mod read_file_window;
pub mod read_tool_output;
pub mod read_tool_output_window;
pub mod response_laws;
pub mod retention;
pub mod retrieval_laws;
pub mod rollout;
pub mod rollout_laws;
pub mod skill_line_laws;
pub mod skill_lines;
pub mod skill_policy;
pub mod skill_render;
pub mod skill_render_laws;
pub mod stored_items;
pub mod stream_laws;
pub mod text;
pub mod text_laws;
pub mod tool_output;
pub mod tool_output_laws;
pub mod tool_specs;
pub mod utf8_scan;

verus! {

} // verus!

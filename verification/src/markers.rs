//! The fixed texts of a prompt: markers, task tokens, the tools section.

use vstd::prelude::*;
use crate::text::{opt_text, same};

verus! {

/// Beginning-of-sequence marker (token id 0).
pub const BOS: &'static str = "<｜begin▁of▁sentence｜>";

/// End-of-sequence marker, closing each earlier assistant turn (token id 1).
pub const EOS: &'static str = "<｜end▁of▁sentence｜>";

/// User-turn marker (token id 128803).
pub const USER: &'static str = "<｜User｜>";

/// Assistant-turn marker, opening the generation prompt (token id 128804).
pub const ASSISTANT: &'static str = "<｜Assistant｜>";

/// Thinking-start marker: a thinking-mode assistant turn opens with it.
pub const THINK_START: &'static str = "<think>";

/// Thinking-end marker: the chat-mode generation prompt ends with it (token id 128822).
pub const THINK_END: &'static str = "</think>";

/// The token inside the tags of tool-call markup.
pub const DSML: &'static str = "｜DSML｜";

/// The preamble of the highest reasoning effort, right after [`BOS`] in thinking mode.
pub const REASONING_EFFORT_MAX: &'static str = "Reasoning Effort: Absolute maximum with no shortcuts permitted.\nYou MUST be very thorough in your thinking and comprehensively decompose the problem to resolve the root cause, rigorously stress-testing your logic against all potential paths, edge cases, and adversarial scenarios.\nExplicitly write out your entire deliberation process, documenting every intermediate step, considered alternative, and rejected hypothesis to ensure absolutely no assumption is left unchecked.\n\n";

/// The fixed text of the tools section before the tool schemas.
pub const TOOLS_PREFIX: &'static str = "## Tools\n\nYou have access to a set of tools to help answer the user's question. You can invoke tools by writing a \"<｜DSML｜tool_calls>\" block like the following:\n\n<｜DSML｜tool_calls>\n<｜DSML｜invoke name=\"$TOOL_NAME\">\n<｜DSML｜parameter name=\"$PARAMETER_NAME\" string=\"true|false\">$PARAMETER_VALUE</｜DSML｜parameter>\n...\n</｜DSML｜invoke>\n<｜DSML｜invoke name=\"$TOOL_NAME2\">\n...\n</｜DSML｜invoke>\n</｜DSML｜tool_calls>\n\nString parameters should be specified as is and set `string=\"true\"`. For all other types (numbers, booleans, arrays, objects), pass the value in JSON format and set `string=\"false\"`.\n\nIf thinking_mode is enabled (triggered by <think>), you MUST output your complete reasoning inside <think>...</think> BEFORE any tool calls or final response.\n\nOtherwise, output directly after </think> with tool calls or final response.\n\n### Available Tool Schemas\n\n";

/// The fixed text of the tools section after the tool schemas.
pub const TOOLS_SUFFIX: &'static str = "\n\nYou MUST strictly follow the above defined tool name and parameter schemas to invoke tool calls.\n";

/// The special token of a task; a task without one is not valid.
pub open spec fn task_token(task: Seq<char>) -> Option<Seq<char>> {
    if task == "action"@ {
        Some("<｜action｜>"@)
    } else if task == "query"@ {
        Some("<｜query｜>"@)
    } else if task == "authority"@ {
        Some("<｜authority｜>"@)
    } else if task == "domain"@ {
        Some("<｜domain｜>"@)
    } else if task == "title"@ {
        Some("<｜title｜>"@)
    } else if task == "read_url"@ {
        Some("<｜read_url｜>"@)
    } else {
        None
    }
}

/// The special token that follows a message which carries `task`, or `None` when
/// there is no such task.
pub fn task_sp_token(task: &str) -> (r: Option<&'static str>)
    ensures
        opt_text(r) == task_token(task@),
{
    if same(task, "action") {
        Some("<｜action｜>")
    } else if same(task, "query") {
        Some("<｜query｜>")
    } else if same(task, "authority") {
        Some("<｜authority｜>")
    } else if same(task, "domain") {
        Some("<｜domain｜>")
    } else if same(task, "title") {
        Some("<｜title｜>")
    } else if same(task, "read_url") {
        Some("<｜read_url｜>")
    } else {
        None
    }
}

} // verus!

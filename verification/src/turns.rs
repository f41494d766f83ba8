//! The turns of a conversation after its messages are merged.

use vstd::prelude::*;
use crate::json::{Json, JsonView};
use crate::text::opt_string;

verus! {

/// A tool call of an assistant turn.
#[derive(Debug)]
pub struct ToolCall {
    /// The name of the function.
    pub name: String,
    /// The arguments: a text that holds JSON, or a value.
    pub arguments: Json,
    /// The identifier by which a tool result names the call; it orders the results.
    pub id: String,
}

/// One piece of a user turn.
#[derive(Debug)]
pub enum Block {
    /// The text of a user message.
    Text(String),
    /// The result of a tool call.
    ToolResult { content: String, tool_use_id: String },
}

/// A turn: a message, or several that were merged into one.
#[derive(Debug)]
pub struct MergedMsg {
    pub role: String,
    pub content: String,
    /// The tool calls; only an assistant turn has some.
    pub tool_calls: Vec<ToolCall>,
    /// The pieces of a user turn; no other turn has them.
    pub blocks: Option<Vec<Block>>,
    /// The thinking of an assistant turn.
    pub reasoning_content: String,
    /// The task that the turn carries.
    pub task: Option<String>,
}

/// What a [`ToolCall`] stands for.
#[verifier::ext_equal]
pub struct CallView {
    pub name: Seq<char>,
    pub arguments: JsonView,
    pub id: Seq<char>,
}

/// What a [`Block`] stands for.
pub enum BlockView {
    Text(Seq<char>),
    ToolResult { content: Seq<char>, tool_use_id: Seq<char> },
}

/// What a [`MergedMsg`] stands for.
#[verifier::ext_equal]
pub struct TurnView {
    pub role: Seq<char>,
    pub content: Seq<char>,
    pub tool_calls: Seq<CallView>,
    pub blocks: Option<Seq<BlockView>>,
    pub reasoning_content: Seq<char>,
    pub task: Option<Seq<char>>,
}

impl View for ToolCall {
    type V = CallView;

    open spec fn view(&self) -> CallView {
        CallView { name: self.name@, arguments: self.arguments@, id: self.id@ }
    }
}

impl View for Block {
    type V = BlockView;

    open spec fn view(&self) -> BlockView {
        match self {
            Block::Text(t) => BlockView::Text(t@),
            Block::ToolResult { content, tool_use_id } => BlockView::ToolResult {
                content: content@,
                tool_use_id: tool_use_id@,
            },
        }
    }
}

impl View for MergedMsg {
    type V = TurnView;

    open spec fn view(&self) -> TurnView {
        TurnView {
            role: self.role@,
            content: self.content@,
            tool_calls: call_views(self.tool_calls@),
            blocks: match self.blocks {
                Some(b) => Some(block_views(b@)),
                None => None,
            },
            reasoning_content: self.reasoning_content@,
            task: opt_string(self.task),
        }
    }
}

/// What each call of a list stands for.
pub open spec fn call_views(calls: Seq<ToolCall>) -> Seq<CallView> {
    calls.map_values(|c: ToolCall| c@)
}

/// What each block of a list stands for.
pub open spec fn block_views(blocks: Seq<Block>) -> Seq<BlockView> {
    blocks.map_values(|b: Block| b@)
}

/// What each turn of a list stands for.
pub open spec fn turn_views(turns: Seq<MergedMsg>) -> Seq<TurnView> {
    turns.map_values(|m: MergedMsg| m@)
}

/// A turn with a role and nothing else.
pub open spec fn plain_turn(role: Seq<char>) -> TurnView {
    TurnView {
        role,
        content: Seq::empty(),
        tool_calls: Seq::empty(),
        blocks: None,
        reasoning_content: Seq::empty(),
        task: None,
    }
}

/// The names of the roles are all different.
pub proof fn roles_differ()
    ensures
        "system"@ != "user"@,
        "system"@ != "assistant"@,
        "system"@ != "developer"@,
        "system"@ != "tool"@,
        "system"@ != "latest_reminder"@,
        "user"@ != "assistant"@,
        "user"@ != "developer"@,
        "user"@ != "tool"@,
        "user"@ != "latest_reminder"@,
        "assistant"@ != "developer"@,
        "assistant"@ != "tool"@,
        "assistant"@ != "latest_reminder"@,
        "assistant"@ != "direct_search_results"@,
        "developer"@ != "tool"@,
        "developer"@ != "latest_reminder"@,
        "developer"@ != "direct_search_results"@,
{
    reveal_strlit("system");
    reveal_strlit("user");
    reveal_strlit("assistant");
    reveal_strlit("developer");
    reveal_strlit("tool");
    reveal_strlit("latest_reminder");
    reveal_strlit("direct_search_results");
    assert("system"@.len() == 6 && "user"@.len() == 4 && "tool"@.len() == 4);
    assert("assistant"@.len() == 9 && "developer"@.len() == 9);
    assert("latest_reminder"@.len() == 15 && "direct_search_results"@.len() == 21);
    assert("user"@[0] == 'u' && "tool"@[0] == 't');
    assert("assistant"@[0] == 'a' && "developer"@[0] == 'd');
}

impl MergedMsg {
    /// A turn with a role and nothing else.
    pub fn plain(role: &str) -> (r: MergedMsg)
        ensures
            r@ == plain_turn(role@),
            r.tool_calls@.len() == 0,
            r.blocks is None,
            r.task is None,
    {
        let r = MergedMsg {
            role: role.to_owned(),
            content: String::new(),
            tool_calls: Vec::new(),
            blocks: None,
            reasoning_content: String::new(),
            task: None,
        };
        proof {
            assert(r@.tool_calls =~= Seq::<CallView>::empty());
        }
        r
    }
}

} // verus!

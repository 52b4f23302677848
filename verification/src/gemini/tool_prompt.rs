//! The section of a prompt that tells the model which tools it can call.

use crate::json;
use crate::json::{Json, JsonView};
use crate::text;
use vstd::prelude::*;
use vstd::string::*;

verus! {

/// The block that the model writes to call a tool.
#[derive(Debug, Clone, Copy, PartialEq, Eq, Structural)]
pub enum BlockKind {
    /// A block of `tool_call`.
    ToolCall,
    /// A block of `function_call`.
    FunctionCall,
}

/// How to call a tool with a block of `tool_call`.
pub const INSTRUCTION_TOOL_CALL: &'static str =
    "# Tool Use\n\nYou have access to tools that execute in the user's local environment. To call a tool, respond with:\n```tool_call\n{\"name\": \"<tool_name>\", \"arguments\": {<arguments>}}\n```You may call multiple tools with multiple blocks in a single response. After receiving a [Tool result for ...], use that data to answer the user. Only use tool_call blocks when the user's request requires it.\n\nAvailable tools:";

/// How to call a tool with a block of `function_call`.
pub const INSTRUCTION_FUNCTION_CALL: &'static str =
    "# Tool Use\n\nYou can call the following tools to help accomplish tasks. These tools connect to the user's local environment and will execute when called.\n\nCall format (use this exact format):\n```function_call\n{\"name\": \"<tool_name>\", \"args\": {<arguments>}}\n```\n\nWhen calling tools:\n- Output ONLY the function_call block(s), nothing else\n- You may call multiple tools with multiple blocks\n- After receiving a [Tool result for ...], use that data to answer the user\n\nAvailable tools:\n";

/// How a block of the kind begins.
pub open spec fn fence_of(kind: BlockKind) -> Seq<char> {
    match kind {
        BlockKind::ToolCall => "```tool_call"@,
        BlockKind::FunctionCall => "```function_call"@,
    }
}

/// The instruction, the definitions on lines of their own, and the constraint.
pub open spec fn section_text(
    instruction: Seq<char>,
    defs: Seq<JsonView>,
    constraint: Seq<char>,
) -> Seq<char> {
    instruction + (if text::ends_with_spec(instruction, "\n"@) {
        ""@
    } else {
        "\n"@
    }) + json::json_pretty(JsonView::Array(defs)) + constraint
}

/// The section: the instruction, which shows the block of the given kind, then
/// the definitions, then the constraint.
pub fn tool_use_section(
    block_kind: BlockKind,
    instruction: &str,
    defs: &Vec<Json>,
    constraint: &str,
) -> (r: String)
    requires
        text::occurs(instruction@, fence_of(block_kind)),
    ensures
        r@ == section_text(instruction@, json::items_view(defs@), constraint@),
{
    let list = json::copy_items(defs);
    let defs_text = Json::Array(list).print_pretty();
    let mut out: String = instruction.to_owned();
    if text::ends_with(instruction, "\n") {
        out.append("");
    } else {
        out.append("\n");
    }
    out.append(defs_text.as_str());
    out.append(constraint);
    out
}

/// Each of the two instructions shows its block.
pub proof fn law_instructions_show_their_block()
    ensures
        text::occurs(INSTRUCTION_TOOL_CALL@, fence_of(BlockKind::ToolCall)),
        text::occurs(INSTRUCTION_FUNCTION_CALL@, fence_of(BlockKind::FunctionCall)),
{
    reveal_strlit("```tool_call");
    reveal_strlit("```function_call");
    reveal_strlit(
        "# Tool Use\n\nYou have access to tools that execute in the user's local environment. To call a tool, respond with:\n```tool_call\n{\"name\": \"<tool_name>\", \"arguments\": {<arguments>}}\n```You may call multiple tools with multiple blocks in a single response. After receiving a [Tool result for ...], use that data to answer the user. Only use tool_call blocks when the user's request requires it.\n\nAvailable tools:",
    );
    reveal_strlit(
        "# Tool Use\n\nYou can call the following tools to help accomplish tasks. These tools connect to the user's local environment and will execute when called.\n\nCall format (use this exact format):\n```function_call\n{\"name\": \"<tool_name>\", \"args\": {<arguments>}}\n```\n\nWhen calling tools:\n- Output ONLY the function_call block(s), nothing else\n- You may call multiple tools with multiple blocks\n- After receiving a [Tool result for ...], use that data to answer the user\n\nAvailable tools:\n",
    );
    assert(INSTRUCTION_TOOL_CALL@.subrange(113, 125) =~= "```tool_call"@);
    assert(text::matches_at(INSTRUCTION_TOOL_CALL@, "```tool_call"@, 113));
    assert(INSTRUCTION_FUNCTION_CALL@.subrange(191, 207) =~= "```function_call"@);
    assert(text::matches_at(INSTRUCTION_FUNCTION_CALL@, "```function_call"@, 191));
}

/// A tool's result, as a line of the history.
pub open spec fn result_line(name: Seq<char>, content: Seq<char>) -> Seq<char> {
    "[Tool result for "@ + name + "]: "@ + content
}

/// A tool's result, as a line of the history.
pub fn tool_result_line(name: &str, content: &str) -> (r: String)
    ensures
        r@ == result_line(name@, content@),
{
    let mut out: String = "[Tool result for ".to_owned();
    out.append(name);
    out.append("]: ");
    out.append(content);
    out
}

/// The section shows the instruction first, then every definition, printed as
/// one list, and the constraint last.
pub proof fn law_section_shows_the_definitions(
    instruction: Seq<char>,
    defs: Seq<JsonView>,
    constraint: Seq<char>,
)
    ensures
        ({
            let shown = json::json_pretty(JsonView::Array(defs));
            let section = section_text(instruction, defs, constraint);
            section == instruction + shown + constraint || section == instruction + "\n"@ + shown
                + constraint
        }),
        instruction.len() > 0 && instruction.last() == '\n' ==> section_text(
            instruction,
            defs,
            constraint,
        ) == instruction + json::json_pretty(JsonView::Array(defs)) + constraint,
        instruction.len() > 0 && instruction.last() != '\n' ==> section_text(
            instruction,
            defs,
            constraint,
        ) == instruction + "\n"@ + json::json_pretty(JsonView::Array(defs)) + constraint,
{
    reveal_strlit("\n");
    reveal_strlit("");
    let n = instruction.len() as int;
    assert(instruction + ""@ =~= instruction);
    if n > 0 {
        assert(instruction.subrange(n - 1, n)[0] == instruction.last());
        assert("\n"@[0] == '\n');
        if instruction.last() == '\n' {
            assert(instruction.subrange(n - 1, n) =~= "\n"@);
        }
    }
}

/// The line of a tool's result names the tool and holds the result whole.
pub proof fn law_result_line_holds_the_result(name: Seq<char>, content: Seq<char>)
    ensures
        result_line(name, content) == "[Tool result for "@ + name + "]: "@ + content,
        text::ends_with_spec(result_line(name, content), content),
        text::occurs(result_line(name, content), name),
{
    let line = result_line(name, content);
    let k = line.len() - content.len();
    assert(line.subrange(k, line.len() as int) =~= content);
    let a = "[Tool result for "@.len() as int;
    assert(line.subrange(a, a + name.len()) =~= name);
    assert(text::matches_at(line, name, a));
}

} // verus!

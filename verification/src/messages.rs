//! The Codex conversation as Anthropic messages.

use vstd::prelude::*;
use crate::error::WireError;
use crate::json::{is_json, spec_is_json};
use crate::text::{push_char, push_str, spec_to_lowercase, to_lowercase, trim, trim_ws};

verus! {

/// A part of a Codex message.
#[derive(Debug)]
pub enum ContentItem {
    InputText { text: String },
    OutputText { text: String },
    InputImage { image_url: String },
}

/// An item of the Codex conversation, reduced to what the conversion reads. The outputs hold
/// the text content of their payload.
#[derive(Debug)]
pub enum ResponseItem {
    Message { id: Option<String>, role: String, content: Vec<ContentItem> },
    FunctionCall { name: String, arguments: String, call_id: String },
    FunctionCallOutput { call_id: String, output: Option<String> },
    CustomToolCallOutput { call_id: String, output: Option<String> },
    /// Any other kind of item; it is not sent.
    Other,
}

/// The author of an Anthropic message.
#[derive(Clone, Copy, Debug, PartialEq, Eq, Structural)]
pub enum MessageRole {
    User,
    Assistant,
}

/// A content block of an Anthropic message.
#[derive(Debug)]
pub enum MessageContent {
    Text(String),
    /// A tool call; `input` is JSON text.
    ToolUse { id: String, name: String, input: String },
    ToolResult { tool_use_id: String, content: Option<String>, is_error: bool },
}

/// An Anthropic message.
#[derive(Debug)]
pub struct Message {
    pub role: MessageRole,
    pub content: Vec<MessageContent>,
}

/// A content block by its texts.
pub enum SpecContent {
    Text(Seq<char>),
    ToolUse { id: Seq<char>, name: Seq<char>, input: Seq<char> },
    ToolResult { tool_use_id: Seq<char>, content: Option<Seq<char>>, is_error: bool },
}

/// A message by its texts.
pub struct SpecMessage {
    pub role: MessageRole,
    pub content: Seq<SpecContent>,
}

/// An optional string by its text.
pub open spec fn opt_text(o: Option<String>) -> Option<Seq<char>> {
    match o {
        Some(s) => Some(s@),
        None => None,
    }
}

impl View for MessageContent {
    type V = SpecContent;

    open spec fn view(&self) -> SpecContent {
        match self {
            MessageContent::Text(t) => SpecContent::Text(t@),
            MessageContent::ToolUse { id, name, input } => SpecContent::ToolUse {
                id: id@,
                name: name@,
                input: input@,
            },
            MessageContent::ToolResult { tool_use_id, content, is_error } =>
                SpecContent::ToolResult {
                tool_use_id: tool_use_id@,
                content: opt_text(*content),
                is_error: *is_error,
            },
        }
    }
}

/// A part of a Codex message by its texts.
pub enum SpecPart {
    InputText(Seq<char>),
    OutputText(Seq<char>),
    InputImage(Seq<char>),
}

impl View for ContentItem {
    type V = SpecPart;

    open spec fn view(&self) -> SpecPart {
        match self {
            ContentItem::InputText { text } => SpecPart::InputText(text@),
            ContentItem::OutputText { text } => SpecPart::OutputText(text@),
            ContentItem::InputImage { image_url } => SpecPart::InputImage(image_url@),
        }
    }
}

/// A Codex item by its texts.
pub enum SpecItem {
    Message { id: Option<Seq<char>>, role: Seq<char>, content: Seq<SpecPart> },
    FunctionCall { name: Seq<char>, arguments: Seq<char>, call_id: Seq<char> },
    FunctionCallOutput { call_id: Seq<char>, output: Option<Seq<char>> },
    CustomToolCallOutput { call_id: Seq<char>, output: Option<Seq<char>> },
    Other,
}

impl View for ResponseItem {
    type V = SpecItem;

    open spec fn view(&self) -> SpecItem {
        match self {
            ResponseItem::Message { id, role, content } => SpecItem::Message {
                id: opt_text(*id),
                role: role@,
                content: content@.map_values(|c: ContentItem| c@),
            },
            ResponseItem::FunctionCall { name, arguments, call_id } => SpecItem::FunctionCall {
                name: name@,
                arguments: arguments@,
                call_id: call_id@,
            },
            ResponseItem::FunctionCallOutput { call_id, output } => SpecItem::FunctionCallOutput {
                call_id: call_id@,
                output: opt_text(*output),
            },
            ResponseItem::CustomToolCallOutput { call_id, output } =>
                SpecItem::CustomToolCallOutput { call_id: call_id@, output: opt_text(*output) },
            ResponseItem::Other => SpecItem::Other,
        }
    }
}

/// The blocks of a vector by their texts.
pub open spec fn blocks_view(v: Seq<MessageContent>) -> Seq<SpecContent> {
    v.map_values(|b: MessageContent| b@)
}

impl View for Message {
    type V = SpecMessage;

    open spec fn view(&self) -> SpecMessage {
        SpecMessage { role: self.role, content: blocks_view(self.content@) }
    }
}

/// The messages of a vector by their texts.
pub open spec fn messages_view(v: Seq<Message>) -> Seq<SpecMessage> {
    v.map_values(|m: Message| m@)
}

/// The text block that stands for an image.
pub open spec fn image_text(url: Seq<char>) -> Seq<char> {
    "[image: "@ + url + seq![']']
}

/// The blocks that one part of a Codex message becomes: a text block for non-empty text, and
/// `[image: <url>]` for an image.
pub open spec fn part_blocks(c: ContentItem) -> Seq<SpecContent> {
    match c {
        ContentItem::InputText { text } => if text@.len() == 0 {
            Seq::empty()
        } else {
            seq![SpecContent::Text(text@)]
        },
        ContentItem::OutputText { text } => if text@.len() == 0 {
            Seq::empty()
        } else {
            seq![SpecContent::Text(text@)]
        },
        ContentItem::InputImage { image_url } => seq![SpecContent::Text(image_text(image_url@))],
    }
}

/// The blocks that a Codex message's content becomes.
pub open spec fn content_blocks(content: Seq<ContentItem>) -> Seq<SpecContent>
    decreases content.len(),
{
    if content.len() == 0 {
        Seq::empty()
    } else {
        content_blocks(content.drop_last()) + part_blocks(content.last())
    }
}

/// The role of a Codex message: assistant when the role, trimmed and lowercased, is
/// `assistant`; user otherwise.
pub open spec fn role_of(role: Seq<char>) -> MessageRole {
    if spec_to_lowercase(trim_ws(role)) == "assistant"@ {
        MessageRole::Assistant
    } else {
        MessageRole::User
    }
}

/// The input of a tool call: its arguments when they parse as JSON, else `{}`.
pub open spec fn tool_input(arguments: Seq<char>, parses: bool) -> Seq<char> {
    if parses {
        arguments
    } else {
        seq!['{', '}']
    }
}

/// Both blocks are tool calls, or both are tool results.
pub open spec fn same_kind(a: SpecContent, b: SpecContent) -> bool {
    (a is ToolUse && b is ToolUse) || (a is ToolResult && b is ToolResult)
}

/// Adds a tool block: to the last message when it has the same role and holds only blocks of
/// the same kind, else as a new message.
pub open spec fn attach(msgs: Seq<SpecMessage>, role: MessageRole, block: SpecContent) -> Seq<
    SpecMessage,
> {
    if msgs.len() > 0 && msgs.last().role == role && (forall|j: int|
        0 <= j < msgs.last().content.len() ==> same_kind(#[trigger] msgs.last().content[j], block)) {
        msgs.drop_last().push(SpecMessage { role, content: msgs.last().content.push(block) })
    } else {
        msgs.push(SpecMessage { role, content: seq![block] })
    }
}

/// The tool call block for a function call.
pub open spec fn call_block(name: String, arguments: String, call_id: String) -> SpecContent {
    SpecContent::ToolUse {
        id: call_id@,
        name: name@,
        input: tool_input(arguments@, spec_is_json(arguments@)),
    }
}

/// The tool result block for a function call output: its text, empty when it has none.
pub open spec fn output_block(call_id: String, output: Option<String>) -> SpecContent {
    SpecContent::ToolResult {
        tool_use_id: call_id@,
        content: Some(
            match output {
                Some(o) => o@,
                None => Seq::empty(),
            },
        ),
        is_error: false,
    }
}

/// The tool result block for a custom tool call output.
pub open spec fn custom_output_block(call_id: String, output: Option<String>) -> SpecContent {
    SpecContent::ToolResult { tool_use_id: call_id@, content: opt_text(output), is_error: false }
}

/// The messages after one more Codex item.
pub open spec fn append_item(msgs: Seq<SpecMessage>, item: ResponseItem) -> Seq<SpecMessage> {
    match item {
        ResponseItem::Message { role, content, .. } => {
            let b = content_blocks(content@);
            if b.len() == 0 {
                msgs
            } else {
                msgs.push(SpecMessage { role: role_of(role@), content: b })
            }
        },
        ResponseItem::FunctionCall { name, arguments, call_id } => attach(
            msgs,
            MessageRole::Assistant,
            call_block(name, arguments, call_id),
        ),
        ResponseItem::FunctionCallOutput { call_id, output } => attach(
            msgs,
            MessageRole::User,
            output_block(call_id, output),
        ),
        ResponseItem::CustomToolCallOutput { call_id, output } => attach(
            msgs,
            MessageRole::User,
            custom_output_block(call_id, output),
        ),
        ResponseItem::Other => msgs,
    }
}

/// The Anthropic messages for a Codex conversation.
pub open spec fn messages_of(items: Seq<ResponseItem>) -> Seq<SpecMessage>
    decreases items.len(),
{
    if items.len() == 0 {
        Seq::empty()
    } else {
        append_item(messages_of(items.drop_last()), items.last())
    }
}

/// The input of a tool call, given whether its arguments parse as JSON: the arguments, or
/// `{}` when they do not parse.
pub fn tool_input_from_arguments(arguments: &String, parses: bool) -> (r: String)
    ensures
        r@ == tool_input(arguments@, parses),
{
    if parses {
        arguments.clone()
    } else {
        let mut s = String::new();
        push_char(&mut s, '{');
        push_char(&mut s, '}');
        assert(s@ =~= seq!['{', '}']);
        s
    }
}

/// The blocks of a Codex message's content: non-empty text as text blocks, images as a text
/// block `[image: <url>]`. Never fails.
pub fn content_to_sdk_blocks(content: &[ContentItem]) -> (res: Result<Vec<MessageContent>, WireError>)
    ensures
        res matches Ok(b) && blocks_view(b@) == content_blocks(content@),
{
    let mut blocks: Vec<MessageContent> = Vec::new();
    let n = content.len();
    for i in 0..n
        invariant
            n == content@.len(),
            blocks_view(blocks@) == content_blocks(content@.take(i as int)),
    {
        let ghost before = blocks@;
        assert(content@.take(i + 1).drop_last() =~= content@.take(i as int));
        match &content[i] {
            ContentItem::InputText { text } | ContentItem::OutputText { text } => {
                if !text.as_str().is_empty() {
                    blocks.push(MessageContent::Text(text.clone()));
                }
            },
            ContentItem::InputImage { image_url } => {
                let mut t = String::from_str("[image: ");
                push_str(&mut t, image_url.as_str());
                push_char(&mut t, ']');
                assert(t@ == image_text(image_url@));
                blocks.push(MessageContent::Text(t));
            },
        }
        assert(blocks_view(blocks@) =~= blocks_view(before) + part_blocks(content@[i as int]));
    }
    assert(content@.take(n as int) =~= content@);
    Ok(blocks)
}

fn role_from(role: &String) -> (r: MessageRole)
    ensures
        r == role_of(role@),
{
    let lowered = to_lowercase(trim(role.as_str()).as_str());
    if lowered == String::from_str("assistant") {
        MessageRole::Assistant
    } else {
        MessageRole::User
    }
}

fn same_kind_exec(a: &MessageContent, b: &MessageContent) -> (r: bool)
    ensures
        r == same_kind(a@, b@),
{
    match (a, b) {
        (MessageContent::ToolUse { .. }, MessageContent::ToolUse { .. }) => true,
        (MessageContent::ToolResult { .. }, MessageContent::ToolResult { .. }) => true,
        _ => false,
    }
}

fn all_same_kind(blocks: &Vec<MessageContent>, block: &MessageContent) -> (r: bool)
    ensures
        r == (forall|j: int| 0 <= j < blocks@.len() ==> same_kind(#[trigger] blocks_view(blocks@)[j], block@)),
{
    let n = blocks.len();
    for i in 0..n
        invariant
            n == blocks@.len(),
            forall|j: int| 0 <= j < i ==> same_kind(#[trigger] blocks_view(blocks@)[j], block@),
    {
        if !same_kind_exec(&blocks[i], block) {
            assert(blocks_view(blocks@)[i as int] == blocks@[i as int]@);
            return false;
        }
    }
    true
}

fn attach_block(out: &mut Vec<Message>, role: MessageRole, block: MessageContent)
    ensures
        messages_view(final(out)@) == attach(messages_view(old(out)@), role, block@),
{
    let ghost msgs = messages_view(out@);
    let n = out.len();
    if n > 0 && out[n - 1].role == role && all_same_kind(&out[n - 1].content, &block) {
        let mut last = out.pop().unwrap();
        let ghost last_before = last@;
        last.content.push(block);
        assert(blocks_view(last.content@) =~= last_before.content.push(block@));
        out.push(last);
        assert(messages_view(out@) =~= attach(msgs, role, block@));
    } else {
        let mut content: Vec<MessageContent> = Vec::new();
        content.push(block);
        out.push(Message { role, content });
        assert(blocks_view(content@) =~= seq![block@]);
        assert(messages_view(out@) =~= attach(msgs, role, block@));
    }
}

/// The Anthropic messages for a Codex conversation. Messages with content become messages of
/// their role; consecutive function calls are merged into one assistant message, and
/// consecutive call outputs into one user message; other items are left out. Never fails.
pub fn response_items_to_sdk_messages(items: &[ResponseItem]) -> (res: Result<
    Vec<Message>,
    WireError,
>)
    ensures
        res matches Ok(m) && messages_view(m@) == messages_of(items@),
{
    let mut out: Vec<Message> = Vec::new();
    let n = items.len();
    for i in 0..n
        invariant
            n == items@.len(),
            messages_view(out@) == messages_of(items@.take(i as int)),
    {
        assert(items@.take(i + 1).drop_last() =~= items@.take(i as int));
        let ghost before = messages_view(out@);
        match &items[i] {
            ResponseItem::Message { role, content, .. } => {
                let blocks = match content_to_sdk_blocks(content.as_slice()) {
                    Ok(b) => b,
                    Err(e) => {
                        return Err(e);
                    },
                };
                if blocks.len() > 0 {
                    let r = role_from(role);
                    out.push(Message { role: r, content: blocks });
                    assert(messages_view(out@) =~= before.push(out@.last()@));
                }
            },
            ResponseItem::FunctionCall { name, arguments, call_id } => {
                let parses = is_json(arguments.as_str());
                let input = tool_input_from_arguments(arguments, parses);
                let block = MessageContent::ToolUse {
                    id: call_id.clone(),
                    name: name.clone(),
                    input,
                };
                attach_block(&mut out, MessageRole::Assistant, block);
            },
            ResponseItem::FunctionCallOutput { call_id, output } => {
                let content = match output {
                    Some(o) => o.clone(),
                    None => String::new(),
                };
                let block = MessageContent::ToolResult {
                    tool_use_id: call_id.clone(),
                    content: Some(content),
                    is_error: false,
                };
                attach_block(&mut out, MessageRole::User, block);
            },
            ResponseItem::CustomToolCallOutput { call_id, output } => {
                let content = match output {
                    Some(o) => Some(o.clone()),
                    None => None,
                };
                let block = MessageContent::ToolResult {
                    tool_use_id: call_id.clone(),
                    content,
                    is_error: false,
                };
                attach_block(&mut out, MessageRole::User, block);
            },
            ResponseItem::Other => {},
        }
    }
    assert(items@.take(n as int) =~= items@);
    Ok(out)
}

/// The blocks that one Codex item contributes.
pub open spec fn item_blocks(item: ResponseItem) -> Seq<SpecContent> {
    match item {
        ResponseItem::Message { content, .. } => content_blocks(content@),
        ResponseItem::FunctionCall { name, arguments, call_id } => seq![
            call_block(name, arguments, call_id),
        ],
        ResponseItem::FunctionCallOutput { call_id, output } => seq![output_block(call_id, output)],
        ResponseItem::CustomToolCallOutput { call_id, output } => seq![
            custom_output_block(call_id, output),
        ],
        ResponseItem::Other => Seq::empty(),
    }
}

/// The blocks that a list of Codex items contributes, in order.
pub open spec fn items_blocks(items: Seq<ResponseItem>) -> Seq<SpecContent>
    decreases items.len(),
{
    if items.len() == 0 {
        Seq::empty()
    } else {
        items_blocks(items.drop_last()) + item_blocks(items.last())
    }
}

/// All blocks of a list of messages, in order.
pub open spec fn flatten(msgs: Seq<SpecMessage>) -> Seq<SpecContent>
    decreases msgs.len(),
{
    if msgs.len() == 0 {
        Seq::empty()
    } else {
        flatten(msgs.drop_last()) + msgs.last().content
    }
}

proof fn lemma_flatten_attach(msgs: Seq<SpecMessage>, role: MessageRole, block: SpecContent)
    ensures
        flatten(attach(msgs, role, block)) == flatten(msgs).push(block),
{
    let r = attach(msgs, role, block);
    assert(r.drop_last() =~= if r.len() == msgs.len() {
        msgs.drop_last()
    } else {
        msgs
    });
    if r.len() == msgs.len() {
        assert(flatten(msgs) == flatten(msgs.drop_last()) + msgs.last().content);
        assert(flatten(r) =~= flatten(msgs).push(block));
    } else {
        assert(flatten(r) =~= flatten(msgs).push(block));
    }
}

/// Converting a conversation loses, adds and reorders no block: the blocks of the messages,
/// in order, are the blocks of the items, in order.
pub proof fn lemma_messages_keep_every_block(items: Seq<ResponseItem>)
    ensures
        flatten(messages_of(items)) == items_blocks(items),
    decreases items.len(),
{
    if items.len() > 0 {
        let prev = items.drop_last();
        lemma_messages_keep_every_block(prev);
        let msgs = messages_of(prev);
        match items.last() {
            ResponseItem::Message { role, content, .. } => {
                let b = content_blocks(content@);
                if b.len() > 0 {
                    let r = msgs.push(SpecMessage { role: role_of(role@), content: b });
                    assert(r.drop_last() =~= msgs);
                } else {
                    assert(flatten(msgs) + b =~= flatten(msgs));
                }
            },
            ResponseItem::FunctionCall { name, arguments, call_id } => {
                lemma_flatten_attach(msgs, MessageRole::Assistant, call_block(name, arguments, call_id));
                assert(flatten(msgs).push(call_block(name, arguments, call_id)) =~= flatten(msgs)
                    + item_blocks(items.last()));
            },
            ResponseItem::FunctionCallOutput { call_id, output } => {
                lemma_flatten_attach(msgs, MessageRole::User, output_block(call_id, output));
                assert(flatten(msgs).push(output_block(call_id, output)) =~= flatten(msgs)
                    + item_blocks(items.last()));
            },
            ResponseItem::CustomToolCallOutput { call_id, output } => {
                lemma_flatten_attach(msgs, MessageRole::User, custom_output_block(call_id, output));
                assert(flatten(msgs).push(custom_output_block(call_id, output)) =~= flatten(msgs)
                    + item_blocks(items.last()));
            },
            ResponseItem::Other => {
                assert(flatten(msgs) + Seq::<SpecContent>::empty() =~= flatten(msgs));
            },
        }
    }
}

/// Every block of the message is text.
pub open spec fn all_text(m: SpecMessage) -> bool {
    forall|j: int| 0 <= j < m.content.len() ==> #[trigger] m.content[j] is Text
}

/// Every block of the message is a tool call.
pub open spec fn all_tool_use(m: SpecMessage) -> bool {
    forall|j: int| 0 <= j < m.content.len() ==> #[trigger] m.content[j] is ToolUse
}

/// Every block of the message is a tool result.
pub open spec fn all_tool_result(m: SpecMessage) -> bool {
    forall|j: int| 0 <= j < m.content.len() ==> #[trigger] m.content[j] is ToolResult
}

/// A message as the conversion makes them: non-empty, and either all text, or all tool calls
/// from the assistant, or all tool results from the user.
pub open spec fn is_grouped_message(m: SpecMessage) -> bool {
    &&& m.content.len() > 0
    &&& {
        ||| all_text(m)
        ||| m.role == MessageRole::Assistant && all_tool_use(m)
        ||| m.role == MessageRole::User && all_tool_result(m)
    }
}

/// Every message is grouped, and no two consecutive messages are both tool calls or both
/// tool results.
pub open spec fn well_grouped(msgs: Seq<SpecMessage>) -> bool {
    &&& forall|i: int| 0 <= i < msgs.len() ==> is_grouped_message(#[trigger] msgs[i])
    &&& forall|i: int, j: int|
        #![trigger msgs[i], msgs[j]]
        0 <= i && j == i + 1 && j < msgs.len() ==> !(all_tool_use(msgs[i]) && all_tool_use(
            msgs[j],
        )) && !(all_tool_result(msgs[i]) && all_tool_result(msgs[j]))
}

proof fn lemma_content_blocks_text(content: Seq<ContentItem>)
    ensures
        forall|j: int| 0 <= j < content_blocks(content).len() ==> #[trigger] content_blocks(content)[j] is Text,
    decreases content.len(),
{
    if content.len() > 0 {
        lemma_content_blocks_text(content.drop_last());
        let a = content_blocks(content.drop_last());
        let b = part_blocks(content.last());
        assert forall|j: int| 0 <= j < content_blocks(content).len() implies #[trigger] content_blocks(content)[j] is Text by {
            if j < a.len() {
                assert(content_blocks(content)[j] == a[j]);
            } else {
                assert(content_blocks(content)[j] == b[j - a.len()]);
            }
        }
    }
}

proof fn lemma_attach_grouped(msgs: Seq<SpecMessage>, role: MessageRole, block: SpecContent)
    requires
        well_grouped(msgs),
        (role == MessageRole::Assistant && block is ToolUse) || (role == MessageRole::User
            && block is ToolResult),
    ensures
        well_grouped(attach(msgs, role, block)),
{
    let r = attach(msgs, role, block);
    let n = msgs.len() as int;
    if r.len() == n {
        let last = msgs.last();
        assert(is_grouped_message(msgs[n - 1]));
        assert(same_kind(last.content[0], block));
        let nl = r[n - 1];
        assert(nl.content == last.content.push(block));
        if block is ToolUse {
            assert(all_tool_use(last)) by {
                assert forall|j: int| 0 <= j < last.content.len() implies #[trigger] last.content[j] is ToolUse by {
                    assert(same_kind(last.content[j], block));
                }
            }
            assert(all_tool_use(nl)) by {
                assert forall|j: int| 0 <= j < nl.content.len() implies #[trigger] nl.content[j] is ToolUse by {
                    if j < last.content.len() {
                        assert(nl.content[j] == last.content[j]);
                    }
                }
            }
            assert(!all_tool_result(nl)) by {
                assert(nl.content[0] == last.content[0]);
            }
            assert(!all_tool_result(last)) by {
                assert(last.content[0] is ToolUse);
            }
        } else {
            assert(all_tool_result(last)) by {
                assert forall|j: int| 0 <= j < last.content.len() implies #[trigger] last.content[j] is ToolResult by {
                    assert(same_kind(last.content[j], block));
                }
            }
            assert(all_tool_result(nl)) by {
                assert forall|j: int| 0 <= j < nl.content.len() implies #[trigger] nl.content[j] is ToolResult by {
                    if j < last.content.len() {
                        assert(nl.content[j] == last.content[j]);
                    }
                }
            }
            assert(!all_tool_use(nl)) by {
                assert(nl.content[0] == last.content[0]);
            }
            assert(!all_tool_use(last)) by {
                assert(last.content[0] is ToolResult);
            }
        }
        assert forall|i: int| 0 <= i < r.len() implies is_grouped_message(#[trigger] r[i]) by {
            if i < n - 1 {
                assert(r[i] == msgs[i]);
            }
        }
        assert forall|i: int, j: int|
            #![trigger r[i], r[j]]
            0 <= i && j == i + 1 && j < r.len() implies !(all_tool_use(r[i]) && all_tool_use(r[j]))
            && !(all_tool_result(r[i]) && all_tool_result(r[j])) by {
            assert(r[i] == msgs[i]);
            if j < n - 1 {
                assert(r[j] == msgs[j]);
            } else {
                assert(msgs[j] == last);
            }
        }
    } else {
        let nm = r[n];
        assert(nm.content == seq![block]);
        if n > 0 {
            let last = msgs.last();
            assert(is_grouped_message(msgs[n - 1]));
            if block is ToolUse && all_tool_use(last) {
                assert(last.content[0] is ToolUse);
                assert(!all_text(last));
                assert(!all_tool_result(last));
                assert(forall|j: int| 0 <= j < last.content.len() ==> same_kind(#[trigger] last.content[j], block));
                assert(false);
            }
            if block is ToolResult && all_tool_result(last) {
                assert(last.content[0] is ToolResult);
                assert(!all_text(last));
                assert(!all_tool_use(last));
                assert(forall|j: int| 0 <= j < last.content.len() ==> same_kind(#[trigger] last.content[j], block));
                assert(false);
            }
        }
        assert(is_grouped_message(nm)) by {
            assert(nm.content[0] == block);
        }
        assert forall|i: int| 0 <= i < r.len() implies is_grouped_message(#[trigger] r[i]) by {
            if i < n {
                assert(r[i] == msgs[i]);
            }
        }
        assert forall|i: int, j: int|
            #![trigger r[i], r[j]]
            0 <= i && j == i + 1 && j < r.len() implies !(all_tool_use(r[i]) && all_tool_use(r[j]))
            && !(all_tool_result(r[i]) && all_tool_result(r[j])) by {
            assert(r[i] == msgs[i]);
            if j < n {
                assert(r[j] == msgs[j]);
            } else {
                assert(msgs[i] == msgs.last());
                assert(r[j].content[0] == block);
            }
        }
    }
}

/// The messages are grouped: none is empty; each is all text, or all tool calls from the
/// assistant, or all tool results from the user; and consecutive tool calls, like
/// consecutive tool results, share one message.
pub proof fn lemma_messages_well_grouped(items: Seq<ResponseItem>)
    ensures
        well_grouped(messages_of(items)),
    decreases items.len(),
{
    if items.len() > 0 {
        let prev = items.drop_last();
        lemma_messages_well_grouped(prev);
        let msgs = messages_of(prev);
        match items.last() {
            ResponseItem::Message { role, content, .. } => {
                let b = content_blocks(content@);
                if b.len() > 0 {
                    lemma_content_blocks_text(content@);
                    let m = SpecMessage { role: role_of(role@), content: b };
                    let r = msgs.push(m);
                    assert(all_text(m));
                    assert(!all_tool_use(m)) by {
                        assert(m.content[0] is Text);
                    }
                    assert(!all_tool_result(m)) by {
                        assert(m.content[0] is Text);
                    }
                    assert forall|i: int| 0 <= i < r.len() implies is_grouped_message(#[trigger] r[i]) by {
                        if i < msgs.len() {
                            assert(r[i] == msgs[i]);
                        }
                    }
                    assert forall|i: int, j: int|
                        #![trigger r[i], r[j]]
                        0 <= i && j == i + 1 && j < r.len() implies !(all_tool_use(r[i]) && all_tool_use(r[j]))
                        && !(all_tool_result(r[i]) && all_tool_result(r[j])) by {
                        assert(r[i] == msgs[i]);
                        if j < msgs.len() {
                            assert(r[j] == msgs[j]);
                        }
                    }
                }
            },
            ResponseItem::FunctionCall { name, arguments, call_id } => {
                lemma_attach_grouped(msgs, MessageRole::Assistant, call_block(name, arguments, call_id));
            },
            ResponseItem::FunctionCallOutput { call_id, output } => {
                lemma_attach_grouped(msgs, MessageRole::User, output_block(call_id, output));
            },
            ResponseItem::CustomToolCallOutput { call_id, output } => {
                lemma_attach_grouped(msgs, MessageRole::User, custom_output_block(call_id, output));
            },
            ResponseItem::Other => {},
        }
    }
}

/// The blocks of a content list are those of its parts, in order: the blocks of two lists
/// joined are the blocks of the first followed by those of the second.
pub proof fn lemma_content_blocks_concat(a: Seq<ContentItem>, b: Seq<ContentItem>)
    ensures
        content_blocks(a + b) == content_blocks(a) + content_blocks(b),
    decreases b.len(),
{
    if b.len() == 0 {
        assert(a + b =~= a);
        assert(content_blocks(a) + content_blocks(b) =~= content_blocks(a));
    } else {
        lemma_content_blocks_concat(a, b.drop_last());
        assert((a + b).drop_last() =~= a + b.drop_last());
        assert((a + b).last() == b.last());
        assert(content_blocks(a + b) =~= content_blocks(a) + content_blocks(b));
    }
}

/// One part becomes: its text unchanged as a text block when the text is not empty, nothing
/// when it is empty; an image becomes the text block `[image: <url>]`.
pub proof fn lemma_content_part_block(c: ContentItem)
    ensures
        content_blocks(seq![c]) == match c {
            ContentItem::InputText { text } => if text@.len() == 0 {
                Seq::<SpecContent>::empty()
            } else {
                seq![SpecContent::Text(text@)]
            },
            ContentItem::OutputText { text } => if text@.len() == 0 {
                Seq::<SpecContent>::empty()
            } else {
                seq![SpecContent::Text(text@)]
            },
            ContentItem::InputImage { image_url } => seq![
                SpecContent::Text("[image: "@ + image_url@ + "]"@),
            ],
        },
{
    let s = seq![c];
    assert(s.drop_last() =~= Seq::<ContentItem>::empty());
    assert(s.last() == c);
    assert(content_blocks(s.drop_last()) == Seq::<SpecContent>::empty());
    assert(content_blocks(s) == content_blocks(s.drop_last()) + part_blocks(c));
    assert(content_blocks(s) =~= part_blocks(c));
    reveal_strlit("]");
    assert("]"@ =~= seq![']']);
}

/// What each Codex item contributes, stated on the item's own fields: a function call gives a
/// tool call with its call id, name and arguments (`{}` when they do not parse as JSON); a
/// call output gives a tool result with its call id and text (empty when it has none); a
/// custom call output gives a tool result with its call id and its text as it is (none when
/// it has none); neither result is an error; any other item gives nothing.
pub proof fn lemma_item_blocks_on_fields(item: ResponseItem)
    ensures
        item_blocks(item) == match item {
            ResponseItem::Message { content, .. } => content_blocks(content@),
            ResponseItem::FunctionCall { name, arguments, call_id } => seq![
                SpecContent::ToolUse {
                    id: call_id@,
                    name: name@,
                    input: if spec_is_json(arguments@) {
                        arguments@
                    } else {
                        seq!['{', '}']
                    },
                },
            ],
            ResponseItem::FunctionCallOutput { call_id, output } => seq![
                SpecContent::ToolResult {
                    tool_use_id: call_id@,
                    content: Some(
                        match output {
                            Some(o) => o@,
                            None => Seq::empty(),
                        },
                    ),
                    is_error: false,
                },
            ],
            ResponseItem::CustomToolCallOutput { call_id, output } => seq![
                SpecContent::ToolResult {
                    tool_use_id: call_id@,
                    content: match output {
                        Some(o) => Some(o@),
                        None => None,
                    },
                    is_error: false,
                },
            ],
            ResponseItem::Other => Seq::<SpecContent>::empty(),
        },
{
}

/// After an item that contributes blocks, the last message ends with them: a message item
/// with content adds a message of its role (assistant when the role, trimmed and lowercased,
/// is `assistant`) holding exactly its blocks; a function call ends an assistant message; a
/// call output or custom call output ends a user message.
pub proof fn lemma_item_lands_last(items: Seq<ResponseItem>, item: ResponseItem)
    ensures
        ({
            let m = messages_of(items.push(item));
            match item {
                ResponseItem::Message { role, content, .. } => content_blocks(content@).len() > 0
                    ==> m.last() == SpecMessage {
                    role: if spec_to_lowercase(trim_ws(role@)) == "assistant"@ {
                        MessageRole::Assistant
                    } else {
                        MessageRole::User
                    },
                    content: content_blocks(content@),
                },
                ResponseItem::FunctionCall { .. } => m.len() > 0 && m.last().role
                    == MessageRole::Assistant && m.last().content.len() > 0
                    && m.last().content.last() == item_blocks(item)[0],
                ResponseItem::FunctionCallOutput { .. } => m.len() > 0 && m.last().role
                    == MessageRole::User && m.last().content.len() > 0
                    && m.last().content.last() == item_blocks(item)[0],
                ResponseItem::CustomToolCallOutput { .. } => m.len() > 0 && m.last().role
                    == MessageRole::User && m.last().content.len() > 0
                    && m.last().content.last() == item_blocks(item)[0],
                ResponseItem::Other => m == messages_of(items),
            }
        }),
{
    assert(items.push(item).drop_last() =~= items);
    assert(items.push(item).last() == item);
}

/// The input of a tool call is its arguments exactly when they parse, else `{}`.
pub proof fn lemma_tool_input(arguments: Seq<char>, parses: bool)
    ensures
        parses ==> tool_input(arguments, parses) == arguments,
        !parses ==> tool_input(arguments, parses) == seq!['{', '}'],
{
}

} // verus!

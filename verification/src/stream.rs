//! The Anthropic stream as Codex response events: one step per stream event.

use vstd::prelude::*;
use crate::error::{SpecWireError, WireError};
use crate::messages::{MessageContent, ResponseItem, SpecItem};
use crate::string_map::StringMap;
use crate::text::{decimal, push_char, push_decimal, push_str};
use crate::tools::{lemma_name_map_reads_back, text_values, tool_fold, ToolJson};

verus! {

/// Token counts that Anthropic reports.
#[derive(Debug)]
pub struct Usage {
    pub input_tokens: Option<u32>,
    pub output_tokens: Option<u32>,
}

/// Token usage as Codex records it.
#[derive(Clone, Copy, Debug, PartialEq, Eq, Structural)]
pub struct TokenUsage {
    pub input_tokens: i64,
    pub cached_input_tokens: i64,
    pub output_tokens: i64,
    pub reasoning_output_tokens: i64,
    pub total_tokens: i64,
}

/// A change to a content block.
#[derive(Debug)]
pub enum ContentBlockDelta {
    TextDelta { text: String },
    InputJsonDelta { partial_json: String },
}

/// An event of the Anthropic message stream. The input of a tool use block is JSON text.
#[derive(Debug)]
pub enum MessagesStreamEvent {
    MessageStart { id: String, usage: Option<Usage> },
    ContentBlockStart { index: usize, content_block: MessageContent },
    ContentBlockDelta { index: usize, delta: ContentBlockDelta },
    ContentBlockStop { index: usize },
    MessageDelta { usage: Option<Usage> },
    MessageStop,
}

/// An error of the Anthropic client, with the text of what it wraps.
#[derive(Debug)]
pub enum AnthropicError {
    NetworkError(String),
    BadRequest(String),
    ApiError(String),
    Unauthorized,
    DeserializationError(String),
    Unknown(String),
    UnexpectedError,
    StreamError { error_type: String, message: String },
}

/// An event for the Codex turn loop.
#[derive(Debug)]
pub enum ResponseEvent {
    Created,
    OutputItemAdded(ResponseItem),
    OutputTextDelta(String),
    OutputItemDone(ResponseItem),
    Completed { response_id: String, token_usage: Option<TokenUsage> },
}

/// A response event by its texts.
pub enum SpecEvent {
    Created,
    OutputItemAdded(SpecItem),
    OutputTextDelta(Seq<char>),
    OutputItemDone(SpecItem),
    Completed { response_id: Seq<char>, token_usage: Option<TokenUsage> },
}

impl View for ResponseEvent {
    type V = SpecEvent;

    open spec fn view(&self) -> SpecEvent {
        match self {
            ResponseEvent::Created => SpecEvent::Created,
            ResponseEvent::OutputItemAdded(i) => SpecEvent::OutputItemAdded(i@),
            ResponseEvent::OutputTextDelta(t) => SpecEvent::OutputTextDelta(t@),
            ResponseEvent::OutputItemDone(i) => SpecEvent::OutputItemDone(i@),
            ResponseEvent::Completed { response_id, token_usage } => SpecEvent::Completed {
                response_id: response_id@,
                token_usage: *token_usage,
            },
        }
    }
}

/// What is sent to the turn loop: an event or an error.
pub type Outcome = Result<ResponseEvent, WireError>;

/// An outcome by its texts.
pub type SpecOutcome = Result<SpecEvent, SpecWireError>;

/// An outcome's view.
pub open spec fn outcome_view(o: Outcome) -> SpecOutcome {
    match o {
        Ok(e) => Ok(e@),
        Err(e) => Err(e@),
    }
}

/// Outcomes by their texts.
pub open spec fn outcomes_view(v: Seq<Outcome>) -> Seq<SpecOutcome> {
    v.map_values(|o: Outcome| outcome_view(o))
}

/// A tool call whose block has started and not yet stopped.
#[derive(Debug)]
pub struct PendingToolUse {
    pub call_id: String,
    pub name: String,
    /// The JSON text of the arguments received so far.
    pub arguments: String,
}

/// What the stream conversion remembers between events.
#[derive(Debug)]
pub struct StreamState {
    pub response_id: String,
    pub token_usage: Option<TokenUsage>,
    pub pending_tool_use: Option<PendingToolUse>,
}

/// A pending tool call by its texts.
pub struct SpecPending {
    pub call_id: Seq<char>,
    pub name: Seq<char>,
    pub arguments: Seq<char>,
}

/// The stream state by its texts.
pub struct SpecState {
    pub response_id: Seq<char>,
    pub token_usage: Option<TokenUsage>,
    pub pending: Option<SpecPending>,
}

impl View for StreamState {
    type V = SpecState;

    open spec fn view(&self) -> SpecState {
        SpecState {
            response_id: self.response_id@,
            token_usage: self.token_usage,
            pending: match self.pending_tool_use {
                Some(p) => Some(
                    SpecPending { call_id: p.call_id@, name: p.name@, arguments: p.arguments@ },
                ),
                None => None,
            },
        }
    }
}

/// What one stream event does: the next state, the outcomes to send, and whether the stream
/// ends here.
pub struct SpecStep {
    pub state: SpecState,
    pub outcomes: Seq<SpecOutcome>,
    pub finished: bool,
}

/// The state at the start of a stream.
pub open spec fn initial_state() -> SpecState {
    SpecState { response_id: Seq::empty(), token_usage: None, pending: None }
}

/// The Codex error for an Anthropic client error.
pub open spec fn error_of(e: AnthropicError) -> SpecWireError {
    match e {
        AnthropicError::BadRequest(body) => SpecWireError::InvalidRequest(body@),
        AnthropicError::Unauthorized => SpecWireError::InvalidRequest(
            "anthropic API key invalid or missing"@,
        ),
        AnthropicError::StreamError { message, .. } => SpecWireError::Stream(message@),
        AnthropicError::NetworkError(m) => SpecWireError::Stream(m@),
        AnthropicError::ApiError(m) => SpecWireError::Stream(m@),
        AnthropicError::Unknown(m) => SpecWireError::Stream(m@),
        AnthropicError::DeserializationError(m) => SpecWireError::Stream(m@),
        AnthropicError::UnexpectedError => SpecWireError::Stream("anthropic unexpected error"@),
    }
}

/// Codex token usage for what Anthropic reports: missing counts are 0, nothing is cached or
/// spent on reasoning, and the total is input plus output.
pub open spec fn usage_of(u: Usage) -> TokenUsage {
    let i: int = match u.input_tokens {
        Some(x) => x as int,
        None => 0,
    };
    let o: int = match u.output_tokens {
        Some(x) => x as int,
        None => 0,
    };
    TokenUsage {
        input_tokens: i as i64,
        cached_input_tokens: 0,
        output_tokens: o as i64,
        reasoning_output_tokens: 0,
        total_tokens: (i + o) as i64,
    }
}

/// The token usage after an event that may report usage.
pub open spec fn updated_usage(old: Option<TokenUsage>, u: Option<Usage>) -> Option<TokenUsage> {
    match u {
        Some(u) => Some(usage_of(u)),
        None => old,
    }
}

/// The id of the assistant message for a text block: `<response id>-<block index>`.
pub open spec fn text_item_id(response_id: Seq<char>, index: nat) -> Seq<char> {
    response_id + seq!['-'] + decimal(index)
}

/// The arguments after a piece of input JSON: a placeholder `{}` or `null` is replaced,
/// anything else is extended.
pub open spec fn extend_arguments(args: Seq<char>, partial: Seq<char>) -> Seq<char> {
    if args == "{}"@ || args == "null"@ {
        partial
    } else {
        args + partial
    }
}

/// The function call item for a finished tool call.
pub open spec fn call_item(p: SpecPending) -> SpecItem {
    SpecItem::FunctionCall { name: p.name, arguments: p.arguments, call_id: p.call_id }
}

/// The tool call to send, if one is pending.
pub open spec fn flush_pending(s: SpecState) -> Seq<SpecOutcome> {
    match s.pending {
        Some(p) => seq![Ok(SpecEvent::OutputItemDone(call_item(p)))],
        None => Seq::empty(),
    }
}

/// The Codex name of a tool that Anthropic calls: the name the tool was sent under, mapped
/// back; a name that was not sent is kept.
pub open spec fn codex_tool_name(names: Map<Seq<char>, Seq<char>>, name: Seq<char>) -> Seq<char> {
    if names.contains_key(name) {
        names[name]
    } else {
        name
    }
}

/// What one stream event, or client error, does.
pub open spec fn spec_step(
    s: SpecState,
    item: Result<MessagesStreamEvent, AnthropicError>,
    names: Map<Seq<char>, Seq<char>>,
) -> SpecStep {
    match item {
        Err(e) => SpecStep { state: s, outcomes: seq![Err(error_of(e))], finished: true },
        Ok(ev) => match ev {
            MessagesStreamEvent::MessageStart { id, usage } => SpecStep {
                state: SpecState {
                    response_id: id@,
                    token_usage: updated_usage(s.token_usage, usage),
                    pending: s.pending,
                },
                outcomes: seq![Ok(SpecEvent::Created)],
                finished: false,
            },
            MessagesStreamEvent::ContentBlockStart { index, content_block } => match content_block {
                MessageContent::Text(text) => {
                    let added = Ok(
                        SpecEvent::OutputItemAdded(
                            SpecItem::Message {
                                id: Some(text_item_id(s.response_id, index as nat)),
                                role: "assistant"@,
                                content: Seq::empty(),
                            },
                        ),
                    );
                    SpecStep {
                        state: s,
                        outcomes: if text@.len() == 0 {
                            seq![added]
                        } else {
                            seq![added, Ok(SpecEvent::OutputTextDelta(text@))]
                        },
                        finished: false,
                    }
                },
                MessageContent::ToolUse { id, name, input } => SpecStep {
                    state: SpecState {
                        pending: Some(
                            SpecPending {
                                call_id: id@,
                                name: codex_tool_name(names, name@),
                                arguments: input@,
                            },
                        ),
                        ..s
                    },
                    outcomes: Seq::empty(),
                    finished: false,
                },
                MessageContent::ToolResult { .. } => SpecStep {
                    state: s,
                    outcomes: Seq::empty(),
                    finished: false,
                },
            },
            MessagesStreamEvent::ContentBlockDelta { delta, .. } => match delta {
                ContentBlockDelta::TextDelta { text } => SpecStep {
                    state: s,
                    outcomes: if text@.len() == 0 {
                        Seq::empty()
                    } else {
                        seq![Ok(SpecEvent::OutputTextDelta(text@))]
                    },
                    finished: false,
                },
                ContentBlockDelta::InputJsonDelta { partial_json } => SpecStep {
                    state: SpecState {
                        pending: match s.pending {
                            Some(p) => Some(
                                SpecPending {
                                    arguments: extend_arguments(p.arguments, partial_json@),
                                    ..p
                                },
                            ),
                            None => None,
                        },
                        ..s
                    },
                    outcomes: Seq::empty(),
                    finished: false,
                },
            },
            MessagesStreamEvent::MessageDelta { usage } => SpecStep {
                state: SpecState { token_usage: updated_usage(s.token_usage, usage), ..s },
                outcomes: Seq::empty(),
                finished: false,
            },
            MessagesStreamEvent::ContentBlockStop { .. } => SpecStep {
                state: SpecState { pending: None, ..s },
                outcomes: flush_pending(s),
                finished: false,
            },
            MessagesStreamEvent::MessageStop => SpecStep {
                state: SpecState { response_id: Seq::empty(), pending: None, ..s },
                outcomes: flush_pending(s).push(
                    Ok(
                        SpecEvent::Completed {
                            response_id: s.response_id,
                            token_usage: s.token_usage,
                        },
                    ),
                ),
                finished: true,
            },
        },
    }
}

/// Maps an Anthropic client error to a Codex error: a rejected request or a missing key is
/// an invalid request, anything else a stream failure with the error's message.
pub fn map_anthropic_error(e: AnthropicError) -> (r: WireError)
    ensures
        r@ == error_of(e),
{
    match e {
        AnthropicError::BadRequest(body) => WireError::InvalidRequest(body),
        AnthropicError::Unauthorized => WireError::InvalidRequest(
            String::from_str("anthropic API key invalid or missing"),
        ),
        AnthropicError::StreamError { message, .. } => WireError::Stream(message),
        AnthropicError::NetworkError(m) => WireError::Stream(m),
        AnthropicError::ApiError(m) => WireError::Stream(m),
        AnthropicError::Unknown(m) => WireError::Stream(m),
        AnthropicError::DeserializationError(m) => WireError::Stream(m),
        AnthropicError::UnexpectedError => WireError::Stream(
            String::from_str("anthropic unexpected error"),
        ),
    }
}

fn usage_tokens(u: &Usage) -> (t: TokenUsage)
    ensures
        t == usage_of(*u),
{
    let i: i64 = match u.input_tokens {
        Some(x) => x as i64,
        None => 0,
    };
    let o: i64 = match u.output_tokens {
        Some(x) => x as i64,
        None => 0,
    };
    TokenUsage {
        input_tokens: i,
        cached_input_tokens: 0,
        output_tokens: o,
        reasoning_output_tokens: 0,
        total_tokens: i + o,
    }
}

fn clone_error(e: &AnthropicError) -> (r: AnthropicError)
    ensures
        error_of(r) == error_of(*e),
{
    match e {
        AnthropicError::NetworkError(m) => AnthropicError::NetworkError(m.clone()),
        AnthropicError::BadRequest(m) => AnthropicError::BadRequest(m.clone()),
        AnthropicError::ApiError(m) => AnthropicError::ApiError(m.clone()),
        AnthropicError::Unauthorized => AnthropicError::Unauthorized,
        AnthropicError::DeserializationError(m) => AnthropicError::DeserializationError(m.clone()),
        AnthropicError::Unknown(m) => AnthropicError::Unknown(m.clone()),
        AnthropicError::UnexpectedError => AnthropicError::UnexpectedError,
        AnthropicError::StreamError { error_type, message } => AnthropicError::StreamError {
            error_type: error_type.clone(),
            message: message.clone(),
        },
    }
}

fn is_placeholder(args: &String) -> (b: bool)
    ensures
        b == (args@ == "{}"@ || args@ == "null"@),
{
    *args == String::from_str("{}") || *args == String::from_str("null")
}

/// Sends the pending tool call, if there is one, and forgets it.
fn flush(state: &mut StreamState, out: &mut Vec<Outcome>)
    ensures
        final(state)@ == (SpecState { pending: None, ..old(state)@ }),
        outcomes_view(final(out)@) == outcomes_view(old(out)@) + flush_pending(old(state)@),
{
    let ghost before = outcomes_view(out@);
    match state.pending_tool_use.take() {
        Some(p) => {
            let item = ResponseItem::FunctionCall {
                name: p.name,
                arguments: p.arguments,
                call_id: p.call_id,
            };
            out.push(Ok(ResponseEvent::OutputItemDone(item)));
            assert(outcomes_view(out@) =~= before + flush_pending(old(state)@));
        },
        None => {
            assert(outcomes_view(out@) =~= before + flush_pending(old(state)@));
        },
    }
}

impl StreamState {
    /// The state at the start of a stream.
    pub fn new() -> (s: Self)
        ensures
            s@ == initial_state(),
    {
        StreamState { response_id: String::new(), token_usage: None, pending_tool_use: None }
    }
}

/// Handles one stream event (or client error): updates the state, and returns the outcomes
/// to send and whether the stream ends here. A message start sends `Created`; a text block
/// sends an assistant message item before its first text; a tool use block is held until
/// its block or the message stops, its arguments growing with each piece of input JSON; a
/// message stop sends `Completed` with the response id and the last usage reported; a client
/// error is sent as an error and ends the stream.
pub fn process_sdk_event(
    state: &mut StreamState,
    item: &Result<MessagesStreamEvent, AnthropicError>,
    tool_name_map: &StringMap<String>,
) -> (res: (Vec<Outcome>, bool))
    ensures
        final(state)@ == spec_step(old(state)@, *item, text_values(tool_name_map@)).state,
        outcomes_view(res.0@) == spec_step(old(state)@, *item, text_values(tool_name_map@)).outcomes,
        res.1 == spec_step(old(state)@, *item, text_values(tool_name_map@)).finished,
{
    let mut out: Vec<Outcome> = Vec::new();
    let ghost names = text_values(tool_name_map@);
    match item {
        Err(e) => {
            out.push(Err(map_anthropic_error(clone_error(e))));
            assert(outcomes_view(out@) =~= seq![Err(error_of(*e))]);
            (out, true)
        },
        Ok(ev) => match ev {
            MessagesStreamEvent::MessageStart { id, usage } => {
                state.response_id = id.clone();
                match usage {
                    Some(u) => {
                        state.token_usage = Some(usage_tokens(u));
                    },
                    None => {},
                }
                out.push(Ok(ResponseEvent::Created));
                assert(outcomes_view(out@) =~= seq![Ok(SpecEvent::Created)]);
                (out, false)
            },
            MessagesStreamEvent::ContentBlockStart { index, content_block } => {
                match content_block {
                    MessageContent::Text(text) => {
                        let mut id = state.response_id.clone();
                        push_char(&mut id, '-');
                        push_decimal(&mut id, *index as u64);
                        assert(id@ =~= text_item_id(old(state)@.response_id, *index as nat));
                        let role = String::from_str("assistant");
                        let content: Vec<crate::messages::ContentItem> = Vec::new();
                        assert(content@.map_values(|c: crate::messages::ContentItem| c@)
                            =~= Seq::empty());
                        let added = ResponseItem::Message { id: Some(id), role, content };
                        out.push(Ok(ResponseEvent::OutputItemAdded(added)));
                        if !text.as_str().is_empty() {
                            out.push(Ok(ResponseEvent::OutputTextDelta(text.clone())));
                        }
                        proof {
                            let s = spec_step(old(state)@, *item, names);
                            assert(outcomes_view(out@) =~= s.outcomes);
                        }
                    },
                    MessageContent::ToolUse { id, name, input } => {
                        let mapped = match tool_name_map.get(name) {
                            Some(n) => n.clone(),
                            None => name.clone(),
                        };
                        state.pending_tool_use = Some(
                            PendingToolUse {
                                call_id: id.clone(),
                                name: mapped,
                                arguments: input.clone(),
                            },
                        );
                        assert(outcomes_view(out@) =~= Seq::<SpecOutcome>::empty());
                    },
                    MessageContent::ToolResult { .. } => {
                        assert(outcomes_view(out@) =~= Seq::<SpecOutcome>::empty());
                    },
                }
                (out, false)
            },
            MessagesStreamEvent::ContentBlockDelta { delta, .. } => {
                match delta {
                    ContentBlockDelta::TextDelta { text } => {
                        if !text.as_str().is_empty() {
                            out.push(Ok(ResponseEvent::OutputTextDelta(text.clone())));
                        }
                        proof {
                            let s = spec_step(old(state)@, *item, names);
                            assert(outcomes_view(out@) =~= s.outcomes);
                        }
                    },
                    ContentBlockDelta::InputJsonDelta { partial_json } => {
                        match state.pending_tool_use.take() {
                            Some(p) => {
                                let arguments = if is_placeholder(&p.arguments) {
                                    partial_json.clone()
                                } else {
                                    let mut a = p.arguments;
                                    push_str(&mut a, partial_json.as_str());
                                    a
                                };
                                state.pending_tool_use = Some(
                                    PendingToolUse { call_id: p.call_id, name: p.name, arguments },
                                );
                            },
                            None => {},
                        }
                        assert(outcomes_view(out@) =~= Seq::<SpecOutcome>::empty());
                    },
                }
                (out, false)
            },
            MessagesStreamEvent::MessageDelta { usage } => {
                match usage {
                    Some(u) => {
                        state.token_usage = Some(usage_tokens(u));
                    },
                    None => {},
                }
                assert(outcomes_view(out@) =~= Seq::<SpecOutcome>::empty());
                (out, false)
            },
            MessagesStreamEvent::ContentBlockStop { .. } => {
                assert(outcomes_view(out@) =~= Seq::<SpecOutcome>::empty());
                flush(state, &mut out);
                (out, false)
            },
            MessagesStreamEvent::MessageStop => {
                assert(outcomes_view(out@) =~= Seq::<SpecOutcome>::empty());
                flush(state, &mut out);
                let ghost mid = outcomes_view(out@);
                let mut response_id = String::new();
                std::mem::swap(&mut response_id, &mut state.response_id);
                out.push(
                    Ok(
                        ResponseEvent::Completed {
                            response_id,
                            token_usage: state.token_usage,
                        },
                    ),
                );
                assert(outcomes_view(out@) =~= mid.push(outcome_view(out@.last())));
                (out, true)
            },
        },
    }
}

/// A stream item: an event, or a client error.
pub type StreamItem = Result<MessagesStreamEvent, AnthropicError>;

/// What a stream does from the start, up to the item that ends it.
pub open spec fn spec_run(items: Seq<StreamItem>, names: Map<Seq<char>, Seq<char>>) -> SpecStep
    decreases items.len(),
{
    if items.len() == 0 {
        SpecStep { state: initial_state(), outcomes: Seq::empty(), finished: false }
    } else {
        let r = spec_run(items.drop_last(), names);
        if r.finished {
            r
        } else {
            let st = spec_step(r.state, items.last(), names);
            SpecStep { state: st.state, outcomes: r.outcomes + st.outcomes, finished: st.finished }
        }
    }
}

/// Items after the one that ends the stream change nothing.
pub proof fn lemma_run_stops(items: Seq<StreamItem>, names: Map<Seq<char>, Seq<char>>, k: int)
    requires
        0 <= k <= items.len(),
        spec_run(items.take(k), names).finished,
    ensures
        spec_run(items, names) == spec_run(items.take(k), names),
    decreases items.len(),
{
    if items.len() == k {
        assert(items.take(k) =~= items);
    } else {
        assert(items.drop_last().take(k) =~= items.take(k));
        lemma_run_stops(items.drop_last(), names, k);
    }
}

/// A message stop that arrives before the stream has ended ends it, and the last outcome is
/// `Completed` with the id of the message and the last usage reported before it.
pub proof fn lemma_message_stop_completes(
    items: Seq<StreamItem>,
    names: Map<Seq<char>, Seq<char>>,
    k: int,
)
    requires
        0 <= k < items.len(),
        items[k] matches Ok(MessagesStreamEvent::MessageStop),
        !spec_run(items.take(k), names).finished,
    ensures
        spec_run(items, names).finished,
        spec_run(items, names).state.pending is None,
        spec_run(items, names).outcomes.last() == Ok::<SpecEvent, SpecWireError>(
            SpecEvent::Completed {
                response_id: spec_run(items.take(k), names).state.response_id,
                token_usage: spec_run(items.take(k), names).state.token_usage,
            },
        ),
{
    assert(items.take(k + 1).drop_last() =~= items.take(k));
    assert(items.take(k + 1).last() == items[k]);
    lemma_run_stops(items, names, k + 1);
}

/// How many tool calls the outcomes send.
pub open spec fn count_calls(o: Seq<SpecOutcome>) -> nat
    decreases o.len(),
{
    if o.len() == 0 {
        0
    } else {
        count_calls(o.drop_last()) + if o.last() matches Ok(SpecEvent::OutputItemDone(_)) {
            1nat
        } else {
            0nat
        }
    }
}

/// How many tool use blocks the items start.
pub open spec fn count_tool_starts(items: Seq<StreamItem>) -> nat
    decreases items.len(),
{
    if items.len() == 0 {
        0
    } else {
        count_tool_starts(items.drop_last()) + if items.last() matches Ok(
            MessagesStreamEvent::ContentBlockStart {
                content_block: MessageContent::ToolUse { .. },
                ..
            },
        ) {
            1nat
        } else {
            0nat
        }
    }
}

proof fn lemma_count_calls_add(a: Seq<SpecOutcome>, b: Seq<SpecOutcome>)
    ensures
        count_calls(a + b) == count_calls(a) + count_calls(b),
    decreases b.len(),
{
    if b.len() > 0 {
        lemma_count_calls_add(a, b.drop_last());
        assert((a + b).drop_last() =~= a + b.drop_last());
    } else {
        assert(a + b =~= a);
    }
}

proof fn lemma_count_calls_none(o: Seq<SpecOutcome>)
    requires
        forall|j: int| 0 <= j < o.len() ==> !(#[trigger] o[j] matches Ok(SpecEvent::OutputItemDone(_))),
    ensures
        count_calls(o) == 0,
    decreases o.len(),
{
    if o.len() > 0 {
        let p = o.drop_last();
        assert forall|j: int| 0 <= j < p.len() implies !(#[trigger] p[j] matches Ok(SpecEvent::OutputItemDone(_))) by {
            assert(p[j] == o[j]);
        }
        lemma_count_calls_none(p);
        assert(o.last() == o[o.len() - 1]);
    }
}

proof fn lemma_count_calls_flush(s: SpecState)
    ensures
        count_calls(flush_pending(s)) == if s.pending is Some {
            1nat
        } else {
            0nat
        },
{
    let f = flush_pending(s);
    if s.pending is Some {
        assert(f.drop_last() =~= Seq::<SpecOutcome>::empty());
        assert(count_calls(f.drop_last()) == 0);
    } else {
        assert(count_calls(f) == 0);
    }
}

/// A stream sends each tool call once at most: it sends no more tool calls than it started
/// tool use blocks, counting the one still pending.
pub proof fn lemma_calls_bounded_by_tool_blocks(
    items: Seq<StreamItem>,
    names: Map<Seq<char>, Seq<char>>,
)
    ensures
        count_calls(spec_run(items, names).outcomes) + (if spec_run(items, names).state.pending
            is Some {
            1nat
        } else {
            0nat
        }) <= count_tool_starts(items),
    decreases items.len(),
{
    if items.len() > 0 {
        let prev = items.drop_last();
        lemma_calls_bounded_by_tool_blocks(prev, names);
        let r = spec_run(prev, names);
        if !r.finished {
            let st = spec_step(r.state, items.last(), names);
            lemma_count_calls_add(r.outcomes, st.outcomes);
            lemma_count_calls_flush(r.state);
            match items.last() {
                Ok(MessagesStreamEvent::ContentBlockStop { .. }) => {},
                Ok(MessagesStreamEvent::MessageStop) => {
                    let f = flush_pending(r.state);
                    assert(st.outcomes.drop_last() =~= f);
                },
                _ => {
                    assert forall|j: int| 0 <= j < st.outcomes.len() implies !(
                    #[trigger] st.outcomes[j] matches Ok(SpecEvent::OutputItemDone(_))) by {}
                    lemma_count_calls_none(st.outcomes);
                },
            }
        }
    }
}

/// Runs the stream conversion over a list of stream items, up to the item that ends the
/// stream (a message stop or a client error), and returns everything it sends.
pub fn process_sdk_events(items: &Vec<StreamItem>, tool_name_map: &StringMap<String>) -> (r: Vec<
    Outcome,
>)
    ensures
        outcomes_view(r@) == spec_run(items@, text_values(tool_name_map@)).outcomes,
{
    let ghost names = text_values(tool_name_map@);
    let mut state = StreamState::new();
    let mut out: Vec<Outcome> = Vec::new();
    let mut finished = false;
    let n = items.len();
    let mut i: usize = 0;
    while i < n && !finished
        invariant
            n == items@.len(),
            i <= n,
            names == text_values(tool_name_map@),
            spec_run(items@.take(i as int), names).state == state@,
            spec_run(items@.take(i as int), names).outcomes == outcomes_view(out@),
            spec_run(items@.take(i as int), names).finished == finished,
        decreases n - i,
    {
        let ghost before = outcomes_view(out@);
        assert(items@.take(i + 1).drop_last() =~= items@.take(i as int));
        assert(items@.take(i + 1).last() == items@[i as int]);
        let (mut step_out, fin) = process_sdk_event(&mut state, &items[i], tool_name_map);
        let ghost added = outcomes_view(step_out@);
        out.append(&mut step_out);
        assert(outcomes_view(out@) =~= before + added);
        finished = fin;
        i += 1;
    }
    proof {
        if finished {
            lemma_run_stops(items@, names, i as int);
        } else {
            assert(items@.take(n as int) =~= items@);
        }
    }
    out
}

/// A tool call that Anthropic makes under the name sent for a tool (the last tool sent under
/// that name) is held, and later reported to Codex, under that tool's Codex name.
pub proof fn lemma_tool_call_named_back(
    tools: Seq<ToolJson>,
    i: int,
    s: SpecState,
    index: usize,
    id: String,
    name: String,
    input: String,
)
    requires
        0 <= i < tool_fold(tools).tools.len(),
        forall|j: int|
            i < j < tool_fold(tools).tools.len() ==> tool_fold(tools).tools[j].name != tool_fold(
                tools,
            ).tools[i].name,
        name@ == tool_fold(tools).tools[i].name,
    ensures
        spec_step(
            s,
            Ok(
                MessagesStreamEvent::ContentBlockStart {
                    index,
                    content_block: MessageContent::ToolUse { id, name, input },
                },
            ),
            tool_fold(tools).names,
        ).state.pending == Some(
            SpecPending {
                call_id: id@,
                name: tool_fold(tools).originals[i],
                arguments: input@,
            },
        ),
{
    lemma_name_map_reads_back(tools);
    assert(tool_fold(tools).names.contains_key(name@));
}

/// A text delta is passed on unchanged when it is not empty, and nothing is sent for an
/// empty one; the state stays as it was and the stream goes on.
pub proof fn lemma_text_delta_passed_on(
    s: SpecState,
    index: usize,
    text: String,
    names: Map<Seq<char>, Seq<char>>,
)
    ensures
        spec_step(
            s,
            Ok(MessagesStreamEvent::ContentBlockDelta { index, delta: ContentBlockDelta::TextDelta { text } }),
            names,
        ).outcomes == (if text@.len() > 0 {
            seq![Ok::<SpecEvent, SpecWireError>(SpecEvent::OutputTextDelta(text@))]
        } else {
            Seq::<SpecOutcome>::empty()
        }),
        spec_step(
            s,
            Ok(MessagesStreamEvent::ContentBlockDelta { index, delta: ContentBlockDelta::TextDelta { text } }),
            names,
        ).state == s,
        !spec_step(
            s,
            Ok(MessagesStreamEvent::ContentBlockDelta { index, delta: ContentBlockDelta::TextDelta { text } }),
            names,
        ).finished,
{
}

/// A text block first announces an assistant message item with id `<response id>-<index>`
/// and no content, then passes on its starting text when that is not empty.
pub proof fn lemma_text_block_start(
    s: SpecState,
    index: usize,
    text: String,
    names: Map<Seq<char>, Seq<char>>,
)
    ensures
        ({
            let st = spec_step(
                s,
                Ok(MessagesStreamEvent::ContentBlockStart { index, content_block: MessageContent::Text(text) }),
                names,
            );
            let added = Ok::<SpecEvent, SpecWireError>(
                SpecEvent::OutputItemAdded(
                    SpecItem::Message {
                        id: Some(s.response_id + seq!['-'] + decimal(index as nat)),
                        role: "assistant"@,
                        content: Seq::empty(),
                    },
                ),
            );
            &&& st.state == s
            &&& !st.finished
            &&& st.outcomes == if text@.len() > 0 {
                seq![added, Ok(SpecEvent::OutputTextDelta(text@))]
            } else {
                seq![added]
            }
        }),
{
}

/// A message start sends `Created`, records the message id, and records the usage when it
/// reports one: missing counts are 0, nothing is cached or spent on reasoning, and the
/// total is input plus output.
pub proof fn lemma_message_start(
    s: SpecState,
    id: String,
    usage: Option<Usage>,
    names: Map<Seq<char>, Seq<char>>,
)
    ensures
        ({
            let st = spec_step(s, Ok(MessagesStreamEvent::MessageStart { id, usage }), names);
            &&& st.outcomes == seq![Ok::<SpecEvent, SpecWireError>(SpecEvent::Created)]
            &&& !st.finished
            &&& st.state.response_id == id@
            &&& st.state.pending == s.pending
            &&& usage is None ==> st.state.token_usage == s.token_usage
            &&& usage matches Some(u) ==> {
                let i: int = match u.input_tokens { Some(x) => x as int, None => 0 };
                let o: int = match u.output_tokens { Some(x) => x as int, None => 0 };
                st.state.token_usage matches Some(t) && t.input_tokens == i && t.output_tokens == o
                    && t.total_tokens == i + o && t.cached_input_tokens == 0
                    && t.reasoning_output_tokens == 0
            }
        }),
{
}

/// A usage report in a message delta replaces the usage recorded, with the same counts as
/// at message start; nothing is sent.
pub proof fn lemma_message_delta(
    s: SpecState,
    usage: Option<Usage>,
    names: Map<Seq<char>, Seq<char>>,
)
    ensures
        ({
            let st = spec_step(s, Ok(MessagesStreamEvent::MessageDelta { usage }), names);
            &&& st.outcomes.len() == 0
            &&& !st.finished
            &&& st.state.response_id == s.response_id
            &&& st.state.pending == s.pending
            &&& usage is None ==> st.state.token_usage == s.token_usage
            &&& usage matches Some(u) ==> {
                let i: int = match u.input_tokens { Some(x) => x as int, None => 0 };
                let o: int = match u.output_tokens { Some(x) => x as int, None => 0 };
                st.state.token_usage matches Some(t) && t.input_tokens == i && t.output_tokens == o
                    && t.total_tokens == i + o && t.cached_input_tokens == 0
                    && t.reasoning_output_tokens == 0
            }
        }),
{
}

/// A tool use block sends nothing and holds a tool call with the block's id, the Codex name
/// mapped back from the name sent (or the name itself when it was not sent), and the block's
/// input as its arguments.
pub proof fn lemma_tool_block_start(
    s: SpecState,
    index: usize,
    id: String,
    name: String,
    input: String,
    names: Map<Seq<char>, Seq<char>>,
)
    ensures
        ({
            let st = spec_step(
                s,
                Ok(
                    MessagesStreamEvent::ContentBlockStart {
                        index,
                        content_block: MessageContent::ToolUse { id, name, input },
                    },
                ),
                names,
            );
            &&& st.outcomes.len() == 0
            &&& !st.finished
            &&& st.state.response_id == s.response_id
            &&& st.state.token_usage == s.token_usage
            &&& st.state.pending == Some(
                SpecPending {
                    call_id: id@,
                    name: if names.contains_key(name@) {
                        names[name@]
                    } else {
                        name@
                    },
                    arguments: input@,
                },
            )
        }),
{
}

/// A piece of input JSON extends the held tool call's arguments; arguments that are only the
/// placeholder `{}` or `null` are replaced by it. Without a held call nothing changes.
pub proof fn lemma_input_json_delta(
    s: SpecState,
    index: usize,
    partial_json: String,
    names: Map<Seq<char>, Seq<char>>,
)
    ensures
        ({
            let st = spec_step(
                s,
                Ok(
                    MessagesStreamEvent::ContentBlockDelta {
                        index,
                        delta: ContentBlockDelta::InputJsonDelta { partial_json },
                    },
                ),
                names,
            );
            &&& st.outcomes.len() == 0
            &&& !st.finished
            &&& st.state.response_id == s.response_id
            &&& st.state.token_usage == s.token_usage
            &&& s.pending is None ==> st.state.pending is None
            &&& s.pending matches Some(p) ==> st.state.pending == Some(
                SpecPending {
                    call_id: p.call_id,
                    name: p.name,
                    arguments: if p.arguments == "{}"@ || p.arguments == "null"@ {
                        partial_json@
                    } else {
                        p.arguments + partial_json@
                    },
                },
            )
        }),
{
}

/// The end of a block sends the held tool call, if any, as a function call item with its
/// name, arguments and call id, and holds none afterwards.
pub proof fn lemma_block_stop(s: SpecState, index: usize, names: Map<Seq<char>, Seq<char>>)
    ensures
        ({
            let st = spec_step(s, Ok(MessagesStreamEvent::ContentBlockStop { index }), names);
            &&& !st.finished
            &&& st.state.pending is None
            &&& st.state.response_id == s.response_id
            &&& st.state.token_usage == s.token_usage
            &&& s.pending is None ==> st.outcomes.len() == 0
            &&& s.pending matches Some(p) ==> st.outcomes == seq![
                Ok::<SpecEvent, SpecWireError>(
                    SpecEvent::OutputItemDone(
                        SpecItem::FunctionCall {
                            name: p.name,
                            arguments: p.arguments,
                            call_id: p.call_id,
                        },
                    ),
                ),
            ]
        }),
{
}

/// The end of the message sends the held tool call, if any, then `Completed` with the
/// message id and the usage recorded, and ends the stream.
pub proof fn lemma_message_stop(s: SpecState, names: Map<Seq<char>, Seq<char>>)
    ensures
        ({
            let st = spec_step(s, Ok(MessagesStreamEvent::MessageStop), names);
            let done = Ok::<SpecEvent, SpecWireError>(
                SpecEvent::Completed { response_id: s.response_id, token_usage: s.token_usage },
            );
            &&& st.finished
            &&& st.state.pending is None
            &&& s.pending is None ==> st.outcomes == seq![done]
            &&& s.pending matches Some(p) ==> st.outcomes == seq![
                Ok::<SpecEvent, SpecWireError>(
                    SpecEvent::OutputItemDone(
                        SpecItem::FunctionCall {
                            name: p.name,
                            arguments: p.arguments,
                            call_id: p.call_id,
                        },
                    ),
                ),
                done,
            ]
        }),
{
    let st = spec_step(s, Ok(MessagesStreamEvent::MessageStop), names);
    if s.pending is Some {
        assert(st.outcomes =~= seq![st.outcomes[0], st.outcomes[1]]);
    } else {
        assert(st.outcomes =~= seq![st.outcomes[0]]);
    }
}

/// A client error is sent as the Codex error for it, and ends the stream: a rejected request
/// with its body and a missing key are invalid requests; any other error is a stream failure
/// with its message.
pub proof fn lemma_client_error(
    s: SpecState,
    e: AnthropicError,
    names: Map<Seq<char>, Seq<char>>,
)
    ensures
        spec_step(s, Err(e), names).finished,
        spec_step(s, Err(e), names).outcomes.len() == 1,
        spec_step(s, Err(e), names).outcomes[0] == Err::<SpecEvent, SpecWireError>(
            match e {
                AnthropicError::BadRequest(body) => SpecWireError::InvalidRequest(body@),
                AnthropicError::Unauthorized => SpecWireError::InvalidRequest(
                    "anthropic API key invalid or missing"@,
                ),
                AnthropicError::StreamError { message, .. } => SpecWireError::Stream(message@),
                AnthropicError::NetworkError(m) => SpecWireError::Stream(m@),
                AnthropicError::ApiError(m) => SpecWireError::Stream(m@),
                AnthropicError::Unknown(m) => SpecWireError::Stream(m@),
                AnthropicError::DeserializationError(m) => SpecWireError::Stream(m@),
                AnthropicError::UnexpectedError => SpecWireError::Stream(
                    "anthropic unexpected error"@,
                ),
            },
        ),
{
}

/// The text sent as deltas.
pub open spec fn streamed_text(o: Seq<SpecOutcome>) -> Seq<char>
    decreases o.len(),
{
    if o.len() == 0 {
        Seq::empty()
    } else {
        streamed_text(o.drop_last()) + match o.last() {
            Ok(SpecEvent::OutputTextDelta(t)) => t,
            _ => Seq::empty(),
        }
    }
}

/// The text that a stream item carries: the starting text of a text block, or a text delta.
pub open spec fn item_text(item: StreamItem) -> Seq<char> {
    match item {
        Ok(MessagesStreamEvent::ContentBlockStart { content_block: MessageContent::Text(t), .. }) => t@,
        Ok(
            MessagesStreamEvent::ContentBlockDelta {
                delta: ContentBlockDelta::TextDelta { text },
                ..
            },
        ) => text@,
        _ => Seq::empty(),
    }
}

/// The text that a list of stream items carries, in order.
pub open spec fn items_text(items: Seq<StreamItem>) -> Seq<char>
    decreases items.len(),
{
    if items.len() == 0 {
        Seq::empty()
    } else {
        items_text(items.drop_last()) + item_text(items.last())
    }
}

/// The item ends a stream: a message stop or a client error.
pub open spec fn ends_stream(item: StreamItem) -> bool {
    item is Err || item matches Ok(MessagesStreamEvent::MessageStop)
}

proof fn lemma_streamed_text_add(a: Seq<SpecOutcome>, b: Seq<SpecOutcome>)
    ensures
        streamed_text(a + b) == streamed_text(a) + streamed_text(b),
    decreases b.len(),
{
    if b.len() > 0 {
        lemma_streamed_text_add(a, b.drop_last());
        assert((a + b).drop_last() =~= a + b.drop_last());
        assert((a + b).last() == b.last());
        assert(streamed_text(a + b) =~= streamed_text(a) + streamed_text(b));
    } else {
        assert(a + b =~= a);
        assert(streamed_text(a) + streamed_text(b) =~= streamed_text(a));
    }
}

proof fn lemma_step_text(s: SpecState, item: StreamItem, names: Map<Seq<char>, Seq<char>>)
    ensures
        streamed_text(spec_step(s, item, names).outcomes) == item_text(item),
{
    let o = spec_step(s, item, names).outcomes;
    reveal_with_fuel(streamed_text, 3);
    if o.len() == 2 {
        assert(o.drop_last().drop_last() =~= Seq::<SpecOutcome>::empty());
        assert(o.drop_last().last() == o[0]);
        assert(streamed_text(o) =~= item_text(item));
    } else if o.len() == 1 {
        assert(o.drop_last() =~= Seq::<SpecOutcome>::empty());
        assert(streamed_text(o) =~= item_text(item));
    } else {
        assert(o.len() == 0);
        assert(streamed_text(o) =~= item_text(item));
    }
}

proof fn lemma_run_open(items: Seq<StreamItem>, names: Map<Seq<char>, Seq<char>>)
    requires
        forall|i: int| 0 <= i < items.len() ==> !ends_stream(#[trigger] items[i]),
    ensures
        !spec_run(items, names).finished,
    decreases items.len(),
{
    if items.len() > 0 {
        let prev = items.drop_last();
        assert forall|i: int| 0 <= i < prev.len() implies !ends_stream(#[trigger] prev[i]) by {
            assert(prev[i] == items[i]);
        }
        lemma_run_open(prev, names);
        assert(!ends_stream(items[items.len() - 1]));
    }
}

/// The text streamed to Codex is exactly the text that the stream's text blocks carry, in
/// order, whitespace and all: nothing is dropped, added or reordered, up to the item that
/// ends the stream.
pub proof fn lemma_streamed_text_is_block_text(
    items: Seq<StreamItem>,
    names: Map<Seq<char>, Seq<char>>,
)
    requires
        forall|i: int| 0 <= i < items.len() - 1 ==> !ends_stream(#[trigger] items[i]),
    ensures
        streamed_text(spec_run(items, names).outcomes) == items_text(items),
    decreases items.len(),
{
    if items.len() > 0 {
        let prev = items.drop_last();
        assert forall|i: int| 0 <= i < prev.len() implies !ends_stream(#[trigger] prev[i]) by {
            assert(prev[i] == items[i]);
        }
        lemma_run_open(prev, names);
        lemma_streamed_text_is_block_text(prev, names);
        let r = spec_run(prev, names);
        let st = spec_step(r.state, items.last(), names);
        lemma_streamed_text_add(r.outcomes, st.outcomes);
        lemma_step_text(r.state, items.last(), names);
    }
}

/// A stream starts with no message id, no usage and no tool call held, and has sent nothing.
pub proof fn lemma_run_starts_empty(names: Map<Seq<char>, Seq<char>>)
    ensures
        spec_run(Seq::empty(), names).outcomes.len() == 0,
        !spec_run(Seq::empty(), names).finished,
        spec_run(Seq::empty(), names).state.response_id.len() == 0,
        spec_run(Seq::empty(), names).state.token_usage is None,
        spec_run(Seq::empty(), names).state.pending is None,
{
}

/// Each item goes through one step: until the stream has ended, one more item sends what its
/// step sends after everything sent so far and moves to the step's state; once it has ended,
/// further items change nothing.
pub proof fn lemma_run_one_more(items: Seq<StreamItem>, item: StreamItem, names: Map<Seq<char>, Seq<char>>)
    ensures
        ({
            let before = spec_run(items, names);
            let after = spec_run(items.push(item), names);
            let st = spec_step(before.state, item, names);
            &&& before.finished ==> after == before
            &&& !before.finished ==> after.outcomes == before.outcomes + st.outcomes
                && after.state == st.state && after.finished == st.finished
        }),
{
    assert(items.push(item).drop_last() =~= items);
    assert(items.push(item).last() == item);
}

} // verus!

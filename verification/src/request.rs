//! What a streamed Anthropic turn sends: the checked credentials, the endpoint, and the
//! request body built from the Codex prompt.

use vstd::prelude::*;
use crate::error::{SpecWireError, WireError};
use crate::messages::{messages_of, messages_view, response_items_to_sdk_messages, Message, ResponseItem};
use crate::string_map::StringMap;
use crate::text::{chars_of, lemma_strip_end_shape, lemma_strip_end_at, push_chars, strip_end, trim, trim_ws};
use crate::tools::{
    not_object_error, text_values, tool_fold, tools_to_sdk_maps, AnthropicTool, ToolJson,
};

verus! {

/// The `max_tokens` of every request.
pub const DEFAULT_MAX_TOKENS: i32 = 4096;

/// A Codex prompt, reduced to what the request is built from: the formatted conversation, the
/// tool definitions in the Responses API format, and the base instructions.
pub struct Prompt {
    pub input: Vec<ResponseItem>,
    pub tools: Vec<ToolJson>,
    pub base_instructions: String,
}

/// A checked request, ready for the Anthropic client.
pub struct PreparedRequest {
    /// The base URL, without trailing `/`.
    pub base_url: String,
    /// The API key, trimmed.
    pub api_key: String,
    pub model: String,
    pub messages: Vec<Message>,
    pub tools: Vec<AnthropicTool>,
    /// From each tool name sent back to the Codex name.
    pub tool_name_map: StringMap<String>,
    /// The system prompt; `None` when the base instructions are empty.
    pub system: Option<String>,
    pub max_tokens: i32,
    pub stream: bool,
}

/// The error for a provider configured without an API key.
pub open spec fn missing_key_error() -> SpecWireError {
    SpecWireError::InvalidRequest(
        "anthropic provider requires an API key: set env_key in model_providers config and set that environment variable (e.g. ANTHROPIC_AUTH_TOKEN)"@,
    )
}

/// The error for an API key that is blank.
pub open spec fn empty_key_error() -> SpecWireError {
    SpecWireError::InvalidRequest(
        "anthropic provider auth token is empty (check env_key or experimental_bearer_token)"@,
    )
}

/// Some tool definition is not a JSON object.
pub open spec fn has_non_object_tool(tools: Seq<ToolJson>) -> bool {
    exists|i: int| 0 <= i < tools.len() && !(#[trigger] tools[i]).is_object
}

/// `str::trim_end_matches('/')`.
pub open spec fn without_trailing_slashes(s: Seq<char>) -> Seq<char> {
    strip_end(s, |c: char| c == '/')
}

/// The system prompt for the base instructions: none when they are empty.
pub open spec fn system_of(base_instructions: Seq<char>) -> Option<Seq<char>> {
    if base_instructions.len() == 0 {
        None
    } else {
        Some(base_instructions)
    }
}

/// `base_url` without the `/` at its end.
pub fn trim_trailing_slashes(base_url: &str) -> (r: String)
    ensures
        r@ == without_trailing_slashes(base_url@),
{
    let v = chars_of(base_url);
    let mut hi = v.len();
    while hi > 0 && v[hi - 1] == '/'
        invariant
            hi <= v@.len(),
            forall|i: int| hi <= i < v@.len() ==> #[trigger] v@[i] == '/',
        decreases hi,
    {
        hi -= 1;
    }
    proof {
        let p = |c: char| c == '/';
        assert forall|i: int| hi <= i < v@.len() implies #[trigger] p(v@[i]) by {}
        lemma_strip_end_at(v@, p, hi as int);
    }
    let mut r = String::new();
    push_chars(&mut r, &v, 0, hi);
    assert(r@ =~= v@.subrange(0, hi as int));
    r
}

/// The messages, the tool definitions and the tool name map for a prompt; fails when a tool
/// definition is not a JSON object.
pub fn build_sdk_messages_and_tools(prompt: &Prompt) -> (res: Result<
    (Vec<Message>, Vec<AnthropicTool>, StringMap<String>),
    WireError,
>)
    requires
        prompt.tools@.len() < u32::MAX,
    ensures
        res is Err <==> has_non_object_tool(prompt.tools@),
        res matches Err(e) ==> e@ == not_object_error(),
        res matches Ok((m, t, names)) ==> {
            &&& messages_view(m@) == messages_of(prompt.input@)
            &&& t@.map_values(|x: AnthropicTool| x@) == tool_fold(prompt.tools@).tools
            &&& text_values(names@) == tool_fold(prompt.tools@).names
        },
{
    let (tools, names) = match tools_to_sdk_maps(&prompt.tools) {
        Ok(x) => x,
        Err(e) => {
            return Err(e);
        },
    };
    let messages = match response_items_to_sdk_messages(prompt.input.as_slice()) {
        Ok(m) => m,
        Err(e) => {
            return Err(e);
        },
    };
    Ok((messages, tools, names))
}

/// Checks the API key and builds the request for a streamed turn: the key must be present and
/// not blank (it is sent trimmed), and every tool definition must be a JSON object. The base
/// URL loses its trailing `/`; the base instructions become the system prompt when they are
/// not empty; `max_tokens` is 4096 and the response is streamed.
pub fn prepare_stream_request(
    base_url: &str,
    auth_token: Option<String>,
    prompt: &Prompt,
    model_slug: &String,
) -> (res: Result<PreparedRequest, WireError>)
    requires
        prompt.tools@.len() < u32::MAX,
    ensures
        match auth_token {
            None => (res matches Err(e) && e@ == missing_key_error()),
            Some(t) => if trim_ws(t@).len() == 0 {
                (res matches Err(e) && e@ == empty_key_error())
            } else {
                &&& res is Err <==> has_non_object_tool(prompt.tools@)
                &&& res matches Err(e) ==> e@ == not_object_error()
                &&& res matches Ok(req) ==> {
                    &&& req.api_key@ == trim_ws(t@)
                    &&& req.base_url@ == without_trailing_slashes(base_url@)
                    &&& req.model@ == model_slug@
                    &&& messages_view(req.messages@) == messages_of(prompt.input@)
                    &&& req.tools@.map_values(|x: AnthropicTool| x@) == tool_fold(
                        prompt.tools@,
                    ).tools
                    &&& text_values(req.tool_name_map@) == tool_fold(prompt.tools@).names
                    &&& (match req.system {
                        Some(s) => Some(s@),
                        None => None,
                    }) == system_of(prompt.base_instructions@)
                    &&& req.max_tokens == 4096
                    &&& req.stream
                }
            },
        },
{
    let token = match &auth_token {
        Some(t) => {
            let t = trim(t.as_str());
            if t.as_str().is_empty() {
                return Err(
                    WireError::InvalidRequest(
                        String::from_str(
                            "anthropic provider auth token is empty (check env_key or experimental_bearer_token)",
                        ),
                    ),
                );
            }
            t
        },
        None => {
            return Err(
                WireError::InvalidRequest(
                    String::from_str(
                        "anthropic provider requires an API key: set env_key in model_providers config and set that environment variable (e.g. ANTHROPIC_AUTH_TOKEN)",
                    ),
                ),
            );
        },
    };
    let (messages, tools, tool_name_map) = match build_sdk_messages_and_tools(prompt) {
        Ok(x) => x,
        Err(e) => {
            return Err(e);
        },
    };
    let system = if prompt.base_instructions.as_str().is_empty() {
        None
    } else {
        Some(prompt.base_instructions.clone())
    };
    Ok(
        PreparedRequest {
            base_url: trim_trailing_slashes(base_url),
            api_key: token,
            model: model_slug.clone(),
            messages,
            tools,
            tool_name_map,
            system,
            max_tokens: DEFAULT_MAX_TOKENS,
            stream: true,
        },
    )
}

/// The system prompt is the base instructions exactly as they are, whatever they hold; only
/// empty base instructions give none.
pub proof fn lemma_system_prompt(base_instructions: Seq<char>)
    ensures
        system_of(base_instructions) is None <==> base_instructions.len() == 0,
        system_of(base_instructions) matches Some(x) ==> x == base_instructions,
{
}

/// The base URL loses exactly the `/` at its end: the result is a prefix of the URL, the
/// rest is all `/`, and the result does not end in `/`.
pub proof fn lemma_trailing_slashes_removed(url: Seq<char>)
    ensures
        without_trailing_slashes(url).len() <= url.len(),
        without_trailing_slashes(url) == url.subrange(0, without_trailing_slashes(url).len() as int),
        forall|i: int| without_trailing_slashes(url).len() <= i < url.len() ==> #[trigger] url[i] == '/',
        without_trailing_slashes(url).len() > 0 ==> without_trailing_slashes(url).last() != '/',
{
    let p = |c: char| c == '/';
    lemma_strip_end_shape(url, p);
    assert forall|i: int| without_trailing_slashes(url).len() <= i < url.len() implies #[trigger] url[i] == '/' by {
        assert(p(url[i]));
    }
}

/// A missing key and a blank key are invalid requests, each with its own message.
pub proof fn lemma_key_errors()
    ensures
        missing_key_error() == SpecWireError::InvalidRequest(
            "anthropic provider requires an API key: set env_key in model_providers config and set that environment variable (e.g. ANTHROPIC_AUTH_TOKEN)"@,
        ),
        empty_key_error() == SpecWireError::InvalidRequest(
            "anthropic provider auth token is empty (check env_key or experimental_bearer_token)"@,
        ),
{
}

} // verus!

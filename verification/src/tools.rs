//! Codex function tools as Anthropic tool definitions, and the map from the names sent to
//! Anthropic back to the Codex names.

use vstd::prelude::*;
use crate::error::{SpecWireError, WireError};
use crate::sanitize::{is_name_char, is_wire_tool_name, lemma_sanitized_is_wire_name, sanitize_tool_name_for_anthropic, spec_sanitize};
use crate::string_map::StringMap;
use crate::text::{digit_char, lemma_decimal_digits, decimal, push_char, push_decimal, trim, trim_ws};

verus! {

/// One member of a tool's JSON object, as the conversion reads it.
#[derive(Debug)]
pub enum JsonField {
    /// The object has no such member.
    Absent,
    /// The member is a JSON string.
    Str(String),
    /// The member holds some other JSON value.
    NonString,
}

/// A tool definition in the Responses API JSON format, reduced to what the conversion reads.
/// `function_*` are the members of a nested `"function"` object; they are `Absent` (or `None`)
/// when there is no such object.
#[derive(Debug)]
pub struct ToolJson {
    /// The definition is a JSON object.
    pub is_object: bool,
    /// The `"type"` member.
    pub kind: JsonField,
    pub name: JsonField,
    pub description: JsonField,
    /// The `"parameters"` member, as JSON text.
    pub parameters: Option<String>,
    pub function_name: JsonField,
    pub function_description: JsonField,
    /// The `"parameters"` member of the `"function"` object, as JSON text.
    pub function_parameters: Option<String>,
}

/// An Anthropic tool definition: `{"name", "description", "input_schema"}`.
#[derive(Debug)]
pub struct AnthropicTool {
    pub name: String,
    pub description: String,
    /// JSON text of the input schema.
    pub input_schema: String,
}

/// An `AnthropicTool` by its texts.
pub struct WireTool {
    pub name: Seq<char>,
    pub description: Seq<char>,
    pub input_schema: Seq<char>,
}

impl View for AnthropicTool {
    type V = WireTool;

    open spec fn view(&self) -> WireTool {
        WireTool {
            name: self.name@,
            description: self.description@,
            input_schema: self.input_schema@,
        }
    }
}

/// The text of a string member; empty for any other member.
pub open spec fn field_text(f: JsonField) -> Seq<char> {
    match f {
        JsonField::Str(s) => s@,
        _ => Seq::empty(),
    }
}

/// A top-level member, falling back to the member of the `"function"` object when the
/// top-level one is absent.
pub open spec fn field_or_function(top: JsonField, fun: JsonField) -> Seq<char> {
    match top {
        JsonField::Absent => field_text(fun),
        _ => field_text(top),
    }
}

/// The input schema: `"parameters"`, else `"function"."parameters"`, else `{}`.
pub open spec fn schema_of(top: Option<String>, fun: Option<String>) -> Seq<char> {
    match top {
        Some(p) => p@,
        None => match fun {
            Some(p) => p@,
            None => seq!['{', '}'],
        },
    }
}

/// The tool is a function tool: its `"type"` is the string `"function"`.
pub open spec fn is_function_tool(t: ToolJson) -> bool {
    t.kind matches JsonField::Str(k) && k@ == "function"@
}

/// The Codex name of a tool.
pub open spec fn original_name(t: ToolJson) -> Seq<char> {
    field_or_function(t.name, t.function_name)
}

/// The tool is sent to Anthropic: a function tool whose name is not blank.
pub open spec fn is_sent(t: ToolJson) -> bool {
    is_function_tool(t) && trim_ws(original_name(t)).len() > 0
}

/// The tools converted so far, with the state of the conversion.
pub struct ToolFold {
    /// The Anthropic tool definitions, in order.
    pub tools: Seq<WireTool>,
    /// The Codex name of each definition in `tools`.
    pub originals: Seq<Seq<char>>,
    /// From each name sent to Anthropic to the Codex name of the last tool sent under it.
    pub names: Map<Seq<char>, Seq<char>>,
    /// How many tools were sent with each sanitized name.
    pub counts: Map<Seq<char>, nat>,
    /// For each definition in `tools`, its rank among the tools sent with the same sanitized
    /// name (1 for the first).
    pub ranks: Seq<nat>,
}

/// The name under which a tool is sent: its sanitized name, with `_2`, `_3`, ... appended for
/// the second, third, ... tool whose name sanitizes the same way.
pub open spec fn numbered_name(base: Seq<char>, count: nat) -> Seq<char> {
    if count > 1 {
        base + seq!['_'] + decimal(count)
    } else {
        base
    }
}

/// How many tools were sent so far under `base`.
pub open spec fn count_of(counts: Map<Seq<char>, nat>, base: Seq<char>) -> nat {
    if counts.contains_key(base) {
        counts[base]
    } else {
        0
    }
}

/// One tool more.
pub open spec fn tool_step(acc: ToolFold, t: ToolJson) -> ToolFold {
    if !is_sent(t) {
        acc
    } else {
        let orig = original_name(t);
        let base = spec_sanitize(orig);
        let count = count_of(acc.counts, base) + 1;
        let name = numbered_name(base, count);
        ToolFold {
            tools: acc.tools.push(
                WireTool {
                    name,
                    description: field_or_function(t.description, t.function_description),
                    input_schema: schema_of(t.parameters, t.function_parameters),
                },
            ),
            originals: acc.originals.push(orig),
            names: acc.names.insert(name, orig),
            counts: acc.counts.insert(base, count),
            ranks: acc.ranks.push(count),
        }
    }
}

/// The conversion of a list of tool definitions, all of them JSON objects.
pub open spec fn tool_fold(tools: Seq<ToolJson>) -> ToolFold
    decreases tools.len(),
{
    if tools.len() == 0 {
        ToolFold {
            tools: Seq::empty(),
            originals: Seq::empty(),
            names: Map::empty(),
            counts: Map::empty(),
            ranks: Seq::empty(),
        }
    } else {
        tool_step(tool_fold(tools.drop_last()), tools.last())
    }
}

/// A map of strings by the texts of its values.
pub open spec fn text_values(m: Map<Seq<char>, String>) -> Map<Seq<char>, Seq<char>> {
    Map::new(|k: Seq<char>| m.contains_key(k), |k: Seq<char>| m[k]@)
}

/// The error for a tool definition that is not a JSON object.
pub open spec fn not_object_error() -> SpecWireError {
    SpecWireError::InvalidRequest("expected tool to be a JSON object"@)
}

/// Every count stays within the number of tools seen.
proof fn lemma_counts_bounded(tools: Seq<ToolJson>)
    ensures
        forall|k: Seq<char>|
            #[trigger] tool_fold(tools).counts.contains_key(k) ==> tool_fold(tools).counts[k]
                <= tools.len(),
    decreases tools.len(),
{
    if tools.len() > 0 {
        let prev = tools.drop_last();
        lemma_counts_bounded(prev);
        let acc = tool_fold(prev);
        let t = tools.last();
        if is_sent(t) {
            let base = spec_sanitize(original_name(t));
            assert(count_of(acc.counts, base) <= prev.len());
        }
    }
}

fn text_of(f: &JsonField) -> (s: String)
    ensures
        s@ == field_text(*f),
{
    match f {
        JsonField::Str(s) => s.clone(),
        _ => String::new(),
    }
}

fn member_or_function(top: &JsonField, fun: &JsonField) -> (s: String)
    ensures
        s@ == field_or_function(*top, *fun),
{
    match top {
        JsonField::Absent => text_of(fun),
        _ => text_of(top),
    }
}

fn schema_text(top: &Option<String>, fun: &Option<String>) -> (s: String)
    ensures
        s@ == schema_of(*top, *fun),
{
    match top {
        Some(p) => p.clone(),
        None => match fun {
            Some(p) => p.clone(),
            None => {
                let mut s = String::new();
                push_char(&mut s, '{');
                push_char(&mut s, '}');
                assert(s@ =~= seq!['{', '}']);
                s
            },
        },
    }
}

fn is_function_kind(t: &ToolJson) -> (b: bool)
    ensures
        b == is_function_tool(*t),
{
    match &t.kind {
        JsonField::Str(k) => {
            let f = String::from_str("function");
            *k == f
        },
        _ => false,
    }
}

/// Converts Responses API tool definitions to Anthropic ones. Tools whose `"type"` is not
/// `"function"`, and function tools with a blank name, are left out. Each name is sanitized
/// (see `sanitize_tool_name_for_anthropic`) and numbered when an earlier tool had the same
/// sanitized name. Returns the definitions and the map from each name sent back to the Codex
/// name; fails when a definition is not a JSON object.
pub fn tools_to_sdk_maps(tools: &Vec<ToolJson>) -> (res: Result<
    (Vec<AnthropicTool>, StringMap<String>),
    WireError,
>)
    requires
        tools@.len() < u32::MAX,
    ensures
        res is Err <==> exists|i: int| 0 <= i < tools@.len() && !(#[trigger] tools@[i]).is_object,
        res matches Err(e) ==> e@ == not_object_error(),
        res matches Ok((out, names)) ==> {
            &&& out@.map_values(|t: AnthropicTool| t@) == tool_fold(tools@).tools
            &&& text_values(names@) == tool_fold(tools@).names
        },
{
    let mut out: Vec<AnthropicTool> = Vec::new();
    let mut names: StringMap<String> = StringMap::new();
    let mut counts: StringMap<u32> = StringMap::new();
    let n = tools.len();
    let mut i: usize = 0;
    while i < n
        invariant
            n == tools@.len() < u32::MAX,
            i <= n,
            forall|j: int| 0 <= j < i ==> (#[trigger] tools@[j]).is_object,
            out@.map_values(|t: AnthropicTool| t@) == tool_fold(tools@.take(i as int)).tools,
            text_values(names@) == tool_fold(tools@.take(i as int)).names,
            forall|k: Seq<char>|
                #[trigger] counts@.contains_key(k) <==> tool_fold(
                    tools@.take(i as int),
                ).counts.contains_key(k),
            forall|k: Seq<char>|
                #[trigger] counts@.contains_key(k) ==> counts@[k] as nat == tool_fold(
                    tools@.take(i as int),
                ).counts[k],
        decreases n - i,
    {
        let t = &tools[i];
        let ghost prev = tools@.take(i as int);
        let ghost acc = tool_fold(prev);
        assert(tools@.take(i + 1).drop_last() =~= prev);
        assert(tools@.take(i + 1).last() == tools@[i as int]);
        if !t.is_object {
            return Err(WireError::InvalidRequest(String::from_str("expected tool to be a JSON object")));
        }
        if !is_function_kind(t) {
            i += 1;
            continue;
        }
        let original = member_or_function(&t.name, &t.function_name);
        let trimmed = trim(original.as_str());
        if trimmed.as_str().is_empty() {
            i += 1;
            continue;
        }
        let base = sanitize_tool_name_for_anthropic(original.as_str());
        proof {
            lemma_counts_bounded(prev);
        }
        let count: u32 = match counts.get(&base) {
            Some(c) => {
                assert(acc.counts[base@] <= i);
                *c + 1
            },
            None => 1,
        };
        assert(count == count_of(acc.counts, base@) + 1);
        let mut name = base.clone();
        if count > 1 {
            push_char(&mut name, '_');
            push_decimal(&mut name, count as u64);
        }
        assert(name@ == numbered_name(base@, count as nat));
        let description = member_or_function(&t.description, &t.function_description);
        let input_schema = schema_text(&t.parameters, &t.function_parameters);
        let ghost old_out = out@;
        out.push(AnthropicTool { name: name.clone(), description, input_schema });
        names.insert(name, original);
        counts.insert(base, count);
        proof {
            let next = tool_fold(tools@.take(i + 1));
            assert(out@.map_values(|t: AnthropicTool| t@) =~= next.tools) by {
                assert(out@.drop_last() == old_out);
            }
            assert(text_values(names@) =~= next.names);
        }
        i += 1;
    }
    assert(tools@.take(n as int) =~= tools@);
    Ok((out, names))
}

/// The conversion keeps one Codex name per definition sent.
proof fn lemma_fold_lengths(tools: Seq<ToolJson>)
    ensures
        tool_fold(tools).originals.len() == tool_fold(tools).tools.len(),
    decreases tools.len(),
{
    if tools.len() > 0 {
        lemma_fold_lengths(tools.drop_last());
    }
}

/// Every name sent to Anthropic is one that it accepts: non-empty, made of ASCII letters,
/// digits, `_` and `-`, and starting with a letter; numbering keeps it so.
pub proof fn lemma_sent_names_are_wire_names(tools: Seq<ToolJson>)
    ensures
        forall|i: int|
            0 <= i < tool_fold(tools).tools.len() ==> is_wire_tool_name(
                #[trigger] tool_fold(tools).tools[i].name,
            ),
    decreases tools.len(),
{
    if tools.len() > 0 {
        let prev = tools.drop_last();
        lemma_sent_names_are_wire_names(prev);
        let t = tools.last();
        let acc = tool_fold(prev);
        if is_sent(t) {
            let base = spec_sanitize(original_name(t));
            let count = count_of(acc.counts, base) + 1;
            let name = numbered_name(base, count);
            lemma_sanitized_is_wire_name(original_name(t));
            if count > 1 {
                lemma_decimal_digits(count);
                let d = decimal(count);
                assert forall|j: int| 0 <= j < name.len() implies #[trigger] is_name_char(
                    name[j],
                ) by {
                    if j < base.len() {
                        assert(name[j] == base[j]);
                    } else if j > base.len() {
                        assert(name[j] == d[j - base.len() - 1]);
                    }
                }
                assert(name[0] == base[0]);
            }
            let next = tool_fold(tools);
            assert forall|i: int| 0 <= i < next.tools.len() implies is_wire_tool_name(
                #[trigger] next.tools[i].name,
            ) by {
                if i < acc.tools.len() {
                    assert(next.tools[i] == acc.tools[i]);
                }
            }
        }
    }
}

/// The name map gives back, for each name sent, the Codex name of the last definition sent
/// under it; it holds no other names.
pub proof fn lemma_name_map_reads_back(tools: Seq<ToolJson>)
    ensures
        tool_fold(tools).originals.len() == tool_fold(tools).tools.len(),
        forall|k: Seq<char>|
            #[trigger] tool_fold(tools).names.contains_key(k) <==> exists|i: int|
                0 <= i < tool_fold(tools).tools.len() && tool_fold(tools).tools[i].name == k,
        forall|i: int|
            0 <= i < tool_fold(tools).tools.len() && (forall|j: int|
                i < j < tool_fold(tools).tools.len() ==> tool_fold(tools).tools[j].name
                    != tool_fold(tools).tools[i].name) ==> tool_fold(tools).names[#[trigger] tool_fold(
                tools,
            ).tools[i].name] == tool_fold(tools).originals[i],
    decreases tools.len(),
{
    lemma_fold_lengths(tools);
    if tools.len() > 0 {
        let prev = tools.drop_last();
        lemma_name_map_reads_back(prev);
        let t = tools.last();
        let acc = tool_fold(prev);
        let next = tool_fold(tools);
        if is_sent(t) {
            let n = acc.tools.len() as int;
            assert forall|k: Seq<char>| #[trigger] next.names.contains_key(k) <==> exists|i: int|
                0 <= i < next.tools.len() && next.tools[i].name == k by {
                if next.names.contains_key(k) && k != next.tools[n].name {
                    let i = choose|i: int| 0 <= i < acc.tools.len() && acc.tools[i].name == k;
                    assert(next.tools[i] == acc.tools[i]);
                }
                if exists|i: int| 0 <= i < next.tools.len() && next.tools[i].name == k {
                    let i = choose|i: int| 0 <= i < next.tools.len() && next.tools[i].name == k;
                    if i < n {
                        assert(next.tools[i] == acc.tools[i]);
                    }
                }
            }
            assert forall|i: int|
                0 <= i < next.tools.len() && (forall|j: int|
                    i < j < next.tools.len() ==> next.tools[j].name != next.tools[i].name)
                    implies next.names[#[trigger] next.tools[i].name] == next.originals[i] by {
                if i < n {
                    assert(next.tools[i] == acc.tools[i]);
                    assert(next.originals[i] == acc.originals[i]);
                    assert(next.tools[n].name != next.tools[i].name);
                    assert forall|j: int| i < j < acc.tools.len() implies acc.tools[j].name
                        != acc.tools[i].name by {
                        assert(next.tools[j] == acc.tools[j]);
                    }
                }
            }
        }
    }
}

/// Each definition sent carries its rank: its name is its sanitized name numbered by its
/// rank, and the rank is at most the count for that sanitized name.
proof fn lemma_ranks(tools: Seq<ToolJson>)
    ensures
        tool_fold(tools).originals.len() == tool_fold(tools).tools.len(),
        tool_fold(tools).ranks.len() == tool_fold(tools).tools.len(),
        forall|i: int|
            0 <= i < tool_fold(tools).tools.len() ==> {
                let base = spec_sanitize(tool_fold(tools).originals[i]);
                &&& tool_fold(tools).tools[i].name == numbered_name(
                    base,
                    #[trigger] tool_fold(tools).ranks[i],
                )
                &&& 1 <= tool_fold(tools).ranks[i] <= count_of(tool_fold(tools).counts, base)
            },
    decreases tools.len(),
{
    if tools.len() > 0 {
        let prev = tools.drop_last();
        lemma_ranks(prev);
        let acc = tool_fold(prev);
        let next = tool_fold(tools);
        let t = tools.last();
        if is_sent(t) {
            let n = acc.tools.len() as int;
            let b = spec_sanitize(original_name(t));
            assert forall|i: int| 0 <= i < next.tools.len() implies {
                let base = spec_sanitize(next.originals[i]);
                &&& next.tools[i].name == numbered_name(base, #[trigger] next.ranks[i])
                &&& 1 <= next.ranks[i] <= count_of(next.counts, base)
            } by {
                if i < n {
                    assert(next.tools[i] == acc.tools[i]);
                    assert(next.originals[i] == acc.originals[i]);
                    assert(next.ranks[i] == acc.ranks[i]);
                }
            }
        }
    }
}

proof fn lemma_digit_injective(a: nat, b: nat)
    requires
        a < 10,
        b < 10,
        digit_char(a) == digit_char(b),
    ensures
        a == b,
{
    let d = seq!['0', '1', '2', '3', '4', '5', '6', '7', '8', '9'];
    assert(d[0] == '0' && d[1] == '1' && d[2] == '2' && d[3] == '3' && d[4] == '4');
    assert(d[5] == '5' && d[6] == '6' && d[7] == '7' && d[8] == '8' && d[9] == '9');
}

/// Distinct numbers have distinct decimal representations.
proof fn lemma_decimal_injective(a: nat, b: nat)
    requires
        decimal(a) == decimal(b),
    ensures
        a == b,
    decreases a + b,
{
    lemma_decimal_digits(a / 10);
    lemma_decimal_digits(b / 10);
    if a < 10 && b < 10 {
        assert(decimal(a)[0] == digit_char(a));
        lemma_digit_injective(a, b);
    } else if a >= 10 && b >= 10 {
        assert(decimal(a).last() == digit_char(a % 10));
        assert(decimal(b).last() == digit_char(b % 10));
        lemma_digit_injective(a % 10, b % 10);
        assert(decimal(a).drop_last() =~= decimal(a / 10));
        assert(decimal(b).drop_last() =~= decimal(b / 10));
        lemma_decimal_injective(a / 10, b / 10);
    } else if a < 10 {
        assert(decimal(a).len() == 1);
        assert(decimal(b).len() == decimal(b / 10).len() + 1);
    } else {
        assert(decimal(b).len() == 1);
        assert(decimal(a).len() == decimal(a / 10).len() + 1);
    }
}

proof fn lemma_numbered_injective(base: Seq<char>, c1: nat, c2: nat)
    requires
        1 <= c1 < c2,
    ensures
        numbered_name(base, c1) != numbered_name(base, c2),
{
    lemma_decimal_digits(c2);
    if c1 > 1 && numbered_name(base, c1) == numbered_name(base, c2) {
        let x = numbered_name(base, c1);
        let k = base.len() + 1;
        assert(x.subrange(k as int, x.len() as int) =~= decimal(c1));
        assert(numbered_name(base, c2).subrange(k as int, x.len() as int) =~= decimal(c2));
        lemma_decimal_injective(c1, c2);
    }
}

/// Tools whose names sanitize the same way are told apart: the first keeps the sanitized
/// name, the later ones get `_2`, `_3`, ..., so no two of them are sent under one name.
pub proof fn lemma_same_base_numbered_apart(tools: Seq<ToolJson>, i: int, j: int)
    requires
        0 <= i < j < tool_fold(tools).tools.len(),
        spec_sanitize(tool_fold(tools).originals[i]) == spec_sanitize(
            tool_fold(tools).originals[j],
        ),
    ensures
        tool_fold(tools).tools[i].name != tool_fold(tools).tools[j].name,
    decreases tools.len(),
{
    lemma_ranks(tools);
    let prev = tools.drop_last();
    lemma_ranks(prev);
    let acc = tool_fold(prev);
    let next = tool_fold(tools);
    let n = acc.tools.len() as int;
    if j < n {
        assert(next.tools[i] == acc.tools[i] && next.tools[j] == acc.tools[j]);
        assert(next.originals[i] == acc.originals[i] && next.originals[j] == acc.originals[j]);
        lemma_same_base_numbered_apart(prev, i, j);
    } else {
        let base = spec_sanitize(next.originals[j]);
        assert(next.originals[i] == acc.originals[i]);
        assert(next.ranks[i] == acc.ranks[i]);
        assert(acc.ranks[i] <= count_of(acc.counts, base));
        assert(next.ranks[j] == count_of(acc.counts, base) + 1);
        lemma_numbered_injective(base, next.ranks[i], next.ranks[j]);
    }
}

/// How many of the given Codex names sanitize to `base`.
pub open spec fn count_base(origs: Seq<Seq<char>>, base: Seq<char>) -> nat
    decreases origs.len(),
{
    if origs.len() == 0 {
        0
    } else {
        count_base(origs.drop_last(), base) + if spec_sanitize(origs.last()) == base {
            1nat
        } else {
            0nat
        }
    }
}

proof fn lemma_counts_match(tools: Seq<ToolJson>)
    ensures
        forall|b: Seq<char>|
            #[trigger] count_of(tool_fold(tools).counts, b) == count_base(tool_fold(tools).originals, b),
    decreases tools.len(),
{
    if tools.len() > 0 {
        let prev = tools.drop_last();
        lemma_counts_match(prev);
        let acc = tool_fold(prev);
        let next = tool_fold(tools);
        let t = tools.last();
        if is_sent(t) {
            assert forall|b: Seq<char>| #[trigger] count_of(next.counts, b) == count_base(
                next.originals,
                b,
            ) by {
                assert(next.originals.drop_last() =~= acc.originals);
                assert(count_of(acc.counts, b) == count_base(acc.originals, b));
            }
        }
    }
}

/// No definitions, no tools and no names.
pub proof fn lemma_no_tools()
    ensures
        tool_fold(Seq::empty()).tools.len() == 0,
        tool_fold(Seq::empty()).originals.len() == 0,
        tool_fold(Seq::empty()).names == Map::<Seq<char>, Seq<char>>::empty(),
{
}

/// One definition more, stated on its own fields: a function tool (its `"type"` is the string
/// `"function"`) whose name (top-level `"name"`, else `"function"."name"`) is not blank is sent
/// after the tools before it, with its sanitized name (numbered `_<n>` when it is the n-th
/// tool, n > 1, whose name sanitizes that way), its description (top-level, else
/// `"function"`'s, else empty) and its input schema (top-level `"parameters"`, else
/// `"function"."parameters"`, else `{}`); its sent name then maps back to its Codex name. Any
/// other definition changes nothing. The tools sent before are kept as they were.
pub proof fn lemma_tool_appended(tools: Seq<ToolJson>, t: ToolJson)
    ensures
        ({
            let before = tool_fold(tools);
            let after = tool_fold(tools.push(t));
            let orig = match t.name {
                JsonField::Absent => match t.function_name {
                    JsonField::Str(s) => s@,
                    _ => Seq::<char>::empty(),
                },
                JsonField::Str(s) => s@,
                JsonField::NonString => Seq::<char>::empty(),
            };
            let function = (t.kind matches JsonField::Str(k) && k@ == "function"@);
            let sent = function && trim_ws(orig).len() > 0;
            let base = spec_sanitize(orig);
            let n = count_base(before.originals, base) + 1;
            let name = if n > 1 {
                base + seq!['_'] + decimal(n)
            } else {
                base
            };
            let description = match t.description {
                JsonField::Absent => match t.function_description {
                    JsonField::Str(s) => s@,
                    _ => Seq::<char>::empty(),
                },
                JsonField::Str(s) => s@,
                JsonField::NonString => Seq::<char>::empty(),
            };
            let input_schema = match t.parameters {
                Some(p) => p@,
                None => match t.function_parameters {
                    Some(p) => p@,
                    None => seq!['{', '}'],
                },
            };
            &&& !sent ==> after.tools == before.tools && after.originals == before.originals
                && after.names == before.names
            &&& sent ==> after.tools == before.tools.push(
                WireTool { name, description, input_schema },
            ) && after.originals == before.originals.push(orig) && after.names
                == before.names.insert(name, orig)
        }),
{
    let prev = tools.push(t);
    assert(prev.drop_last() =~= tools);
    assert(prev.last() == t);
    lemma_counts_match(tools);
}

/// The names map by text holds the same keys, each with the text of its string.
pub proof fn lemma_text_values(m: Map<Seq<char>, String>, k: Seq<char>)
    ensures
        text_values(m).contains_key(k) <==> m.contains_key(k),
        m.contains_key(k) ==> text_values(m)[k] == m[k]@,
{
}

/// The error for a tool definition that is not a JSON object is an invalid request saying so.
pub proof fn lemma_not_object_error()
    ensures
        not_object_error() == SpecWireError::InvalidRequest("expected tool to be a JSON object"@),
{
}

} // verus!

//! Tool names as the Anthropic Messages API accepts them.

use vstd::prelude::*;
use crate::text::{lemma_strip_end_shape, lemma_strip_start_shape, strip_end, strip_start, lemma_strip_keeps, lemma_strip_unchanged, chars_of, is_ascii_alnum, is_ascii_alpha, lemma_strip_end_at, lemma_strip_start_at, push_char, push_chars, strip_both};

verus! {

/// A character that may stand in an Anthropic tool name: ASCII letters and digits, `_`, `-`.
pub open spec fn is_name_char(c: char) -> bool {
    is_ascii_alnum(c) || c == '_' || c == '-'
}

/// Every character that may not stand in a tool name replaced by `_`.
pub open spec fn replace_invalid(s: Seq<char>) -> Seq<char> {
    s.map_values(|c: char| if is_name_char(c) { c } else { '_' })
}

/// The replaced name without `_` at either end.
pub open spec fn name_core(name: Seq<char>) -> Seq<char> {
    strip_both(replace_invalid(name), |c: char| c == '_')
}

/// The prefix put before a name that would not start with a letter.
pub open spec fn fallback_prefix() -> Seq<char> {
    seq!['t', 'o', 'o', 'l', '_']
}

/// The tool name sent to Anthropic for a Codex tool named `name`.
pub open spec fn spec_sanitize(name: Seq<char>) -> Seq<char> {
    let s = name_core(name);
    if s.len() == 0 || !is_ascii_alpha(s[0]) {
        fallback_prefix() + s
    } else {
        s
    }
}

/// A name made of tool-name characters only, that starts with an ASCII letter.
pub open spec fn is_wire_tool_name(s: Seq<char>) -> bool {
    &&& s.len() > 0
    &&& is_ascii_alpha(s[0])
    &&& forall|i: int| 0 <= i < s.len() ==> #[trigger] is_name_char(s[i])
}

fn is_name_char_exec(c: char) -> (b: bool)
    ensures
        b == is_name_char(c),
{
    (c >= 'a' && c <= 'z') || (c >= 'A' && c <= 'Z') || (c >= '0' && c <= '9') || c == '_' || c
        == '-'
}

fn is_ascii_alpha_exec(c: char) -> (b: bool)
    ensures
        b == is_ascii_alpha(c),
{
    (c >= 'a' && c <= 'z') || (c >= 'A' && c <= 'Z')
}

/// Maps a Codex tool name to one that Anthropic accepts (`^[a-zA-Z0-9_-]+$`, starting with a
/// letter): every other character becomes `_`, `_` is trimmed from both ends, and a name that
/// is then empty or does not start with a letter gets the prefix `tool_`.
pub fn sanitize_tool_name_for_anthropic(name: &str) -> (r: String)
    ensures
        r@ == spec_sanitize(name@),
{
    let chars = chars_of(name);
    let mut mapped: Vec<char> = Vec::new();
    let n = chars.len();
    for i in 0..n
        invariant
            n == chars@.len(),
            chars@ == name@,
            mapped@ == replace_invalid(name@).take(i as int),
    {
        let c = chars[i];
        let m = if is_name_char_exec(c) {
            c
        } else {
            '_'
        };
        mapped.push(m);
        assert(replace_invalid(name@).take(i + 1) =~= replace_invalid(name@).take(i as int).push(
            m,
        ));
    }
    assert(replace_invalid(name@).take(n as int) =~= replace_invalid(name@));
    let mut lo: usize = 0;
    while lo < n && mapped[lo] == '_'
        invariant
            lo <= n == mapped@.len(),
            forall|i: int| 0 <= i < lo ==> #[trigger] mapped@[i] == '_',
        decreases n - lo,
    {
        lo += 1;
    }
    let mut hi: usize = n;
    while hi > lo && mapped[hi - 1] == '_'
        invariant
            lo <= hi <= n == mapped@.len(),
            forall|i: int| hi <= i < n ==> #[trigger] mapped@[i] == '_',
        decreases hi,
    {
        hi -= 1;
    }
    let ghost p = |c: char| c == '_';
    proof {
        let s = mapped@;
        assert forall|i: int| 0 <= i < lo implies #[trigger] p(s[i]) by {}
        lemma_strip_start_at(s, p, lo as int);
        let t = s.subrange(lo as int, n as int);
        assert forall|i: int| hi - lo <= i < t.len() implies #[trigger] p(t[i]) by {
            assert(t[i] == s[i + lo]);
        }
        if hi > lo {
            assert(t[hi - lo - 1] == s[hi - 1]);
        }
        lemma_strip_end_at(t, p, hi - lo);
        assert(t.subrange(0, hi - lo) =~= s.subrange(lo as int, hi as int));
        assert(name_core(name@) == s.subrange(lo as int, hi as int));
    }
    let mut r = String::new();
    if hi == lo || !is_ascii_alpha_exec(mapped[lo]) {
        push_char(&mut r, 't');
        push_char(&mut r, 'o');
        push_char(&mut r, 'o');
        push_char(&mut r, 'l');
        push_char(&mut r, '_');
        assert(r@ =~= fallback_prefix());
    }
    push_chars(&mut r, &mapped, lo, hi);
    r
}

/// Every sanitized name is one that Anthropic accepts: non-empty, made of ASCII letters,
/// digits, `_` and `-`, and starting with a letter.
pub proof fn lemma_sanitized_is_wire_name(name: Seq<char>)
    ensures
        is_wire_tool_name(spec_sanitize(name)),
{
    let m = replace_invalid(name);
    let q = |c: char| is_name_char(c);
    let p = |c: char| c == '_';
    assert forall|i: int| 0 <= i < m.len() implies #[trigger] q(m[i]) by {}
    lemma_strip_keeps(m, p, q);
    let s = name_core(name);
    assert(s == strip_both(m, p));
    let r = spec_sanitize(name);
    if s.len() == 0 || !is_ascii_alpha(s[0]) {
        assert forall|i: int| 0 <= i < r.len() implies #[trigger] is_name_char(r[i]) by {
            if i >= 5 {
                assert(r[i] == s[i - 5]);
                assert(q(s[i - 5]));
            }
        }
    } else {
        assert forall|i: int| 0 <= i < r.len() implies #[trigger] is_name_char(r[i]) by {
            assert(q(s[i]));
        }
    }
}

/// A name that Anthropic already accepts and that does not end in `_` is sent unchanged.
pub proof fn lemma_sanitize_keeps_wire_name(name: Seq<char>)
    requires
        is_wire_tool_name(name),
        name.last() != '_',
    ensures
        spec_sanitize(name) == name,
{
    let m = replace_invalid(name);
    assert(m =~= name);
    lemma_strip_unchanged(m, |c: char| c == '_');
}

/// Sanitizing twice is sanitizing once, for every name that keeps a character other than
/// `_` once its invalid characters are replaced.
pub proof fn lemma_sanitize_idempotent(name: Seq<char>)
    requires
        name_core(name).len() > 0,
    ensures
        spec_sanitize(spec_sanitize(name)) == spec_sanitize(name),
{
    let m = replace_invalid(name);
    let q = |c: char| is_name_char(c);
    let p = |c: char| c == '_';
    assert forall|i: int| 0 <= i < m.len() implies #[trigger] q(m[i]) by {}
    lemma_strip_keeps(m, p, q);
    let s = name_core(name);
    assert(s == strip_both(m, p));
    let r = spec_sanitize(name);
    assert(r.last() == s.last());
    lemma_sanitized_is_wire_name(name);
    lemma_sanitize_keeps_wire_name(r);
}

/// What sanitizing does, stated on the name itself: every character that is not an ASCII
/// letter or digit, `_` or `-` becomes `_`; of that, the core is what is left once the `_` at
/// both ends are removed (everything around it is `_`, and it neither starts nor ends with
/// `_`); the result is the core, or `tool_` followed by the core when the core is empty or
/// does not start with an ASCII letter.
pub proof fn lemma_sanitize_on_name(name: Seq<char>)
    ensures
        ({
            let m = Seq::new(
                name.len(),
                |i: int|
                    if ('a' <= name[i] <= 'z') || ('A' <= name[i] <= 'Z') || ('0' <= name[i] <= '9')
                        || name[i] == '_' || name[i] == '-' {
                        name[i]
                    } else {
                        '_'
                    },
            );
            let core = name_core(name);
            exists|lo: int|
                #![trigger m.subrange(lo, lo + core.len())]
                0 <= lo && lo + core.len() <= m.len() && core == m.subrange(lo, lo + core.len())
                    && (forall|i: int| 0 <= i < lo ==> #[trigger] m[i] == '_') && (forall|i: int|
                    lo + core.len() <= i < m.len() ==> #[trigger] m[i] == '_') && (core.len() > 0
                    ==> core[0] != '_' && core.last() != '_') && spec_sanitize(name) == if core.len()
                    == 0 || !(('a' <= core[0] <= 'z') || ('A' <= core[0] <= 'Z')) {
                    seq!['t', 'o', 'o', 'l', '_'] + core
                } else {
                    core
                }
        }),
{
    let m = replace_invalid(name);
    let m2 = Seq::new(
        name.len(),
        |i: int|
            if ('a' <= name[i] <= 'z') || ('A' <= name[i] <= 'Z') || ('0' <= name[i] <= '9')
                || name[i] == '_' || name[i] == '-' {
                name[i]
            } else {
                '_'
            },
    );
    assert(m =~= m2);
    let p = |c: char| c == '_';
    let a = strip_start(m, p);
    lemma_strip_start_shape(m, p);
    lemma_strip_end_shape(a, p);
    let core = strip_end(a, p);
    assert(core == name_core(name));
    let lo = m.len() - a.len();
    assert(core =~= m.subrange(lo, lo + core.len()));
    assert forall|i: int| 0 <= i < lo implies #[trigger] m2[i] == '_' by {
        assert(p(m[i]));
    }
    assert forall|i: int| lo + core.len() <= i < m2.len() implies #[trigger] m2[i] == '_' by {
        assert(m[i] == a[i - lo]);
        assert(p(a[i - lo]));
    }
    if core.len() > 0 {
        assert(core[0] == a[0]);
    }
    assert(m2.subrange(lo, lo + core.len()) == core);
}

} // verus!

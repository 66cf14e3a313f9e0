//! The language model: what it is asked, what is read of its answers, when it is
//! asked again; and the ranking of search results.

use crate::config::LlmConfig;
use crate::json::{
    at_in, at_of, get_in, get_of, indented, json_text, json_views, lemma_array_view,
    lemma_member_at, lemma_object_view, member_views, opt_json_view, parse_json, read_json, text_in,
    text_of, Json, JsonNumber, JsonView,
};
use crate::models::AppError;
use crate::text::{
    char_span, chars_of, contains, find, find_chars, find_from, is_blank, is_space, last_at,
    law_text_contains_its_middle, law_trim_takes_white_space_away, lemma_find_from, lemma_find_is,
    lemma_last_at, lemma_trim_end_after, lemma_trim_end_behind, lemma_trim_start_before,
    lemma_trim_start_suffix, lowercase, lowercase_text, occurs_at, opt_view, prefix, prefix_text,
    string_from, text_contains, trim, trim_end, trim_end_char, trim_end_char_text, trim_start,
    trim_text, views, words, words_of,
};
use vstd::arithmetic::power2::pow2;
use vstd::prelude::*;

verus! {

// ---------------------------------------------------------------------------
// Public types
// ---------------------------------------------------------------------------

/// What is to be extracted of a text.
#[derive(Debug, Clone)]
pub struct ExtractionRequest {
    pub content: String,
    pub prompt: String,
    pub schema: Option<Json>,
    pub system_prompt: Option<String>,
}

/// What was extracted.
#[derive(Debug, Clone)]
pub struct ExtractionResult {
    pub data: Json,
    pub metadata: ExtractionMetadata,
    pub warning: Option<String>,
}

/// How it was extracted.
#[derive(Debug, Clone)]
pub struct ExtractionMetadata {
    pub model: String,
    pub tokens_used: Option<u32>,
    pub processing_time_ms: u64,
}

/// The answer of the language model.
#[derive(Debug)]
pub struct LlmCompletion {
    pub text: String,
    pub tokens: Option<u32>,
    pub warning: Option<String>,
}

/// A language model and how to ask it.
#[derive(Debug)]
pub struct LlmClient {
    pub config: LlmConfig,
}

// ---------------------------------------------------------------------------
// Finding the JSON in an answer
// ---------------------------------------------------------------------------

/// The text begins like a JSON object or array.
pub open spec fn starts_like_json(s: Seq<char>) -> bool {
    s.len() > 0 && (s[0] == '{' || s[0] == '[')
}

/// What stands between the first `open` and the next ``` in `t`, trimmed.
pub open spec fn fenced(t: Seq<char>, open: Seq<char>) -> Option<Seq<char>> {
    match find(t, open) {
        Some(a) => match find_from(t, "```"@, a + open.len()) {
            Some(b) => Some(trim(t.subrange(a + open.len(), b))),
            None => None,
        },
        None => None,
    }
}

/// What stands in `t` from the first `open` to the last `close`; where the last
/// `close` comes more than one place before the first `open`, nothing does.
pub open spec fn embedded(t: Seq<char>, open: char, close: char) -> Option<Option<Seq<char>>> {
    match (find(t, seq![open]), last_at(t, close)) {
        (Some(s), Some(e)) => Some(
            if s <= e + 1 {
                Some(t.subrange(s, e + 1))
            } else {
                None
            },
        ),
        _ => None,
    }
}

/// The JSON in an answer: the whole answer, or what stands in a fence, or what
/// stands between the outermost braces or brackets.
pub open spec fn located_json(content: Seq<char>) -> Option<Seq<char>> {
    let t = trim(content);
    if starts_like_json(t) {
        Some(t)
    } else if fenced(t, "```json"@) is Some {
        fenced(t, "```json"@)
    } else if fenced(t, "```"@) matches Some(inner) && starts_like_json(inner) {
        fenced(t, "```"@)
    } else if embedded(t, '{', '}') is Some {
        embedded(t, '{', '}')->0
    } else if embedded(t, '[', ']') is Some {
        embedded(t, '[', ']')->0
    } else {
        None
    }
}

/// What stands between the first `open` and the next ``` in `t`, trimmed.
fn fenced_text(t: &Vec<char>, open: &str) -> (r: Option<String>)
    ensures
        opt_view(r) == fenced(t@, open@),
{
    let len: usize = t.len();
    let pattern = chars_of(open);
    let close = chars_of("```");
    match find_chars(t, &pattern, 0) {
        Some(a) => {
            let from: usize = a + pattern.len();
            match find_chars(t, &close, from) {
                Some(b) => {
                    let inner = string_from(t, from, b);
                    Some(trim_text(inner.as_str()))
                },
                None => None,
            }
        },
        None => None,
    }
}

/// What stands in `t` from the first `open` to the last `close`.
fn embedded_text(t: &Vec<char>, open: char, close: char) -> (r: Option<Option<String>>)
    ensures
        match r {
            Some(o) => embedded(t@, open, close) == Some(opt_view(o)),
            None => embedded(t@, open, close) is None,
        },
{
    let len: usize = t.len();
    match (char_span(t, open), char_span(t, close)) {
        (Some((s, _)), Some((_, e))) => if s <= e + 1 {
            Some(Some(string_from(t, s, e + 1)))
        } else {
            Some(None)
        },
        _ => None,
    }
}

/// Whether the text begins like a JSON object or array.
fn begins_json(s: &str) -> (r: bool)
    ensures
        r == starts_like_json(s@),
{
    let v = chars_of(s);
    v.len() > 0 && (v[0] == '{' || v[0] == '[')
}

impl LlmClient {
    /// A client for the language model that `cfg` describes.
    pub fn new(cfg: &LlmConfig) -> (r: Result<Self, AppError>)
        ensures
            r == Ok::<LlmClient, AppError>(LlmClient { config: *cfg }),
    {
        Ok(LlmClient { config: cfg.clone() })
    }

    /// How many characters the language model is given at most.
    pub fn max_input_chars(&self) -> (r: usize)
        ensures
            r == self.config.max_input_chars,
    {
        self.config.max_input_chars
    }

    /// The JSON in an answer of the language model.
    pub fn extract_json(&self, content: &str) -> (r: Result<String, String>)
        ensures
            match r {
                Ok(j) => located_json(content@) == Some(j@),
                Err(e) => located_json(content@) is None && e@
                    == "Could not extract JSON from LLM response"@,
            },
    {
        find_json(content)
    }
}

/// The JSON in an answer of the language model.
fn find_json(content: &str) -> (r: Result<String, String>)
    ensures
        match r {
            Ok(j) => located_json(content@) == Some(j@),
            Err(e) => located_json(content@) is None && e@
                == "Could not extract JSON from LLM response"@,
        },
{
    let trimmed = trim_text(content);
    if begins_json(trimmed.as_str()) {
        return Ok(trimmed);
    }
    let t = chars_of(trimmed.as_str());
    if let Some(inner) = fenced_text(&t, "```json") {
        return Ok(inner);
    }
    if let Some(inner) = fenced_text(&t, "```") {
        if begins_json(inner.as_str()) {
            return Ok(inner);
        }
    }
    if let Some(object) = embedded_text(&t, '{', '}') {
        return match object {
            Some(text) => Ok(text),
            None => Err("Could not extract JSON from LLM response".to_owned()),
        };
    }
    if let Some(array) = embedded_text(&t, '[', ']') {
        return match array {
            Some(text) => Ok(text),
            None => Err("Could not extract JSON from LLM response".to_owned()),
        };
    }
    Err("Could not extract JSON from LLM response".to_owned())
}

// ---------------------------------------------------------------------------
// The JSON is found whatever it is wrapped in
// ---------------------------------------------------------------------------

/// A way in which a language model wraps the JSON that it was asked for.
pub enum Wrapping {
    Bare,
    PrefixedProse,
    JsonFence,
    BareFence,
}

/// The answer in which `raw` is wrapped, with `prose` before it.
pub open spec fn wrapped(raw: Seq<char>, prose: Seq<char>, wrapping: Wrapping) -> Seq<char> {
    match wrapping {
        Wrapping::Bare => raw,
        Wrapping::PrefixedProse => prose + "\n"@ + raw,
        Wrapping::JsonFence => prose + "\n```json\n"@ + raw + "\n```\n"@,
        Wrapping::BareFence => prose + "\n```\n"@ + raw + "\n```\n"@,
    }
}

/// Text without braces, brackets and backticks.
pub open spec fn is_prose(s: Seq<char>) -> bool {
    forall|i: int|
        0 <= i < s.len() ==> s[i] != '{' && s[i] != '}' && s[i] != '[' && s[i] != ']' && s[i] != '`'
}

/// Text in braces.
pub open spec fn is_object_text(raw: Seq<char>) -> bool {
    &&& raw.len() >= 2
    &&& raw[0] == '{'
    &&& raw.last() == '}'
}

/// Text in brackets.
pub open spec fn is_array_text(raw: Seq<char>) -> bool {
    &&& raw.len() >= 2
    &&& raw[0] == '['
    &&& raw.last() == ']'
}

/// The trimmed text of prose, a line end, `body` and white space.
proof fn lemma_trim_wrapped(prose: Seq<char>, body: Seq<char>, tail: Seq<char>)
    requires
        is_prose(prose),
        body.len() > 0,
        !is_space(body[0]),
        !is_space(body.last()),
        forall|i: int| 0 <= i < tail.len() ==> is_space(#[trigger] tail[i]),
    ensures
        trim(prose + seq!['\n'] + body + tail) == trim_start(prose + seq!['\n']) + body,
        is_prose(trim_start(prose + seq!['\n'])),
{
    let head = prose + seq!['\n'];
    lemma_trim_start_suffix(head);
    let p = trim_start(head);
    assert(head + body + tail =~= head + (body + tail));
    lemma_trim_start_before(head, body + tail);
    assert(p + (body + tail) =~= (p + body) + tail);
    assert((p + body).last() == body.last());
    lemma_trim_end_after(p + body, tail);
    assert forall|i: int| 0 <= i < p.len() implies p[i] != '{' && p[i] != '}' && p[i] != '['
        && p[i] != ']' && p[i] != '`' by {
        assert(p[i] == head[head.len() - p.len() + i]);
    }
}

/// No fence stands in `t` between `from` and `end`, where `raw` stands at `at`
/// and no backtick stands around it.
proof fn lemma_no_fence(t: Seq<char>, raw: Seq<char>, at: int, from: int, end: int)
    requires
        0 <= from <= at,
        at + raw.len() <= end <= t.len(),
        t.subrange(at, at + raw.len()) == raw,
        !contains(raw, "```"@),
        raw.len() > 0,
        raw.last() != '`',
        forall|i: int| from <= i < at ==> t[i] != '`',
        forall|i: int| at + raw.len() <= i < end ==> t[i] != '`',
    ensures
        forall|j: int| from <= j < end ==> !#[trigger] occurs_at(t, "```"@, j),
{
    reveal_strlit("```");
    assert forall|j: int| from <= j < end implies !#[trigger] occurs_at(t, "```"@, j) by {
        if occurs_at(t, "```"@, j) {
            let o = t.subrange(j, j + 3);
            assert(o[0] == t[j] && o[1] == t[j + 1] && o[2] == t[j + 2]);
            assert(at <= j < at + raw.len());
            if j + 3 <= at + raw.len() {
                assert(raw.subrange(j - at, j - at + 3) =~= o);
                assert(occurs_at(raw, "```"@, j - at));
            } else {
                assert(t[at + raw.len() - 1] == raw[raw.len() - 1]);
            }
        }
    }
}

/// Where no fence stands from `from` on, no fence with a language does.
proof fn lemma_no_json_fence(t: Seq<char>, from: int, end: int)
    requires
        0 <= from,
        forall|j: int| from <= j < end ==> !#[trigger] occurs_at(t, "```"@, j),
    ensures
        forall|j: int| from <= j < end ==> !#[trigger] occurs_at(t, "```json"@, j),
{
    reveal_strlit("```");
    reveal_strlit("```json");
    assert forall|j: int| from <= j < end implies !#[trigger] occurs_at(t, "```json"@, j) by {
        if occurs_at(t, "```json"@, j) {
            assert(t.subrange(j, j + 3) =~= t.subrange(j, j + 7).subrange(0, 3));
            assert("```json"@.subrange(0, 3) =~= "```"@);
            assert(occurs_at(t, "```"@, j));
        }
    }
}

/// The text between prose is what stands between the outermost braces or brackets.
proof fn lemma_embedded(p: Seq<char>, raw: Seq<char>, tail: Seq<char>, open: char, close: char)
    requires
        forall|i: int| 0 <= i < p.len() ==> p[i] != open,
        forall|i: int| 0 <= i < tail.len() ==> tail[i] != close,
        raw.len() > 0,
        raw[0] == open,
        raw.last() == close,
    ensures
        embedded(p + raw + tail, open, close) == Some(Some(raw)),
{
    let t = p + raw + tail;
    let first = seq![open];
    let at = p.len() as int;
    assert(t.subrange(at, at + 1) =~= first);
    assert forall|j: int| 0 <= j < at implies !#[trigger] occurs_at(t, first, j) by {
        if occurs_at(t, first, j) {
            assert(t.subrange(j, j + 1)[0] == p[j]);
        }
    }
    lemma_find_is(t, first, 0, at);
    lemma_last_at(t, close);
    assert(t[at + raw.len() - 1] == close);
    let e = last_at(t, close)->0;
    if e >= at + raw.len() {
        assert(t[e] == tail[e - at - raw.len()]);
    }
    assert(t.subrange(at, at + raw.len()) =~= raw);
}

/// Where a text does not hold both braces, there is none between prose.
proof fn lemma_no_object(p: Seq<char>, raw: Seq<char>, tail: Seq<char>)
    requires
        is_prose(p),
        is_prose(tail),
        !raw.contains('{') || !raw.contains('}'),
    ensures
        embedded(p + raw + tail, '{', '}') is None,
{
    let t = p + raw + tail;
    let open = seq!['{'];
    let at = p.len() as int;
    lemma_find_from(t, open, 0);
    lemma_last_at(t, '}');
    assert forall|i: int| 0 <= i < t.len() && (t[i] == '{' || t[i] == '}') implies at <= i < at
        + raw.len() && raw[i - at] == t[i] by {
        if i >= at + raw.len() {
            assert(t[i] == tail[i - at - raw.len()]);
        } else if i < at {
            assert(t[i] == p[i]);
        }
    }
    if let (Some(s), Some(e)) = (find(t, open), last_at(t, '}')) {
        assert(t.subrange(s, s + 1)[0] == t[s]);
        assert(raw[s - at] == '{');
        assert(raw[e - at] == '}');
    }
}

/// What is left after trimming the end is the beginning of the text.
proof fn lemma_trim_end_prefix(s: Seq<char>)
    ensures
        trim_end(s).len() <= s.len(),
        trim_end(s) == s.take(trim_end(s).len() as int),
    decreases s.len(),
{
    if s.len() > 0 && is_space(s.last()) {
        lemma_trim_end_prefix(s.drop_last());
        assert(trim_end(s) =~= s.take(trim_end(s).len() as int));
    } else {
        assert(s.take(s.len() as int) =~= s);
    }
}

/// What stands in a fence behind prose is found, whatever follows the fence.
proof fn lemma_fenced(p: Seq<char>, open: Seq<char>, raw: Seq<char>, tail: Seq<char>)
    requires
        is_prose(p),
        raw.len() > 0,
        !is_space(raw[0]),
        !is_space(raw.last()),
        raw.last() != '`',
        !contains(raw, "```"@),
        open == "```json"@ || open == "```"@,
    ensures
        fenced(p + (open + seq!['\n'] + raw + seq!['\n'] + "```"@ + tail), open) == Some(raw),
{
    reveal_strlit("```");
    reveal_strlit("```json");
    let t = p + (open + seq!['\n'] + raw + seq!['\n'] + "```"@ + tail);
    let a = p.len() as int;
    let from = a + open.len();
    let end = from + 1 + raw.len() + 1;
    assert(t.subrange(a, a + open.len()) =~= open);
    assert forall|j: int| 0 <= j < a implies !#[trigger] occurs_at(t, open, j) by {
        if occurs_at(t, open, j) {
            assert(t.subrange(j, j + open.len())[0] == p[j]);
        }
    }
    lemma_find_is(t, open, 0, a);
    assert(t.subrange(from + 1, from + 1 + raw.len()) =~= raw);
    lemma_no_fence(t, raw, from + 1, from, end);
    assert(t.subrange(end, end + 3) =~= "```"@);
    lemma_find_is(t, "```"@, from, end);
    let inner = t.subrange(from, end);
    assert(inner =~= seq!['\n'] + (raw + seq!['\n']));
    lemma_trim_start_before(seq!['\n'], raw + seq!['\n']);
    assert(trim_start(seq!['\n']) =~= Seq::<char>::empty()) by {
        reveal_with_fuel(trim_start, 2);
        assert(seq!['\n'].drop_first() =~= Seq::<char>::empty());
    }
    assert(Seq::<char>::empty() + (raw + seq!['\n']) =~= raw + seq!['\n']);
    lemma_trim_end_after(raw, seq!['\n']);
}

/// What the trimmed text of prose, a line end, a fenced text and anything else is.
proof fn lemma_trim_fenced(prose: Seq<char>, open: Seq<char>, raw: Seq<char>, tail: Seq<char>)
    requires
        is_prose(prose),
        open == "```json"@ || open == "```"@,
    ensures
        ({
            let p = trim_start(prose + seq!['\n']);
            let all = prose + seq!['\n'] + open + seq!['\n'] + raw + seq!['\n'] + "```"@ + tail;
            &&& is_prose(p)
            &&& trim(all) == p + (open + seq!['\n'] + raw + seq!['\n'] + "```"@ + trim_end(tail))
        }),
{
    reveal_strlit("```");
    reveal_strlit("```json");
    let fence = open + seq!['\n'] + raw + seq!['\n'] + "```"@;
    let head = prose + seq!['\n'];
    let p = trim_start(head);
    let all = head + open + seq!['\n'] + raw + seq!['\n'] + "```"@ + tail;
    lemma_trim_wrapped(prose, fence, Seq::empty());
    assert(all =~= head + (fence + tail));
    lemma_trim_start_before(head, fence + tail);
    assert(p + (fence + tail) =~= (p + fence) + tail);
    assert((p + fence).last() == '`');
    lemma_trim_end_behind(p + fence, tail);
    assert((p + fence) + trim_end(tail) =~= p + (fence + trim_end(tail)));
}

/// Whatever stands in a fence for JSON is taken, character for character, whatever it
/// begins with and whatever follows the fence, and where it is JSON it is read as the
/// same value. It holds no fence of its own.
pub proof fn law_json_fence_is_taken(raw: Seq<char>, prose: Seq<char>, tail: Seq<char>)
    requires
        is_prose(prose),
        raw.len() > 0,
        !is_space(raw[0]),
        !is_space(raw.last()),
        raw.last() != '`',
        !contains(raw, "```"@),
    ensures
        located_json(prose + "\n```json\n"@ + raw + "\n```"@ + tail) == Some(raw),
        read_json(raw) is Ok ==> answered_data(prose + "\n```json\n"@ + raw + "\n```"@ + tail)
            == read_json(raw),
{
    reveal_strlit("```");
    reveal_strlit("```json");
    reveal_strlit("\n```json\n");
    reveal_strlit("\n```");
    let open = "```json"@;
    let all = prose + "\n```json\n"@ + raw + "\n```"@ + tail;
    assert(all =~= prose + seq!['\n'] + open + seq!['\n'] + raw + seq!['\n'] + "```"@ + tail);
    lemma_trim_fenced(prose, open, raw, tail);
    lemma_fenced(trim_start(prose + seq!['\n']), open, raw, trim_end(tail));
}

/// What stands in a fence without a language is taken, character for character, where
/// it begins like an object or an array, and where it is JSON it is read as the same
/// value, whatever prose follows the fence.
pub proof fn law_bare_fence_is_taken(raw: Seq<char>, prose: Seq<char>, tail: Seq<char>)
    requires
        is_prose(prose),
        is_prose(tail),
        starts_like_json(raw),
        !is_space(raw.last()),
        raw.last() != '`',
        !contains(raw, "```"@),
    ensures
        located_json(prose + "\n```\n"@ + raw + "\n```"@ + tail) == Some(raw),
        read_json(raw) is Ok ==> answered_data(prose + "\n```\n"@ + raw + "\n```"@ + tail)
            == read_json(raw),
{
    reveal_strlit("```");
    reveal_strlit("```json");
    reveal_strlit("\n```\n");
    reveal_strlit("\n```");
    let open = "```"@;
    let all = prose + "\n```\n"@ + raw + "\n```"@ + tail;
    assert(all =~= prose + seq!['\n'] + open + seq!['\n'] + raw + seq!['\n'] + "```"@ + tail);
    lemma_trim_fenced(prose, open, raw, tail);
    let p = trim_start(prose + seq!['\n']);
    let rest = trim_end(tail);
    lemma_fenced(p, open, raw, rest);
    lemma_trim_end_prefix(tail);
    let t = trim(all);
    let a = p.len() as int;
    let end = a + 3 + 1 + raw.len() + 1;
    assert(t.subrange(a + 4, a + 4 + raw.len()) =~= raw);
    lemma_no_fence(t, raw, a + 4, a + 3, end);
    lemma_no_json_fence(t, a + 3, end);
    assert forall|j: int| end < j < t.len() implies t[j] == '`' ==> j < end + 3 by {
        if j >= end + 3 {
            assert(t[j] == tail[j - (end + 3)]);
        }
    }
    assert forall|j: int| 0 <= j && j != end implies !#[trigger] occurs_at(t, "```json"@, j) by {
        if occurs_at(t, "```json"@, j) {
            let o = t.subrange(j, j + 7);
            assert(o[0] == t[j] && o[1] == t[j + 1] && o[2] == t[j + 2] && o[3] == t[j + 3]);
        }
    }
    assert forall|j: int| end + 7 <= j implies !#[trigger] occurs_at(t, "```"@, j) by {
        if occurs_at(t, "```"@, j) {
            assert(t.subrange(j, j + 3)[0] == t[j]);
        }
    }
    lemma_find_from(t, "```json"@, 0);
    lemma_find_from(t, "```"@, end + 7);
    if p.len() > 0 {
        assert(t[0] == p[0]);
    } else {
        assert(t[0] == '`');
    }
}

/// Where there is no fence, an object between prose is taken, from its first brace to
/// its last.
pub proof fn law_embedded_object_is_taken(before: Seq<char>, raw: Seq<char>, after: Seq<char>)
    requires
        is_prose(before),
        is_prose(after),
        before.len() > 0,
        !is_space(before[0]),
        is_object_text(raw),
        !contains(raw, "```"@),
    ensures
        located_json(before + raw + after) == Some(raw),
        read_json(raw) is Ok ==> answered_data(before + raw + after) == read_json(raw),
{
    reveal_strlit("```");
    let all = before + raw + after;
    let rest = trim_end(after);
    let t = before + raw + rest;
    lemma_trim_end_prefix(after);
    assert(trim_start(all) == all) by {
        assert(all[0] == before[0]);
    }
    assert(all =~= (before + raw) + after);
    lemma_trim_end_behind(before + raw, after);
    assert(trim(all) == t);
    assert(t[0] == before[0]);
    assert(t.subrange(before.len() as int, (before.len() + raw.len()) as int) =~= raw);
    assert forall|i: int| before.len() + raw.len() <= i < t.len() implies t[i] != '`' && t[i] != '}' by {
        assert(t[i] == after[i - before.len() - raw.len()]);
    }
    lemma_no_fence(t, raw, before.len() as int, 0, t.len() as int);
    lemma_no_json_fence(t, 0, t.len() as int);
    lemma_find_from(t, "```"@, 0);
    lemma_find_from(t, "```json"@, 0);
    lemma_embedded(before, raw, rest, '{', '}');
}

/// Where there is no fence and no brace, an array between prose is taken, from its first
/// bracket to its last.
pub proof fn law_embedded_array_is_taken(before: Seq<char>, raw: Seq<char>, after: Seq<char>)
    requires
        is_prose(before),
        is_prose(after),
        before.len() > 0,
        !is_space(before[0]),
        is_array_text(raw),
        !raw.contains('{') || !raw.contains('}'),
        !contains(raw, "```"@),
    ensures
        located_json(before + raw + after) == Some(raw),
        read_json(raw) is Ok ==> answered_data(before + raw + after) == read_json(raw),
{
    reveal_strlit("```");
    let all = before + raw + after;
    let rest = trim_end(after);
    let t = before + raw + rest;
    lemma_trim_end_prefix(after);
    assert(trim_start(all) == all) by {
        assert(all[0] == before[0]);
    }
    assert(all =~= (before + raw) + after);
    lemma_trim_end_behind(before + raw, after);
    assert(trim(all) == t);
    assert(t[0] == before[0]);
    assert(t.subrange(before.len() as int, (before.len() + raw.len()) as int) =~= raw);
    assert forall|i: int| before.len() + raw.len() <= i < t.len() implies t[i] != '`' && t[i] != ']'
        && t[i] != '{' && t[i] != '}' by {
        assert(t[i] == after[i - before.len() - raw.len()]);
    }
    lemma_no_fence(t, raw, before.len() as int, 0, t.len() as int);
    lemma_no_json_fence(t, 0, t.len() as int);
    lemma_find_from(t, "```"@, 0);
    lemma_find_from(t, "```json"@, 0);
    lemma_embedded(before, raw, rest, '[', ']');
    lemma_no_object(before, raw, rest);
}

/// In prose alone there is no JSON.
pub proof fn law_no_json_in_prose(s: Seq<char>)
    requires
        is_prose(s),
    ensures
        located_json(s) is None,
        answered_data(s) == Err::<JsonView, Seq<char>>(
            "Could not extract JSON from LLM response"@,
        ),
{
    reveal_strlit("```");
    reveal_strlit("```json");
    let u = trim_start(s);
    lemma_trim_start_suffix(s);
    lemma_trim_end_prefix(u);
    let t = trim(s);
    assert forall|i: int| 0 <= i < t.len() implies t[i] != '{' && t[i] != '}' && t[i] != '['
        && t[i] != ']' && t[i] != '`' by {
        assert(t[i] == u[i]);
        assert(u[i] == s[s.len() - u.len() + i]);
    }
    assert forall|j: int| 0 <= j implies !#[trigger] occurs_at(t, "```"@, j) by {
        if occurs_at(t, "```"@, j) {
            assert(t.subrange(j, j + 3)[0] == t[j]);
        }
    }
    lemma_no_json_fence(t, 0, t.len() as int);
    assert forall|j: int| 0 <= j implies !#[trigger] occurs_at(t, "```json"@, j) by {}
    lemma_find_from(t, "```"@, 0);
    lemma_find_from(t, "```json"@, 0);
    assert forall|j: int| 0 <= j implies !#[trigger] occurs_at(t, seq!['{'], j) by {
        if occurs_at(t, seq!['{'], j) {
            assert(t.subrange(j, j + 1)[0] == t[j]);
        }
    }
    assert forall|j: int| 0 <= j implies !#[trigger] occurs_at(t, seq!['['], j) by {
        if occurs_at(t, seq!['['], j) {
            assert(t.subrange(j, j + 1)[0] == t[j]);
        }
    }
    lemma_find_from(t, seq!['{'], 0);
    lemma_find_from(t, seq!['['], 0);
}

/// Whatever prose stands before it and whatever fence stands round it, the object or
/// array that the language model wrote is found, character for character, and where it
/// is JSON it is read as the same value. Inside of an answer it holds no fence of its
/// own; an array that stands in no fence, behind prose, holds no objects, whose braces
/// would be taken instead.
pub proof fn law_wrapped_json_is_found(raw: Seq<char>, prose: Seq<char>, wrapping: Wrapping)
    requires
        is_object_text(raw) || is_array_text(raw),
        wrapping is PrefixedProse && is_array_text(raw) ==> !raw.contains('{') || !raw.contains('}'),
        wrapping is Bare || !contains(raw, "```"@),
        is_prose(prose),
    ensures
        located_json(wrapped(raw, prose, wrapping)) == Some(raw),
        read_json(raw) is Ok ==> answered_data(wrapped(raw, prose, wrapping)) == read_json(raw),
{
    reveal_strlit("```");
    reveal_strlit("```json");
    reveal_strlit("\n");
    reveal_strlit("\n```json\n");
    reveal_strlit("\n```\n");
    let none = Seq::<char>::empty();
    let p = trim_start(prose + seq!['\n']);
    match wrapping {
        Wrapping::Bare => {
            lemma_trim_start_before(none, raw);
            assert(none + raw =~= raw);
            lemma_trim_end_after(raw, none);
            assert(raw + none =~= raw);
        },
        Wrapping::PrefixedProse => {
            lemma_trim_wrapped(prose, raw, none);
            let t = p + raw;
            assert(wrapped(raw, prose, wrapping) =~= prose + seq!['\n'] + raw + none);
            assert(t.subrange(p.len() as int, t.len() as int) =~= raw);
            lemma_no_fence(t, raw, p.len() as int, 0, t.len() as int);
            lemma_no_json_fence(t, 0, t.len() as int);
            lemma_find_from(t, "```"@, 0);
            lemma_find_from(t, "```json"@, 0);
            assert(p + raw + none =~= t);
            if is_object_text(raw) {
                lemma_embedded(p, raw, none, '{', '}');
            } else {
                lemma_embedded(p, raw, none, '[', ']');
                lemma_no_object(p, raw, none);
            }
            if p.len() == 0 {
                assert(t =~= raw);
            }
        },
        Wrapping::JsonFence => {
            let open = "```json"@;
            let body = open + seq!['\n'] + raw + seq!['\n'] + "```"@;
            assert(wrapped(raw, prose, wrapping) =~= prose + seq!['\n'] + body + seq!['\n']);
            lemma_trim_wrapped(prose, body, seq!['\n']);
            lemma_fenced(p, open, raw, none);
            assert(body + none =~= body);
        },
        Wrapping::BareFence => {
            let open = "```"@;
            let body = open + seq!['\n'] + raw + seq!['\n'] + "```"@;
            assert(wrapped(raw, prose, wrapping) =~= prose + seq!['\n'] + body + seq!['\n']);
            lemma_trim_wrapped(prose, body, seq!['\n']);
            lemma_fenced(p, open, raw, none);
            assert(body + none =~= body);
            let t = p + body;
            let a = p.len() as int;
            let end = a + 3 + 1 + raw.len() + 1;
            assert(t.subrange(a + 4, a + 4 + raw.len()) =~= raw);
            lemma_no_fence(t, raw, a + 4, a + 3, end);
            lemma_no_json_fence(t, a + 3, end);
            assert forall|j: int| 0 <= j implies !#[trigger] occurs_at(t, "```json"@, j) by {
                if occurs_at(t, "```json"@, j) {
                    let o = t.subrange(j, j + 7);
                    assert(o[0] == t[j] && o[1] == t[j + 1] && o[2] == t[j + 2] && o[3] == t[j + 3]);
                }
            }
            lemma_find_from(t, "```json"@, 0);
        },
    }
}

// ---------------------------------------------------------------------------
// Extraction: asking, reading the answer, asking again
// ---------------------------------------------------------------------------

/// What the language model is told to be.
pub open spec fn system_prompt_for(
    given: Option<Seq<char>>,
    schema: Option<JsonView>,
) -> Seq<char> {
    match given {
        Some(p) => p,
        None => match schema {
            Some(s) =>
            "You are a data extraction assistant. Extract information from the provided content according to this JSON schema:\n"@
                + indented(s)
                + "\n\nReturn ONLY valid JSON that matches the schema, with no markdown fences or prose."@,
            None =>
            "You are a data extraction assistant. Extract the requested information from the provided content and return it as valid JSON only, with no markdown fences or additional prose."@,
        },
    }
}

/// What the language model is asked to do with the content.
pub open spec fn extraction_prompt_for(prompt: Seq<char>) -> Seq<char> {
    if trim(prompt).len() == 0 {
        "Extract data that matches the schema. If the source is very long, return a representative subset that still matches the schema exactly."@
    } else {
        prompt
    }
}

/// How many characters of the content attempt number `attempt` sends; the first
/// one, number zero, sends them all.
pub open spec fn attempt_chars(attempt: nat) -> nat {
    let share: nat = 24_000nat / (attempt + 1);
    if share < 6_000 {
        6_000
    } else {
        share
    }
}

/// The content that attempt number `attempt` sends.
pub open spec fn attempt_content(content: Seq<char>, attempt: nat) -> Seq<char> {
    if attempt == 0 {
        content
    } else {
        prefix(content, attempt_chars(attempt))
    }
}

/// The message that attempt number `attempt` sends.
pub open spec fn attempt_message(content: Seq<char>, prompt: Seq<char>, attempt: nat) -> Seq<char> {
    "Content:\n"@ + attempt_content(content, attempt) + "\n\nExtraction Request:\n"@ + prompt
}

/// An extraction that is under way.
#[derive(Debug)]
pub struct Extraction {
    pub system_prompt: String,
    pub prompt: String,
    pub content: String,
    pub model: String,
    pub max_retries: u32,
    /// The number of attempts that have failed.
    pub attempt: u32,
    pub last_error: String,
}

/// What came of an attempt.
#[derive(Debug)]
pub enum LlmOutcome {
    Answer(LlmCompletion),
    Failed(String),
    TimedOut,
}

/// What follows an attempt.
#[derive(Debug)]
pub enum ExtractionStep {
    /// The extraction is over.
    Finished(Result<ExtractionResult, String>),
    /// After a pause, there is another attempt.
    Again { pause_seconds: u64 },
}

/// The data in an answer, or the text of the error.
pub open spec fn answered_data(text: Seq<char>) -> Result<JsonView, Seq<char>> {
    match located_json(text) {
        Some(j) => match read_json(j) {
            Ok(v) => Ok(v),
            Err(_) => Err("Failed to parse LLM response as JSON"@),
        },
        None => Err("Could not extract JSON from LLM response"@),
    }
}

/// The error that an attempt leaves behind.
pub open spec fn attempt_error(outcome: LlmOutcome) -> Seq<char> {
    match outcome {
        LlmOutcome::Answer(_) => Seq::empty(),
        LlmOutcome::Failed(e) => "LLM request failed: "@ + e@,
        LlmOutcome::TimedOut => "LLM request timed out"@,
    }
}

/// The power of two, which fits its type.
fn two_to(n: u32) -> (r: u64)
    requires
        n < 64,
    ensures
        r == pow2(n as nat),
{
    let mut r: u64 = 1;
    let mut i: u32 = 0;
    proof {
        vstd::arithmetic::power2::lemma2_to64();
    }
    while i < n
        invariant
            i <= n < 64,
            r == pow2(i as nat),
        decreases n - i,
    {
        proof {
            vstd::arithmetic::power2::lemma_pow2_unfold((i + 1) as nat);
            vstd::arithmetic::power2::lemma2_to64_rest();
            if i + 1 < 63 {
                vstd::arithmetic::power2::lemma_pow2_strictly_increases((i + 1) as nat, 63);
            }
        }
        r = r * 2;
        i = i + 1;
    }
    r
}

impl LlmClient {
    /// Begins an extraction.
    pub fn extract(&self, req: &ExtractionRequest) -> (r: Extraction)
        ensures
            r.system_prompt@ == system_prompt_for(
                opt_view(req.system_prompt),
                opt_json_view(req.schema),
            ),
            r.prompt@ == extraction_prompt_for(req.prompt@),
            r.content@ == req.content@,
            r.model@ == self.config.model_name@,
            r.max_retries == self.config.max_retries,
            r.attempt == 0,
            r.last_error@ == "LLM extraction failed"@,
            req.system_prompt matches Some(p) ==> r.system_prompt@ == p@,
            req.system_prompt is None ==> (req.schema matches Some(s) ==> contains(
                r.system_prompt@,
                indented(s@),
            )),
            req.system_prompt is None && req.schema is None ==> r.system_prompt@
                == "You are a data extraction assistant. Extract the requested information from the provided content and return it as valid JSON only, with no markdown fences or additional prose."@,
            trim(req.prompt@).len() > 0 ==> r.prompt@ == req.prompt@,
            trim(req.prompt@).len() == 0 ==> r.prompt@
                == "Extract data that matches the schema. If the source is very long, return a representative subset that still matches the schema exactly."@,
    {
        proof {
            if let Some(s) = &req.schema {
                law_text_contains_its_middle(
                    "You are a data extraction assistant. Extract information from the provided content according to this JSON schema:\n"@,
                    indented(s@),
                    "\n\nReturn ONLY valid JSON that matches the schema, with no markdown fences or prose."@,
                );
            }
        }
        let system_prompt = match &req.system_prompt {
            Some(p) => p.clone(),
            None => match &req.schema {
                Some(s) => {
                    let head =
                        "You are a data extraction assistant. Extract information from the provided content according to this JSON schema:\n".to_owned();
                    let schema = s.to_indented_text();
                    head.concat(schema.as_str()).concat(
                        "\n\nReturn ONLY valid JSON that matches the schema, with no markdown fences or prose.",
                    )
                },
                None =>
                "You are a data extraction assistant. Extract the requested information from the provided content and return it as valid JSON only, with no markdown fences or additional prose.".to_owned(),
            },
        };
        let prompt = if is_blank(req.prompt.as_str()) {
            "Extract data that matches the schema. If the source is very long, return a representative subset that still matches the schema exactly.".to_owned()
        } else {
            req.prompt.clone()
        };
        Extraction {
            system_prompt,
            prompt,
            content: req.content.clone(),
            model: self.config.model_name.clone(),
            max_retries: self.config.max_retries,
            attempt: 0,
            last_error: "LLM extraction failed".to_owned(),
        }
    }

    /// The request whose answer shows that the language model is there.
    pub fn health_check(&self) -> (r: ExtractionRequest)
        ensures
            r.content@ == "ping"@,
            r.prompt@ == "Return {\"status\":\"ok\"}"@,
            r.schema is None,
            r.system_prompt is None,
    {
        ExtractionRequest {
            content: "ping".to_owned(),
            prompt: "Return {\"status\":\"ok\"}".to_owned(),
            schema: None,
            system_prompt: None,
        }
    }
}

impl Extraction {
    /// The message of the next attempt; `None` where no attempt is left, and the
    /// extraction has failed with its last error.
    pub fn message(&self) -> (r: Option<String>)
        ensures
            opt_view(r) == (if self.attempt < self.max_retries {
                Some(attempt_message(self.content@, self.prompt@, self.attempt as nat))
            } else {
                None
            }),
            r is Some <==> self.attempt < self.max_retries,
            r matches Some(m) ==> {
                let sent = if self.attempt == 0 {
                    self.content@
                } else if self.attempt == 1 {
                    prefix(self.content@, 12_000)
                } else if self.attempt == 2 {
                    prefix(self.content@, 8_000)
                } else {
                    prefix(self.content@, 6_000)
                };
                m@ == "Content:\n"@ + sent + "\n\nExtraction Request:\n"@ + self.prompt@
            },
    {
        proof {
            law_attempt_chars(self.attempt as nat);
        }
        if self.attempt >= self.max_retries {
            return None;
        }
        let content = if self.attempt == 0 {
            self.content.clone()
        } else {
            let share: u64 = 24_000 / (self.attempt as u64 + 1);
            let chars: usize = if share < 6_000 {
                6_000
            } else {
                share as usize
            };
            prefix_text(self.content.as_str(), chars)
        };
        let head = "Content:\n".to_owned().concat(content.as_str());
        Some(head.concat("\n\nExtraction Request:\n").concat(self.prompt.as_str()))
    }

    /// Takes what came of an attempt. An answer ends the extraction, with the
    /// data in it or an error; a failure ends it where it was the last attempt,
    /// and else leads to another one, after a pause that doubles each time.
    pub fn answered(&mut self, outcome: LlmOutcome, elapsed_ms: u64) -> (r: ExtractionStep)
        requires
            old(self).attempt < old(self).max_retries,
            old(self).attempt < 64 || old(self).attempt + 1 >= old(self).max_retries,
        ensures
            final(self).system_prompt == old(self).system_prompt,
            final(self).prompt == old(self).prompt,
            final(self).content == old(self).content,
            final(self).model == old(self).model,
            final(self).max_retries == old(self).max_retries,
            match outcome {
                LlmOutcome::Answer(completion) => {
                    &&& *final(self) == *old(self)
                    &&& r matches ExtractionStep::Finished(result)
                    &&& match result {
                        Ok(x) => {
                            &&& answered_data(completion.text@) == Ok::<JsonView, Seq<char>>(
                                x.data@,
                            )
                            &&& x.metadata.model@ == old(self).model@
                            &&& x.metadata.tokens_used == completion.tokens
                            &&& x.metadata.processing_time_ms == elapsed_ms
                            &&& x.warning == completion.warning
                        },
                        Err(e) => answered_data(completion.text@) == Err::<JsonView, Seq<char>>(e@),
                    }
                },
                _ => {
                    &&& final(self).attempt == old(self).attempt + 1
                    &&& final(self).last_error@ == attempt_error(outcome)
                    &&& outcome matches LlmOutcome::Failed(e) ==> final(self).last_error@
                        == "LLM request failed: "@ + e@
                    &&& outcome is TimedOut ==> final(self).last_error@
                        == "LLM request timed out"@
                    &&& if old(self).attempt + 1 < old(self).max_retries {
                        r == (ExtractionStep::Again {
                            pause_seconds: pow2(old(self).attempt as nat) as u64,
                        })
                    } else {
                        r matches ExtractionStep::Finished(Err(e)) && e@ == attempt_error(outcome)
                    }
                },
            },
    {
        let error = match outcome {
            LlmOutcome::Answer(completion) => {
                let located = match find_json(completion.text.as_str()) {
                    Ok(j) => j,
                    Err(e) => {
                        return ExtractionStep::Finished(Err(e));
                    },
                };
                let data = match parse_json(located.as_str()) {
                    Ok(data) => data,
                    Err(_) => {
                        return ExtractionStep::Finished(
                            Err("Failed to parse LLM response as JSON".to_owned()),
                        );
                    },
                };
                return ExtractionStep::Finished(
                    Ok(
                        ExtractionResult {
                            data,
                            metadata: ExtractionMetadata {
                                model: self.model.clone(),
                                tokens_used: completion.tokens,
                                processing_time_ms: elapsed_ms,
                            },
                            warning: completion.warning,
                        },
                    ),
                );
            },
            LlmOutcome::Failed(e) => "LLM request failed: ".to_owned().concat(e.as_str()),
            LlmOutcome::TimedOut => "LLM request timed out".to_owned(),
        };
        self.last_error = error.clone();
        self.attempt = self.attempt + 1;
        if self.attempt < self.max_retries {
            ExtractionStep::Again { pause_seconds: two_to(self.attempt - 1) }
        } else {
            ExtractionStep::Finished(Err(error))
        }
    }
}

// ---------------------------------------------------------------------------
// Laws of extraction
// ---------------------------------------------------------------------------

/// The content that an attempt sends is the beginning of the whole content, and
/// a later attempt never sends more than an earlier one that was a retry.
pub proof fn law_attempts_shrink(content: Seq<char>, first: nat, second: nat)
    requires
        1 <= first <= second,
    ensures
        attempt_content(content, first).is_prefix_of(content),
        attempt_content(content, second).len() <= attempt_content(content, first).len(),
        attempt_chars(first) <= 12_000,
        attempt_chars(first) >= 6_000,
{
    assert(24_000nat / (second + 1) <= 24_000nat / (first + 1) <= 12_000) by (nonlinear_arith)
        requires
            1 <= first <= second,
    ;
}

// ---------------------------------------------------------------------------
// One request to the language model
// ---------------------------------------------------------------------------

/// A request to the language model, ready to be sent.
#[derive(Debug)]
pub struct ChatRequest {
    pub url: String,
    /// The value of the `Authorization` header.
    pub authorization: Option<String>,
    /// The body that is sent first.
    pub first_body: Json,
    /// The body that is sent where the first one is rejected.
    pub second_body: Option<Json>,
}

/// What came back for a body.
#[derive(Debug)]
pub enum ChatReply {
    /// The body of a successful response.
    Body(Json),
    /// The request was not sent, or was answered with an error status.
    Rejected(String),
    /// The body of a successful response could not be read.
    Unreadable(String),
}

/// What follows the reply to the first body.
#[derive(Debug)]
pub enum ChatStep {
    Finished(Result<LlmCompletion, String>),
    SendSecond,
}

/// A message of a conversation.
pub open spec fn chat_message(role: Seq<char>, content: Seq<char>) -> JsonView {
    JsonView::Object(
        seq![("role"@, JsonView::Text(role)), ("content"@, JsonView::Text(content))],
    )
}

/// The body of a request, with or without the parameter that switches reasoning
/// off.
pub open spec fn chat_body(
    model: Seq<char>,
    system: Seq<char>,
    user: Seq<char>,
    tuned: bool,
) -> JsonView {
    let head = seq![
        ("model"@, JsonView::Text(model)),
        ("temperature"@, JsonView::Float("0.1"@)),
    ];
    let effort = if tuned {
        seq![("reasoning_effort"@, JsonView::Text("none"@))]
    } else {
        Seq::empty()
    };
    let messages = seq![
        (
            "messages"@,
            JsonView::Array(seq![chat_message("system"@, system), chat_message("user"@, user)]),
        ),
    ];
    JsonView::Object(head + effort + messages)
}

fn chat_message_json(role: &str, content: &str) -> (r: Json)
    ensures
        r@ == chat_message(role@, content@),
{
    let members = vec![
        ("role".to_owned(), json_text(role)),
        ("content".to_owned(), json_text(content)),
    ];
    proof {
        lemma_object_view(members);
        assert(member_views(members@) =~= chat_message(role@, content@)->Object_0);
    }
    Json::Object(members)
}

fn chat_body_json(model: &str, system: &str, user: &str, tuned: bool) -> (r: Json)
    ensures
        r@ == chat_body(model@, system@, user@, tuned),
{
    let messages = vec![chat_message_json("system", system), chat_message_json("user", user)];
    proof {
        lemma_array_view(messages);
        assert(json_views(messages@) =~= seq![
            chat_message("system"@, system@),
            chat_message("user"@, user@),
        ]);
    }
    let mut members = vec![
        ("model".to_owned(), json_text(model)),
        ("temperature".to_owned(), Json::Number(JsonNumber::Float("0.1".to_owned()))),
    ];
    if tuned {
        members.push(("reasoning_effort".to_owned(), json_text("none")));
    }
    members.push(("messages".to_owned(), Json::Array(messages)));
    proof {
        lemma_object_view(members);
        assert(member_views(members@) =~= chat_body(model@, system@, user@, tuned)->Object_0);
    }
    Json::Object(members)
}

/// The endpoint belongs to Groq, which rejects the parameter that switches
/// reasoning off.
pub open spec fn is_groq(config: LlmConfig) -> bool {
    contains(config.base_url@, "api.groq.com"@)
}

/// What is said where the second body had to be sent.
pub open spec fn retried_warning() -> Seq<char> {
    "Provider rejected optional reasoning tuning parameter; request retried without it."@
}

/// The text of an answer: the content of the message of its first choice.
pub open spec fn completion_text(reply: JsonView) -> Option<Seq<char>> {
    text_in(
        get_in(
            get_in(at_in(reply.get("choices"@), 0), "message"@),
            "content"@,
        ),
    )
}

/// The tokens that an answer took, modulo the size of the counter.
pub open spec fn completion_tokens(reply: JsonView) -> Option<u32> {
    match get_in(reply.get("usage"@), "total_tokens"@) {
        Some(JsonView::Unsigned(n)) => Some((n % 0x1_0000_0000) as u32),
        _ => None,
    }
}

/// What a reply means: an answer, or the text of an error.
pub open spec fn completion_is(
    reply: ChatReply,
    warning: Option<Seq<char>>,
    r: Result<LlmCompletion, String>,
) -> bool {
    match reply {
        ChatReply::Body(body) => match completion_text(body@) {
            Some(text) => {
                &&& r matches Ok(c)
                &&& c.text@ == text
                &&& c.tokens == completion_tokens(body@)
                &&& opt_view(c.warning) == warning
            },
            None => r matches Err(e) && e@ == "LLM returned empty response"@,
        },
        ChatReply::Rejected(text) => r matches Err(e) && e@ == text@,
        ChatReply::Unreadable(text) => r matches Err(e) && e@ == text@,
    }
}

/// Reads a reply.
fn read_completion(reply: ChatReply, warning: Option<String>) -> (r: Result<LlmCompletion, String>)
    ensures
        completion_is(reply, opt_view(warning), r),
{
    let body = match reply {
        ChatReply::Body(body) => body,
        ChatReply::Rejected(e) => {
            return Err(e);
        },
        ChatReply::Unreadable(e) => {
            return Err(e);
        },
    };
    let message = get_of(at_of(body.get("choices"), 0), "message");
    let text = match text_of(get_of(message, "content")) {
        Some(text) => text,
        None => {
            return Err("LLM returned empty response".to_owned());
        },
    };
    let tokens = match get_of(body.get("usage"), "total_tokens") {
        Some(t) => match t.as_u64() {
            Some(n) => Some((n % 0x1_0000_0000) as u32),
            None => None,
        },
        None => None,
    };
    Ok(LlmCompletion { text, tokens, warning })
}

impl LlmClient {
    /// The request that asks the language model to answer `user`.
    pub fn chat_complete(&self, system: &str, user: &str) -> (r: ChatRequest)
        ensures
            r.url@ == trim_end_char(self.config.base_url@, '/') + "/chat/completions"@,
            opt_view(r.authorization) == (if self.config.api_key@.len() == 0 {
                None
            } else {
                Some("Bearer "@ + self.config.api_key@)
            }),
            r.first_body@ == chat_body(
                self.config.model_name@,
                system@,
                user@,
                !is_groq(self.config),
            ),
            opt_json_view(r.second_body) == (if is_groq(self.config) {
                None
            } else {
                Some(chat_body(self.config.model_name@, system@, user@, false))
            }),
            r.second_body is None <==> contains(self.config.base_url@, "api.groq.com"@),
    {
        let groq = text_contains(self.config.base_url.as_str(), "api.groq.com");
        let model = self.config.model_name.as_str();
        ChatRequest {
            url: trim_end_char_text(self.config.base_url.as_str(), '/').concat("/chat/completions"),
            authorization: if self.config.api_key.as_str().is_empty() {
                None
            } else {
                Some("Bearer ".to_owned().concat(self.config.api_key.as_str()))
            },
            first_body: chat_body_json(model, system, user, !groq),
            second_body: if groq {
                None
            } else {
                Some(chat_body_json(model, system, user, false))
            },
        }
    }
}

impl ChatRequest {
    /// Takes the reply to the first body. Where it was rejected and there is a
    /// second body, that is sent; else the reply is final.
    pub fn after_first(&self, reply: ChatReply) -> (r: ChatStep)
        ensures
            if reply is Rejected && self.second_body is Some {
                r is SendSecond
            } else {
                r matches ChatStep::Finished(result) && completion_is(reply, None, result)
            },
            reply matches ChatReply::Body(b) ==> (r matches ChatStep::Finished(result) && match (
                completion_text(b@),
                result,
            ) {
                (Some(t), Ok(c)) => c.text@ == t && c.tokens == completion_tokens(b@)
                    && c.warning is None,
                (Some(_), Err(_)) => false,
                (None, Ok(_)) => false,
                (None, Err(e)) => e@ == "LLM returned empty response"@,
            }),
    {
        match reply {
            ChatReply::Rejected(e) => if self.second_body.is_some() {
                ChatStep::SendSecond
            } else {
                ChatStep::Finished(Err(e))
            },
            other => ChatStep::Finished(read_completion(other, None)),
        }
    }

    /// Takes the reply to the second body, which is final; an answer carries a
    /// warning.
    pub fn after_second(&self, reply: ChatReply) -> (r: Result<LlmCompletion, String>)
        ensures
            completion_is(reply, Some(retried_warning()), r),
            reply matches ChatReply::Body(b) ==> match (completion_text(b@), r) {
                (Some(t), Ok(c)) => c.text@ == t && c.tokens == completion_tokens(b@) && opt_view(
                    c.warning,
                ) == Some(
                    "Provider rejected optional reasoning tuning parameter; request retried without it."@,
                ),
                (Some(_), Err(_)) => false,
                (None, Ok(_)) => false,
                (None, Err(e)) => e@ == "LLM returned empty response"@,
            },
            reply matches ChatReply::Rejected(t) ==> (r matches Err(e) && e@ == t@),
            reply matches ChatReply::Unreadable(t) ==> (r matches Err(e) && e@ == t@),
    {
        read_completion(
            reply,
            Some(
                "Provider rejected optional reasoning tuning parameter; request retried without it.".to_owned(),
            ),
        )
    }
}

// ---------------------------------------------------------------------------
// Ranking
// ---------------------------------------------------------------------------

/// How many of the terms stand in the text.
pub open spec fn score(text: Seq<char>, terms: Seq<Seq<char>>) -> nat
    decreases terms.len(),
{
    if terms.len() == 0 {
        0
    } else {
        score(text, terms.drop_last()) + (if contains(text, terms.last()) {
            1nat
        } else {
            0nat
        })
    }
}

/// The terms of a query.
pub open spec fn query_terms(query: Seq<char>) -> Seq<Seq<char>> {
    words(lowercase(query))
}

/// The items whose score is `k`, in order.
pub open spec fn with_score(items: Seq<Seq<char>>, terms: Seq<Seq<char>>, k: int) -> Seq<
    Seq<char>,
>
    decreases items.len(),
{
    if items.len() == 0 {
        Seq::empty()
    } else {
        let before = with_score(items.drop_last(), terms, k);
        if score(lowercase(items.last()), terms) == k {
            before.push(items.last())
        } else {
            before
        }
    }
}

/// The items whose score is at most `k`, those of a higher score first, and those
/// of one score in order.
pub open spec fn ranked_from(items: Seq<Seq<char>>, terms: Seq<Seq<char>>, k: int) -> Seq<
    Seq<char>,
>
    decreases k + 1,
{
    if k < 0 {
        Seq::empty()
    } else {
        with_score(items, terms, k) + ranked_from(items, terms, k - 1)
    }
}

/// The items, those in which more terms of the query stand first.
pub open spec fn ranked(items: Seq<Seq<char>>, query: Seq<char>) -> Seq<Seq<char>> {
    let terms = query_terms(query);
    ranked_from(items, terms, terms.len() as int)
}

/// How many of the terms stand in the text.
fn score_of(text: &str, terms: &Vec<String>) -> (r: usize)
    ensures
        r == score(text@, views(terms@)),
        r <= terms@.len(),
{
    let mut n: usize = 0;
    let mut i: usize = 0;
    let ghost all = views(terms@);
    assert(all.take(0).len() == 0);
    while i < terms.len()
        invariant
            n <= i <= terms@.len(),
            all == views(terms@),
            n == score(text@, all.take(i as int)),
        decreases terms@.len() - i,
    {
        assert(all.take(i + 1).drop_last() =~= all.take(i as int));
        assert(all.take(i + 1).last() == terms@[i as int]@);
        if text_contains(text, terms[i].as_str()) {
            n = n + 1;
        }
        i = i + 1;
    }
    assert(all.take(all.len() as int) =~= all);
    n
}

/// Appends the items whose score is `k`.
fn push_with_score(
    r: &mut Vec<String>,
    items: &Vec<String>,
    scores: &Vec<usize>,
    terms: Ghost<Seq<Seq<char>>>,
    k: usize,
)
    requires
        scores@.len() == items@.len(),
        forall|i: int|
            0 <= i < items@.len() ==> #[trigger] scores@[i] == score(lowercase(items@[i]@), terms@),
    ensures
        views(final(r)@) == views(old(r)@) + with_score(views(items@), terms@, k as int),
{
    let ghost all = views(items@);
    let mut i: usize = 0;
    assert(views(r@) + with_score(all.take(0), terms@, k as int) =~= views(r@));
    while i < items.len()
        invariant
            i <= items@.len() == scores@.len(),
            all == views(items@),
            forall|j: int|
                0 <= j < items@.len() ==> #[trigger] scores@[j] == score(
                    lowercase(items@[j]@),
                    terms@,
                ),
            views(r@) == views(old(r)@) + with_score(all.take(i as int), terms@, k as int),
        decreases items@.len() - i,
    {
        let ghost before = r@;
        assert(all.take(i + 1).drop_last() =~= all.take(i as int));
        assert(all.take(i + 1).last() == items@[i as int]@);
        if scores[i] == k {
            r.push(items[i].clone());
            assert(views(r@) =~= views(before).push(items@[i as int]@));
        }
        assert(views(r@) =~= views(old(r)@) + with_score(all.take(i + 1), terms@, k as int));
        i = i + 1;
    }
    assert(all.take(all.len() as int) =~= all);
}

/// The items, those in which more terms of the query stand first; items with
/// equally many keep their order.
pub fn rank_by_relevance(items: Vec<String>, query: &str) -> (r: Vec<String>)
    ensures
        views(r@) == ranked(views(items@), query@),
{
    let lower = lowercase_text(query);
    let terms = words_of(lower.as_str());
    let ghost all = views(terms@);
    let mut scores: Vec<usize> = Vec::new();
    let mut i: usize = 0;
    while i < items.len()
        invariant
            i <= items@.len(),
            all == views(terms@),
            scores@.len() == i,
            forall|j: int|
                0 <= j < i ==> #[trigger] scores@[j] == score(lowercase(items@[j]@), all),
        decreases items@.len() - i,
    {
        let text = lowercase_text(items[i].as_str());
        let n: usize = score_of(text.as_str(), &terms);
        scores.push(n);
        i = i + 1;
    }
    let mut r: Vec<String> = Vec::new();
    let mut k: usize = terms.len();
    push_with_score(&mut r, &items, &scores, Ghost(all), k);
    let ghost source = views(items@);
    let ghost top = terms@.len() as int;
    assert(views(r@) + ranked_from(source, all, k - 1) =~= ranked_from(source, all, top)) by {
        assert(views(Seq::<String>::empty()) =~= Seq::<Seq<char>>::empty());
    }
    while k > 0
        invariant
            scores@.len() == items@.len(),
            forall|j: int|
                0 <= j < items@.len() ==> #[trigger] scores@[j] == score(lowercase(items@[j]@), all),
            source == views(items@),
            views(r@) + ranked_from(source, all, k - 1) == ranked_from(source, all, top),
        decreases k,
    {
        k = k - 1;
        let ghost before = views(r@);
        push_with_score(&mut r, &items, &scores, Ghost(all), k);
        assert(views(r@) + ranked_from(source, all, k - 1) =~= before + ranked_from(
            source,
            all,
            k as int,
        ));
    }
    assert(views(r@) + ranked_from(source, all, -1) =~= views(r@));
    r
}

/// The score of a text is at most the number of terms.
pub proof fn lemma_score_bound(text: Seq<char>, terms: Seq<Seq<char>>)
    ensures
        score(text, terms) <= terms.len(),
    decreases terms.len(),
{
    if terms.len() > 0 {
        lemma_score_bound(text, terms.drop_last());
    }
}

/// Every item of a score has it, and is one of the items.
proof fn lemma_with_score(items: Seq<Seq<char>>, terms: Seq<Seq<char>>, k: int)
    ensures
        forall|i: int|
            #![trigger with_score(items, terms, k)[i]]
            0 <= i < with_score(items, terms, k).len() ==> score(
                lowercase(with_score(items, terms, k)[i]),
                terms,
            ) == k,
    decreases items.len(),
{
    if items.len() > 0 {
        lemma_with_score(items.drop_last(), terms, k);
        let before = with_score(items.drop_last(), terms, k);
        let all = with_score(items, terms, k);
        assert forall|i: int| 0 <= i < all.len() implies score(
            lowercase(#[trigger] all[i]),
            terms,
        ) == k by {
            if i < before.len() {
                assert(all[i] == before[i]);
            }
        }
    }
}

/// Ranking puts no item before one with a higher score.
pub proof fn law_ranked_by_score(items: Seq<Seq<char>>, query: Seq<char>, i: int, j: int)
    requires
        0 <= i <= j < ranked(items, query).len(),
    ensures
        score(lowercase(ranked(items, query)[i]), query_terms(query)) >= score(
            lowercase(ranked(items, query)[j]),
            query_terms(query),
        ),
{
    lemma_ranked_from(items, query_terms(query), query_terms(query).len() as int);
}

proof fn lemma_ranked_from(items: Seq<Seq<char>>, terms: Seq<Seq<char>>, k: int)
    ensures
        forall|i: int|
            #![trigger ranked_from(items, terms, k)[i]]
            0 <= i < ranked_from(items, terms, k).len() ==> score(
                lowercase(ranked_from(items, terms, k)[i]),
                terms,
            ) <= k,
        forall|i: int, j: int|
            #![trigger ranked_from(items, terms, k)[i], ranked_from(items, terms, k)[j]]
            0 <= i <= j < ranked_from(items, terms, k).len() ==> score(
                lowercase(ranked_from(items, terms, k)[i]),
                terms,
            ) >= score(lowercase(ranked_from(items, terms, k)[j]), terms),
    decreases k + 1,
{
    if k >= 0 {
        let top = with_score(items, terms, k);
        let rest = ranked_from(items, terms, k - 1);
        lemma_with_score(items, terms, k);
        lemma_ranked_from(items, terms, k - 1);
        assert forall|i: int| 0 <= i < (top + rest).len() implies score(
            lowercase(#[trigger] (top + rest)[i]),
            terms,
        ) <= k by {
            if i < top.len() {
                assert((top + rest)[i] == top[i]);
            } else {
                assert((top + rest)[i] == rest[i - top.len()]);
            }
        }
        assert forall|i: int, j: int| 0 <= i <= j < (top + rest).len() implies score(
            lowercase(#[trigger] (top + rest)[i]),
            terms,
        ) >= score(lowercase(#[trigger] (top + rest)[j]), terms) by {
            if i < top.len() {
                assert((top + rest)[i] == top[i]);
                if j >= top.len() {
                    assert((top + rest)[j] == rest[j - top.len()]);
                } else {
                    assert((top + rest)[j] == top[j]);
                }
            } else {
                assert((top + rest)[i] == rest[i - top.len()]);
                assert((top + rest)[j] == rest[j - top.len()]);
            }
        }
    }
}

/// Ranking loses no item and adds none.
pub proof fn law_ranked_is_permutation(items: Seq<Seq<char>>, query: Seq<char>)
    ensures
        ranked(items, query).to_multiset() == items.to_multiset(),
{
    let terms = query_terms(query);
    lemma_ranked_multiset(items, terms, terms.len() as int);
    assert(items_up_to(items, terms, terms.len() as int) =~= items) by {
        lemma_items_up_to_all(items, terms);
    }
}

/// The items whose score is at most `k`, in order.
spec fn items_up_to(items: Seq<Seq<char>>, terms: Seq<Seq<char>>, k: int) -> Seq<Seq<char>>
    decreases items.len(),
{
    if items.len() == 0 {
        Seq::empty()
    } else {
        let before = items_up_to(items.drop_last(), terms, k);
        if score(lowercase(items.last()), terms) <= k {
            before.push(items.last())
        } else {
            before
        }
    }
}

proof fn lemma_items_up_to_all(items: Seq<Seq<char>>, terms: Seq<Seq<char>>)
    ensures
        items_up_to(items, terms, terms.len() as int) == items,
    decreases items.len(),
{
    if items.len() > 0 {
        lemma_items_up_to_all(items.drop_last(), terms);
        lemma_score_bound(lowercase(items.last()), terms);
        assert(items.drop_last().push(items.last()) =~= items);
    }
}

proof fn lemma_items_none(items: Seq<Seq<char>>, terms: Seq<Seq<char>>)
    ensures
        items_up_to(items, terms, -1).len() == 0,
    decreases items.len(),
{
    if items.len() > 0 {
        lemma_items_none(items.drop_last(), terms);
    }
}

proof fn lemma_split(items: Seq<Seq<char>>, terms: Seq<Seq<char>>, k: int)
    ensures
        items_up_to(items, terms, k).to_multiset() == with_score(items, terms, k).to_multiset().add(
            items_up_to(items, terms, k - 1).to_multiset(),
        ),
    decreases items.len(),
{
    broadcast use vstd::seq_lib::group_to_multiset_ensures;

    if items.len() > 0 {
        lemma_split(items.drop_last(), terms, k);
        assert(items_up_to(items, terms, k).to_multiset() =~= with_score(
            items,
            terms,
            k,
        ).to_multiset().add(items_up_to(items, terms, k - 1).to_multiset()));
    } else {
        assert(items_up_to(items, terms, k).to_multiset() =~= with_score(
            items,
            terms,
            k,
        ).to_multiset().add(items_up_to(items, terms, k - 1).to_multiset()));
    }
}

proof fn lemma_ranked_multiset(items: Seq<Seq<char>>, terms: Seq<Seq<char>>, k: int)
    requires
        k >= -1,
    ensures
        ranked_from(items, terms, k).to_multiset() == items_up_to(items, terms, k).to_multiset(),
    decreases k + 1,
{
    if k >= 0 {
        lemma_ranked_multiset(items, terms, k - 1);
        lemma_split(items, terms, k);
        vstd::seq_lib::lemma_multiset_commutative(
            with_score(items, terms, k),
            ranked_from(items, terms, k - 1),
        );
    } else {
        lemma_items_none(items, terms);
        assert(items_up_to(items, terms, k) =~= ranked_from(items, terms, k));
    }
}

/// The score of a text is the number of terms that stand in it.
pub proof fn law_score(text: Seq<char>, terms: Seq<Seq<char>>)
    ensures
        score(text, terms) == terms.filter(|t: Seq<char>| contains(text, t)).len(),
    decreases terms.len(),
{
    reveal(Seq::filter);
    if terms.len() > 0 {
        law_score(text, terms.drop_last());
    }
}

/// How many words of a query stand in an item, whatever their case.
pub open spec fn matches_of(item: Seq<char>, query: Seq<char>) -> nat {
    words(lowercase(query)).filter(|t: Seq<char>| contains(lowercase(item), t)).len()
}

/// Items in which more words of the query stand come first; none is lost and none is
/// added.
pub proof fn law_ranking(items: Seq<Seq<char>>, query: Seq<char>)
    ensures
        ranked(items, query).to_multiset() == items.to_multiset(),
        ranked(items, query).len() == items.len(),
        forall|i: int, j: int|
            #![trigger ranked(items, query)[i], ranked(items, query)[j]]
            0 <= i <= j < ranked(items, query).len() ==> matches_of(ranked(items, query)[i], query)
                >= matches_of(ranked(items, query)[j], query),
{
    let terms = query_terms(query);
    law_ranked_is_permutation(items, query);
    broadcast use vstd::seq_lib::group_to_multiset_ensures;

    assert(ranked(items, query).len() == ranked(items, query).to_multiset().len());
    assert forall|u: Seq<char>| #[trigger] matches_of(u, query) == score(lowercase(u), terms) by {
        law_score(lowercase(u), terms);
    }
    lemma_ranked_from(items, terms, terms.len() as int);
}

/// Items in which equally many words of the query stand keep their order.
pub proof fn law_ranking_keeps_order(items: Seq<Seq<char>>, query: Seq<char>, n: nat)
    ensures
        ranked(items, query).filter(|u: Seq<char>| matches_of(u, query) == n) == items.filter(
            |u: Seq<char>| matches_of(u, query) == n,
        ),
{
    let terms = query_terms(query);
    let f = |u: Seq<char>| matches_of(u, query) == n;
    let g = |u: Seq<char>| score(lowercase(u), terms) == n;
    assert forall|u: Seq<char>| #[trigger] matches_of(u, query) == score(lowercase(u), terms) by {
        law_score(lowercase(u), terms);
    }
    assert(f =~= g);
    lemma_ranked_filter(items, terms, terms.len() as int, n);
    lemma_with_score_is_filter(items, terms, n);
    if n > terms.len() {
        lemma_none_above(items, terms, n);
    }
}

/// The items of a score are those that have it.
proof fn lemma_with_score_is_filter(items: Seq<Seq<char>>, terms: Seq<Seq<char>>, n: nat)
    ensures
        with_score(items, terms, n as int) == items.filter(
            |u: Seq<char>| score(lowercase(u), terms) == n,
        ),
    decreases items.len(),
{
    reveal(Seq::filter);
    if items.len() > 0 {
        lemma_with_score_is_filter(items.drop_last(), terms, n);
    } else {
        assert(items =~= Seq::empty());
    }
}

/// No item has a score above the number of terms.
proof fn lemma_none_above(items: Seq<Seq<char>>, terms: Seq<Seq<char>>, n: nat)
    requires
        n > terms.len(),
    ensures
        with_score(items, terms, n as int) == Seq::<Seq<char>>::empty(),
    decreases items.len(),
{
    if items.len() > 0 {
        lemma_none_above(items.drop_last(), terms, n);
        lemma_score_bound(lowercase(items.last()), terms);
    }
}

/// Among the ranked items those of a score stand in their order.
proof fn lemma_ranked_filter(items: Seq<Seq<char>>, terms: Seq<Seq<char>>, k: int, n: nat)
    requires
        k >= -1,
    ensures
        ranked_from(items, terms, k).filter(|u: Seq<char>| score(lowercase(u), terms) == n) == (
        if n <= k {
            with_score(items, terms, n as int)
        } else {
            Seq::empty()
        }),
    decreases k + 1,
{
    let f = |u: Seq<char>| score(lowercase(u), terms) == n;
    reveal(Seq::filter);
    if k >= 0 {
        let top = with_score(items, terms, k);
        let rest = ranked_from(items, terms, k - 1);
        lemma_ranked_filter(items, terms, k - 1, n);
        Seq::filter_distributes_over_add(top, rest, f);
        lemma_with_score(items, terms, k);
        lemma_filter_same(top, f, k == n);
        if k == n {
            assert(top + Seq::<Seq<char>>::empty() =~= top);
        } else {
            assert(Seq::<Seq<char>>::empty() + rest.filter(f) =~= rest.filter(f));
        }
    }
}

/// A filter that holds of every item, or of none, keeps all of them, or none.
proof fn lemma_filter_same(items: Seq<Seq<char>>, f: spec_fn(Seq<char>) -> bool, all: bool)
    requires
        forall|i: int| 0 <= i < items.len() ==> #[trigger] f(items[i]) == all,
    ensures
        items.filter(f) == (if all {
            items
        } else {
            Seq::empty()
        }),
    decreases items.len(),
{
    reveal(Seq::filter);
    if items.len() > 0 {
        let rest = items.drop_last();
        assert forall|i: int| 0 <= i < rest.len() implies #[trigger] f(rest[i]) == all by {
            assert(f(items[i]) == all);
        }
        lemma_filter_same(rest, f, all);
        assert(f(items[items.len() - 1]) == all);
        assert(rest.push(items.last()) =~= items);
    } else {
        assert(items =~= Seq::empty());
    }
}

// ---------------------------------------------------------------------------
// Laws of what is asked and answered
// ---------------------------------------------------------------------------

/// A second attempt sends twelve thousand characters, a third one eight thousand, and
/// every later one six thousand.
pub proof fn law_attempt_chars(attempt: nat)
    ensures
        attempt == 1 ==> attempt_chars(attempt) == 12_000,
        attempt == 2 ==> attempt_chars(attempt) == 8_000,
        attempt >= 3 ==> attempt_chars(attempt) == 6_000,
{
    if attempt >= 3 {
        assert(24_000nat / (attempt + 1) <= 6_000) by (nonlinear_arith)
            requires
                attempt >= 3,
        ;
    } else if attempt == 2 {
        assert(24_000nat / (attempt + 1) == 8_000) by (nonlinear_arith)
            requires
                attempt == 2,
        ;
    } else if attempt == 1 {
        assert(24_000nat / (attempt + 1) == 12_000) by (nonlinear_arith)
            requires
                attempt == 1,
        ;
    }
}

/// The body of a request names the model, and asks it by what it is to be and by what it
/// is to answer, in this order; the effort is switched off just where that is wanted.
pub proof fn law_chat_body(model: Seq<char>, system: Seq<char>, user: Seq<char>, tuned: bool)
    ensures
        ({
            let b = chat_body(model, system, user, tuned);
            let first = at_in(b.get("messages"@), 0);
            let second = at_in(b.get("messages"@), 1);
            &&& b.get("model"@) == Some(JsonView::Text(model))
            &&& b.get("temperature"@) == Some(JsonView::Float("0.1"@))
            &&& get_in(first, "role"@) == Some(JsonView::Text("system"@))
            &&& get_in(first, "content"@) == Some(JsonView::Text(system))
            &&& get_in(second, "role"@) == Some(JsonView::Text("user"@))
            &&& get_in(second, "content"@) == Some(JsonView::Text(user))
            &&& at_in(b.get("messages"@), 2) is None
            &&& tuned ==> b.get("reasoning_effort"@) == Some(JsonView::Text("none"@))
        }),
{
    reveal_strlit("model");
    reveal_strlit("temperature");
    reveal_strlit("reasoning_effort");
    reveal_strlit("messages");
    reveal_strlit("role");
    reveal_strlit("content");
    assert("model"@.len() == 5 && "temperature"@.len() == 11 && "reasoning_effort"@.len() == 16);
    assert("messages"@.len() == 8 && "role"@.len() == 4 && "content"@.len() == 7);
    let m = chat_body(model, system, user, tuned)->Object_0;
    lemma_member_at(m, 0);
    lemma_member_at(m, 1);
    lemma_member_at(m, 2);
    if tuned {
        assert(m[2].0 == "reasoning_effort"@);
        assert(m[3].0 == "messages"@);
        lemma_member_at(m, 3);
    } else {
        assert(m[2].0 == "messages"@);
    }
    let one = chat_message("system"@, system)->Object_0;
    lemma_member_at(one, 0);
    lemma_member_at(one, 1);
    let two = chat_message("user"@, user)->Object_0;
    lemma_member_at(two, 0);
    lemma_member_at(two, 1);
}

/// The answer is the content of the message of the first choice, and there is none where
/// there is no such text.
pub proof fn law_completion_text(
    reply: JsonView,
    first: JsonView,
    others: Seq<JsonView>,
    message: JsonView,
    text: Seq<char>,
)
    ensures
        reply.get("choices"@) == Some(JsonView::Array(seq![first] + others)) && first.get(
            "message"@,
        ) == Some(message) && message.get("content"@) == Some(JsonView::Text(text))
            ==> completion_text(reply) == Some(text),
        reply.get("choices"@) is None ==> completion_text(reply) is None,
        reply.get("choices"@) == Some(JsonView::Array(Seq::empty())) ==> completion_text(
            reply,
        ) is None,
{
    assert((seq![first] + others)[0] == first);
}

/// The tokens of an answer are counted as its service counts them.
pub proof fn law_completion_tokens(reply: JsonView, usage: JsonView, n: u64)
    requires
        reply.get("usage"@) == Some(usage),
        n <= u32::MAX,
    ensures
        usage.get("total_tokens"@) == Some(JsonView::Unsigned(n)) ==> completion_tokens(reply)
            == Some(n as u32),
        usage.get("total_tokens"@) is None ==> completion_tokens(reply) is None,
{
}
/// An answer in which something was found gives the value of that, or the error that it
/// is no JSON; one in which nothing was found gives that error.
pub proof fn law_answered_data(text: Seq<char>)
    ensures
        located_json(text) matches Some(j) ==> (read_json(j) matches Ok(v) ==> answered_data(text)
            == Ok::<JsonView, Seq<char>>(v)),
        located_json(text) matches Some(j) ==> (read_json(j) is Err ==> answered_data(text)
            == Err::<JsonView, Seq<char>>("Failed to parse LLM response as JSON"@)),
        located_json(text) is None ==> answered_data(text) == Err::<JsonView, Seq<char>>(
            "Could not extract JSON from LLM response"@,
        ),
{
}
/// An answer that begins like an object or an array is taken whole, but for the white
/// space around it.
pub proof fn law_answer_is_taken_whole(before: Seq<char>, raw: Seq<char>, after: Seq<char>)
    requires
        forall|i: int| 0 <= i < before.len() ==> is_space(#[trigger] before[i]),
        forall|i: int| 0 <= i < after.len() ==> is_space(#[trigger] after[i]),
        starts_like_json(raw),
        !is_space(raw.last()),
    ensures
        located_json(before + raw + after) == Some(raw),
        read_json(raw) is Ok ==> answered_data(before + raw + after) == read_json(raw),
{
    law_trim_takes_white_space_away(before, raw, after);
}

/// An object behind a fence that is never closed is found, and so is one behind a fence
/// without a language.
pub proof fn law_unclosed_fence(prose: Seq<char>, raw: Seq<char>)
    requires
        is_prose(prose),
        is_object_text(raw),
        !raw.contains('`'),
    ensures
        located_json(prose + "\n```json\n"@ + raw) == Some(raw),
        located_json(prose + "\n```\n"@ + raw) == Some(raw),
{
    reveal_strlit("```");
    reveal_strlit("```json");
    reveal_strlit("\n```json\n");
    reveal_strlit("\n```\n");
    assert("\n```json\n"@ =~= seq!['\n'] + ("```json"@ + seq!['\n']));
    assert("\n```\n"@ =~= seq!['\n'] + ("```"@ + seq!['\n']));
    lemma_unclosed(prose, "```json"@, raw);
    lemma_unclosed(prose, "```"@, raw);
    assert(prose + "\n```json\n"@ + raw =~= prose + seq!['\n'] + ("```json"@ + seq!['\n'] + raw));
    assert(prose + "\n```\n"@ + raw =~= prose + seq!['\n'] + ("```"@ + seq!['\n'] + raw));
}

proof fn lemma_unclosed(prose: Seq<char>, open: Seq<char>, raw: Seq<char>)
    requires
        is_prose(prose),
        is_object_text(raw),
        !raw.contains('`'),
        open == "```json"@ || open == "```"@,
    ensures
        located_json(prose + seq!['\n'] + (open + seq!['\n'] + raw)) == Some(raw),
{
    reveal_strlit("```");
    reveal_strlit("```json");
    let none = Seq::<char>::empty();
    let head = open + seq!['\n'];
    let body = head + raw;
    lemma_trim_wrapped(prose, body, none);
    let p = trim_start(prose + seq!['\n']);
    let t = p + body;
    let a = p.len() as int;
    assert(prose + seq!['\n'] + body + none =~= prose + seq!['\n'] + body);
    assert(trim(prose + seq!['\n'] + body) == t);
    assert forall|j: int| a + 3 <= j < t.len() implies t[j] != '`' by {
        if j >= a + head.len() {
            assert(t[j] == raw[j - a - head.len()]);
            assert(raw.contains(raw[j - a - head.len()]));
        }
    }
    assert forall|j: int| 0 <= j && j != a implies !#[trigger] occurs_at(t, "```"@, j) by {
        if occurs_at(t, "```"@, j) {
            let o = t.subrange(j, j + 3);
            assert(o[0] == t[j] && o[1] == t[j + 1] && o[2] == t[j + 2]);
            if j < a {
                assert(t[j] == p[j]);
            }
        }
    }
    assert forall|j: int| 0 <= j && j != a implies !#[trigger] occurs_at(t, "```json"@, j) by {
        if occurs_at(t, "```json"@, j) {
            assert(t.subrange(j, j + 3) =~= t.subrange(j, j + 7).subrange(0, 3));
            assert("```json"@.subrange(0, 3) =~= "```"@);
            assert(occurs_at(t, "```"@, j));
        }
    }
    lemma_find_from(t, "```"@, 0);
    lemma_find_from(t, "```json"@, 0);
    lemma_find_from(t, "```"@, a + 7);
    lemma_find_from(t, "```"@, a + 3);
    assert(t =~= (p + head) + raw + none);
    assert forall|i: int| 0 <= i < (p + head).len() implies (p + head)[i] != '{' by {
        if i < a {
            assert((p + head)[i] == p[i]);
        }
    }
    lemma_embedded(p + head, raw, none, '{', '}');
    if a > 0 {
        assert(t[0] == p[0]);
    } else {
        assert(t[0] == '`');
    }
}
} // verus!

//! JSON values: their model, access to their parts, reading and printing.

use crate::text::{
    chars_of, decimal, decimal_text, join, join_strings, law_decimal_is_read_back,
    law_number_has_digits_only, lemma_decimal_digits, lemma_digits_of_sign, parse_unsigned,
    parse_unsigned_text, same_text, signed_decimal, signed_decimal_text, string_from, views,
};
use serde_json::value::RawValue;
use serde_json::Value;
use std::collections::BTreeMap;
use vstd::prelude::*;

verus! {

/// A JSON number. A number with a fraction or an exponent, or one that fits no
/// 64-bit integer, keeps its decimal text.
#[derive(Debug)]
pub enum JsonNumber {
    Unsigned(u64),
    Negative(i64),
    Float(String),
}

/// A JSON value. The members of an object are in order of occurrence.
#[derive(Debug)]
pub enum Json {
    Null,
    Bool(bool),
    Number(JsonNumber),
    Text(String),
    Array(Vec<Json>),
    Object(Vec<(String, Json)>),
}

/// The mathematical value of a `Json`.
pub enum JsonView {
    Null,
    Bool(bool),
    Unsigned(u64),
    Negative(i64),
    Float(Seq<char>),
    Text(Seq<char>),
    Array(Seq<JsonView>),
    Object(Seq<(Seq<char>, JsonView)>),
}

/// The mathematical value of `j`.
pub open spec fn value_of(j: Json) -> JsonView
    decreases j,
{
    match j {
        Json::Null => JsonView::Null,
        Json::Bool(b) => JsonView::Bool(b),
        Json::Number(JsonNumber::Unsigned(n)) => JsonView::Unsigned(n),
        Json::Number(JsonNumber::Negative(n)) => JsonView::Negative(n),
        Json::Number(JsonNumber::Float(t)) => JsonView::Float(t@),
        Json::Text(t) => JsonView::Text(t@),
        Json::Array(items) => JsonView::Array(
            Seq::new(
                items@.len(),
                |i: int|
                    if 0 <= i < items@.len() {
                        value_of(items@[i])
                    } else {
                        JsonView::Null
                    },
            ),
        ),
        Json::Object(members) => JsonView::Object(
            Seq::new(
                members@.len(),
                |i: int|
                    if 0 <= i < members@.len() {
                        (members@[i].0@, value_of(members@[i].1))
                    } else {
                        (Seq::empty(), JsonView::Null)
                    },
            ),
        ),
    }
}

impl View for Json {
    type V = JsonView;

    open spec fn view(&self) -> JsonView {
        value_of(*self)
    }
}

/// The values of a sequence of `Json`.
pub open spec fn json_views(v: Seq<Json>) -> Seq<JsonView> {
    v.map_values(|j: Json| j@)
}

/// The values of a sequence of object members.
pub open spec fn member_views(v: Seq<(String, Json)>) -> Seq<(Seq<char>, JsonView)> {
    v.map_values(|m: (String, Json)| (m.0@, m.1@))
}

/// The view of an optional `Json`.
pub open spec fn opt_json_view(o: Option<Json>) -> Option<JsonView> {
    match o {
        Some(j) => Some(j@),
        None => None,
    }
}

/// The value of an array is made of the values of its items.
pub proof fn lemma_array_view(items: Vec<Json>)
    ensures
        Json::Array(items)@ == JsonView::Array(json_views(items@)),
{
    assert(Json::Array(items)@->Array_0 =~= json_views(items@));
}

/// The value of an object is made of the values of its members.
pub proof fn lemma_object_view(members: Vec<(String, Json)>)
    ensures
        Json::Object(members)@ == JsonView::Object(member_views(members@)),
{
    assert(Json::Object(members)@->Object_0 =~= member_views(members@));
}

impl Clone for Json {
    /// A copy with the same value.
    fn clone(&self) -> (r: Self)
        ensures
            r@ == self@,
        decreases self,
    {
        match self {
            Json::Null => Json::Null,
            Json::Bool(b) => Json::Bool(*b),
            Json::Number(JsonNumber::Unsigned(n)) => Json::Number(JsonNumber::Unsigned(*n)),
            Json::Number(JsonNumber::Negative(n)) => Json::Number(JsonNumber::Negative(*n)),
            Json::Number(JsonNumber::Float(t)) => Json::Number(JsonNumber::Float(t.clone())),
            Json::Text(t) => Json::Text(t.clone()),
            Json::Array(items) => {
                let mut copy: Vec<Json> = Vec::new();
                let mut i: usize = 0;
                while i < items.len()
                    invariant
                        i <= items@.len(),
                        *self == Json::Array(*items),
                        json_views(copy@) == json_views(items@).take(i as int),
                    decreases items@.len() - i,
                {
                    let ghost before = copy@;
                    assert(decreases_to!(*self => self->Array_0));
                    assert(decreases_to!(*items => items[i as int]));
                    copy.push(items[i].clone());
                    i = i + 1;
                    assert(json_views(copy@) =~= json_views(before).push(items@[i - 1]@));
                    assert(json_views(items@).take(i as int) =~= json_views(items@).take(
                        i - 1,
                    ).push(items@[i - 1]@));
                }
                proof {
                    assert(json_views(items@).take(items@.len() as int) =~= json_views(items@));
                    lemma_array_view(copy);
                    lemma_array_view(*items);
                }
                Json::Array(copy)
            },
            Json::Object(members) => {
                let mut copy: Vec<(String, Json)> = Vec::new();
                let mut i: usize = 0;
                while i < members.len()
                    invariant
                        i <= members@.len(),
                        *self == Json::Object(*members),
                        member_views(copy@) == member_views(members@).take(i as int),
                    decreases members@.len() - i,
                {
                    let ghost before = copy@;
                    assert(decreases_to!(*self => self->Object_0));
                    assert(decreases_to!(*members => members[i as int]));
                    assert(decreases_to!(members[i as int] => members[i as int].1));
                    copy.push((members[i].0.clone(), members[i].1.clone()));
                    i = i + 1;
                    assert(member_views(copy@) =~= member_views(before).push(
                        (members@[i - 1].0@, members@[i - 1].1@),
                    ));
                    assert(member_views(members@).take(i as int) =~= member_views(members@).take(
                        i - 1,
                    ).push((members@[i - 1].0@, members@[i - 1].1@)));
                }
                proof {
                    assert(member_views(members@).take(members@.len() as int) =~= member_views(
                        members@,
                    ));
                    lemma_object_view(copy);
                    lemma_object_view(*members);
                }
                Json::Object(copy)
            },
        }
    }
}

/// A copy of an optional value.
pub fn opt_json_clone(o: &Option<Json>) -> (r: Option<Json>)
    ensures
        opt_json_view(r) == opt_json_view(*o),
{
    match o {
        Some(j) => Some(j.clone()),
        None => None,
    }
}

// ---------------------------------------------------------------------------
// Access to parts
// ---------------------------------------------------------------------------

/// The value of the first member named `key`.
pub open spec fn member(members: Seq<(Seq<char>, JsonView)>, key: Seq<char>) -> Option<JsonView>
    decreases members.len(),
{
    if members.len() == 0 {
        None
    } else if members[0].0 == key {
        Some(members[0].1)
    } else {
        member(members.drop_first(), key)
    }
}

/// A member before which none has its name is found under it.
pub proof fn lemma_member_at(members: Seq<(Seq<char>, JsonView)>, k: int)
    requires
        0 <= k < members.len(),
        forall|j: int| 0 <= j < k ==> (#[trigger] members[j]).0 != members[k].0,
    ensures
        member(members, members[k].0) == Some(members[k].1),
    decreases members.len(),
{
    if k > 0 {
        let rest = members.drop_first();
        assert(members[0].0 != members[k].0);
        assert(rest[k - 1] == members[k]);
        assert forall|j: int| 0 <= j < k - 1 implies (#[trigger] rest[j]).0 != rest[k - 1].0 by {
            assert(members[j + 1].0 != members[k].0);
        }
        lemma_member_at(rest, k - 1);
    }
}

/// Of members that follow each other, the first one with the name is found; one member
/// is found under its own name and no other.
pub proof fn law_member(
    a: Seq<(Seq<char>, JsonView)>,
    b: Seq<(Seq<char>, JsonView)>,
    name: Seq<char>,
    value: JsonView,
    key: Seq<char>,
)
    ensures
        member(a + b, key) == (if member(a, key) is Some {
            member(a, key)
        } else {
            member(b, key)
        }),
        member(seq![(name, value)], key) == (if name == key {
            Some(value)
        } else {
            None
        }),
        member(a, key) matches Some(v) ==> a.contains((key, v)),
        member(a, key) is None ==> forall|k: int| 0 <= k < a.len() ==> (#[trigger] a[k]).0 != key,
    decreases a.len(),
{
    reveal_with_fuel(member, 2);
    if a.len() == 0 {
        assert(a + b =~= b);
    } else {
        law_member(a.drop_first(), b, name, value, key);
        assert((a + b).drop_first() =~= a.drop_first() + b);
        let rest = a.drop_first();
        if a[0].0 != key {
            if let Some(v) = member(a, key) {
                let k = choose|k: int| 0 <= k < rest.len() && rest[k] == (key, v);
                assert(a[k + 1] == (key, v));
            } else {
                assert forall|k: int| 0 <= k < a.len() implies (#[trigger] a[k]).0 != key by {
                    if k > 0 {
                        assert(rest[k - 1].0 != key);
                    }
                }
            }
        } else {
            assert(a[0] == (key, a[0].1));
        }
    }
}

impl JsonView {
    /// The member named `key`, where this is an object that has one.
    pub open spec fn get(self, key: Seq<char>) -> Option<JsonView> {
        match self {
            JsonView::Object(members) => member(members, key),
            _ => None,
        }
    }

    /// The item at position `i`, where this is an array that has one.
    pub open spec fn at(self, i: int) -> Option<JsonView> {
        match self {
            JsonView::Array(items) => if 0 <= i < items.len() {
                Some(items[i])
            } else {
                None
            },
            _ => None,
        }
    }

    /// The characters, where this is a string.
    pub open spec fn as_text(self) -> Option<Seq<char>> {
        match self {
            JsonView::Text(t) => Some(t),
            _ => None,
        }
    }

    /// The items, where this is an array; none otherwise.
    pub open spec fn items(self) -> Seq<JsonView> {
        match self {
            JsonView::Array(items) => items,
            _ => Seq::empty(),
        }
    }
}

/// The member named `key` of an optional object.
pub open spec fn get_in(o: Option<JsonView>, key: Seq<char>) -> Option<JsonView> {
    match o {
        Some(j) => j.get(key),
        None => None,
    }
}

/// The item at position `i` of an optional array.
pub open spec fn at_in(o: Option<JsonView>, i: int) -> Option<JsonView> {
    match o {
        Some(j) => j.at(i),
        None => None,
    }
}

/// The characters of an optional string.
pub open spec fn text_in(o: Option<JsonView>) -> Option<Seq<char>> {
    match o {
        Some(j) => j.as_text(),
        None => None,
    }
}

/// The view of an optional reference.
pub open spec fn opt_ref_view(o: Option<&Json>) -> Option<JsonView> {
    match o {
        Some(j) => Some(j@),
        None => None,
    }
}

impl Json {
    /// The member named `key`, where this is an object that has one.
    pub fn get(&self, key: &str) -> (r: Option<&Json>)
        ensures
            opt_ref_view(r) == self@.get(key@),
    {
        match self {
            Json::Object(members) => {
                proof {
                    lemma_object_view(*members);
                }
                let ghost all = member_views(members@);
                let mut i: usize = 0;
                assert(all.skip(0) =~= all);
                while i < members.len()
                    invariant
                        i <= members@.len(),
                        all == member_views(members@),
                        member(all, key@) == member(all.skip(i as int), key@),
                        self@ == JsonView::Object(all),
                    decreases members@.len() - i,
                {
                    assert(all.skip(i as int)[0] == (members@[i as int].0@, members@[i as int].1@));
                    if same_text(members[i].0.as_str(), key) {
                        return Some(&members[i].1);
                    }
                    assert(all.skip(i as int).drop_first() =~= all.skip(i + 1));
                    i = i + 1;
                }
                assert(all.skip(i as int).len() == 0);
                None
            },
            _ => None,
        }
    }

    /// The item at position `i`, where this is an array that has one.
    pub fn at(&self, i: usize) -> (r: Option<&Json>)
        ensures
            opt_ref_view(r) == self@.at(i as int),
    {
        match self {
            Json::Array(items) => {
                proof {
                    lemma_array_view(*items);
                }
                if i < items.len() {
                    Some(&items[i])
                } else {
                    None
                }
            },
            _ => None,
        }
    }

    /// The characters, where this is a string.
    pub fn as_text(&self) -> (r: Option<String>)
        ensures
            crate::text::opt_view(r) == self@.as_text(),
    {
        match self {
            Json::Text(t) => Some(t.clone()),
            _ => None,
        }
    }

    /// The number, where this is one that fits `u64`.
    pub fn as_u64(&self) -> (r: Option<u64>)
        ensures
            r == (match self@ {
                JsonView::Unsigned(n) => Some(n),
                _ => None,
            }),
    {
        match self {
            Json::Number(JsonNumber::Unsigned(n)) => Some(*n),
            _ => None,
        }
    }
}

/// The member named `key` of an optional object.
pub fn get_of<'a>(o: Option<&'a Json>, key: &str) -> (r: Option<&'a Json>)
    ensures
        opt_ref_view(r) == get_in(opt_ref_view(o), key@),
{
    match o {
        Some(j) => j.get(key),
        None => None,
    }
}

/// The item at position `i` of an optional array.
pub fn at_of<'a>(o: Option<&'a Json>, i: usize) -> (r: Option<&'a Json>)
    ensures
        opt_ref_view(r) == at_in(opt_ref_view(o), i as int),
{
    match o {
        Some(j) => j.at(i),
        None => None,
    }
}

/// The characters of an optional string.
pub fn text_of(o: Option<&Json>) -> (r: Option<String>)
    ensures
        crate::text::opt_view(r) == text_in(opt_ref_view(o)),
{
    match o {
        Some(j) => j.as_text(),
        None => None,
    }
}

/// A JSON string with the given characters.
pub fn json_text(s: &str) -> (r: Json)
    ensures
        r@ == JsonView::Text(s@),
{
    Json::Text(s.to_owned())
}

/// A JSON number.
pub fn json_number(n: u64) -> (r: Json)
    ensures
        r@ == JsonView::Unsigned(n),
{
    Json::Number(JsonNumber::Unsigned(n))
}

/// A JSON string, or `null` where there is none.
pub open spec fn text_or_null(o: Option<Seq<char>>) -> JsonView {
    match o {
        Some(t) => JsonView::Text(t),
        None => JsonView::Null,
    }
}

/// A JSON string, or `null` where there is none.
pub fn json_text_or_null(o: &Option<String>) -> (r: Json)
    ensures
        r@ == text_or_null(crate::text::opt_view(*o)),
{
    match o {
        Some(t) => Json::Text(t.clone()),
        None => Json::Null,
    }
}

/// The JSON array of the given strings.
pub open spec fn text_array(v: Seq<Seq<char>>) -> JsonView {
    JsonView::Array(v.map_values(|t: Seq<char>| JsonView::Text(t)))
}

/// The JSON array of the given strings.
pub fn json_text_array(v: &Vec<String>) -> (r: Json)
    ensures
        r@ == text_array(views(v@)),
{
    let mut items: Vec<Json> = Vec::new();
    let mut i: usize = 0;
    while i < v.len()
        invariant
            i <= v@.len() == views(v@).len(),
            items@.len() == i,
            forall|k: int| 0 <= k < i ==> (#[trigger] items@[k])@ == JsonView::Text(v@[k]@),
        decreases v@.len() - i,
    {
        items.push(Json::Text(v[i].clone()));
        i = i + 1;
    }
    proof {
        lemma_array_view(items);
        assert(json_views(items@) =~= views(v@).map_values(|t: Seq<char>| JsonView::Text(t)));
    }
    Json::Array(items)
}

// ---------------------------------------------------------------------------
// Printing
// ---------------------------------------------------------------------------

/// The lower-case hexadecimal digit of a number below sixteen.
pub open spec fn hex_digit(d: int) -> char {
    if d < 10 {
        crate::text::digit(d)
    } else if d == 10 {
        'a'
    } else if d == 11 {
        'b'
    } else if d == 12 {
        'c'
    } else if d == 13 {
        'd'
    } else if d == 14 {
        'e'
    } else {
        'f'
    }
}

/// A character as it stands inside a JSON string.
pub open spec fn escape(c: char) -> Seq<char> {
    if c == '"' || c == '\\' {
        seq!['\\', c]
    } else if c == '\u{8}' {
        seq!['\\', 'b']
    } else if c == '\u{9}' {
        seq!['\\', 't']
    } else if c == '\u{a}' {
        seq!['\\', 'n']
    } else if c == '\u{c}' {
        seq!['\\', 'f']
    } else if c == '\u{d}' {
        seq!['\\', 'r']
    } else if c <= '\u{1f}' {
        seq!['\\', 'u', '0', '0', hex_digit(c as int / 16), hex_digit(c as int % 16)]
    } else {
        seq![c]
    }
}

/// A text as it stands inside a JSON string.
pub open spec fn escaped(s: Seq<char>) -> Seq<char>
    decreases s.len(),
{
    if s.len() == 0 {
        Seq::empty()
    } else {
        escaped(s.drop_last()) + escape(s.last())
    }
}

/// A text as a JSON string, in double quotes.
pub open spec fn quoted(s: Seq<char>) -> Seq<char> {
    "\""@ + escaped(s) + "\""@
}

/// Calls `serde_json::to_string` on a string: it writes the text in double
/// quotes, with the quote, the backslash and the control characters escaped.
#[verifier::external_body]
fn quote(s: &str) -> (r: String)
    ensures
        r@ == quoted(s@),
{
    serde_json::to_string(s).unwrap_or_default()
}

/// The text of a value without white space between its parts.
pub open spec fn compact(j: JsonView) -> Seq<char>
    decreases j,
{
    match j {
        JsonView::Null => "null"@,
        JsonView::Bool(b) => if b {
            "true"@
        } else {
            "false"@
        },
        JsonView::Unsigned(n) => decimal(n as nat),
        JsonView::Negative(n) => signed_decimal(n as int),
        JsonView::Float(t) => t,
        JsonView::Text(t) => quoted(t),
        JsonView::Array(items) => "["@ + join(compact_items(items), ","@) + "]"@,
        JsonView::Object(members) => "{"@ + join(compact_members(members), ","@) + "}"@,
    }
}

/// The texts of the items of an array.
pub open spec fn compact_items(items: Seq<JsonView>) -> Seq<Seq<char>>
    decreases items,
{
    if items.len() == 0 {
        Seq::empty()
    } else {
        compact_items(items.drop_last()).push(compact(items[items.len() - 1]))
    }
}

/// The texts of the members of an object.
pub open spec fn compact_members(members: Seq<(Seq<char>, JsonView)>) -> Seq<Seq<char>>
    decreases members,
{
    if members.len() == 0 {
        Seq::empty()
    } else {
        let m = members[members.len() - 1];
        compact_members(members.drop_last()).push(quoted(m.0) + ":"@ + compact(m.1))
    }
}

impl Json {
    /// The text of this value without white space between its parts.
    pub fn to_text(&self) -> (r: String)
        ensures
            r@ == compact(self@),
        decreases self,
    {
        match self {
            Json::Null => "null".to_owned(),
            Json::Bool(b) => if *b {
                "true".to_owned()
            } else {
                "false".to_owned()
            },
            Json::Number(JsonNumber::Unsigned(n)) => decimal_text(*n),
            Json::Number(JsonNumber::Negative(n)) => signed_decimal_text(*n),
            Json::Number(JsonNumber::Float(t)) => t.clone(),
            Json::Text(t) => quote(t.as_str()),
            Json::Array(items) => {
                let mut parts: Vec<String> = Vec::new();
                let mut i: usize = 0;
                proof {
                    lemma_array_view(*items);
                }
                let ghost all = json_views(items@);
                assert(views(parts@) =~= compact_items(all.take(0)));
                while i < items.len()
                    invariant
                        i <= items@.len(),
                        *self == Json::Array(*items),
                        all == json_views(items@),
                        views(parts@) == compact_items(all.take(i as int)),
                    decreases items@.len() - i,
                {
                    let ghost before = parts@;
                    assert(decreases_to!(*self => self->Array_0));
                    assert(decreases_to!(*items => items[i as int]));
                    parts.push(items[i].to_text());
                    assert(all.take(i + 1).drop_last() =~= all.take(i as int));
                    assert(views(parts@) =~= views(before).push(compact(all[i as int])));
                    i = i + 1;
                }
                assert(all.take(all.len() as int) =~= all);
                "[".to_owned().concat(join_strings(&parts, ",").as_str()).concat("]")
            },
            Json::Object(members) => {
                let mut parts: Vec<String> = Vec::new();
                let mut i: usize = 0;
                proof {
                    lemma_object_view(*members);
                }
                let ghost all = member_views(members@);
                assert(views(parts@) =~= compact_members(all.take(0)));
                while i < members.len()
                    invariant
                        i <= members@.len(),
                        *self == Json::Object(*members),
                        all == member_views(members@),
                        views(parts@) == compact_members(all.take(i as int)),
                    decreases members@.len() - i,
                {
                    let ghost before = parts@;
                    assert(decreases_to!(*self => self->Object_0));
                    assert(decreases_to!(*members => members[i as int]));
                    assert(decreases_to!(members[i as int] => members[i as int].1));
                    let value = members[i].1.to_text();
                    parts.push(quote(members[i].0.as_str()).concat(":").concat(value.as_str()));
                    assert(all.take(i + 1).drop_last() =~= all.take(i as int));
                    assert(views(parts@) =~= views(before).push(
                        quoted(all[i as int].0) + ":"@ + compact(all[i as int].1),
                    ));
                    i = i + 1;
                }
                assert(all.take(all.len() as int) =~= all);
                "{".to_owned().concat(join_strings(&parts, ",").as_str()).concat("}")
            },
        }
    }
}

/// The indented form of a JSON text; `None` where the text is no JSON.
pub uninterp spec fn pretty_json(text: Seq<char>) -> Option<Seq<char>>;

/// Reads the text with `serde_json::from_str` and prints the value with
/// `serde_json::to_string_pretty`. The result is named, not described: it is a
/// function of the text.
#[verifier::external_body]
fn pretty(text: &str) -> (r: Option<String>)
    ensures
        crate::text::opt_view(r) == pretty_json(text@),
{
    let value: Value = serde_json::from_str(text).ok()?;
    serde_json::to_string_pretty(&value).ok()
}

/// The indented text of a value, empty where it cannot be printed.
pub open spec fn indented(j: JsonView) -> Seq<char> {
    match pretty_json(compact(j)) {
        Some(t) => t,
        None => Seq::empty(),
    }
}

impl Json {
    /// The indented text of this value, empty where it cannot be printed.
    pub fn to_indented_text(&self) -> (r: String)
        ensures
            r@ == indented(self@),
    {
        let text = self.to_text();
        match pretty(text.as_str()) {
            Some(t) => t,
            None => String::new(),
        }
    }
}

// ---------------------------------------------------------------------------
// Reading
// ---------------------------------------------------------------------------

/// The outermost layer of a JSON text: a plain value, or a value with parts.
#[derive(Debug)]
pub enum JsonLayer {
    Null,
    Bool(bool),
    Number(String),
    Text(String),
    Array,
    Object,
}

/// The mathematical value of a `JsonLayer`.
pub enum LayerView {
    Null,
    Bool(bool),
    Number(Seq<char>),
    Text(Seq<char>),
    Array,
    Object,
}

/// The values of a sequence of pairs of texts.
pub open spec fn pair_views(v: Seq<(String, String)>) -> Seq<(Seq<char>, Seq<char>)> {
    v.map_values(|m: (String, String)| (m.0@, m.1@))
}

impl View for JsonLayer {
    type V = LayerView;

    open spec fn view(&self) -> LayerView {
        match self {
            JsonLayer::Null => LayerView::Null,
            JsonLayer::Bool(b) => LayerView::Bool(*b),
            JsonLayer::Number(t) => LayerView::Number(t@),
            JsonLayer::Text(t) => LayerView::Text(t@),
            JsonLayer::Array => LayerView::Array,
            JsonLayer::Object => LayerView::Object,
        }
    }
}

/// What reading the outermost layer of a JSON text gives: the layer, or the text of the
/// error.
pub uninterp spec fn outer_layer(text: Seq<char>) -> Result<LayerView, Seq<char>>;

/// The view of the result of reading a layer.
pub open spec fn layer_view(r: Result<JsonLayer, String>) -> Result<LayerView, Seq<char>> {
    match r {
        Ok(l) => Ok(l@),
        Err(e) => Err(e@),
    }
}

/// Reads a text with `serde_json::from_str` and takes the outermost layer of the value
/// over; an error is taken by its text. The result is named, not described: it is a
/// function of the text.
#[verifier::external_body]
fn read_layer(text: &str) -> (r: Result<JsonLayer, String>)
    ensures
        layer_view(r) == outer_layer(text@),
{
    Ok(match serde_json::from_str(text).map_err(|e: serde_json::Error| e.to_string())? {
        Value::Null => JsonLayer::Null,
        Value::Bool(b) => JsonLayer::Bool(b),
        Value::Number(n) => JsonLayer::Number(n.to_string()),
        Value::String(t) => JsonLayer::Text(t),
        Value::Array(_) => JsonLayer::Array,
        Value::Object(_) => JsonLayer::Object,
    })
}

/// The pieces of the text of a JSON array that its items stand in.
pub uninterp spec fn array_pieces(text: Seq<char>) -> Seq<Seq<char>>;

/// Reads a text with `serde_json::from_str` as a sequence of `RawValue`s, which are the
/// pieces of the text; there are none where it is no array. The result is named, not
/// described: it is a function of the text.
#[verifier::external_body]
fn read_array(text: &str) -> (r: Vec<String>)
    ensures
        views(r@) == array_pieces(text@),
{
    let pieces: Vec<&RawValue> = serde_json::from_str(text).unwrap_or_default();
    pieces.into_iter().map(|p| p.get().to_owned()).collect()
}

/// The keys of a JSON object, and the pieces of its text that its values stand in.
pub uninterp spec fn object_pieces(text: Seq<char>) -> Seq<(Seq<char>, Seq<char>)>;

/// Reads a text with `serde_json::from_str` as a map, ordered by its keys, to `RawValue`s,
/// which are the pieces of the text; there are none where it is no object. The result is
/// named, not described: it is a function of the text.
#[verifier::external_body]
fn read_object(text: &str) -> (r: Vec<(String, String)>)
    ensures
        pair_views(r@) == object_pieces(text@),
{
    let pieces: BTreeMap<String, &RawValue> = serde_json::from_str(text).unwrap_or_default();
    pieces.into_iter().map(|(k, p)| (k, p.get().to_owned())).collect()
}

/// How deep the parts of a JSON text are read; `serde_json` reads no deeper.
pub const MAX_DEPTH: u32 = 128;

/// The number that the text of a JSON number denotes.
pub open spec fn number_in(text: Seq<char>) -> JsonView {
    match parse_unsigned(text, u64::MAX as nat) {
        Some(n) => JsonView::Unsigned(n as u64),
        None => if text.len() > 0 && text[0] == '-' {
            match parse_unsigned(text.drop_first(), 0x8000_0000_0000_0000) {
                Some(n) => JsonView::Negative((-(n as int)) as i64),
                None => JsonView::Float(text),
            }
        } else {
            JsonView::Float(text)
        },
    }
}

/// The value that a JSON text denotes, read `depth` deep, or the text of the error.
pub open spec fn read_deep(text: Seq<char>, depth: nat) -> Result<JsonView, Seq<char>>
    decreases depth, 0nat,
{
    match outer_layer(text) {
        Err(e) => Err(e),
        Ok(LayerView::Null) => Ok(JsonView::Null),
        Ok(LayerView::Bool(b)) => Ok(JsonView::Bool(b)),
        Ok(LayerView::Number(t)) => Ok(number_in(t)),
        Ok(LayerView::Text(t)) => Ok(JsonView::Text(t)),
        Ok(LayerView::Array) => if depth == 0 {
            Err("recursion limit exceeded"@)
        } else {
            match read_items(array_pieces(text), (depth - 1) as nat) {
                Ok(v) => Ok(JsonView::Array(v)),
                Err(e) => Err(e),
            }
        },
        Ok(LayerView::Object) => if depth == 0 {
            Err("recursion limit exceeded"@)
        } else {
            match read_members(object_pieces(text), (depth - 1) as nat) {
                Ok(v) => Ok(JsonView::Object(v)),
                Err(e) => Err(e),
            }
        },
    }
}

/// The values that the texts of the items of an array denote.
pub open spec fn read_items(items: Seq<Seq<char>>, depth: nat) -> Result<
    Seq<JsonView>,
    Seq<char>,
>
    decreases depth, items.len(),
{
    if items.len() == 0 {
        Ok(Seq::empty())
    } else {
        match (read_items(items.drop_last(), depth), read_deep(items[items.len() - 1], depth)) {
            (Err(e), _) => Err(e),
            (Ok(_), Err(e)) => Err(e),
            (Ok(before), Ok(v)) => Ok(before.push(v)),
        }
    }
}

/// The members of an object whose values are the texts of `members`.
pub open spec fn read_members(members: Seq<(Seq<char>, Seq<char>)>, depth: nat) -> Result<
    Seq<(Seq<char>, JsonView)>,
    Seq<char>,
>
    decreases depth, members.len(),
{
    if members.len() == 0 {
        Ok(Seq::empty())
    } else {
        let m = members[members.len() - 1];
        match (read_members(members.drop_last(), depth), read_deep(m.1, depth)) {
            (Err(e), _) => Err(e),
            (Ok(_), Err(e)) => Err(e),
            (Ok(before), Ok(v)) => Ok(before.push((m.0, v))),
        }
    }
}

/// The value that a JSON text denotes, or the text of the error.
pub open spec fn read_json(text: Seq<char>) -> Result<JsonView, Seq<char>> {
    read_deep(text, MAX_DEPTH as nat)
}

/// The view of the result of reading.
pub open spec fn read_view(r: Result<Json, String>) -> Result<JsonView, Seq<char>> {
    match r {
        Ok(j) => Ok(j@),
        Err(e) => Err(e@),
    }
}

/// The number that the text of a JSON number denotes.
pub fn number_of(text: &str) -> (r: Json)
    ensures
        r@ == number_in(text@),
{
    if let Some(n) = parse_unsigned_text(text, u64::MAX) {
        return Json::Number(JsonNumber::Unsigned(n));
    }
    let v = chars_of(text);
    if v.len() > 0 && v[0] == '-' {
        let rest = string_from(&v, 1, v.len());
        assert(rest@ =~= text@.drop_first());
        if let Some(n) = parse_unsigned_text(rest.as_str(), 0x8000_0000_0000_0000) {
            let negative: i64 = (-(n as i128)) as i64;
            return Json::Number(JsonNumber::Negative(negative));
        }
    }
    Json::Number(JsonNumber::Float(text.to_owned()))
}

fn read_value(text: &str, depth: u32) -> (r: Result<Json, String>)
    ensures
        read_view(r) == read_deep(text@, depth as nat),
    decreases depth, 0nat,
{
    match read_layer(text) {
        Err(e) => Err(e),
        Ok(JsonLayer::Null) => Ok(Json::Null),
        Ok(JsonLayer::Bool(b)) => Ok(Json::Bool(b)),
        Ok(JsonLayer::Number(t)) => Ok(number_of(t.as_str())),
        Ok(JsonLayer::Text(t)) => Ok(Json::Text(t)),
        Ok(JsonLayer::Array) => {
            if depth == 0 {
                return Err("recursion limit exceeded".to_owned());
            }
            let items = read_array(text);
            let ghost all = views(items@);
            let mut values: Vec<Json> = Vec::new();
            let mut i: usize = 0;
            assert(json_views(values@) =~= Seq::empty());
            assert(all.take(0).len() == 0);
            while i < items.len()
                invariant
                    i <= items@.len(),
                    all == views(items@),
                    depth > 0,
                    outer_layer(text@) == Ok::<LayerView, Seq<char>>(LayerView::Array),
                    array_pieces(text@) == all,
                    read_items(all.take(i as int), (depth - 1) as nat) == Ok::<
                        Seq<JsonView>,
                        Seq<char>,
                    >(json_views(values@)),
                decreases items@.len() - i,
            {
                let ghost before = values@;
                assert(all.take(i + 1).drop_last() =~= all.take(i as int));
                assert(all.take(i + 1)[i as int] == items@[i as int]@);
                match read_value(items[i].as_str(), depth - 1) {
                    Ok(v) => {
                        values.push(v);
                        assert(json_views(values@) =~= json_views(before).push(v@));
                    },
                    Err(e) => {
                        proof {
                            lemma_items_error(all, i + 1, (depth - 1) as nat, e@);
                        }
                        return Err(e);
                    },
                }
                i = i + 1;
            }
            assert(all.take(all.len() as int) =~= all);
            proof {
                lemma_array_view(values);
            }
            Ok(Json::Array(values))
        },
        Ok(JsonLayer::Object) => {
            if depth == 0 {
                return Err("recursion limit exceeded".to_owned());
            }
            let members = read_object(text);
            let ghost all = pair_views(members@);
            let mut values: Vec<(String, Json)> = Vec::new();
            let mut i: usize = 0;
            assert(member_views(values@) =~= Seq::empty());
            assert(all.take(0).len() == 0);
            while i < members.len()
                invariant
                    i <= members@.len(),
                    all == pair_views(members@),
                    depth > 0,
                    outer_layer(text@) == Ok::<LayerView, Seq<char>>(LayerView::Object),
                    object_pieces(text@) == all,
                    read_members(all.take(i as int), (depth - 1) as nat) == Ok::<
                        Seq<(Seq<char>, JsonView)>,
                        Seq<char>,
                    >(member_views(values@)),
                decreases members@.len() - i,
            {
                let ghost before = values@;
                assert(all.take(i + 1).drop_last() =~= all.take(i as int));
                assert(all.take(i + 1)[i as int] == (members@[i as int].0@, members@[i as int].1@));
                match read_value(members[i].1.as_str(), depth - 1) {
                    Ok(v) => {
                        values.push((members[i].0.clone(), v));
                        assert(member_views(values@) =~= member_views(before).push(
                            (members@[i as int].0@, v@),
                        ));
                    },
                    Err(e) => {
                        proof {
                            lemma_members_error(all, i + 1, (depth - 1) as nat, e@);
                        }
                        return Err(e);
                    },
                }
                i = i + 1;
            }
            assert(all.take(all.len() as int) =~= all);
            proof {
                lemma_object_view(values);
            }
            Ok(Json::Object(values))
        },
    }
}

/// An error among the first items is the error of all of them.
proof fn lemma_items_error(items: Seq<Seq<char>>, n: int, depth: nat, e: Seq<char>)
    requires
        0 <= n <= items.len(),
        read_items(items.take(n), depth) == Err::<Seq<JsonView>, Seq<char>>(e),
    ensures
        read_items(items, depth) == Err::<Seq<JsonView>, Seq<char>>(e),
    decreases items.len() - n,
{
    if n < items.len() {
        assert(items.take(n + 1).drop_last() =~= items.take(n));
        lemma_items_error(items, n + 1, depth, e);
    } else {
        assert(items.take(n) =~= items);
    }
}

/// An error among the first members is the error of all of them.
proof fn lemma_members_error(
    members: Seq<(Seq<char>, Seq<char>)>,
    n: int,
    depth: nat,
    e: Seq<char>,
)
    requires
        0 <= n <= members.len(),
        read_members(members.take(n), depth) == Err::<Seq<(Seq<char>, JsonView)>, Seq<char>>(e),
    ensures
        read_members(members, depth) == Err::<Seq<(Seq<char>, JsonView)>, Seq<char>>(e),
    decreases members.len() - n,
{
    if n < members.len() {
        assert(members.take(n + 1).drop_last() =~= members.take(n));
        lemma_members_error(members, n + 1, depth, e);
    } else {
        assert(members.take(n) =~= members);
    }
}

/// The value that a JSON text denotes, or the text of the error.
pub fn parse_json(text: &str) -> (r: Result<Json, String>)
    ensures
        read_view(r) == read_json(text@),
{
    read_value(text, MAX_DEPTH)
}

// ---------------------------------------------------------------------------
// Laws of printing and reading
// ---------------------------------------------------------------------------

/// Each item of an array is printed, in order, and each member of an object, under its
/// name.
pub proof fn law_every_part_is_printed(
    items: Seq<JsonView>,
    members: Seq<(Seq<char>, JsonView)>,
)
    ensures
        compact_items(items) == items.map_values(|j: JsonView| compact(j)),
        compact_members(members) == members.map_values(
            |m: (Seq<char>, JsonView)| quoted(m.0) + ":"@ + compact(m.1),
        ),
        compact(JsonView::Array(items)) == "["@ + join(
            items.map_values(|j: JsonView| compact(j)),
            ","@,
        ) + "]"@,
        compact(JsonView::Object(members)) == "{"@ + join(
            members.map_values(|m: (Seq<char>, JsonView)| quoted(m.0) + ":"@ + compact(m.1)),
            ","@,
        ) + "}"@,
{
    lemma_items_printed(items);
    lemma_members_printed(members);
}

proof fn lemma_items_printed(items: Seq<JsonView>)
    ensures
        compact_items(items) == items.map_values(|j: JsonView| compact(j)),
    decreases items.len(),
{
    if items.len() > 0 {
        lemma_items_printed(items.drop_last());
        let f = |j: JsonView| compact(j);
        assert(items.map_values(f) =~= items.drop_last().map_values(f).push(compact(items.last())));
    } else {
        assert(compact_items(items) =~= items.map_values(|j: JsonView| compact(j)));
    }
}

proof fn lemma_members_printed(members: Seq<(Seq<char>, JsonView)>)
    ensures
        compact_members(members) == members.map_values(
            |m: (Seq<char>, JsonView)| quoted(m.0) + ":"@ + compact(m.1),
        ),
    decreases members.len(),
{
    let f = |m: (Seq<char>, JsonView)| quoted(m.0) + ":"@ + compact(m.1);
    if members.len() > 0 {
        lemma_members_printed(members.drop_last());
        assert(members.map_values(f) =~= members.drop_last().map_values(f).push(f(members.last())));
    } else {
        assert(compact_members(members) =~= members.map_values(f));
    }
}

/// What the parts of a JSON text are read as: a plain value as it is, an array as the
/// values of all its items, an object as those of all its members under their names.
pub proof fn law_read_json(text: Seq<char>)
    ensures
        outer_layer(text) matches Err(e) ==> read_json(text) == Err::<JsonView, Seq<char>>(e),
        outer_layer(text) matches Ok(LayerView::Null) ==> read_json(text) == Ok::<
            JsonView,
            Seq<char>,
        >(JsonView::Null),
        outer_layer(text) matches Ok(LayerView::Bool(b)) ==> read_json(text) == Ok::<
            JsonView,
            Seq<char>,
        >(JsonView::Bool(b)),
        outer_layer(text) matches Ok(LayerView::Text(t)) ==> read_json(text) == Ok::<
            JsonView,
            Seq<char>,
        >(JsonView::Text(t)),
        outer_layer(text) matches Ok(LayerView::Number(t)) ==> read_json(text) == Ok::<
            JsonView,
            Seq<char>,
        >(number_in(t)),
        outer_layer(text) matches Ok(LayerView::Array) ==> (read_json(text) matches Ok(v) ==> {
            &&& v matches JsonView::Array(items)
            &&& items.len() == array_pieces(text).len()
            &&& forall|k: int|
                0 <= k < items.len() ==> read_deep(array_pieces(text)[k], 127) == Ok::<
                    JsonView,
                    Seq<char>,
                >(#[trigger] items[k])
        }),
        outer_layer(text) matches Ok(LayerView::Object) ==> (read_json(text) matches Ok(v) ==> {
            &&& v matches JsonView::Object(members)
            &&& members.len() == object_pieces(text).len()
            &&& forall|k: int|
                0 <= k < members.len() ==> (#[trigger] members[k]).0 == object_pieces(text)[k].0
                    && read_deep(object_pieces(text)[k].1, 127) == Ok::<JsonView, Seq<char>>(
                    members[k].1,
                )
        }),
{
    law_read_parts(array_pieces(text), object_pieces(text), 127);
}

/// The items of an array are all read, each as its own value, and so are the members of
/// an object, unless one of them cannot be.
pub proof fn law_read_parts(
    items: Seq<Seq<char>>,
    members: Seq<(Seq<char>, Seq<char>)>,
    depth: nat,
)
    ensures
        read_items(items, depth) is Ok <==> forall|k: int|
            0 <= k < items.len() ==> read_deep(#[trigger] items[k], depth) is Ok,
        read_items(items, depth) matches Ok(v) ==> v.len() == items.len() && forall|k: int|
            0 <= k < v.len() ==> read_deep(items[k], depth) == Ok::<JsonView, Seq<char>>(
                #[trigger] v[k],
            ),
        read_members(members, depth) is Ok <==> forall|k: int|
            0 <= k < members.len() ==> read_deep((#[trigger] members[k]).1, depth) is Ok,
        read_members(members, depth) matches Ok(v) ==> v.len() == members.len() && forall|k: int|
            0 <= k < v.len() ==> (#[trigger] v[k]).0 == members[k].0 && read_deep(
                members[k].1,
                depth,
            ) == Ok::<JsonView, Seq<char>>(v[k].1),
{
    lemma_items_read(items, depth);
    lemma_members_read(members, depth);
}

proof fn lemma_items_read(items: Seq<Seq<char>>, depth: nat)
    ensures
        read_items(items, depth) is Ok <==> forall|k: int|
            0 <= k < items.len() ==> read_deep(#[trigger] items[k], depth) is Ok,
        read_items(items, depth) matches Ok(v) ==> v.len() == items.len() && forall|k: int|
            0 <= k < v.len() ==> read_deep(items[k], depth) == Ok::<JsonView, Seq<char>>(
                #[trigger] v[k],
            ),
    decreases items.len(),
{
    if items.len() > 0 {
        let rest = items.drop_last();
        lemma_items_read(rest, depth);
        assert forall|k: int| 0 <= k < rest.len() implies rest[k] == items[k] by {}
        if read_items(items, depth) is Ok {
            assert forall|k: int| 0 <= k < items.len() implies read_deep(
                #[trigger] items[k],
                depth,
            ) is Ok by {
                if k < rest.len() {
                    assert(read_deep(rest[k], depth) is Ok);
                }
            }
        }
        if forall|k: int| 0 <= k < items.len() ==> read_deep(#[trigger] items[k], depth) is Ok {
            assert forall|k: int| 0 <= k < rest.len() implies read_deep(
                #[trigger] rest[k],
                depth,
            ) is Ok by {
                assert(read_deep(items[k], depth) is Ok);
            }
            assert(read_deep(items[items.len() - 1], depth) is Ok);
        }
    }
}

proof fn lemma_members_read(members: Seq<(Seq<char>, Seq<char>)>, depth: nat)
    ensures
        read_members(members, depth) is Ok <==> forall|k: int|
            0 <= k < members.len() ==> read_deep((#[trigger] members[k]).1, depth) is Ok,
        read_members(members, depth) matches Ok(v) ==> v.len() == members.len() && forall|k: int|
            0 <= k < v.len() ==> (#[trigger] v[k]).0 == members[k].0 && read_deep(
                members[k].1,
                depth,
            ) == Ok::<JsonView, Seq<char>>(v[k].1),
    decreases members.len(),
{
    if members.len() > 0 {
        let rest = members.drop_last();
        lemma_members_read(rest, depth);
        assert forall|k: int| 0 <= k < rest.len() implies rest[k] == members[k] by {}
        if read_members(members, depth) is Ok {
            assert forall|k: int| 0 <= k < members.len() implies read_deep(
                (#[trigger] members[k]).1,
                depth,
            ) is Ok by {
                if k < rest.len() {
                    assert(read_deep(rest[k].1, depth) is Ok);
                }
            }
        }
        if forall|k: int|
            0 <= k < members.len() ==> read_deep((#[trigger] members[k]).1, depth) is Ok {
            assert forall|k: int| 0 <= k < rest.len() implies read_deep(
                (#[trigger] rest[k]).1,
                depth,
            ) is Ok by {
                assert(read_deep(members[k].1, depth) is Ok);
            }
            assert(read_deep(members[members.len() - 1].1, depth) is Ok);
        }
    }
}

/// A number that is written in decimal is read as the same number: one that is not
/// negative, and one that is.
pub proof fn law_number_is_read_back(n: nat)
    ensures
        n <= u64::MAX ==> number_in(decimal(n)) == JsonView::Unsigned(n as u64),
        0 < n <= 0x8000_0000_0000_0000 ==> number_in(seq!['-'] + decimal(n))
            == JsonView::Negative((-(n as int)) as i64),
        n > u64::MAX ==> number_in(decimal(n)) == JsonView::Float(decimal(n)),
{
    law_decimal_is_read_back(n, u64::MAX as nat);
    law_decimal_is_read_back(n, 0x8000_0000_0000_0000);
    let d = decimal(n);
    let s = seq!['-'] + d;
    assert(s.drop_first() =~= d);
    assert(parse_unsigned(s, u64::MAX as nat) is None) by {
        lemma_digits_of_sign(s);
    }
    lemma_decimal_digits(n);
}
/// Plain values are printed as their words, their digits or their characters in quotes.
pub proof fn law_plain_values_are_printed(b: bool, n: u64, m: i64, t: Seq<char>)
    ensures
        compact(JsonView::Null) == "null"@,
        compact(JsonView::Bool(b)) == (if b {
            "true"@
        } else {
            "false"@
        }),
        compact(JsonView::Unsigned(n)) == decimal(n as nat),
        m < 0 ==> compact(JsonView::Negative(m)) == seq!['-'] + decimal((-m) as nat),
        compact(JsonView::Text(t)) == quoted(t),
        compact(JsonView::Float(t)) == t,
{
}

/// A number with a fraction or an exponent keeps its text.
pub proof fn law_fraction_keeps_its_text(s: Seq<char>, i: int)
    requires
        0 < i < s.len(),
        !('0' <= s[i] <= '9'),
        s[0] == '-' ==> i > 1 || s[1] != '+',
    ensures
        number_in(s) == JsonView::Float(s),
{
    law_number_has_digits_only(s, i, u64::MAX as nat);
    if s[0] == '-' {
        let d = s.drop_first();
        assert(d[i - 1] == s[i]);
        law_number_has_digits_only(d, i - 1, 0x8000_0000_0000_0000);
    }
}
} // verus!

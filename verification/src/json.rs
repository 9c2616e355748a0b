//! JSON records, as the control-plane frames carry them.
//!
//! `serde_json` reads and writes the values. This module walks over the members of
//! a document and holds the rules by which a record is read out of them: a member
//! that the record does not have is passed over whatever its value is, and one that
//! it has may not be repeated.
use crate::text::{same_text, text_option};
use serde::de::IgnoredAny;
use serde_json::Value;
use vstd::prelude::*;
use vstd::string::StringExecFns;

verus! {

/// The value of one member of a record.
#[derive(Debug)]
pub enum JsonField {
    Text(String),
    Number(u64),
    Flag(bool),
    Null,
}

/// What a [`JsonField`] stands for.
pub enum JsonValue {
    Text(Seq<char>),
    Number(u64),
    Flag(bool),
    Null,
}

/// A document: its members, or its items, in order, each with the text of its value.
#[derive(Debug)]
pub enum JsonDoc {
    Object(Vec<(String, Vec<u8>)>),
    Array(Vec<Vec<u8>>),
}

/// What a [`JsonDoc`] stands for.
pub enum JsonDocValue {
    Object(Seq<(Seq<char>, Seq<u8>)>),
    Array(Seq<Seq<u8>>),
}

impl View for JsonField {
    type V = JsonValue;

    open spec fn view(&self) -> JsonValue {
        match self {
            JsonField::Text(s) => JsonValue::Text(s@),
            JsonField::Number(n) => JsonValue::Number(*n),
            JsonField::Flag(b) => JsonValue::Flag(*b),
            JsonField::Null => JsonValue::Null,
        }
    }
}

/// The members of a record, viewed.
pub open spec fn members_view(members: Seq<(String, JsonField)>) -> Seq<(Seq<char>, JsonValue)> {
    members.map_values(|m: (String, JsonField)| (m.0@, m.1@))
}

/// The members of a document, viewed.
pub open spec fn raw_members(members: Seq<(String, Vec<u8>)>) -> Seq<(Seq<char>, Seq<u8>)> {
    members.map_values(|m: (String, Vec<u8>)| (m.0@, m.1@))
}

/// The items of a document, viewed.
pub open spec fn raw_items(items: Seq<Vec<u8>>) -> Seq<Seq<u8>> {
    items.map_values(|v: Vec<u8>| v@)
}

impl View for JsonDoc {
    type V = JsonDocValue;

    open spec fn view(&self) -> JsonDocValue {
        match self {
            JsonDoc::Object(members) => JsonDocValue::Object(raw_members(members@)),
            JsonDoc::Array(items) => JsonDocValue::Array(raw_items(items@)),
        }
    }
}

/// No two members have the same key.
pub open spec fn distinct_keys(members: Seq<(Seq<char>, JsonValue)>) -> bool {
    forall|i: int, j: int|
        0 <= i < j < members.len() ==> #[trigger] members[i].0 != #[trigger] members[j].0
}

// ---------------------------------------------------------------------------
// Values
// ---------------------------------------------------------------------------

/// How many bytes of a text the JSON value takes that `serde_json` finds at its
/// front, white space before it included; nothing where there is none.
pub uninterp spec fn json_value_len(text: Seq<u8>) -> Option<nat>;

/// The string that `serde_json` reads from a text, or what it reports.
pub uninterp spec fn json_string(text: Seq<u8>) -> Result<Seq<char>, Seq<char>>;

/// The string or null that `serde_json` reads from a text, or what it reports.
pub uninterp spec fn json_optional_string(text: Seq<u8>) -> Result<Option<Seq<char>>, Seq<char>>;

/// The unsigned number that `serde_json` reads from a text, or what it reports.
pub uninterp spec fn json_number(text: Seq<u8>) -> Result<u64, Seq<char>>;

/// The truth value that `serde_json` reads from a text, or what it reports.
pub uninterp spec fn json_flag(text: Seq<u8>) -> Result<bool, Seq<char>>;

/// What `serde_json` reports of a text that is not one JSON value.
pub uninterp spec fn json_error(text: Seq<u8>) -> Option<Seq<char>>;

/// The text that `serde_json::to_vec` writes for an object with these members.
pub uninterp spec fn json_text(members: Seq<(Seq<char>, JsonValue)>) -> Seq<u8>;

/// A length, as a number.
pub open spec fn len_option(n: Option<usize>) -> Option<nat> {
    match n {
        Some(n) => Some(n as nat),
        None => None,
    }
}

/// Takes the first value of the stream that `serde_json::Deserializer::into_iter`
/// makes of a text, ignoring what it holds, and asks for the `byte_offset` behind it.
/// The offset is a function of the text alone; a value has at least one byte, and
/// ends within the text.
#[verifier::external_body]
fn value_len(text: &[u8]) -> (n: Option<usize>)
    ensures
        len_option(n) == json_value_len(text@),
        n matches Some(k) ==> 0 < k <= text@.len(),
{
    let mut values = serde_json::Deserializer::from_slice(text).into_iter::<IgnoredAny>();
    values.next().and_then(|v| v.ok()).map(|_| values.byte_offset())
}

/// Calls `serde_json::from_slice` for a `String`, and formats its error with `Display`.
/// What it reads or reports is a function of the text alone.
#[verifier::external_body]
fn read_string(text: &[u8]) -> (r: Result<String, String>)
    ensures
        match r {
            Ok(v) => json_string(text@) == Ok::<Seq<char>, Seq<char>>(v@),
            Err(e) => json_string(text@) == Err::<Seq<char>, Seq<char>>(e@),
        },
{
    serde_json::from_slice::<String>(text).map_err(|e| e.to_string())
}

/// Calls `serde_json::from_slice` for an `Option<String>`, and formats its error with `Display`.
/// What it reads or reports is a function of the text alone.
#[verifier::external_body]
fn read_optional_string(text: &[u8]) -> (r: Result<Option<String>, String>)
    ensures
        match r {
            Ok(v) => json_optional_string(text@) == Ok::<Option<Seq<char>>, Seq<char>>(text_option(v)),
            Err(e) => json_optional_string(text@) == Err::<Option<Seq<char>>, Seq<char>>(e@),
        },
{
    serde_json::from_slice::<Option<String>>(text).map_err(|e| e.to_string())
}

/// Calls `serde_json::from_slice` for a `u64`, and formats its error with `Display`.
/// What it reads or reports is a function of the text alone.
#[verifier::external_body]
fn read_number(text: &[u8]) -> (r: Result<u64, String>)
    ensures
        match r {
            Ok(v) => json_number(text@) == Ok::<u64, Seq<char>>(v),
            Err(e) => json_number(text@) == Err::<u64, Seq<char>>(e@),
        },
{
    serde_json::from_slice::<u64>(text).map_err(|e| e.to_string())
}

/// Calls `serde_json::from_slice` for a `bool`, and formats its error with `Display`.
/// What it reads or reports is a function of the text alone.
#[verifier::external_body]
fn read_flag(text: &[u8]) -> (r: Result<bool, String>)
    ensures
        match r {
            Ok(v) => json_flag(text@) == Ok::<bool, Seq<char>>(v),
            Err(e) => json_flag(text@) == Err::<bool, Seq<char>>(e@),
        },
{
    serde_json::from_slice::<bool>(text).map_err(|e| e.to_string())
}

/// Calls `serde_json::from_slice`, ignoring what the value holds, and formats its
/// error with `Display`. The text of the error is a function of the text alone.
#[verifier::external_body]
fn syntax_error(text: &[u8]) -> (e: Option<String>)
    ensures
        text_option(e) == json_error(text@),
{
    serde_json::from_slice::<IgnoredAny>(text).err().map(|e| e.to_string())
}

/// `raw` is the text of `value`: what is read from it is that value.
pub open spec fn is_text_of(raw: Seq<u8>, value: JsonValue) -> bool {
    match value {
        JsonValue::Text(s) => json_string(raw) == Ok::<Seq<char>, Seq<char>>(s)
            && json_optional_string(raw) == Ok::<Option<Seq<char>>, Seq<char>>(Some(s)),
        JsonValue::Number(n) => json_number(raw) == Ok::<u64, Seq<char>>(n),
        JsonValue::Flag(b) => json_flag(raw) == Ok::<bool, Seq<char>>(b),
        JsonValue::Null => json_optional_string(raw) == Ok::<Option<Seq<char>>, Seq<char>>(None),
    }
}

/// `text` is an object with these members in this order.
pub open spec fn is_object_of(text: Seq<u8>, members: Seq<(Seq<char>, JsonValue)>) -> bool {
    &&& document_in(text) matches Some(JsonDocValue::Object(raw))
    &&& raw.len() == members.len()
    &&& forall|i: int|
        0 <= i < members.len() ==> (#[trigger] raw[i]).0 == members[i].0 && is_text_of(
            raw[i].1,
            members[i].1,
        )
}

/// Calls `serde_json::to_vec` on an object with these members, in this order.
/// The text is a function of the members alone: an object with the same members in
/// the same order, each of whose values `serde_json` reads back. Writing such an
/// object cannot fail: its keys are strings and no member is a nested value.
#[verifier::external_body]
pub(crate) fn write_document(members: &Vec<(String, JsonField)>) -> (text: Vec<u8>)
    requires
        distinct_keys(members_view(members@)),
    ensures
        text@ == json_text(members_view(members@)),
        is_object_of(text@, members_view(members@)),
{
    let object: serde_json::Map<String, Value> = members.iter().map(|(k, f)| (k.clone(), match f {
        JsonField::Text(s) => Value::from(s.as_str()),
        JsonField::Number(n) => Value::from(*n),
        JsonField::Flag(b) => Value::from(*b),
        JsonField::Null => Value::Null,
    })).collect();
    serde_json::to_vec(&object).expect("an object of plain members")
}

// ---------------------------------------------------------------------------
// Documents
// ---------------------------------------------------------------------------

/// A byte that JSON takes for white space.
pub open spec fn is_json_space(b: u8) -> bool {
    b == 32 || b == 10 || b == 13 || b == 9
}

/// `s` without the white space at its front.
pub open spec fn skip_space(s: Seq<u8>) -> Seq<u8>
    decreases s.len(),
{
    if s.len() > 0 && is_json_space(s[0]) {
        skip_space(s.skip(1))
    } else {
        s
    }
}

/// What stands behind the byte `b`, where that comes next.
pub open spec fn behind(s: Seq<u8>, b: u8) -> Option<Seq<u8>> {
    let t = skip_space(s);
    if t.len() > 0 && t[0] == b {
        Some(t.skip(1))
    } else {
        None
    }
}

/// The text of the value that comes next, and what stands behind it.
pub open spec fn next_value(s: Seq<u8>) -> Option<(Seq<u8>, Seq<u8>)> {
    let t = skip_space(s);
    match json_value_len(t) {
        Some(n) => if 0 < n <= t.len() {
            Some((t.take(n as int), t.skip(n as int)))
        } else {
            None
        },
        None => None,
    }
}

/// The member that comes next, and what stands behind it: a string, a colon and a
/// value.
pub open spec fn next_member(s: Seq<u8>) -> Option<((Seq<char>, Seq<u8>), Seq<u8>)> {
    match next_value(s) {
        Some((key, rest)) => match (json_string(key), behind(rest, 58)) {
            (Ok(key), Some(rest)) => match next_value(rest) {
                Some((value, rest)) => Some(((key, value), rest)),
                None => None,
            },
            _ => None,
        },
        None => None,
    }
}

/// There is nothing but white space.
pub open spec fn is_blank(s: Seq<u8>) -> bool {
    skip_space(s).len() == 0
}

/// The members up to the brace that ends the object and, with it, the text.
pub open spec fn members_in(s: Seq<u8>) -> Option<Seq<(Seq<char>, Seq<u8>)>>
    decreases s.len(),
{
    match next_member(s) {
        None => None,
        Some((first, rest)) => match behind(rest, 125) {
            Some(end) => if is_blank(end) {
                Some(seq![first])
            } else {
                None
            },
            None => match behind(rest, 44) {
                Some(more) => {
                    proof {
                        lemma_member_is_shorter(s);
                        lemma_space_is_shorter(rest);
                    }
                    match members_in(more) {
                        Some(others) => Some(seq![first] + others),
                        None => None,
                    }
                },
                None => None,
            },
        },
    }
}

/// The items up to the bracket that ends the array and, with it, the text.
pub open spec fn items_in(s: Seq<u8>) -> Option<Seq<Seq<u8>>>
    decreases s.len(),
{
    match next_value(s) {
        None => None,
        Some((first, rest)) => match behind(rest, 93) {
            Some(end) => if is_blank(end) {
                Some(seq![first])
            } else {
                None
            },
            None => match behind(rest, 44) {
                Some(more) => {
                    proof {
                        lemma_space_is_shorter(s);
                        lemma_space_is_shorter(rest);
                    }
                    match items_in(more) {
                        Some(others) => Some(seq![first] + others),
                        None => None,
                    }
                },
                None => None,
            },
        },
    }
}

/// The object or array that a text is.
pub open spec fn document_in(text: Seq<u8>) -> Option<JsonDocValue> {
    match (behind(text, 123), behind(text, 91)) {
        (Some(s), _) => match behind(s, 125) {
            Some(end) => if is_blank(end) {
                Some(JsonDocValue::Object(Seq::empty()))
            } else {
                None
            },
            None => match members_in(s) {
                Some(members) => Some(JsonDocValue::Object(members)),
                None => None,
            },
        },
        (None, Some(s)) => match behind(s, 93) {
            Some(end) => if is_blank(end) {
                Some(JsonDocValue::Array(Seq::empty()))
            } else {
                None
            },
            None => match items_in(s) {
                Some(items) => Some(JsonDocValue::Array(items)),
                None => None,
            },
        },
        (None, None) => None,
    }
}

pub proof fn lemma_space_is_shorter(s: Seq<u8>)
    ensures
        skip_space(s).len() <= s.len(),
    decreases s.len(),
{
    if s.len() > 0 && is_json_space(s[0]) {
        lemma_space_is_shorter(s.skip(1));
    }
}

pub proof fn lemma_member_is_shorter(s: Seq<u8>)
    ensures
        next_member(s) matches Some((_, rest)) ==> rest.len() < s.len(),
{
    lemma_space_is_shorter(s);
    if let Some((_, rest)) = next_value(s) {
        lemma_space_is_shorter(rest);
        if let Some(rest) = behind(rest, 58) {
            lemma_space_is_shorter(rest);
        }
    }
}

/// A place in a text.
#[derive(Debug, Clone, Copy)]
struct Cursor<'a> {
    text: &'a [u8],
    at: usize,
}

impl<'a> Cursor<'a> {
    spec fn valid(self) -> bool {
        self.at <= self.text@.len()
    }

    /// What stands behind this place.
    spec fn rest(self) -> Seq<u8> {
        self.text@.skip(self.at as int)
    }

    /// Passes over white space.
    fn skip_space(self) -> (c: Cursor<'a>)
        requires
            self.valid(),
        ensures
            c.valid(),
            c.text == self.text,
            c.rest() == skip_space(self.rest()),
    {
        let mut at: usize = self.at;
        while at < self.text.len() && (self.text[at] == 32 || self.text[at] == 10 || self.text[at]
            == 13 || self.text[at] == 9)
            invariant
                self.at <= at <= self.text@.len(),
                skip_space(self.text@.skip(at as int)) == skip_space(self.rest()),
            decreases self.text.len() - at,
        {
            assert(self.text@.skip(at as int).skip(1) =~= self.text@.skip(at + 1));
            at = at + 1;
        }
        Cursor { text: self.text, at }
    }

    /// Passes over the byte `b`, where that comes next.
    fn behind(self, b: u8) -> (r: Option<Cursor<'a>>)
        requires
            self.valid(),
        ensures
            match r {
                Some(c) => c.valid() && c.text == self.text && behind(self.rest(), b) == Some(
                    c.rest(),
                ),
                None => behind(self.rest(), b) is None,
            },
    {
        let c = self.skip_space();
        if c.at < c.text.len() && c.text[c.at] == b {
            assert(c.rest().skip(1) =~= c.text@.skip(c.at + 1));
            Some(Cursor { text: c.text, at: c.at + 1 })
        } else {
            None
        }
    }

    /// Takes the text of the value that comes next.
    fn next_value(self) -> (r: Option<(Vec<u8>, Cursor<'a>)>)
        requires
            self.valid(),
        ensures
            match r {
                Some((v, c)) => c.valid() && c.text == self.text && next_value(self.rest())
                    == Some((v@, c.rest())) && c.at > self.at,
                None => next_value(self.rest()) is None,
            },
    {
        let c = self.skip_space();
        proof {
            lemma_space_is_shorter(self.rest());
        }
        let rest: &[u8] = vstd::slice::slice_subrange(c.text, c.at, c.text.len());
        assert(rest@ =~= c.rest());
        match value_len(rest) {
            Some(n) => {
                let v = vstd::slice::slice_to_vec(vstd::slice::slice_subrange(rest, 0, n));
                assert(v@ =~= c.rest().take(n as int));
                let next = Cursor { text: c.text, at: c.at + n };
                assert(next.rest() =~= c.rest().skip(n as int));
                Some((v, next))
            },
            None => None,
        }
    }

    /// Takes the member that comes next.
    fn next_member(self) -> (r: Option<((String, Vec<u8>), Cursor<'a>)>)
        requires
            self.valid(),
        ensures
            match r {
                Some((m, c)) => c.valid() && c.text == self.text && next_member(self.rest())
                    == Some(((m.0@, m.1@), c.rest())) && c.at > self.at,
                None => next_member(self.rest()) is None,
            },
    {
        match self.next_value() {
            Some((key, c)) => match (read_string(key.as_slice()), c.behind(58)) {
                (Ok(key), Some(d)) => match d.next_value() {
                    Some((value, e)) => {
                        proof {
                            lemma_member_is_shorter(self.rest());
                        }
                        Some(((key, value), e))
                    },
                    None => None,
                },
                _ => None,
            },
            None => None,
        }
    }

    /// Whether there is nothing but white space.
    fn is_blank(self) -> (r: bool)
        requires
            self.valid(),
        ensures
            r == is_blank(self.rest()),
    {
        let c = self.skip_space();
        c.at == c.text.len()
    }

    /// Takes the members of an object.
    fn members(self) -> (r: Option<Vec<(String, Vec<u8>)>>)
        requires
            self.valid(),
        ensures
            match r {
                Some(list) => members_in(self.rest()) == Some(raw_members(list@)),
                None => members_in(self.rest()) is None,
            },
    {
        let mut list: Vec<(String, Vec<u8>)> = Vec::new();
        let mut c = self;
        let ghost all = members_in(self.rest());
        assert(raw_members(list@) =~= Seq::empty());
        proof {
            if let Some(m) = all {
                assert(raw_members(list@) + m =~= m);
            }
        }
        loop
            invariant
                c.valid(),
                c.text == self.text,
                all == members_in(self.rest()),
                all == match members_in(c.rest()) {
                    Some(others) => Some(raw_members(list@) + others),
                    None => None,
                },
            decreases c.text@.len() - c.at,
        {
            let ghost before = list@;
            let (member, rest) = match c.next_member() {
                Some(found) => found,
                None => {
                    return None;
                },
            };
            let ghost first = (member.0@, member.1@);
            list.push(member);
            assert(raw_members(list@) =~= raw_members(before) + seq![first]);
            if let Some(end) = rest.behind(125) {
                return if end.is_blank() {
                    Some(list)
                } else {
                    None
                };
            }
            proof {
                lemma_space_is_shorter(rest.rest());
            }
            match rest.behind(44) {
                Some(more) => {
                    proof {
                        if let Some(others) = members_in(more.rest()) {
                            assert(raw_members(before) + (seq![first] + others) =~= raw_members(
                                list@,
                            ) + others);
                        }
                    }
                    c = more;
                },
                None => {
                    return None;
                },
            }
        }
    }

    /// Takes the items of an array.
    fn items(self) -> (r: Option<Vec<Vec<u8>>>)
        requires
            self.valid(),
        ensures
            match r {
                Some(list) => items_in(self.rest()) == Some(raw_items(list@)),
                None => items_in(self.rest()) is None,
            },
    {
        let mut list: Vec<Vec<u8>> = Vec::new();
        let mut c = self;
        let ghost all = items_in(self.rest());
        assert(raw_items(list@) =~= Seq::empty());
        proof {
            if let Some(m) = all {
                assert(raw_items(list@) + m =~= m);
            }
        }
        loop
            invariant
                c.valid(),
                c.text == self.text,
                all == items_in(self.rest()),
                all == match items_in(c.rest()) {
                    Some(others) => Some(raw_items(list@) + others),
                    None => None,
                },
            decreases c.text@.len() - c.at,
        {
            let ghost before = list@;
            let (value, rest) = match c.next_value() {
                Some(found) => found,
                None => {
                    return None;
                },
            };
            let ghost first = value@;
            list.push(value);
            assert(raw_items(list@) =~= raw_items(before) + seq![first]);
            if let Some(end) = rest.behind(93) {
                return if end.is_blank() {
                    Some(list)
                } else {
                    None
                };
            }
            proof {
                lemma_space_is_shorter(rest.rest());
            }
            match rest.behind(44) {
                Some(more) => {
                    proof {
                        if let Some(others) = items_in(more.rest()) {
                            assert(raw_items(before) + (seq![first] + others) =~= raw_items(list@)
                                + others);
                        }
                    }
                    c = more;
                },
                None => {
                    return None;
                },
            }
        }
    }
}

/// Reads the object or array that a text is.
pub fn read_document(text: &[u8]) -> (doc: Option<JsonDoc>)
    ensures
        match doc {
            Some(d) => document_in(text@) == Some(d@),
            None => document_in(text@) is None,
        },
{
    let start = Cursor { text, at: 0 };
    assert(start.rest() =~= text@);
    if let Some(c) = start.behind(123) {
        if let Some(end) = c.behind(125) {
            let members: Vec<(String, Vec<u8>)> = Vec::new();
            assert(raw_members(members@) =~= Seq::empty());
            return if end.is_blank() {
                Some(JsonDoc::Object(members))
            } else {
                None
            };
        }
        return match c.members() {
            Some(members) => Some(JsonDoc::Object(members)),
            None => None,
        };
    }
    match start.behind(91) {
        Some(c) => {
            if let Some(end) = c.behind(93) {
                let items: Vec<Vec<u8>> = Vec::new();
                assert(raw_items(items@) =~= Seq::empty());
                return if end.is_blank() {
                    Some(JsonDoc::Array(items))
                } else {
                    None
                };
            }
            match c.items() {
                Some(items) => Some(JsonDoc::Array(items)),
                None => None,
            }
        },
        None => None,
    }
}

/// What is wrong with a text that is not an object or array: what `serde_json`
/// reports of it, where it is no JSON value at all.
pub open spec fn document_error(text: Seq<u8>) -> Seq<char> {
    match json_error(text) {
        Some(e) => e,
        None => "not a record"@,
    }
}

/// Tells what is wrong with a text that is not an object or array.
pub fn explain(text: &[u8]) -> (e: String)
    ensures
        e@ == document_error(text@),
{
    match syntax_error(text) {
        Some(e) => e,
        None => "not a record".to_owned(),
    }
}

// ---------------------------------------------------------------------------
// Records
// ---------------------------------------------------------------------------

/// The values of the members with this key, in order.
pub open spec fn values_of(members: Seq<(Seq<char>, Seq<u8>)>, key: Seq<char>) -> Seq<Seq<u8>>
    decreases members.len(),
{
    if members.len() == 0 {
        Seq::empty()
    } else {
        let front = values_of(members.drop_last(), key);
        if members.last().0 == key {
            front.push(members.last().1)
        } else {
            front
        }
    }
}

/// The text of the record field `key`, the `position`-th of `arity` fields, if it is
/// there, or what is wrong. A record is an object, whose members are found by key and
/// where a field may not be repeated, or an array of exactly its fields.
pub open spec fn raw_field(
    doc: JsonDocValue,
    key: Seq<char>,
    position: int,
    arity: int,
) -> Result<Option<Seq<u8>>, Seq<char>> {
    match doc {
        JsonDocValue::Object(members) => {
            let values = values_of(members, key);
            if values.len() == 0 {
                Ok(None)
            } else if values.len() == 1 {
                Ok(Some(values[0]))
            } else {
                Err("duplicate field `"@ + key + "`"@)
            }
        },
        JsonDocValue::Array(items) => if items.len() == arity {
            Ok(Some(items[position]))
        } else {
            Err("invalid length"@)
        },
    }
}

/// What is said of a field that is not there.
pub open spec fn missing(key: Seq<char>) -> Seq<char> {
    "missing field `"@ + key + "`"@
}

/// A required text field, or what is wrong with it.
pub open spec fn text_field(
    doc: JsonDocValue,
    key: Seq<char>,
    position: int,
    arity: int,
) -> Result<Seq<char>, Seq<char>> {
    match raw_field(doc, key, position, arity) {
        Ok(Some(raw)) => json_string(raw),
        Ok(None) => Err(missing(key)),
        Err(e) => Err(e),
    }
}

/// A required unsigned field, or what is wrong with it.
pub open spec fn number_field(
    doc: JsonDocValue,
    key: Seq<char>,
    position: int,
    arity: int,
) -> Result<u64, Seq<char>> {
    match raw_field(doc, key, position, arity) {
        Ok(Some(raw)) => json_number(raw),
        Ok(None) => Err(missing(key)),
        Err(e) => Err(e),
    }
}

/// A required flag, or what is wrong with it.
pub open spec fn flag_field(
    doc: JsonDocValue,
    key: Seq<char>,
    position: int,
    arity: int,
) -> Result<bool, Seq<char>> {
    match raw_field(doc, key, position, arity) {
        Ok(Some(raw)) => json_flag(raw),
        Ok(None) => Err(missing(key)),
        Err(e) => Err(e),
    }
}

/// An optional text field, or what is wrong with it: null, and in an object also a
/// missing member, stand for no text.
pub open spec fn optional_text_field(
    doc: JsonDocValue,
    key: Seq<char>,
    position: int,
    arity: int,
) -> Result<Option<Seq<char>>, Seq<char>> {
    match raw_field(doc, key, position, arity) {
        Ok(Some(raw)) => json_optional_string(raw),
        Ok(None) => Ok(None),
        Err(e) => Err(e),
    }
}

/// Writes what is wrong with the field `key`.
fn about(what: &str, key: &str) -> (text: String)
    ensures
        text@ == what@ + key@ + "`"@,
{
    what.to_owned().concat(key).concat("`")
}

impl JsonDoc {
    /// Finds the text of a record field by key or by position.
    fn raw_field(&self, key: &str, position: usize, arity: usize) -> (r: Result<
        Option<&Vec<u8>>,
        String,
    >)
        requires
            position < arity,
        ensures
            match r {
                Ok(Some(raw)) => raw_field(self@, key@, position as int, arity as int) == Ok::<
                    Option<Seq<u8>>,
                    Seq<char>,
                >(Some(raw@)),
                Ok(None) => raw_field(self@, key@, position as int, arity as int) == Ok::<
                    Option<Seq<u8>>,
                    Seq<char>,
                >(None),
                Err(e) => raw_field(self@, key@, position as int, arity as int) == Err::<
                    Option<Seq<u8>>,
                    Seq<char>,
                >(e@),
            },
    {
        match self {
            JsonDoc::Object(members) => {
                let ghost all = raw_members(members@);
                let mut found: Option<&Vec<u8>> = None;
                let mut repeated = false;
                let mut i: usize = 0;
                assert(all.take(0) =~= Seq::empty());
                while i < members.len()
                    invariant
                        all == raw_members(members@),
                        i <= members@.len(),
                        ({
                            let values = values_of(all.take(i as int), key@);
                            &&& repeated == (values.len() > 1)
                            &&& found is Some <==> values.len() > 0
                            &&& found matches Some(raw) ==> values[0] == raw@
                        }),
                    decreases members.len() - i,
                {
                    assert(all.take(i + 1).drop_last() =~= all.take(i as int));
                    assert(all.take(i + 1).last() == (members@[i as int].0@, members@[i as int].1@));
                    if same_text(members[i].0.as_str(), key) {
                        if found.is_some() {
                            repeated = true;
                        } else {
                            found = Some(&members[i].1);
                        }
                    }
                    i = i + 1;
                }
                assert(all.take(all.len() as int) =~= all);
                if repeated {
                    Err(about("duplicate field `", key))
                } else {
                    Ok(found)
                }
            },
            JsonDoc::Array(items) => {
                if items.len() == arity {
                    Ok(Some(&items[position]))
                } else {
                    Err("invalid length".to_owned())
                }
            },
        }
    }

    /// Reads a required text field.
    pub fn text_field(&self, key: &str, position: usize, arity: usize) -> (r: Result<
        String,
        String,
    >)
        requires
            position < arity,
        ensures
            match r {
                Ok(s) => text_field(self@, key@, position as int, arity as int) == Ok::<
                    Seq<char>,
                    Seq<char>,
                >(s@),
                Err(e) => text_field(self@, key@, position as int, arity as int) == Err::<
                    Seq<char>,
                    Seq<char>,
                >(e@),
            },
    {
        match self.raw_field(key, position, arity) {
            Ok(Some(raw)) => read_string(raw.as_slice()),
            Ok(None) => Err(about("missing field `", key)),
            Err(e) => Err(e),
        }
    }

    /// Reads a required unsigned field.
    pub fn number_field(&self, key: &str, position: usize, arity: usize) -> (r: Result<u64, String>)
        requires
            position < arity,
        ensures
            match r {
                Ok(n) => number_field(self@, key@, position as int, arity as int) == Ok::<
                    u64,
                    Seq<char>,
                >(n),
                Err(e) => number_field(self@, key@, position as int, arity as int) == Err::<
                    u64,
                    Seq<char>,
                >(e@),
            },
    {
        match self.raw_field(key, position, arity) {
            Ok(Some(raw)) => read_number(raw.as_slice()),
            Ok(None) => Err(about("missing field `", key)),
            Err(e) => Err(e),
        }
    }

    /// Reads a required flag.
    pub fn flag_field(&self, key: &str, position: usize, arity: usize) -> (r: Result<bool, String>)
        requires
            position < arity,
        ensures
            match r {
                Ok(b) => flag_field(self@, key@, position as int, arity as int) == Ok::<
                    bool,
                    Seq<char>,
                >(b),
                Err(e) => flag_field(self@, key@, position as int, arity as int) == Err::<
                    bool,
                    Seq<char>,
                >(e@),
            },
    {
        match self.raw_field(key, position, arity) {
            Ok(Some(raw)) => read_flag(raw.as_slice()),
            Ok(None) => Err(about("missing field `", key)),
            Err(e) => Err(e),
        }
    }

    /// Reads an optional text field.
    pub fn optional_text_field(&self, key: &str, position: usize, arity: usize) -> (r: Result<
        Option<String>,
        String,
    >)
        requires
            position < arity,
        ensures
            match r {
                Ok(s) => optional_text_field(self@, key@, position as int, arity as int) == Ok::<
                    Option<Seq<char>>,
                    Seq<char>,
                >(text_option(s)),
                Err(e) => optional_text_field(self@, key@, position as int, arity as int) == Err::<
                    Option<Seq<char>>,
                    Seq<char>,
                >(e@),
            },
    {
        match self.raw_field(key, position, arity) {
            Ok(Some(raw)) => read_optional_string(raw.as_slice()),
            Ok(None) => Ok(None),
            Err(e) => Err(e),
        }
    }
}

/// The values of a key are those of its members and no others, in their order: each
/// member adds its value to those of its own key.
pub proof fn law_values_are_those_of_the_key(
    members: Seq<(Seq<char>, Seq<u8>)>,
    more: Seq<(Seq<char>, Seq<u8>)>,
    key: Seq<char>,
    other: Seq<char>,
    value: Seq<u8>,
)
    ensures
        values_of(seq![(key, value)], key) == seq![value],
        other != key ==> values_of(seq![(other, value)], key).len() == 0,
        values_of(members + more, key) == values_of(members, key) + values_of(more, key),
        values_of(members, key).len() == 0 <==> forall|i: int|
            0 <= i < members.len() ==> #[trigger] members[i].0 != key,
    decreases members.len() + more.len(),
{
    reveal_with_fuel(values_of, 2);
    assert(seq![(key, value)].drop_last() =~= Seq::empty());
    assert(seq![(other, value)].drop_last() =~= Seq::empty());
    if more.len() > 0 {
        law_values_are_those_of_the_key(members, more.drop_last(), key, other, value);
        assert((members + more).drop_last() =~= members + more.drop_last());
        assert((members + more).last() == more.last());
        assert(values_of(members + more, key) =~= values_of(members, key) + values_of(more, key));
    } else {
        assert(members + more =~= members);
        assert(values_of(members + more, key) =~= values_of(members, key) + values_of(more, key));
        if members.len() > 0 {
            law_values_are_those_of_the_key(members.drop_last(), more, key, other, value);
            assert forall|i: int| 0 <= i < members.len() - 1 implies #[trigger] members[i].0
                == members.drop_last()[i].0 by {}
            if values_of(members, key).len() == 0 {
                assert forall|i: int| 0 <= i < members.len() implies #[trigger] members[i].0
                    != key by {
                    if i < members.len() - 1 {
                        assert(members.drop_last()[i].0 != key);
                    }
                }
            }
        }
    }
}

proof fn lemma_skip_space_is_absorbed(space: Seq<u8>, s: Seq<u8>)
    requires
        forall|i: int| 0 <= i < space.len() ==> is_json_space(#[trigger] space[i]),
    ensures
        skip_space(space + s) == skip_space(s),
    decreases space.len(),
{
    if space.len() > 0 {
        assert((space + s).skip(1) =~= space.skip(1) + s);
        assert((space + s)[0] == space[0]);
        assert forall|i: int| 0 <= i < space.skip(1).len() implies is_json_space(
            #[trigger] space.skip(1)[i],
        ) by {
            assert(space.skip(1)[i] == space[i + 1]);
        }
        lemma_skip_space_is_absorbed(space.skip(1), s);
    } else {
        assert(space + s =~= s);
    }
}

/// Blanks, tabs and line ends before a value or a punctuation mark do not matter, and
/// nothing else is passed over.
pub proof fn law_white_space_does_not_matter(space: Seq<u8>, s: Seq<u8>, b: u8)
    requires
        forall|i: int|
            0 <= i < space.len() ==> #[trigger] space[i] == 32 || space[i] == 9 || space[i] == 10
                || space[i] == 13,
    ensures
        document_in(space + s) == document_in(s),
        members_in(space + s) == members_in(s),
        items_in(space + s) == items_in(s),
        b != 32 && b != 9 && b != 10 && b != 13 ==> behind(space + seq![b] + s, b) == Some(s),
        s.len() > 0 && s[0] != 32 && s[0] != 9 && s[0] != 10 && s[0] != 13 && s[0] != b
            ==> behind(space + s, b) is None,
{
    lemma_skip_space_is_absorbed(space, s);
    lemma_skip_space_is_absorbed(space, seq![b] + s);
    assert(space + seq![b] + s =~= space + (seq![b] + s));
    assert((seq![b] + s).skip(1) =~= s);
}

/// An object is its members, one after the other with commas between them, in braces;
/// an array its items in brackets. `a` and `b` are the texts of two values, and `key`
/// that of a string.
pub proof fn law_documents_are_their_parts(
    key: Seq<u8>,
    name: Seq<char>,
    a: Seq<u8>,
    rest: Seq<u8>,
)
    requires
        key.len() > 0 && !is_json_space(key[0]) && a.len() > 0 && !is_json_space(a[0]),
        key[0] != 125 && a[0] != 93,
        json_string(key) == Ok::<Seq<char>, Seq<char>>(name),
        forall|more: Seq<u8>|
            #![trigger json_value_len(key + more)]
            more.len() > 0 && more[0] == 58 ==> json_value_len(key + more) == Some(key.len()),
        forall|more: Seq<u8>|
            #![trigger json_value_len(a + more)]
            more.len() > 0 && (more[0] == 44 || more[0] == 125 || more[0] == 93)
                ==> json_value_len(a + more) == Some(a.len()),
    ensures
        members_in(key + seq![58u8] + a + seq![125u8]) == Some(seq![(name, a)]),
        members_in(key + seq![58u8] + a + seq![44u8] + rest) == match members_in(rest) {
            Some(others) => Some(seq![(name, a)] + others),
            None => None,
        },
        items_in(a + seq![93u8]) == Some(seq![a]),
        items_in(a + seq![44u8] + rest) == match items_in(rest) {
            Some(others) => Some(seq![a] + others),
            None => None,
        },
        document_in(seq![123u8] + (key + seq![58u8] + a + seq![125u8])) == Some(
            JsonDocValue::Object(seq![(name, a)]),
        ),
        document_in(seq![91u8] + (a + seq![93u8])) == Some(JsonDocValue::Array(seq![a])),
        document_in(seq![123u8, 125u8]) == Some(
            JsonDocValue::Object(Seq::<(Seq<char>, Seq<u8>)>::empty()),
        ),
        document_in(seq![91u8, 93u8]) == Some(JsonDocValue::Array(Seq::<Seq<u8>>::empty())),
{
    let none = Seq::<u8>::empty();
    lemma_one_member(key, name, a, seq![125u8]);
    lemma_one_member(key, name, a, seq![44u8] + rest);
    lemma_one_value(a, seq![93u8]);
    lemma_one_value(a, seq![44u8] + rest);
    assert(seq![125u8].skip(1) =~= none);
    assert(seq![93u8].skip(1) =~= none);
    assert((seq![44u8] + rest).skip(1) =~= rest);
    let one = key + seq![58u8] + a + seq![125u8];
    let two = key + seq![58u8] + a + seq![44u8] + rest;
    assert(two =~= key + seq![58u8] + a + (seq![44u8] + rest));
    assert(a + seq![44u8] + rest =~= a + (seq![44u8] + rest));
    assert((seq![123u8] + one).skip(1) =~= one);
    assert(one[0] == key[0]);
    let item = a + seq![93u8];
    assert((seq![91u8] + item).skip(1) =~= item);
    assert(item[0] == a[0]);
    assert(seq![123u8, 125u8].skip(1) =~= seq![125u8]);
    assert(seq![91u8, 93u8].skip(1) =~= seq![93u8]);
}

proof fn lemma_one_value(a: Seq<u8>, more: Seq<u8>)
    requires
        a.len() > 0 && !is_json_space(a[0]),
        json_value_len(a + more) == Some(a.len()),
    ensures
        next_value(a + more) == Some((a, more)),
{
    assert((a + more)[0] == a[0]);
    assert((a + more).take(a.len() as int) =~= a);
    assert((a + more).skip(a.len() as int) =~= more);
}

proof fn lemma_one_member(key: Seq<u8>, name: Seq<char>, a: Seq<u8>, more: Seq<u8>)
    requires
        key.len() > 0 && !is_json_space(key[0]) && a.len() > 0 && !is_json_space(a[0]),
        json_string(key) == Ok::<Seq<char>, Seq<char>>(name),
        json_value_len(key + (seq![58u8] + (a + more))) == Some(key.len()),
        json_value_len(a + more) == Some(a.len()),
    ensures
        next_member(key + seq![58u8] + a + more) == Some(((name, a), more)),
{
    let tail = a + more;
    assert(key + seq![58u8] + a + more =~= key + (seq![58u8] + tail));
    lemma_one_value(key, seq![58u8] + tail);
    assert((seq![58u8] + tail).skip(1) =~= tail);
    lemma_one_value(a, more);
}

/// A document is an object, which starts with a brace and is made of members, or an
/// array, which starts with a bracket and is made of items; nothing else is one.
pub proof fn law_documents_are_objects_and_arrays(body: Seq<u8>, b: u8)
    requires
        body.len() > 0 && !is_json_space(body[0]),
        !is_json_space(b),
    ensures
        body[0] != 125 ==> document_in(seq![123u8] + body) == match members_in(body) {
            Some(members) => Some(JsonDocValue::Object(members)),
            None => None,
        },
        body[0] != 93 ==> document_in(seq![91u8] + body) == match items_in(body) {
            Some(items) => Some(JsonDocValue::Array(items)),
            None => None,
        },
        b != 123 && b != 91 ==> document_in(seq![b] + body) is None,
        document_in(Seq::<u8>::empty()) is None,
        is_json_space(b) <==> b == 32 || b == 9 || b == 10 || b == 13,
{
    assert((seq![123u8] + body).skip(1) =~= body);
    assert((seq![91u8] + body).skip(1) =~= body);
    assert((seq![b] + body)[0] == b);
}

/// Nothing but white space follows a document.
pub proof fn law_nothing_follows_a_document(
    key: Seq<u8>,
    name: Seq<char>,
    a: Seq<u8>,
    space: Seq<u8>,
    tail: Seq<u8>,
)
    requires
        key.len() > 0 && !is_json_space(key[0]) && a.len() > 0 && !is_json_space(a[0]),
        json_string(key) == Ok::<Seq<char>, Seq<char>>(name),
        forall|more: Seq<u8>|
            #![trigger json_value_len(key + more)]
            more.len() > 0 && more[0] == 58 ==> json_value_len(key + more) == Some(key.len()),
        forall|more: Seq<u8>|
            #![trigger json_value_len(a + more)]
            more.len() > 0 && (more[0] == 44 || more[0] == 125 || more[0] == 93)
                ==> json_value_len(a + more) == Some(a.len()),
        forall|i: int| 0 <= i < space.len() ==> is_json_space(#[trigger] space[i]),
        tail.len() > 0 && !is_json_space(tail[0]),
    ensures
        members_in(key + seq![58u8] + a + seq![125u8] + space) == Some(seq![(name, a)]),
        members_in(key + seq![58u8] + a + seq![125u8] + tail) is None,
        items_in(a + seq![93u8] + space) == Some(seq![a]),
        items_in(a + seq![93u8] + tail) is None,
{
    let none = Seq::<u8>::empty();
    lemma_skip_space_is_absorbed(space, none);
    assert(space + none =~= space);
    assert((seq![125u8] + space).skip(1) =~= space);
    assert((seq![125u8] + tail).skip(1) =~= tail);
    assert((seq![93u8] + space).skip(1) =~= space);
    assert((seq![93u8] + tail).skip(1) =~= tail);
    lemma_one_member(key, name, a, seq![125u8] + space);
    lemma_one_member(key, name, a, seq![125u8] + tail);
    lemma_one_value(a, seq![93u8] + space);
    lemma_one_value(a, seq![93u8] + tail);
    assert(key + seq![58u8] + a + seq![125u8] + space =~= key + seq![58u8] + a + (seq![125u8]
        + space));
    assert(key + seq![58u8] + a + seq![125u8] + tail =~= key + seq![58u8] + a + (seq![125u8]
        + tail));
    assert(a + seq![93u8] + space =~= a + (seq![93u8] + space));
    assert(a + seq![93u8] + tail =~= a + (seq![93u8] + tail));
}

/// A field is read by its key in an object and by its position in an array; one that
/// is missing, or there twice, is told by its name.
pub proof fn law_fields_are_found_or_named(
    members: Seq<(Seq<char>, Seq<u8>)>,
    items: Seq<Seq<u8>>,
    key: Seq<char>,
    position: int,
    arity: int,
)
    ensures
        ({
            let object = JsonDocValue::Object(members);
            let array = JsonDocValue::Array(items);
            let values = values_of(members, key);
            &&& values.len() == 1 ==> text_field(object, key, position, arity) == json_string(
                values[0],
            )
            &&& values.len() != 1 ==> (text_field(object, key, position, arity) matches Err(e)
                && crate::text::contains_seq(e, key))
            &&& values.len() == 1 ==> number_field(object, key, position, arity) == json_number(
                values[0],
            )
            &&& values.len() != 1 ==> (number_field(object, key, position, arity) matches Err(e)
                && crate::text::contains_seq(e, key))
            &&& values.len() == 1 ==> flag_field(object, key, position, arity) == json_flag(
                values[0],
            )
            &&& values.len() != 1 ==> (flag_field(object, key, position, arity) matches Err(e)
                && crate::text::contains_seq(e, key))
            &&& values.len() == 0 ==> optional_text_field(object, key, position, arity) == Ok::<
                Option<Seq<char>>,
                Seq<char>,
            >(None)
            &&& values.len() == 1 ==> optional_text_field(object, key, position, arity)
                == json_optional_string(values[0])
            &&& items.len() == arity ==> text_field(array, key, position, arity) == json_string(
                items[position],
            )
            &&& items.len() != arity ==> text_field(array, key, position, arity) is Err
        }),
{
    crate::text::lemma_middle_is_contained("missing field `"@, key, "`"@);
    crate::text::lemma_middle_is_contained("duplicate field `"@, key, "`"@);
}

/// A text that is no JSON value is explained with what `serde_json` reports of it, and
/// any other one is no record.
pub proof fn law_bad_documents_are_explained(text: Seq<u8>)
    ensures
        json_error(text) matches Some(e) ==> document_error(text) == e,
        json_error(text) is None ==> document_error(text) == "not a record"@,
{
}

} // verus!

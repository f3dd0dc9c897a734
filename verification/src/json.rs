//! The JSON that live sessions exchange, read and written with `serde_json`.
//!
//! The library reads of a JSON text only its top-level members: a string
//! member as its string, a boolean member as its boolean, and any other member
//! as its compact JSON text.

use vstd::prelude::*;
use vstd::string::StringExecFns;

verus! {

/// The JSON escape of one character, as `serde_json` writes it inside a string:
/// quote and backslash escaped, the usual short escapes for backspace, tab, line
/// feed, form feed and carriage return, `\u00XX` with lower-case hex digits for the
/// other control characters, and every other character as it is.
pub open spec fn json_escape(c: char) -> Seq<char> {
    let u = c as u32;
    if c == '"' {
        seq!['\\', '"']
    } else if c == '\\' {
        seq!['\\', '\\']
    } else if u == 0x08 {
        seq!['\\', 'b']
    } else if u == 0x09 {
        seq!['\\', 't']
    } else if u == 0x0a {
        seq!['\\', 'n']
    } else if u == 0x0c {
        seq!['\\', 'f']
    } else if u == 0x0d {
        seq!['\\', 'r']
    } else if u < 0x20 {
        seq!['\\', 'u', '0', '0', hex_digit(u / 16), hex_digit(u % 16)]
    } else {
        seq![c]
    }
}

/// A lower-case hexadecimal digit.
pub open spec fn hex_digit(d: u32) -> char {
    if d < 10 {
        (('0' as u32) + d) as char
    } else {
        (('a' as u32) + d - 10) as char
    }
}

/// The escapes of all characters of `s`, in order.
pub open spec fn json_escape_all(s: Seq<char>) -> Seq<char>
    decreases s.len(),
{
    if s.len() == 0 {
        Seq::empty()
    } else {
        json_escape_all(s.drop_last()) + json_escape(s.last())
    }
}

/// The JSON string literal of `s`.
pub open spec fn json_quoted(s: Seq<char>) -> Seq<char> {
    seq!['"'] + json_escape_all(s) + seq!['"']
}

/// Calls `serde_json::to_string` on a string: its JSON string literal. Writing a
/// string into a byte buffer cannot fail, so the empty text of the error case is
/// never returned.
#[verifier::external_body]
pub(crate) fn json_string(s: &str) -> (r: String)
    ensures
        r@ == json_quoted(s@),
{
    serde_json::to_string(s).unwrap_or_default()
}

/// The compact JSON text of what `serde_json` reads in a text, or `null` where the
/// text is not JSON.
pub uninterp spec fn json_value_text(text: Seq<char>) -> Seq<char>;

/// Calls `serde_json::from_str` into a `serde_json::Value`, takes `Value::Null`
/// where the text is not JSON (`unwrap_or_default`), and writes the value back in
/// compact form (`Value`'s `Display`). Stated: the result is a function of the
/// text, and `null` where the text is not JSON. How `serde_json` reads and writes
/// a value is left to it and not stated.
#[verifier::external_body]
pub(crate) fn value_text(text: &str) -> (r: String)
    ensures
        r@ == json_value_text(text@),
        json_parse(text@) is None ==> r@ == "null"@,
{
    serde_json::from_str::<serde_json::Value>(text).unwrap_or_default().to_string()
}

/// A top-level member's value.
#[derive(Debug)]
pub enum JsonMember {
    Str(String),
    Bool(bool),
    /// Any other value, as its compact JSON text.
    Other(String),
}

pub enum JsonMemberView {
    Str(Seq<char>),
    Bool(bool),
    Other(Seq<char>),
}

impl View for JsonMember {
    type V = JsonMemberView;

    open spec fn view(&self) -> JsonMemberView {
        match self {
            JsonMember::Str(s) => JsonMemberView::Str(s@),
            JsonMember::Bool(b) => JsonMemberView::Bool(*b),
            JsonMember::Other(t) => JsonMemberView::Other(t@),
        }
    }
}

/// A JSON document: an object, as its members, or any other value.
#[derive(Debug)]
pub enum JsonDoc {
    Object(Vec<(String, JsonMember)>),
    Other,
}

pub enum JsonDocView {
    Object(Seq<(Seq<char>, JsonMemberView)>),
    Other,
}

impl View for JsonDoc {
    type V = JsonDocView;

    open spec fn view(&self) -> JsonDocView {
        match self {
            JsonDoc::Object(ms) => JsonDocView::Object(ms@.map_values(|m: (String, JsonMember)| (m.0@, m.1@))),
            JsonDoc::Other => JsonDocView::Other,
        }
    }
}

/// The value of an optional document.
pub open spec fn doc_view(d: Option<JsonDoc>) -> Option<JsonDocView> {
    match d {
        Some(doc) => Some(doc@),
        None => None,
    }
}

/// What `serde_json` reads in a text: none where the text is not JSON.
pub uninterp spec fn json_parse(text: Seq<char>) -> Option<JsonDocView>;

/// Calls `serde_json::from_str` into a `serde_json::Value` and keeps, of an
/// object, each member as a string, a boolean, or its compact text (`Value`'s
/// `Display`). Stated: the result is a function of the text; none where it is
/// not JSON. What `serde_json` accepts, and the order of an object's members, are
/// left to `serde_json` and not stated.
#[verifier::external_body]
pub(crate) fn parse_json(text: &str) -> (r: Option<JsonDoc>)
    ensures
        doc_view(r) == json_parse(text@),
{
    match serde_json::from_str::<serde_json::Value>(text) {
        Ok(serde_json::Value::Object(map)) => Some(JsonDoc::Object(map.into_iter().map(|(k, v)| (k, match v {
            serde_json::Value::String(s) => JsonMember::Str(s),
            serde_json::Value::Bool(b) => JsonMember::Bool(b),
            other => JsonMember::Other(other.to_string()),
        })).collect())),
        Ok(_) => Some(JsonDoc::Other),
        Err(_) => None,
    }
}

/// The value of the first member named `key` of a document, as
/// `serde_json::Value::get` finds it; none where the document is no object.
pub open spec fn member(doc: Option<JsonDocView>, key: Seq<char>) -> Option<JsonMemberView> {
    match doc {
        Some(JsonDocView::Object(ms)) => member_of(ms, key),
        _ => None,
    }
}

/// The value of the first member named `key`.
pub open spec fn member_of(ms: Seq<(Seq<char>, JsonMemberView)>, key: Seq<char>) -> Option<JsonMemberView>
    decreases ms.len(),
{
    if ms.len() == 0 {
        None
    } else if ms[0].0 == key {
        Some(ms[0].1)
    } else {
        member_of(ms.drop_first(), key)
    }
}

/// The string that member `key` holds, if it holds a string.
pub open spec fn str_member(doc: Option<JsonDocView>, key: Seq<char>) -> Option<Seq<char>> {
    match member(doc, key) {
        Some(JsonMemberView::Str(s)) => Some(s),
        _ => None,
    }
}

/// The compact JSON text of a member's value.
pub open spec fn member_text(m: JsonMemberView) -> Seq<char> {
    match m {
        JsonMemberView::Str(s) => json_quoted(s),
        JsonMemberView::Bool(b) => if b { "true"@ } else { "false"@ },
        JsonMemberView::Other(t) => t,
    }
}

impl JsonDoc {
    /// The first member named `key`, as `serde_json::Value::get` finds it.
    pub fn get(&self, key: &str) -> (r: Option<&JsonMember>)
        ensures
            match r {
                Some(m) => member(Some(self@), key@) == Some(m@),
                None => member(Some(self@), key@) is None,
            },
    {
        match self {
            JsonDoc::Object(ms) => {
                let wanted = String::from_str(key);
                let ghost view = ms@.map_values(|m: (String, JsonMember)| (m.0@, m.1@));
                let mut i: usize = 0;
                assert(view.subrange(0, view.len() as int) =~= view);
                assert(self@ == JsonDocView::Object(view));
                while i < ms.len()
                    invariant
                        i <= ms.len(),
                        wanted@ == key@,
                        self@ == JsonDocView::Object(view),
                        view == ms@.map_values(|m: (String, JsonMember)| (m.0@, m.1@)),
                        member_of(view, key@) == member_of(view.subrange(i as int, view.len() as int), key@),
                    decreases ms.len() - i,
                {
                    let ghost rest = view.subrange(i as int, view.len() as int);
                    assert(rest.drop_first() =~= view.subrange(i + 1, view.len() as int));
                    assert(rest[0] == (ms@[i as int].0@, ms@[i as int].1@));
                    assert(rest.len() > 0);
                    if ms[i].0 == wanted {
                        assert(member_of(rest, key@) == Some(rest[0].1));
                        assert(self@ == JsonDocView::Object(view));
                        assert(member(Some(self@), key@) == member_of(view, key@));
                        return Some(&ms[i].1);
                    }
                    i = i + 1;
                }
                assert(view.subrange(i as int, view.len() as int).len() == 0);
                None
            },
            JsonDoc::Other => None,
        }
    }
}

/// The string member `key` of a document, if it holds a string.
pub fn get_str(doc: &JsonDoc, key: &str) -> (r: Option<String>)
    ensures
        crate::live_event::opt_str_view(r) == str_member(Some(doc@), key@),
{
    match doc.get(key) {
        Some(JsonMember::Str(s)) => Some(s.clone()),
        _ => None,
    }
}

/// The compact JSON text of a member's value, as `serde_json::to_string` writes it.
pub fn member_to_string(m: &JsonMember) -> (r: String)
    ensures
        r@ == member_text(m@),
{
    match m {
        JsonMember::Str(s) => json_string(s.as_str()),
        JsonMember::Bool(b) => if *b {
            String::from_str("true")
        } else {
            String::from_str("false")
        },
        JsonMember::Other(t) => t.clone(),
    }
}

} // verus!

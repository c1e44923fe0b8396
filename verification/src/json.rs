//! JSON texts: what the speech services send, and the answer that names a saved file.


use crate::text::{hex_digit, the_digits};
use serde_json::Value;
use vstd::prelude::*;

verus! {

/// A JSON value. What a number says is left out.
pub enum Json {
    Null,
    Bool(bool),
    Number,
    Text(Seq<char>),
    List(Seq<Json>),
    Object(Map<Seq<char>, Json>),
}

impl Json {
    /// The member of an object.
    pub open spec fn member(self, key: Seq<char>) -> Option<Json> {
        match self {
            Json::Object(members) if members.contains_key(key) => Some(members[key]),
            _ => None,
        }
    }

    /// The element of a list.
    pub open spec fn element(self, index: int) -> Option<Json> {
        match self {
            Json::List(elements) if 0 <= index < elements.len() => Some(elements[index]),
            _ => None,
        }
    }

    /// The text, if the value is one.
    pub open spec fn text(self) -> Option<Seq<char>> {
        match self {
            Json::Text(text) => Some(text),
            _ => None,
        }
    }

    /// The truth value, if the value is one.
    pub open spec fn truth(self) -> Option<bool> {
        match self {
            Json::Bool(truth) => Some(truth),
            _ => None,
        }
    }
}

/// `serde_json::Value`, opaque but for what `contents` says of it.
#[verifier::external_type_specification]
#[verifier::external_body]
pub struct ExValue(serde_json::Value);

/// What a `serde_json::Value` holds.
pub uninterp spec fn contents(value: serde_json::Value) -> Json;

/// What `serde_json::from_str` reads in a text: a value, or nothing where the text is not
/// JSON.
pub uninterp spec fn parsed(text: Seq<char>) -> Option<Json>;

/// `serde_json::from_str`: what it reads depends on the text alone. Which texts are JSON is
/// left to it.
#[verifier::external_body]
pub(crate) fn parse(text: &str) -> (r: Option<Value>)
    ensures
        match r {
            Some(value) => parsed(text@) == Some(contents(value)),
            None => parsed(text@) is None,
        },
{
    serde_json::from_str::<Value>(text).ok()
}

/// `serde_json::Value::get` with a string: the member of that name, if the value is an
/// object that has it.
#[verifier::external_body]
pub(crate) fn member_of<'a>(value: &'a Value, key: &str) -> (r: Option<&'a Value>)
    ensures
        match r {
            Some(found) => contents(*value).member(key@) == Some(contents(*found)),
            None => contents(*value).member(key@) is None,
        },
{
    value.get(key)
}

/// `serde_json::Value::get` with a number: the element at that place, if the value is a
/// list that is long enough.
#[verifier::external_body]
pub(crate) fn element_of<'a>(value: &'a Value, index: usize) -> (r: Option<&'a Value>)
    ensures
        match r {
            Some(found) => contents(*value).element(index as int) == Some(contents(*found)),
            None => contents(*value).element(index as int) is None,
        },
{
    value.get(index)
}

/// `serde_json::Value::as_str`: the text, if the value is one.
pub assume_specification[ serde_json::Value::as_str ](value: &Value) -> (r: Option<&str>)
    ensures
        match r {
            Some(text) => contents(*value).text() == Some(text@),
            None => contents(*value).text() is None,
        },
;

/// `serde_json::Value::as_bool`: the truth value, if the value is one.
pub assume_specification[ serde_json::Value::as_bool ](value: &Value) -> (r: Option<bool>)
    ensures
        r == contents(*value).truth(),
;

/// A character as it stands in a JSON text.
pub open spec fn escaped_char(c: char) -> Seq<char> {
    if c == '"' || c == '\\' {
        seq!['\\', c]
    } else if c == '\u{8}' {
        seq!['\\', 'b']
    } else if c == '\t' {
        seq!['\\', 't']
    } else if c == '\n' {
        seq!['\\', 'n']
    } else if c == '\u{c}' {
        seq!['\\', 'f']
    } else if c == '\r' {
        seq!['\\', 'r']
    } else if (c as u32) < 0x20 {
        seq!['\\', 'u', '0', '0', hex_digit(c as int / 16), hex_digit(c as int % 16)]
    } else {
        seq![c]
    }
}

/// A text as it stands in a JSON text, without the quotes around it.
pub open spec fn escaped(s: Seq<char>) -> Seq<char>
    decreases s.len(),
{
    if s.len() == 0 {
        Seq::empty()
    } else {
        escaped(s.drop_last()) + escaped_char(s.last())
    }
}

/// A text in quotes.
pub open spec fn quoted(s: Seq<char>) -> Seq<char> {
    seq!['"'] + escaped(s) + seq!['"']
}

/// `to_string` of a `serde_json::Value` that is an object with one member, a text: the
/// two texts in quotes, the special characters escaped, between braces and with a colon
/// between them, without white space.
#[verifier::external_body]
pub(crate) fn object_text(key: &str, value: &str) -> (r: String)
    ensures
        r@ == seq!['{'] + quoted(key@) + seq![':'] + quoted(value@) + seq!['}'],
{
    let mut members = serde_json::Map::new();
    members.insert(key.to_owned(), Value::String(value.to_owned()));
    Value::Object(members).to_string()
}

/// A character that a JSON text leaves as it is.
pub open spec fn is_plain(c: char) -> bool {
    c != '"' && c != '\\' && c as u32 >= 0x20
}

/// A text without quotes, backslashes and control characters stands in a JSON text as it
/// is.
pub proof fn a_plain_text_needs_no_escapes(s: Seq<char>)
    requires
        forall|i: int| 0 <= i < s.len() ==> is_plain(#[trigger] s[i]),
    ensures
        escaped(s) == s,
    decreases s.len(),
{
    if s.len() > 0 {
        a_plain_text_needs_no_escapes(s.drop_last());
        assert(is_plain(s.last()));
        assert(s.drop_last() + seq![s.last()] =~= s);
    }
}

/// The answer that names the file to which a recording was saved.
pub fn saved_answer(file_path: &str) -> (r: String)
    ensures
        r@ == "{\"filePath\":"@ + quoted(file_path@) + "}"@,
{
    let r = object_text("filePath", file_path);
    proof {
        reveal_strlit("filePath");
        reveal_strlit("{\"filePath\":");
        reveal_strlit("}");
        a_plain_text_needs_no_escapes("filePath"@);
        assert(r@ =~= "{\"filePath\":"@ + quoted(file_path@) + "}"@);
    }
    r
}

/// Escaping goes character by character: a quote and a backslash get a backslash before them,
/// and what stands in quotes holds no line feed and no other control character.
pub proof fn each_character_is_escaped_by_itself(a: Seq<char>, b: Seq<char>, c: char)
    ensures
        escaped(a + b) == escaped(a) + escaped(b),
        escaped(seq![c]) == escaped_char(c),
        forall|i: int| 0 <= i < escaped_char(c).len() ==> (#[trigger] escaped_char(c)[i]) as u32
            >= 0x20,
        is_plain(c) <==> escaped_char(c) == seq![c],
        !is_plain(c) ==> escaped_char(c).len() >= 2 && escaped_char(c)[0] == '\\',
        c == '"' || c == '\\' ==> escaped_char(c) == seq!['\\', c],
    decreases b.len(),
{
    assert(seq![c].drop_last() =~= Seq::empty());
    assert(escaped(Seq::empty()) + escaped_char(c) =~= escaped_char(c));
    if !is_plain(c) && escaped_char(c) == seq![c] {
        assert(escaped_char(c).len() == seq![c].len());
    }
    if b.len() == 0 {
        assert(a + b =~= a);
        assert(escaped(a) + escaped(b) =~= escaped(a));
    } else {
        each_character_is_escaped_by_itself(a, b.drop_last(), c);
        assert((a + b).drop_last() =~= a + b.drop_last());
        assert((a + b).last() == b.last());
        assert(escaped(a) + escaped(b) =~= (escaped(a) + escaped(b.drop_last())) + escaped_char(
            b.last(),
        ));
    }
}

/// The control characters that have a short form are written in it, and any other one by its
/// number in hexadecimal, from which it can be read back.
pub proof fn control_characters_are_written_out(c: char)
    ensures
        escaped_char('\n') == seq!['\\', 'n'],
        escaped_char('\r') == seq!['\\', 'r'],
        escaped_char('\t') == seq!['\\', 't'],
        escaped_char('\u{8}') == seq!['\\', 'b'],
        escaped_char('\u{c}') == seq!['\\', 'f'],
        (c as u32) < 0x20 && c != '\n' && c != '\r' && c != '\t' && c != '\u{8}' && c != '\u{c}'
            ==> {
            let e = escaped_char(c);
            &&& e.len() == 6
            &&& e.take(4) == seq!['\\', 'u', '0', '0']
            &&& exists|high: int, low: int|
                {
                    &&& 0 <= high < 16
                    &&& 0 <= low < 16
                    &&& c as int == high * 16 + low
                    &&& e[4] == #[trigger] "0123456789abcdef"@[high]
                    &&& e[5] == #[trigger] "0123456789abcdef"@[low]
                }
        },
{
    let e = escaped_char(c);
    if (c as u32) < 0x20 && e.len() == 6 {
        let high = c as int / 16;
        let low = c as int % 16;
        the_digits(high);
        the_digits(low);
        assert(e.take(4) =~= seq!['\\', 'u', '0', '0']);
        assert(e[4] == "0123456789abcdef"@[high]);
        assert(e[5] == "0123456789abcdef"@[low]);
    }
}

/// A member is found under its name, an element at its place, and nothing is found in a value
/// of another kind.
pub proof fn values_are_found_where_they_stand(
    members: Map<Seq<char>, Json>,
    elements: Seq<Json>,
    key: Seq<char>,
    index: int,
    text: Seq<char>,
    truth: bool,
)
    ensures
        members.contains_key(key) ==> Json::Object(members).member(key) == Some(members[key]),
        !members.contains_key(key) ==> Json::Object(members).member(key) is None,
        0 <= index < elements.len() ==> Json::List(elements).element(index) == Some(
            elements[index],
        ),
        !(0 <= index < elements.len()) ==> Json::List(elements).element(index) is None,
        Json::List(elements).member(key) is None,
        Json::Object(members).element(index) is None,
        Json::Text(text).text() == Some(text),
        Json::Text(text).truth() is None,
        Json::Bool(truth).truth() == Some(truth),
        Json::Bool(truth).text() is None,
        Json::Null.text() is None && Json::Null.truth() is None,
        Json::Number.text() is None && Json::Number.truth() is None,
        Json::List(elements).text() is None && Json::Object(members).text() is None,
{
}

} // verus!

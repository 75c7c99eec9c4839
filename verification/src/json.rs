//! JSON documents as the library reads them: parsing is serde_json's, and the
//! lookups into a parsed document are the library's own.
use vstd::prelude::*;
use crate::text::text_eq;

verus! {

/// A JSON document. Numbers keep the text serde_json prints for them; object
/// entries keep the order the parser lists them in.
pub enum Json {
    Null,
    Bool(bool),
    Number(String),
    Text(String),
    Array(Vec<Json>),
    Object(Vec<(String, Json)>),
}

#[verifier::external_type_specification]
#[verifier::external_body]
pub struct ExJsonValue(serde_json::Value);

/// The document serde_json reads from a text, if the text is JSON.
pub uninterp spec fn json_document(text: Seq<char>) -> Option<Json>;

/// `serde_json::Value` as a `Json`, one variant for one variant.
#[verifier::external_body]
fn json_of_value(v: serde_json::Value) -> (r: Json) {
    match v {
        serde_json::Value::Null => Json::Null,
        serde_json::Value::Bool(b) => Json::Bool(b),
        serde_json::Value::Number(n) => Json::Number(n.to_string()),
        serde_json::Value::String(s) => Json::Text(s),
        serde_json::Value::Array(a) => Json::Array(a.into_iter().map(json_of_value).collect()),
        serde_json::Value::Object(o) => Json::Object(o.into_iter().map(|(k, x)| (k, json_of_value(x))).collect()),
    }
}

/// `serde_json::from_str` into a `serde_json::Value`: the document, or
/// `None` when the text is not JSON. What serde_json accepts and reads is
/// only named here.
#[verifier::external_body]
pub(crate) fn parse_json(text: &str) -> (r: Option<Json>)
    ensures
        r == json_document(text@),
{
    match serde_json::from_str::<serde_json::Value>(text) {
        Ok(v) => Some(json_of_value(v)),
        Err(_) => None,
    }
}

/// The value of the first entry named `key`, if any.
pub open spec fn entry_of(entries: Seq<(String, Json)>, key: Seq<char>) -> Option<Json>
    decreases entries.len(),
{
    if entries.len() == 0 {
        None
    } else if entries[0].0@ == key {
        Some(entries[0].1)
    } else {
        entry_of(entries.drop_first(), key)
    }
}

/// The field `key` of an object; nothing for other values.
pub open spec fn field_of(j: Json, key: Seq<char>) -> Option<Json> {
    match j {
        Json::Object(es) => entry_of(es@, key),
        _ => None,
    }
}

/// The first element of an array; nothing for other values or an empty array.
pub open spec fn first_of(j: Json) -> Option<Json> {
    match j {
        Json::Array(v) => if v.len() > 0 {
            Some(v@[0])
        } else {
            None
        },
        _ => None,
    }
}

/// The text at `choices[0].message.content` of a chat completion, if there
/// is a string there.
pub open spec fn chat_content(doc: Json) -> Option<Seq<char>> {
    match field_of(doc, "choices"@) {
        Some(cs) => match first_of(cs) {
            Some(c) => match field_of(c, "message"@) {
                Some(m) => match field_of(m, "content"@) {
                    Some(Json::Text(t)) => Some(t@),
                    _ => None,
                },
                None => None,
            },
            None => None,
        },
        None => None,
    }
}

/// `j` is the string `t`.
pub open spec fn text_is(j: Json, t: Seq<char>) -> bool {
    j matches Json::Text(x) && x@ == t
}

/// `j` is the number written `t`.
pub open spec fn number_is(j: Json, t: Seq<char>) -> bool {
    j matches Json::Number(x) && x@ == t
}

/// `j` is the chat message `{"role": role, "content": content}`.
pub open spec fn message_is(j: Json, role: Seq<char>, content: Seq<char>) -> bool {
    j matches Json::Object(es) && es.len() == 2 && es@[0].0@ == "role"@ && text_is(es@[0].1, role) && es@[1].0@
        == "content"@ && text_is(es@[1].1, content)
}

/// The chat message `{"role": role, "content": content}`.
pub fn json_message(role: &str, content: &str) -> (r: Json)
    ensures
        message_is(r, role@, content@),
{
    let mut es: Vec<(String, Json)> = Vec::new();
    es.push((String::from_str("role"), Json::Text(String::from_str(role))));
    es.push((String::from_str("content"), Json::Text(String::from_str(content))));
    proof {
        reveal_strlit("role");
        reveal_strlit("content");
    }
    Json::Object(es)
}

/// The field `key` of an object (see `field_of`).
pub fn json_field<'a>(j: &'a Json, key: &str) -> (r: Option<&'a Json>)
    ensures
        r matches Some(x) ==> field_of(*j, key@) == Some(*x),
        r is None ==> field_of(*j, key@) is None,
{
    match j {
        Json::Object(es) => {
            let mut i: usize = 0;
            proof {
                assert(es@.skip(0) =~= es@);
            }
            while i < es.len()
                invariant
                    i <= es.len(),
                    field_of(*j, key@) == entry_of(es@, key@),
                    entry_of(es@.skip(i as int), key@) == entry_of(es@, key@),
                decreases es.len() - i,
            {
                proof {
                    assert(es@.skip(i as int).drop_first() =~= es@.skip(i as int + 1));
                    assert(es@.skip(i as int)[0] == es@[i as int]);
                }
                if text_eq(es[i].0.as_str(), key) {
                    return Some(&es[i].1);
                }
                i = i + 1;
            }
            proof {
                assert(es@.skip(i as int).len() == 0);
            }
            None
        },
        _ => None,
    }
}

/// The first element of an array (see `first_of`).
pub fn json_first(j: &Json) -> (r: Option<&Json>)
    ensures
        r matches Some(x) ==> first_of(*j) == Some(*x),
        r is None ==> first_of(*j) is None,
{
    match j {
        Json::Array(v) => if v.len() > 0 {
            Some(&v[0])
        } else {
            None
        },
        _ => None,
    }
}

/// The text at `choices[0].message.content` (see `chat_content`).
pub fn read_chat_content(doc: &Json) -> (r: Option<String>)
    ensures
        r matches Some(t) ==> chat_content(*doc) == Some(t@),
        r is None ==> chat_content(*doc) is None,
{
    let cs = match json_field(doc, "choices") {
        Some(x) => x,
        None => return None,
    };
    let c = match json_first(cs) {
        Some(x) => x,
        None => return None,
    };
    let m = match json_field(c, "message") {
        Some(x) => x,
        None => return None,
    };
    match json_field(m, "content") {
        Some(Json::Text(t)) => Some(t.clone()),
        _ => None,
    }
}

} // verus!

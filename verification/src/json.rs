//! JSON documents, parsed by `serde_json` and held as plain values.
use vstd::prelude::*;

use crate::text::{chars_of, same};

verus! {

#[verifier::external_type_specification]
#[verifier::external_body]
pub struct ExJsonValue(serde_json::Value);

/// A parsed JSON value. An object keeps its members in the order the parser
/// gives them.
#[derive(Debug)]
pub enum JsonValue {
    Null,
    Bool(bool),
    Number(String),
    Text(String),
    Array(Vec<JsonValue>),
    Object(Vec<(String, JsonValue)>),
}

/// The contents of a [`JsonValue`].
pub enum JsonModel {
    Null,
    Bool(bool),
    Number(Seq<char>),
    Text(Seq<char>),
    Array(Seq<JsonModel>),
    Object(Seq<(Seq<char>, JsonModel)>),
}

pub open spec fn json_model(v: JsonValue) -> JsonModel
    decreases v,
{
    match v {
        JsonValue::Null => JsonModel::Null,
        JsonValue::Bool(b) => JsonModel::Bool(b),
        JsonValue::Number(n) => JsonModel::Number(n@),
        JsonValue::Text(s) => JsonModel::Text(s@),
        JsonValue::Array(a) => JsonModel::Array(items_model(a@)),
        JsonValue::Object(o) => JsonModel::Object(members_model(o@)),
    }
}

pub open spec fn items_model(s: Seq<JsonValue>) -> Seq<JsonModel>
    decreases s,
{
    if s.len() == 0 {
        Seq::empty()
    } else {
        items_model(s.drop_last()).push(json_model(s.last()))
    }
}

pub open spec fn members_model(s: Seq<(String, JsonValue)>) -> Seq<(Seq<char>, JsonModel)>
    decreases s,
{
    if s.len() == 0 {
        Seq::empty()
    } else {
        members_model(s.drop_last()).push((s.last().0@, json_model(s.last().1)))
    }
}

impl View for JsonValue {
    type V = JsonModel;

    open spec fn view(&self) -> JsonModel {
        json_model(*self)
    }
}

/// Member `i` of an object's model is the model of member `i`.
pub proof fn lemma_members_model(s: Seq<(String, JsonValue)>, i: int)
    requires
        0 <= i < s.len(),
    ensures
        members_model(s).len() == s.len(),
        members_model(s)[i] == (s[i].0@, json_model(s[i].1)),
    decreases s.len(),
{
    lemma_members_len(s);
    if i < s.len() - 1 {
        lemma_members_model(s.drop_last(), i);
    }
}

pub proof fn lemma_members_len(s: Seq<(String, JsonValue)>)
    ensures
        members_model(s).len() == s.len(),
    decreases s.len(),
{
    if s.len() > 0 {
        lemma_members_len(s.drop_last());
    }
}

/// What `serde_json::from_str::<serde_json::Value>` gives for `text`: the
/// parsed document, or nothing when the text is not JSON.
pub uninterp spec fn json_parse_outcome(text: Seq<char>) -> Option<JsonModel>;

/// Turns a `serde_json::Value` into a [`JsonValue`], variant for variant; a
/// number keeps its `Display` text, an object its members in `Map` order.
#[verifier::external_body]
fn json_of_value(v: serde_json::Value) -> (r: JsonValue) {
    match v {
        serde_json::Value::Null => JsonValue::Null,
        serde_json::Value::Bool(b) => JsonValue::Bool(b),
        serde_json::Value::Number(n) => JsonValue::Number(n.to_string()),
        serde_json::Value::String(s) => JsonValue::Text(s),
        serde_json::Value::Array(a) => JsonValue::Array(a.into_iter().map(json_of_value).collect()),
        serde_json::Value::Object(o) => JsonValue::Object(
            o.into_iter().map(|(k, x)| (k, json_of_value(x))).collect(),
        ),
    }
}

/// Calls `serde_json::from_str` for a `serde_json::Value`; the claim is that
/// the result, converted, is what `json_parse_outcome` names.
#[verifier::external_body]
fn parse_json_outside(text: &str) -> (r: Option<JsonValue>)
    ensures
        match r {
            Some(v) => json_parse_outcome(text@) == Some(v@),
            None => json_parse_outcome(text@) is None,
        },
{
    match serde_json::from_str::<serde_json::Value>(text) {
        Ok(v) => Some(json_of_value(v)),
        Err(_) => None,
    }
}

/// Parses a JSON document.
pub fn parse_json(text: &str) -> (r: Option<JsonValue>)
    ensures
        match r {
            Some(v) => json_parse_outcome(text@) == Some(v@),
            None => json_parse_outcome(text@) is None,
        },
{
    parse_json_outside(text)
}

/// The member `key` of an object, the first with that key; nothing for a
/// value that is not an object or has no such member.
pub open spec fn member_of(m: JsonModel, key: Seq<char>) -> Option<JsonModel> {
    match m {
        JsonModel::Object(ms) => find_member(ms, key),
        _ => None,
    }
}

pub open spec fn find_member(ms: Seq<(Seq<char>, JsonModel)>, key: Seq<char>) -> Option<JsonModel>
    decreases ms.len(),
{
    if ms.len() == 0 {
        None
    } else {
        match find_member(ms.drop_last(), key) {
            Some(x) => Some(x),
            None => if ms.last().0 == key {
                Some(ms.last().1)
            } else {
                None
            },
        }
    }
}

proof fn lemma_find_member_prefix(ms: Seq<(Seq<char>, JsonModel)>, key: Seq<char>, i: int)
    requires
        0 <= i <= ms.len(),
        forall|j: int| 0 <= j < i ==> (#[trigger] ms[j]).0 != key,
    ensures
        find_member(ms.take(i), key) is None,
    decreases i,
{
    if i > 0 {
        assert(ms.take(i).drop_last() =~= ms.take(i - 1));
        lemma_find_member_prefix(ms, key, i - 1);
    }
}

proof fn lemma_find_member_first(ms: Seq<(Seq<char>, JsonModel)>, key: Seq<char>, i: int, n: int)
    requires
        0 <= i < n <= ms.len(),
        ms[i].0 == key,
        forall|j: int| 0 <= j < i ==> (#[trigger] ms[j]).0 != key,
    ensures
        find_member(ms.take(n), key) == Some(ms[i].1),
    decreases n,
{
    assert(ms.take(n).drop_last() =~= ms.take(n - 1));
    if n == i + 1 {
        lemma_find_member_prefix(ms, key, i);
    } else {
        lemma_find_member_first(ms, key, i, n - 1);
    }
}

/// The member `key` of an object value.
#[verifier::loop_isolation(false)]
pub fn member<'a>(v: &'a JsonValue, key: &str) -> (r: Option<&'a JsonValue>)
    ensures
        match r {
            Some(x) => member_of(v@, key@) == Some(x@),
            None => member_of(v@, key@) is None,
        },
{
    match v {
        JsonValue::Object(ms) => {
            let want = chars_of(key);
            let ghost mm = members_model(ms@);
            proof {
                lemma_members_len(ms@);
            }
            let mut i: usize = 0;
            while i < ms.len()
                invariant
                    i <= ms.len(),
                    want@ == key@,
                    mm == members_model(ms@),
                    mm.len() == ms@.len(),
                    forall|j: int| 0 <= j < i ==> (#[trigger] mm[j]).0 != key@,
                decreases ms.len() - i,
            {
                proof {
                    lemma_members_model(ms@, i as int);
                }
                if same(&chars_of(ms[i].0.as_str()), &want) {
                    proof {
                        lemma_find_member_first(mm, key@, i as int, mm.len() as int);
                        assert(mm.take(mm.len() as int) =~= mm);
                    }
                    return Some(&ms[i].1);
                }
                i += 1;
            }
            proof {
                lemma_find_member_prefix(mm, key@, mm.len() as int);
                assert(mm.take(mm.len() as int) =~= mm);
            }
            None
        },
        _ => None,
    }
}

} // verus!

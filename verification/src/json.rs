use vstd::prelude::*;

verus! {

/// A JSON document, as far as the record decoders read one.
#[derive(Debug)]
pub enum Json {
    Null,
    Bool(bool),
    /// A number: `Some` where it is an unsigned integer of 64 bits, `None` for
    /// every other number.
    Number(Option<u64>),
    Text(String),
    Array(Vec<Json>),
    /// The members of an object, key and value.
    Object(Vec<(String, Json)>),
}

#[verifier::external_type_specification]
#[verifier::external_body]
pub struct ExValue(serde_json::Value);

/// The document that `serde_json` reads from `text`; `None` where it rejects
/// the text.
pub uninterp spec fn json_document(text: Seq<char>) -> Option<Json>;

/// `serde_json::from_str`, asked for a `serde_json::Value`, on the string
/// that `text` spells. The contract only gives the outcome its name: it
/// claims that the outcome depends on the text alone.
#[verifier::external_body]
pub(crate) fn parse_json(text: &[char]) -> (doc: Option<Json>)
    ensures
        doc == json_document(text@),
{
    let text: String = text.iter().collect();
    match serde_json::from_str::<serde_json::Value>(&text) {
        Ok(value) => Some(lift(value)),
        Err(_) => None,
    }
}

/// Moves a `serde_json::Value` into a `Json`, variant by variant. A number
/// goes through `serde_json::Number::as_u64`. Nothing is claimed of the
/// result.
#[verifier::external_body]
fn lift(value: serde_json::Value) -> Json {
    match value {
        serde_json::Value::Null => Json::Null,
        serde_json::Value::Bool(b) => Json::Bool(b),
        serde_json::Value::Number(n) => Json::Number(n.as_u64()),
        serde_json::Value::String(s) => Json::Text(s),
        serde_json::Value::Array(items) => Json::Array(items.into_iter().map(lift).collect()),
        serde_json::Value::Object(members) => Json::Object(
            members.into_iter().map(|(k, v)| (k, lift(v))).collect(),
        ),
    }
}

/// The value of the first of `members` whose key is `key`.
pub open spec fn member(members: Seq<(String, Json)>, key: Seq<char>) -> Option<Json>
    decreases members.len(),
{
    if members.len() == 0 {
        None
    } else if members[0].0@ == key {
        Some(members[0].1)
    } else {
        member(members.drop_first(), key)
    }
}

/// Looks up the member of an object by its key.
pub fn find_member<'a>(members: &'a Vec<(String, Json)>, key: &String) -> (found: Option<&'a Json>)
    ensures
        match found {
            Some(value) => member(members@, key@) == Some(*value),
            None => member(members@, key@) is None,
        },
{
    let mut i: usize = 0;
    assert(members@.skip(0) =~= members@);
    while i < members.len()
        invariant
            i <= members@.len(),
            member(members@, key@) == member(members@.skip(i as int), key@),
        decreases members@.len() - i,
    {
        assert(members@.skip(i as int).drop_first() =~= members@.skip(i + 1));
        if members[i].0 == *key {
            return Some(&members[i].1);
        }
        i += 1;
    }
    None
}

} // verus!

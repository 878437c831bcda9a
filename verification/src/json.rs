//! JSON values, as the `serde_json` crate reads them.
use serde_json::Value;
use vstd::prelude::*;

verus! {

/// `serde_json::Value`, a JSON value. `json_tree` says what it holds.
#[verifier::external_type_specification]
#[verifier::external_body]
pub struct ExValue(Value);

/// What a JSON value holds. Of a number only its value as a `u64` is kept, if it has one.
pub enum JsonTree {
    Null,
    Bool(bool),
    Number(Option<u64>),
    Text(Seq<char>),
    Array(Seq<JsonTree>),
    Object(Map<Seq<char>, JsonTree>),
}

/// What a `serde_json::Value` holds.
pub uninterp spec fn json_tree(value: Value) -> JsonTree;

/// What a text holds as JSON, or `None` if `serde_json` does not accept it.
pub uninterp spec fn json_of_text(text: Seq<char>) -> Option<JsonTree>;

/// What bytes hold as JSON, or `None` if `serde_json` does not accept them.
pub uninterp spec fn json_of_bytes(bytes: Seq<u8>) -> Option<JsonTree>;

impl JsonTree {
    /// The field `key`, if the value is an object that has it.
    pub open spec fn field(self, key: &str) -> Option<JsonTree> {
        match self {
            JsonTree::Object(fields) => if fields.contains_key(key@) {
                Some(fields[key@])
            } else {
                None
            },
            _ => None,
        }
    }

    /// The field `key` as a `u64`, if there is such a field and it is such a number.
    pub open spec fn count(self, key: &str) -> Option<u64> {
        match self.field(key) {
            Some(JsonTree::Number(n)) => n,
            _ => None,
        }
    }
}

/// `serde_json::from_str::<Value>`: reads a text as JSON. What it reads, and whether it
/// can be read, is named.
#[verifier::external_body]
pub(crate) fn parse_text(text: &str) -> (result: Result<Value, serde_json::Error>)
    ensures
        match result {
            Ok(value) => json_of_text(text@) == Some(json_tree(value)),
            Err(_) => json_of_text(text@) is None,
        },
{
    serde_json::from_str::<Value>(text)
}

/// `serde_json::from_slice::<Value>`: reads bytes as JSON. What it reads, and whether
/// they can be read, is named.
#[verifier::external_body]
pub(crate) fn parse_bytes(bytes: &[u8]) -> (result: Result<Value, serde_json::Error>)
    ensures
        match result {
            Ok(value) => json_of_bytes(bytes@) == Some(json_tree(value)),
            Err(_) => json_of_bytes(bytes@) is None,
        },
{
    serde_json::from_slice::<Value>(bytes)
}

/// `serde_json::Value::get` with a key: the field of that name, if the value is an object
/// that has it, else `None`.
#[verifier::external_body]
pub(crate) fn get_field<'a>(value: &'a Value, key: &str) -> (field: Option<&'a Value>)
    ensures
        match field {
            Some(found) => json_tree(*value).field(key) == Some(json_tree(*found)),
            None => json_tree(*value).field(key) is None,
        },
{
    value.get(key)
}

/// `serde_json::Value::as_array`: the items, if the value is an array, else `None`.
pub assume_specification[ Value::as_array ](value: &Value) -> (items: Option<&Vec<Value>>)
    ensures
        match items {
            Some(list) => json_tree(*value) matches JsonTree::Array(trees) && list@.len()
                == trees.len() && (forall|i: int|
                0 <= i < trees.len() ==> json_tree(#[trigger] list@[i]) == trees[i]),
            None => !(json_tree(*value) is Array),
        },
;

/// `serde_json::Value::as_str`: the text, if the value is a string, else `None`.
pub assume_specification[ Value::as_str ](value: &Value) -> (chars: Option<&str>)
    ensures
        match chars {
            Some(found) => json_tree(*value) == JsonTree::Text(found@),
            None => !(json_tree(*value) is Text),
        },
;

/// `serde_json::Value::as_u64`: the number, if the value is one that a `u64` holds, else
/// `None`.
pub assume_specification[ Value::as_u64 ](value: &Value) -> (number: Option<u64>)
    ensures
        number == match json_tree(*value) {
            JsonTree::Number(n) => n,
            _ => None,
        },
;

/// `serde_json::Value::as_bool`: the truth value, if the value is one, else `None`.
pub assume_specification[ Value::as_bool ](value: &Value) -> (truth: Option<bool>)
    ensures
        truth == match json_tree(*value) {
            JsonTree::Bool(b) => Some(b),
            _ => None,
        },
;

/// `serde_json::Value::is_object`: whether the value is an object.
pub assume_specification[ Value::is_object ](value: &Value) -> (yes: bool)
    ensures
        yes == (json_tree(*value) is Object),
;

/// The field `key` as a `u64`, if there is such a field and it is such a number.
pub(crate) fn get_count(value: &Value, key: &str) -> (count: Option<u64>)
    ensures
        count == json_tree(*value).count(key),
{
    match get_field(value, key) {
        Some(field) => field.as_u64(),
        None => None,
    }
}

/// The token counts of a `usage` object, each missing if it is not there or not a number.
#[derive(Clone, Copy, Debug, PartialEq, Eq, Structural)]
pub struct UsageCounts {
    pub prompt_tokens: Option<u64>,
    pub completion_tokens: Option<u64>,
    pub total_tokens: Option<u64>,
}

/// The token counts in what stands in a field `usage`. Where that is no object, all of them
/// are missing.
pub open spec fn counts_in(usage: JsonTree) -> UsageCounts {
    UsageCounts {
        prompt_tokens: usage.count("prompt_tokens"),
        completion_tokens: usage.count("completion_tokens"),
        total_tokens: usage.count("total_tokens"),
    }
}

/// The token counts that a response reports in its field `usage`, if it has that field.
pub open spec fn usage_in(tree: JsonTree) -> Option<UsageCounts> {
    match tree.field("usage") {
        Some(usage) => Some(counts_in(usage)),
        None => None,
    }
}

/// The token counts that an event of a stream reports in its field `usage`, if that is an
/// object. One that is null, as in all events of a stream but the last, reports nothing.
pub open spec fn usage_object_in(tree: JsonTree) -> Option<UsageCounts> {
    match tree.field("usage") {
        Some(usage) => if usage is Object {
            Some(counts_in(usage))
        } else {
            None
        },
        None => None,
    }
}

/// The token counts in what stands in a field `usage`.
fn counts_of(usage: &Value) -> (counts: UsageCounts)
    ensures
        counts == counts_in(json_tree(*usage)),
{
    UsageCounts {
        prompt_tokens: get_count(usage, "prompt_tokens"),
        completion_tokens: get_count(usage, "completion_tokens"),
        total_tokens: get_count(usage, "total_tokens"),
    }
}

/// The token counts that a response reports in its field `usage`, if it has that field.
pub fn usage_of(value: &Value) -> (usage: Option<UsageCounts>)
    ensures
        usage == usage_in(json_tree(*value)),
{
    match get_field(value, "usage") {
        Some(usage) => Some(counts_of(usage)),
        None => None,
    }
}

/// The token counts that an event of a stream reports in its field `usage`, if that is an
/// object.
pub fn usage_object_of(value: &Value) -> (usage: Option<UsageCounts>)
    ensures
        usage == usage_object_in(json_tree(*value)),
{
    match get_field(value, "usage") {
        Some(usage) => if usage.is_object() {
            Some(counts_of(usage))
        } else {
            None
        },
        None => None,
    }
}

/// The count, or zero where there is none.
pub open spec fn or_zero(count: Option<u64>) -> u64 {
    match count {
        Some(n) => n,
        None => 0,
    }
}

impl UsageCounts {
    /// The tokens of the prompt, zero if they are not reported.
    pub fn prompt(&self) -> (count: u64)
        ensures
            count == or_zero(self.prompt_tokens),
    {
        match self.prompt_tokens {
            Some(n) => n,
            None => 0,
        }
    }

    /// The tokens of the completion, zero if they are not reported.
    pub fn completion(&self) -> (count: u64)
        ensures
            count == or_zero(self.completion_tokens),
    {
        match self.completion_tokens {
            Some(n) => n,
            None => 0,
        }
    }

    /// All tokens, zero if they are not reported.
    pub fn total(&self) -> (count: u64)
        ensures
            count == or_zero(self.total_tokens),
    {
        match self.total_tokens {
            Some(n) => n,
            None => 0,
        }
    }
}

/// The usage is read from the fields `prompt_tokens`, `completion_tokens` and `total_tokens`
/// of the object in the field `usage`, each under its own name. A count that is missing or
/// no such number is missing, whatever the others are.
pub proof fn law_usage_is_read_by_name(
    fields: Map<Seq<char>, JsonTree>,
    usage: Map<Seq<char>, JsonTree>,
    n: u64,
)
    requires
        fields.contains_key("usage"@),
        fields["usage"@] == JsonTree::Object(usage),
    ensures
        ({
            let found = usage_in(JsonTree::Object(fields));
            let streamed = usage_object_in(JsonTree::Object(fields));
            let holds = |name: Seq<char>|
                usage.contains_key(name) && usage[name] == JsonTree::Number(Some(n));
            &&& found is Some && streamed == found
            &&& found->0.prompt_tokens == Some(n) <==> holds("prompt_tokens"@)
            &&& found->0.completion_tokens == Some(n) <==> holds("completion_tokens"@)
            &&& found->0.total_tokens == Some(n) <==> holds("total_tokens"@)
        }),
{
}

/// Without a field `usage` nothing is reported. An event of a stream whose field is no object
/// reports nothing either; a whole body then reports a usage without counts.
pub proof fn law_missing_usage_is_not_reported(tree: JsonTree)
    ensures
        !(tree is Object) || !tree->Object_0.contains_key("usage"@) ==> usage_in(tree) is None
            && usage_object_in(tree) is None,
        tree is Object && tree->Object_0.contains_key("usage"@) && !(
        tree->Object_0["usage"@] is Object) ==> usage_object_in(tree) is None && usage_in(tree)
            == Some(
            UsageCounts { prompt_tokens: None, completion_tokens: None, total_tokens: None },
        ),
{
}

} // verus!

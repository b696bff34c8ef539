use vstd::prelude::*;

verus! {

/// A JSON document, as the project files hold it.
#[derive(Debug)]
pub enum JsonValue {
    Null,
    Bool(bool),
    Number(JsonNumber),
    Str(String),
    Array(Vec<JsonValue>),
    /// The members of an object, keys unique, in the parser's order.
    Object(Vec<(String, JsonValue)>),
}

/// A JSON number as the parser read it: its canonical text, its value where
/// that is an `i64`, and the parser's own number, which rendering writes back.
/// Only the parser makes one.
#[derive(Debug)]
pub struct JsonNumber {
    text: String,
    integer: Option<i64>,
    number: serde_json::Number,
}

/// Mathematical model of a JSON document.
pub enum JsonTree {
    Null,
    Bool(bool),
    Number(Seq<char>, Option<i64>),
    Str(Seq<char>),
    Array(Seq<JsonTree>),
    Object(Seq<(Seq<char>, JsonTree)>),
}

/// The canonical text of a number.
pub closed spec fn number_text(n: JsonNumber) -> Seq<char> {
    n.text@
}

/// The value of a number, where it is an `i64`.
pub closed spec fn number_int(n: JsonNumber) -> Option<i64> {
    n.integer
}

/// The model of a document.
pub open spec fn tree(value: JsonValue) -> JsonTree
    decreases value,
{
    match value {
        JsonValue::Null => JsonTree::Null,
        JsonValue::Bool(b) => JsonTree::Bool(b),
        JsonValue::Number(n) => JsonTree::Number(number_text(n), number_int(n)),
        JsonValue::Str(s) => JsonTree::Str(s@),
        JsonValue::Array(items) => JsonTree::Array(trees(items@)),
        JsonValue::Object(members) => JsonTree::Object(member_trees(members@)),
    }
}

/// The models of a sequence of documents.
pub open spec fn trees(items: Seq<JsonValue>) -> Seq<JsonTree>
    decreases items,
{
    if items.len() == 0 {
        Seq::empty()
    } else {
        trees(items.drop_last()).push(tree(items.last()))
    }
}

/// The models of the members of an object.
pub open spec fn member_trees(members: Seq<(String, JsonValue)>) -> Seq<(Seq<char>, JsonTree)>
    decreases members,
{
    if members.len() == 0 {
        Seq::empty()
    } else {
        member_trees(members.drop_last()).push((members.last().0@, tree(members.last().1)))
    }
}

pub proof fn lemma_trees(items: Seq<JsonValue>)
    ensures
        trees(items).len() == items.len(),
        forall|i: int| 0 <= i < items.len() ==> #[trigger] trees(items)[i] == tree(items[i]),
    decreases items.len(),
{
    if items.len() > 0 {
        lemma_trees(items.drop_last());
        assert forall|i: int| 0 <= i < items.len() implies #[trigger] trees(items)[i] == tree(
            items[i],
        ) by {
            if i < items.len() - 1 {
                assert(items.drop_last()[i] == items[i]);
            }
        }
    }
}

pub proof fn lemma_member_trees(members: Seq<(String, JsonValue)>)
    ensures
        member_trees(members).len() == members.len(),
        forall|i: int|
            0 <= i < members.len() ==> #[trigger] member_trees(members)[i] == (
                members[i].0@,
                tree(members[i].1),
            ),
    decreases members.len(),
{
    if members.len() > 0 {
        lemma_member_trees(members.drop_last());
        assert forall|i: int| 0 <= i < members.len() implies #[trigger] member_trees(members)[i] == (
            members[i].0@,
            tree(members[i].1),
        ) by {
            if i < members.len() - 1 {
                assert(members.drop_last()[i] == members[i]);
            }
        }
    }
}

/// Index of the first member of `members[i..]` whose key is `key`.
pub open spec fn member_index(members: Seq<(Seq<char>, JsonTree)>, key: Seq<char>, i: int) -> Option<
    int,
>
    decreases members.len() - i,
{
    if i < 0 || i >= members.len() {
        None
    } else if members[i].0 == key {
        Some(i)
    } else {
        member_index(members, key, i + 1)
    }
}

/// `value.get(key)` of `serde_json`: the member of an object with that key.
pub open spec fn json_field(value: JsonTree, key: Seq<char>) -> Option<JsonTree> {
    match value {
        JsonTree::Object(members) => match member_index(members, key, 0) {
            Some(i) => Some(members[i].1),
            None => None,
        },
        _ => None,
    }
}

/// `value.as_array()`.
pub open spec fn json_items(value: JsonTree) -> Option<Seq<JsonTree>> {
    match value {
        JsonTree::Array(items) => Some(items),
        _ => None,
    }
}

/// `value.as_str()`.
pub open spec fn json_text(value: JsonTree) -> Option<Seq<char>> {
    match value {
        JsonTree::Str(s) => Some(s),
        _ => None,
    }
}

/// `value.as_i64()`.
pub open spec fn json_int(value: JsonTree) -> Option<i64> {
    match value {
        JsonTree::Number(_, n) => n,
        _ => None,
    }
}

/// The field `key` of an object.
pub fn field<'a>(value: &'a JsonValue, key: &str) -> (r: Option<&'a JsonValue>)
    ensures
        match r {
            Some(v) => json_field(tree(*value), key@) == Some(tree(*v)),
            None => json_field(tree(*value), key@) is None,
        },
{
    match value {
        JsonValue::Object(members) => {
            let ghost ms = member_trees(members@);
            proof {
                lemma_member_trees(members@);
            }
            let mut i: usize = 0;
            while i < members.len()
                invariant
                    i <= members.len(),
                    ms == member_trees(members@),
                    ms.len() == members.len(),
                    forall|j: int|
                        0 <= j < members.len() ==> #[trigger] ms[j] == (
                            members@[j].0@,
                            tree(members@[j].1),
                        ),
                    member_index(ms, key@, 0) == member_index(ms, key@, i as int),
                    json_field(tree(*value), key@) == (match member_index(ms, key@, 0) {
                        Some(j) => Some(ms[j].1),
                        None => None,
                    }),
                decreases members.len() - i,
            {
                if crate::text::str_equal(members[i].0.as_str(), key) {
                    assert(ms[i as int] == (members@[i as int].0@, tree(members@[i as int].1)));
                    return Some(&members[i].1);
                }
                i = i + 1;
            }
            None
        },
        _ => None,
    }
}

/// The items of an array.
pub fn items(value: &JsonValue) -> (r: Option<&Vec<JsonValue>>)
    ensures
        match r {
            Some(v) => json_items(tree(*value)) == Some(trees(v@)),
            None => json_items(tree(*value)) is None,
        },
{
    match value {
        JsonValue::Array(v) => Some(v),
        _ => None,
    }
}

/// The text of a string.
pub fn text(value: &JsonValue) -> (r: Option<&String>)
    ensures
        match r {
            Some(s) => json_text(tree(*value)) == Some(s@),
            None => json_text(tree(*value)) is None,
        },
{
    match value {
        JsonValue::Str(s) => Some(s),
        _ => None,
    }
}

/// The value of an integer that fits in `i64`.
pub fn integer(value: &JsonValue) -> (r: Option<i64>)
    ensures
        r == json_int(tree(*value)),
{
    match value {
        JsonValue::Number(n) => n.integer,
        _ => None,
    }
}

/// The document that `serde_json::from_str::<serde_json::Value>` reads from
/// `text`, or the message of its error.
pub uninterp spec fn parsed_json(text: Seq<char>) -> Result<JsonTree, Seq<char>>;

/// The text that `serde_json::to_string_pretty` writes for a document.
pub uninterp spec fn pretty_json(value: JsonTree) -> Seq<char>;

#[verifier::external_type_specification]
#[verifier::external_body]
pub struct ExSerdeValue(serde_json::Value);

#[verifier::external_type_specification]
#[verifier::external_body]
pub struct ExSerdeNumber(serde_json::Number);

/// The conversion part of [`parse_json`]: a `serde_json` value, variant by
/// variant, one for one.
#[verifier::external_body]
fn from_serde(value: serde_json::Value) -> JsonValue {
    match value {
        serde_json::Value::Null => JsonValue::Null,
        serde_json::Value::Bool(b) => JsonValue::Bool(b),
        serde_json::Value::Number(n) => JsonValue::Number(JsonNumber { text: n.to_string(), integer: n.as_i64(), number: n }),
        serde_json::Value::String(s) => JsonValue::Str(s),
        serde_json::Value::Array(a) => JsonValue::Array(a.into_iter().map(from_serde).collect()),
        serde_json::Value::Object(o) => JsonValue::Object(
            o.into_iter().map(|(k, v)| (k, from_serde(v))).collect(),
        ),
    }
}

/// The conversion part of [`render_json_pretty`]: back into a `serde_json`
/// value, variant by variant, one for one.
#[verifier::external_body]
fn to_serde(value: &JsonValue) -> serde_json::Value {
    match value {
        JsonValue::Null => serde_json::Value::Null,
        JsonValue::Bool(b) => serde_json::Value::Bool(*b),
        JsonValue::Number(n) => serde_json::Value::Number(n.number.clone()),
        JsonValue::Str(s) => serde_json::Value::String(s.clone()),
        JsonValue::Array(a) => serde_json::Value::Array(a.iter().map(to_serde).collect()),
        JsonValue::Object(o) => serde_json::Value::Object(
            o.iter().map(|(k, v)| (k.clone(), to_serde(v))).collect(),
        ),
    }
}

/// Parses a JSON document (`serde_json::from_str::<serde_json::Value>`).
/// Claimed: the result is `parsed_json(text)`, a function of the text alone.
#[verifier::external_body]
pub(crate) fn parse_json(text: &str) -> (r: Result<JsonValue, String>)
    ensures
        match r {
            Ok(v) => parsed_json(text@) == Ok::<JsonTree, Seq<char>>(tree(v)),
            Err(m) => parsed_json(text@) == Err::<JsonTree, Seq<char>>(m@),
        },
{
    serde_json::from_str::<serde_json::Value>(text).map(from_serde).map_err(|e| e.to_string())
}

/// Renders a document as indented JSON (`serde_json::to_string_pretty`).
/// Claimed: the text is `pretty_json(value)`, a function of the document alone.
/// Rendering a `serde_json::Value` cannot fail: its map keys are strings.
#[verifier::external_body]
pub(crate) fn render_json_pretty(value: &JsonValue) -> (r: String)
    ensures
        r@ == pretty_json(tree(*value)),
{
    serde_json::to_string_pretty(&to_serde(value)).unwrap()
}

} // verus!

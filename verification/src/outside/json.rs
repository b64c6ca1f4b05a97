//! JSON, read and written by `serde_json`.
use vstd::prelude::*;

verus! {

/// A JSON value as the library works on it.
#[derive(Debug)]
pub enum Json {
    Null,
    Bool(bool),
    /// A number, as it is printed.
    Number(String),
    Text(String),
    /// The items, and the array in compact form.
    Array(Vec<Json>, String),
    /// Keys and values in the order in which the keys are first seen, and the
    /// object in compact form.
    Object(Vec<(String, Json)>, String),
}

/// What a [`Json`] value is.
pub enum JsonView {
    Null,
    Bool(bool),
    Number(Seq<char>),
    Text(Seq<char>),
    Array(Seq<JsonView>, Seq<char>),
    Object(Seq<(Seq<char>, JsonView)>, Seq<char>),
}

impl Json {
    /// What the value is.
    pub open spec fn tree(&self) -> JsonView
        decreases self,
    {
        match self {
            Json::Null => JsonView::Null,
            Json::Bool(b) => JsonView::Bool(*b),
            Json::Number(n) => JsonView::Number(n@),
            Json::Text(s) => JsonView::Text(s@),
            Json::Array(items, compact) => JsonView::Array(
                Seq::new(
                    items@.len(),
                    |i: int|
                        if 0 <= i < items@.len() {
                            items@[i].tree()
                        } else {
                            JsonView::Null
                        },
                ),
                compact@,
            ),
            Json::Object(members, compact) => JsonView::Object(
                Seq::new(
                    members@.len(),
                    |i: int|
                        if 0 <= i < members@.len() {
                            (members@[i].0@, members@[i].1.tree())
                        } else {
                            (Seq::empty(), JsonView::Null)
                        },
                ),
                compact@,
            ),
        }
    }
}

/// `serde_json::Value`, which holds a parsed document.
#[verifier::external_type_specification]
#[verifier::external_body]
pub struct ExValue(serde_json::Value);

/// What a `serde_json::Value` holds.
pub uninterp spec fn value_tree(v: serde_json::Value) -> JsonView;

/// The value that `serde_json` reads from a text, or why it cannot.
pub uninterp spec fn parsed_json(s: Seq<char>) -> Result<JsonView, Seq<char>>;

/// The indented array of objects that `serde_json` prints, or why it cannot.
pub uninterp spec fn pretty_rows(rows: Seq<Seq<(Seq<char>, Seq<char>)>>) -> Result<
    Seq<char>,
    Seq<char>,
>;

/// One level of a parsed document.
pub enum Node {
    Null,
    Bool(bool),
    Number(String),
    Text(String),
    Array(Vec<serde_json::Value>),
    Object(Vec<(String, serde_json::Value)>),
}

/// Whether one level of a document is that of a tree.
pub open spec fn is_level(node: Node, tree: JsonView) -> bool {
    match (node, tree) {
        (Node::Null, JsonView::Null) => true,
        (Node::Bool(a), JsonView::Bool(b)) => a == b,
        (Node::Number(a), JsonView::Number(b)) => a@ == b,
        (Node::Text(a), JsonView::Text(b)) => a@ == b,
        (Node::Array(a), JsonView::Array(b, _)) => a@.len() == b.len() && forall|i: int|
            0 <= i < b.len() ==> value_tree(#[trigger] a@[i]) == b[i],
        (Node::Object(a), JsonView::Object(b, _)) => a@.len() == b.len() && forall|i: int|
            0 <= i < b.len() ==> (#[trigger] a@[i]).0@ == b[i].0 && value_tree(a@[i].1) == b[i].1,
        _ => false,
    }
}

/// The compact form of an array or an object.
pub open spec fn compact_part(tree: JsonView) -> Option<Seq<char>> {
    match tree {
        JsonView::Array(_, compact) => Some(compact),
        JsonView::Object(_, compact) => Some(compact),
        _ => None,
    }
}

/// `serde_json::from_str`: the document in a text, or the error text. Which,
/// depends on the text alone.
#[verifier::external_body]
fn parse_value(s: &str) -> (r: Result<serde_json::Value, String>)
    ensures
        match r {
            Ok(v) => parsed_json(s@) == Ok::<JsonView, Seq<char>>(value_tree(v)),
            Err(e) => parsed_json(s@) == Err::<JsonView, Seq<char>>(e@),
        },
{
    serde_json::from_str(s).map_err(|e| e.to_string())
}

/// One level of a `serde_json::Value`, taken apart: numbers as they are
/// printed, the members of an object as `serde_json::Map` hands them out.
#[verifier::external_body]
fn take_apart(v: serde_json::Value) -> (r: Node)
    ensures
        is_level(r, value_tree(v)),
{
    match v {
        serde_json::Value::Null => Node::Null,
        serde_json::Value::Bool(b) => Node::Bool(b),
        serde_json::Value::Number(n) => Node::Number(n.to_string()),
        serde_json::Value::String(s) => Node::Text(s),
        serde_json::Value::Array(items) => Node::Array(items),
        serde_json::Value::Object(members) => Node::Object(members.into_iter().collect()),
    }
}

/// `serde_json::to_string`: the compact form of a value.
#[verifier::external_body]
fn compact_form(v: &serde_json::Value) -> (r: String)
    ensures
        compact_part(value_tree(*v)) matches Some(c) ==> r@ == c,
{
    serde_json::to_string(v).unwrap_or_default()
}

/// What rows of key and value hold.
pub open spec fn rows_view(rows: Seq<Vec<(String, String)>>) -> Seq<Seq<(Seq<char>, Seq<char>)>> {
    rows.map_values(
        |row: Vec<(String, String)>| row@.map_values(|p: (String, String)| (p.0@, p.1@)),
    )
}

/// What a printed text is, or the error text.
pub open spec fn text_view(r: Result<String, String>) -> Result<Seq<char>, Seq<char>> {
    match r {
        Ok(s) => Ok(s@),
        Err(e) => Err(e@),
    }
}

/// Whether no later entry of a row has the same key.
pub open spec fn is_last(row: Seq<(Seq<char>, Seq<char>)>, j: int) -> bool {
    0 <= j < row.len() && forall|k: int| j < k < row.len() ==> (#[trigger] row[k]).0 != row[j].0
}

/// Whether no key stands twice in a row.
pub open spec fn keys_are_single(row: Seq<(Seq<char>, Seq<char>)>) -> bool {
    forall|j: int, k: int|
        0 <= j < k < row.len() ==> (#[trigger] row[j]).0 != (#[trigger] row[k]).0
}

/// Whether a value is the object of a row: a text for each of its keys, the
/// last one where a key stands twice; in the order of the row where none does.
pub open spec fn is_object_of(item: JsonView, row: Seq<(Seq<char>, Seq<char>)>) -> bool {
    item matches JsonView::Object(members, _) && {
        &&& forall|j: int|
            #[trigger] is_last(row, j) ==> members.contains(
                (row[j].0, JsonView::Text(row[j].1)),
            )
        &&& forall|m: int|
            0 <= m < members.len() ==> (#[trigger] members[m]).1 is Text && exists|j: int|
                is_last(row, j) && #[trigger] row[j].0 == members[m].0
        &&& forall|m: int, n: int|
            0 <= m < n < members.len() ==> (#[trigger] members[m]).0 != (#[trigger] members[n]).0
        &&& keys_are_single(row) ==> members == row.map_values(
            |p: (Seq<char>, Seq<char>)| (p.0, JsonView::Text(p.1)),
        )
    }
}

/// Whether a text reads as the objects of some rows.
pub open spec fn reads_as_rows(s: Seq<char>, rows: Seq<Seq<(Seq<char>, Seq<char>)>>) -> bool {
    parsed_json(s) matches Ok(JsonView::Array(items, _)) && items.len() == rows.len() && forall|
        i: int,
    |
        0 <= i < rows.len() ==> is_object_of(#[trigger] items[i], rows[i])
}

/// `serde_json::to_string_pretty` of an array with one `serde_json::Map` of
/// texts for each row, which keeps the keys in the order in which they are first
/// seen; of a key that stands twice in a row the later value counts. The text
/// depends on the rows alone, and reads as those objects.
#[verifier::external_body]
pub(crate) fn print_rows(rows: &Vec<Vec<(String, String)>>) -> (r: Result<String, String>)
    ensures
        text_view(r) == pretty_rows(rows_view(rows@)),
        r matches Ok(s) ==> reads_as_rows(s@, rows_view(rows@)),
{
    let array: Vec<serde_json::Map<String, serde_json::Value>> = rows
        .iter()
        .map(|row| row.iter().map(|(k, v)| (k.clone(), v.clone().into())).collect())
        .collect();
    serde_json::to_string_pretty(&array).map_err(|e| e.to_string())
}

/// The value of a parsed document.
fn json_of(v: serde_json::Value) -> (r: Json)
    ensures
        r.tree() == value_tree(v),
    decreases value_tree(v),
{
    let compact = compact_form(&v);
    let ghost tree = value_tree(v);
    match take_apart(v) {
        Node::Null => Json::Null,
        Node::Bool(b) => Json::Bool(b),
        Node::Number(n) => Json::Number(n),
        Node::Text(s) => Json::Text(s),
        Node::Array(items) => {
            let ghost parts = tree->Array_0;
            let mut out: Vec<Json> = Vec::new();
            for item in it: items
                invariant
                    it.seq() == items@,
                    tree is Array,
                    parts == tree->Array_0,
                    value_tree(v) == tree,
                    items@.len() == parts.len(),
                    forall|i: int| 0 <= i < parts.len() ==> value_tree(#[trigger] items@[i]) == parts[i],
                    out@.len() == it.index(),
                    forall|i: int| 0 <= i < out@.len() ==> (#[trigger] out@[i]).tree() == parts[i],
            {
                let ghost k = it.index() as int;
                assert(item == items@[k]);
                assert(decreases_to!(tree => parts));
                assert(decreases_to!(tree => parts[k]));
                out.push(json_of(item));
            }
            let r = Json::Array(out, compact);
            assert(r.tree()->Array_0 =~= parts);
            r
        },
        Node::Object(members) => {
            let ghost parts = tree->Object_0;
            let mut out: Vec<(String, Json)> = Vec::new();
            for member in it: members
                invariant
                    it.seq() == members@,
                    tree is Object,
                    parts == tree->Object_0,
                    value_tree(v) == tree,
                    members@.len() == parts.len(),
                    forall|i: int|
                        0 <= i < parts.len() ==> (#[trigger] members@[i]).0@ == parts[i].0
                            && value_tree(members@[i].1) == parts[i].1,
                    out@.len() == it.index(),
                    forall|i: int|
                        0 <= i < out@.len() ==> (#[trigger] out@[i]).0@ == parts[i].0
                            && out@[i].1.tree() == parts[i].1,
            {
                let ghost k = it.index() as int;
                assert(member == members@[k]);
                assert(decreases_to!(tree => parts));
                assert(decreases_to!(tree => parts[k].1));
                out.push((member.0, json_of(member.1)));
            }
            let r = Json::Object(out, compact);
            assert(r.tree()->Object_0 =~= parts);
            r
        },
    }
}

/// What a read value is, or the error text.
pub open spec fn json_view(r: Result<Json, String>) -> Result<JsonView, Seq<char>> {
    match r {
        Ok(v) => Ok(v.tree()),
        Err(e) => Err(e@),
    }
}

/// The value of a JSON text, or why there is none.
pub fn parse_json(s: &str) -> (r: Result<Json, String>)
    ensures
        json_view(r) == parsed_json(s@),
{
    match parse_value(s) {
        Ok(v) => Ok(json_of(v)),
        Err(e) => Err(e),
    }
}

} // verus!

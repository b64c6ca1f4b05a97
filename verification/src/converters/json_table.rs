//! JSON documents as tables: nested objects flattened to dotted keys.
use vstd::prelude::*;

use crate::converters;
use crate::converters::table::Table;
use crate::converters::table::TableView;
use crate::converters::tabular;
use crate::converters::ConversionError;
use crate::converters::Failure;
use crate::outside::encoding;
use crate::outside::json;
use crate::outside::json::Json;
use crate::outside::json::JsonView;
use crate::text;

verus! {

// ---------------------------------------------------------------------------
// Entries
// ---------------------------------------------------------------------------

/// Keys and values, in the order in which the keys were first seen.
pub type Entries = Seq<(Seq<char>, Seq<char>)>;

/// Where a key stands in a list, or the length of the list.
pub open spec fn place(list: Entries, key: Seq<char>) -> nat
    decreases list.len(),
{
    if list.len() == 0 || list[0].0 == key {
        0
    } else {
        1 + place(list.skip(1), key)
    }
}

/// The entries with a key set to a value: in its place, or behind all others.
pub open spec fn put(list: Entries, key: Seq<char>, value: Seq<char>) -> Entries {
    let i = place(list, key) as int;
    if i < list.len() {
        list.update(i, (key, value))
    } else {
        list.push((key, value))
    }
}

/// What a list of keys and values holds.
pub open spec fn entries_view(list: Seq<(String, String)>) -> Entries {
    list.map_values(|p: (String, String)| (p.0@, p.1@))
}

/// Sets a key to a value.
pub fn put_entry(list: &mut Vec<(String, String)>, key: String, value: String)
    ensures
        entries_view(final(list)@) == put(entries_view(old(list)@), key@, value@),
{
    let ghost all = entries_view(list@);
    let ghost k = key@;
    let ghost v = value@;
    let mut i: usize = 0;
    assert(all.skip(0) =~= all);
    while i < list.len() && !text::same(list[i].0.as_str(), key.as_str())
        invariant
            all == entries_view(list@),
            k == key@,
            i <= list@.len(),
            place(all, k) == i + place(all.skip(i as int), k),
        decreases list@.len() - i,
    {
        assert(all.skip(i as int)[0] == (list@[i as int].0@, list@[i as int].1@));
        assert(all.skip(i as int).skip(1) =~= all.skip(i + 1));
        i = i + 1;
    }
    proof {
        if i < list@.len() {
            assert(all.skip(i as int)[0] == (list@[i as int].0@, list@[i as int].1@));
        }
        assert(place(all, k) == i);
    }
    if i < list.len() {
        list.set(i, (key, value));
        assert(entries_view(list@) =~= all.update(i as int, (k, v)));
    } else {
        list.push((key, value));
        assert(entries_view(list@) =~= all.push((k, v)));
    }
}

// ---------------------------------------------------------------------------
// Flattening
// ---------------------------------------------------------------------------

/// A JSON value as the text of a cell; arrays and objects in compact form.
pub open spec fn scalar_text(v: JsonView) -> Seq<char> {
    match v {
        JsonView::Null => Seq::empty(),
        JsonView::Bool(b) => if b {
            "true"@
        } else {
            "false"@
        },
        JsonView::Number(n) => n,
        JsonView::Text(s) => s,
        JsonView::Array(_, compact) => compact,
        JsonView::Object(_, compact) => compact,
    }
}

/// Whether all items are null.
pub open spec fn all_null(items: Seq<JsonView>) -> bool {
    forall|i: int| 0 <= i < items.len() ==> (#[trigger] items[i]) is Null
}

/// Whether no item is an array or an object.
pub open spec fn all_scalar(items: Seq<JsonView>) -> bool {
    forall|i: int|
        0 <= i < items.len() ==> !((#[trigger] items[i]) is Array) && !(items[i] is Object)
}

/// The texts of the items that are not null.
pub open spec fn item_texts(items: Seq<JsonView>) -> Seq<Seq<char>>
    decreases items.len(),
{
    if items.len() == 0 {
        Seq::empty()
    } else if items.last() is Null {
        item_texts(items.drop_last())
    } else {
        item_texts(items.drop_last()).push(scalar_text(items.last()))
    }
}

/// The text of an array: its items joined, or its compact form where one of
/// them is an array or an object.
pub open spec fn array_text(items: Seq<JsonView>, compact: Seq<char>) -> Seq<char> {
    if all_null(items) {
        Seq::empty()
    } else if all_scalar(items) {
        text::join(item_texts(items), "; "@)
    } else {
        compact
    }
}

/// A key below a prefix.
pub open spec fn dotted(prefix: Seq<char>, key: Seq<char>) -> Seq<char> {
    if prefix.len() == 0 {
        key
    } else {
        prefix + "."@ + key
    }
}

/// The entries with a JSON value added under a prefix: one for each scalar and
/// each array, objects taken apart.
pub open spec fn flatten(v: JsonView, prefix: Seq<char>, out: Entries) -> Entries
    decreases v, 0nat,
{
    match v {
        JsonView::Object(members, _) => flatten_members(
            members,
            members.len(),
            prefix,
            if members.len() == 0 && prefix.len() > 0 {
                put(out, prefix, Seq::empty())
            } else {
                out
            },
        ),
        JsonView::Array(items, compact) => put(out, prefix, array_text(items, compact)),
        other => put(out, prefix, scalar_text(other)),
    }
}

/// The entries with the first `n` members of an object added.
pub open spec fn flatten_members(
    members: Seq<(Seq<char>, JsonView)>,
    n: nat,
    prefix: Seq<char>,
    out: Entries,
) -> Entries
    decreases members, n,
{
    if n == 0 || n > members.len() {
        out
    } else {
        let before = flatten_members(members, (n - 1) as nat, prefix, out);
        let member = members[n - 1];
        flatten(member.1, dotted(prefix, member.0), before)
    }
}

/// A JSON value as the text of a cell.
pub fn json_scalar_to_string(value: &Json) -> (r: String)
    ensures
        r@ == scalar_text(value.tree()),
{
    match value {
        Json::Null => String::new(),
        Json::Bool(b) => if *b {
            "true".to_owned()
        } else {
            "false".to_owned()
        },
        Json::Number(n) => n.clone(),
        Json::Text(s) => s.clone(),
        Json::Array(_, compact) => compact.clone(),
        Json::Object(_, compact) => compact.clone(),
    }
}

/// The trees of some values.
pub open spec fn trees(items: Seq<Json>) -> Seq<JsonView> {
    Seq::new(items.len(), |i: int| items[i].tree())
}

fn is_null(v: &Json) -> (r: bool)
    ensures
        r == (v.tree() is Null),
{
    match v {
        Json::Null => true,
        _ => false,
    }
}

fn is_scalar(v: &Json) -> (r: bool)
    ensures
        r == (!(v.tree() is Array) && !(v.tree() is Object)),
{
    match v {
        Json::Array(_, _) => false,
        Json::Object(_, _) => false,
        _ => true,
    }
}

fn array_to_string(items: &Vec<Json>, compact: &String) -> (r: String)
    ensures
        r@ == array_text(trees(items@), compact@),
{
    let ghost all = trees(items@);
    let mut null = true;
    let mut scalar = true;
    let mut texts: Vec<String> = Vec::new();
    assert(texts.deep_view() =~= item_texts(all.take(0)));
    for i in 0..items.len()
        invariant
            all == trees(items@),
            null == all_null(all.take(i as int)),
            scalar == all_scalar(all.take(i as int)),
            texts.deep_view() == item_texts(all.take(i as int)),
    {
        let ghost so_far = texts.deep_view();
        let ghost now = all.take(i + 1);
        proof {
            assert(now.drop_last() =~= all.take(i as int));
            assert(now[i as int] == items@[i as int].tree());
            assert forall|j: int| 0 <= j < i implies now[j] == all.take(i as int)[j] by {}
        }
        let item = &items[i];
        if !is_scalar(item) {
            assert(!all_scalar(now));
            scalar = false;
        } else {
            if scalar {
                assert(all_scalar(now));
            } else {
                assert(!all_scalar(now)) by {
                    let j = choose|j: int|
                        0 <= j < i && !(!((#[trigger] all.take(i as int)[j]) is Array) && !(
                        all.take(i as int)[j] is Object));
                    assert(now[j] == all.take(i as int)[j]);
                }
            }
        }
        if is_null(item) {
            if null {
                assert(all_null(now));
            } else {
                assert(!all_null(now)) by {
                    let j = choose|j: int| 0 <= j < i && !((#[trigger] all.take(i as int)[j]) is Null);
                    assert(now[j] == all.take(i as int)[j]);
                }
            }
        } else {
            assert(!all_null(now));
            null = false;
            texts.push(json_scalar_to_string(item));
            assert(texts.deep_view() =~= so_far.push(scalar_text(item.tree())));
        }
    }
    assert(all.take(all.len() as int) =~= all);
    if null {
        String::new()
    } else if scalar {
        text::joined(&texts, "; ")
    } else {
        compact.clone()
    }
}

fn dotted_key(prefix: &str, key: &str) -> (r: String)
    ensures
        r@ == dotted(prefix@, key@),
{
    if prefix.is_empty() {
        key.to_owned()
    } else {
        text::cat3(prefix, ".", key)
    }
}

/// Flatten a JSON value into dotted `key`, `text` pairs.
///
/// Nested objects recurse (`{"a":{"b":1}}` gives `a.b`); arrays of scalars are
/// joined with `"; "`; arrays of objects or arrays become compact JSON, so
/// that no data is dropped.
pub fn flatten_to_strings(value: &Json, prefix: &str, out: &mut Vec<(String, String)>)
    ensures
        entries_view(final(out)@) == flatten(value.tree(), prefix@, entries_view(old(out)@)),
    decreases value,
{
    match value {
        Json::Object(members, _) => {
            let ghost parts = value.tree()->Object_0;
            assert(parts.len() == members@.len());
            if members.len() == 0 && !prefix.is_empty() {
                let nothing = String::new();
                assert(nothing@ =~= Seq::empty());
                put_entry(out, prefix.to_owned(), nothing);
            }
            let ghost before = entries_view(out@);
            for i in 0..members.len()
                invariant
                    value matches Json::Object(ms, _) && ms == members,
                    parts == value.tree()->Object_0,
                    parts.len() == members@.len(),
                    entries_view(out@) == flatten_members(parts, i as nat, prefix@, before),
            {
                assert(parts[i as int] == (members@[i as int].0@, members@[i as int].1.tree()));
                assert(decreases_to!(value => members@));
                assert(decreases_to!(value => members@[i as int].1));
                let key = dotted_key(prefix, members[i].0.as_str());
                flatten_to_strings(&members[i].1, key.as_str(), out);
            }
        },
        Json::Array(items, compact) => {
            let s = array_to_string(items, compact);
            assert(value.tree()->Array_0 =~= trees(items@));
            put_entry(out, prefix.to_owned(), s);
        },
        other => {
            let s = json_scalar_to_string(other);
            put_entry(out, prefix.to_owned(), s);
        },
    }
}

// ---------------------------------------------------------------------------
// Tables
// ---------------------------------------------------------------------------

/// A value as the entries of one row: objects flattened, anything else in a
/// `value` column.
pub open spec fn row_entries(v: JsonView) -> Entries {
    if v is Object {
        flatten(v, Seq::empty(), Seq::empty())
    } else {
        seq![("value"@, scalar_text(v))]
    }
}

/// The rows of a document: one for each item of an array, else one.
pub open spec fn document_rows(v: JsonView) -> Seq<Entries> {
    match v {
        JsonView::Array(items, _) => items.map_values(|item: JsonView| row_entries(item)),
        other => seq![row_entries(other)],
    }
}

/// The keys of some entries.
pub open spec fn keys(list: Entries) -> Seq<Seq<char>> {
    list.map_values(|p: (Seq<char>, Seq<char>)| p.0)
}

/// The keys of some rows, one row after the other.
pub open spec fn all_keys(rows: Seq<Entries>) -> Seq<Seq<char>>
    decreases rows.len(),
{
    if rows.len() == 0 {
        Seq::empty()
    } else {
        all_keys(rows.drop_last()) + keys(rows.last())
    }
}

/// The value of a key; empty where there is none.
pub open spec fn value_of(list: Entries, key: Seq<char>) -> Seq<char>
    decreases list.len(),
{
    if list.len() == 0 {
        Seq::empty()
    } else if list.last().0 == key {
        list.last().1
    } else {
        value_of(list.drop_last(), key)
    }
}

/// The header: all keys in the order in which they are first seen.
pub open spec fn union_headers(rows: Seq<Entries>) -> Seq<Seq<char>> {
    converters::first_seen(all_keys(rows))
}

/// Entries as a table.
pub open spec fn entries_table(rows: Seq<Entries>) -> TableView {
    let headers = union_headers(rows);
    TableView {
        headers,
        rows: rows.map_values(
            |row: Entries| headers.map_values(|h: Seq<char>| value_of(row, h)),
        ),
    }
}

/// The table of a document.
pub open spec fn document_table(v: JsonView) -> TableView {
    entries_table(document_rows(v))
}

/// The table of a JSON text, or why there is none.
pub open spec fn json_table(label: Seq<char>, s: Seq<char>) -> Result<TableView, Failure> {
    match json::parsed_json(s) {
        Ok(v) => Ok(document_table(v)),
        Err(why) => Err(Failure::MalformedData { path: label, format: "JSON"@, reason: why }),
    }
}

fn row_of(v: &Json) -> (r: Vec<(String, String)>)
    ensures
        entries_view(r@) == row_entries(v.tree()),
{
    let mut out: Vec<(String, String)> = Vec::new();
    match v {
        Json::Object(_, _) => {
            proof {
                reveal_strlit("");
                assert(""@ =~= Seq::empty());
                assert(entries_view(out@) =~= Seq::empty());
            }
            flatten_to_strings(v, "", &mut out);
        },
        other => {
            let s = json_scalar_to_string(other);
            out.push(("value".to_owned(), s));
            assert(entries_view(out@) =~= seq![("value"@, scalar_text(v.tree()))]);
        },
    }
    out
}

fn rows_of(v: &Json) -> (r: Vec<Vec<(String, String)>>)
    ensures
        json::rows_view(r@) == document_rows(v.tree()),
{
    let ghost see = |p: (String, String)| (p.0@, p.1@);
    match v {
        Json::Array(items, _) => {
            let ghost parts = v.tree()->Array_0;
            assert(parts =~= trees(items@));
            let mut out: Vec<Vec<(String, String)>> = Vec::new();
            for i in 0..items.len()
                invariant
                    parts == trees(items@),
                    out@.len() == i,
                    forall|j: int|
                        0 <= j < i ==> entries_view((#[trigger] out@[j])@) == row_entries(
                            parts[j],
                        ),
            {
                out.push(row_of(&items[i]));
            }
            assert(json::rows_view(out@) =~= document_rows(v.tree()));
            out
        },
        other => {
            let row = row_of(other);
            let out = vec![row];
            assert(json::rows_view(out@) =~= seq![entries_view(row@)]);
            out
        },
    }
}

fn value_for(list: &Vec<(String, String)>, key: &str) -> (r: String)
    ensures
        r@ == value_of(entries_view(list@), key@),
{
    let ghost all = entries_view(list@);
    let mut i: usize = list.len();
    assert(all.take(i as int) =~= all);
    while i > 0
        invariant
            all == entries_view(list@),
            i <= list@.len(),
            value_of(all, key@) == value_of(all.take(i as int), key@),
        decreases i,
    {
        assert(all.take(i as int).last() == (list@[i - 1].0@, list@[i - 1].1@));
        if text::same(list[i - 1].0.as_str(), key) {
            return list[i - 1].1.clone();
        }
        assert(all.take(i as int).drop_last() =~= all.take(i - 1));
        i = i - 1;
    }
    assert(value_of(all, key@) =~= Seq::empty());
    String::new()
}

fn headers_of(rows: &Vec<Vec<(String, String)>>) -> (r: Vec<String>)
    ensures
        r.deep_view() == union_headers(json::rows_view(rows@)),
{
    let ghost all = json::rows_view(rows@);
    let mut headers: Vec<String> = Vec::new();
    assert(headers.deep_view() =~= converters::first_seen(all_keys(all.take(0))));
    for i in 0..rows.len()
        invariant
            all == json::rows_view(rows@),
            headers.deep_view() == converters::first_seen(all_keys(all.take(i as int))),
    {
        let ghost seen = all_keys(all.take(i as int));
        let ghost more = keys(all[i as int]);
        proof {
            assert(all.take(i + 1).drop_last() =~= all.take(i as int));
            assert(all[i as int] == entries_view(rows@[i as int]@));
            assert(seen + more.take(0) =~= seen);
        }
        let row = &rows[i];
        for j in 0..row.len()
            invariant
                i < rows@.len(),
                row == rows@[i as int],
                more == keys(entries_view(rows@[i as int]@)),
                headers.deep_view() == converters::first_seen(seen + more.take(j as int)),
        {
            let ghost before = headers.deep_view();
            let key = &row[j].0;
            proof {
                let now = seen + more.take(j + 1);
                assert(now.drop_last() =~= seen + more.take(j as int));
                assert(now.last() == key@);
            }
            if !text::holds(&headers, key.as_str()) {
                headers.push(key.clone());
                assert(headers.deep_view() =~= before.push(key@));
            }
        }
        assert(more.take(more.len() as int) =~= more);
    }
    assert(all.take(all.len() as int) =~= all);
    headers
}

/// The table of a JSON document.
pub fn table_of_json(v: &Json) -> (r: Table)
    ensures
        r.deep_view() == document_table(v.tree()),
{
    let entries = rows_of(v);
    let ghost all = json::rows_view(entries@);
    let headers = headers_of(&entries);
    let ghost names = headers.deep_view();
    let mut rows: Vec<Vec<String>> = Vec::new();
    for i in 0..entries.len()
        invariant
            all == json::rows_view(entries@),
            names == headers.deep_view(),
            rows@.len() == i,
            forall|j: int|
                0 <= j < i ==> (#[trigger] rows@[j]).deep_view() == names.map_values(
                    |h: Seq<char>| value_of(all[j], h),
                ),
    {
        assert(all[i as int] == entries_view(entries@[i as int]@));
        let mut row: Vec<String> = Vec::new();
        for c in 0..headers.len()
            invariant
                i < entries@.len(),
                all[i as int] == entries_view(entries@[i as int]@),
                names == headers.deep_view(),
                row@.len() == c,
                forall|j: int|
                    0 <= j < c ==> (#[trigger] row@[j])@ == value_of(all[i as int], names[j]),
        {
            assert(names[c as int] == headers@[c as int]@);
            row.push(value_for(&entries[i], headers[c].as_str()));
        }
        assert(row.deep_view() =~= names.map_values(|h: Seq<char>| value_of(all[i as int], h)));
        rows.push(row);
    }
    assert(rows.deep_view() =~= all.map_values(
        |row: Entries| names.map_values(|h: Seq<char>| value_of(row, h)),
    ));
    Table { headers, rows }
}

/// Read a JSON document as a table.
///
/// An array of objects gives one row per object, flattened; a single object
/// gives one row; an array of scalars a single `value` column; a scalar a
/// single cell. The header is the union of all keys in first-seen order.
pub fn read_json_table(input: &str, content: &[u8]) -> (r: Result<Table, ConversionError>)
    ensures
        tabular::table_result(r) == json_table(input@, encoding::lossy(content@)),
        vstd::utf8::valid_utf8(content@) ==> tabular::table_result(r) == json_table(
            input@,
            vstd::utf8::decode_utf8(content@),
        ),
{
    let raw = encoding::lossy_text(content);
    match json::parse_json(raw.as_str()) {
        Ok(v) => Ok(table_of_json(&v)),
        Err(why) => Err(
            ConversionError::MalformedData {
                path: input.to_owned(),
                format: "JSON".to_owned(),
                reason: why,
            },
        ),
    }
}

} // verus!

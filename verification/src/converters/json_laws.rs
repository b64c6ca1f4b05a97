//! What holds of every flattened document.
use vstd::prelude::*;

use crate::converters;
use crate::converters::json_table;
use crate::converters::json_table::Entries;
use crate::converters::laws;
use crate::converters::table::TableView;
use crate::converters::tabular;
use crate::outside::json;
use crate::outside::json::JsonView;
use crate::text_laws;

verus! {

// ---------------------------------------------------------------------------
// Keys
// ---------------------------------------------------------------------------

/// Whether no key stands twice.
pub open spec fn keys_differ(list: Entries) -> bool {
    forall|i: int, j: int|
        0 <= i < j < list.len() ==> (#[trigger] list[i]).0 != (#[trigger] list[j]).0
}

/// The place of a key is the first entry that has it.
proof fn lemma_place(list: Entries, key: Seq<char>)
    ensures
        json_table::place(list, key) <= list.len(),
        json_table::place(list, key) < list.len() ==> list[json_table::place(
            list,
            key,
        ) as int].0 == key,
        forall|i: int|
            0 <= i < json_table::place(list, key) && i < list.len() ==> (#[trigger] list[i]).0
                != key,
    decreases list.len(),
{
    if list.len() > 0 && list[0].0 != key {
        let rest = list.skip(1);
        lemma_place(rest, key);
        assert forall|i: int| 0 <= i < json_table::place(list, key) && i < list.len() implies (
        #[trigger] list[i]).0 != key by {
            if i > 0 {
                assert(rest[i - 1] == list[i]);
            }
        }
    }
}

/// Setting a key sets that key and no other, keeps keys single, and keeps the
/// order in which they were first seen.
pub proof fn law_put(list: Entries, key: Seq<char>, value: Seq<char>)
    requires
        keys_differ(list),
    ensures
        keys_differ(json_table::put(list, key, value)),
        json_table::put(list, key, value).contains((key, value)),
        json_table::put(list, key, value).len() >= list.len(),
        forall|i: int|
            0 <= i < list.len() ==> (#[trigger] json_table::put(list, key, value)[i]).0
                == list[i].0,
        forall|i: int|
            0 <= i < list.len() && (#[trigger] list[i]).0 != key ==> json_table::put(
                list,
                key,
                value,
            ).contains(list[i]),
{
    let n = json_table::place(list, key) as int;
    let now = json_table::put(list, key, value);
    lemma_place(list, key);
    assert(now[n] == (key, value));
    assert forall|i: int| 0 <= i < list.len() && (#[trigger] list[i]).0 != key implies now.contains(
        list[i],
    ) by {
        assert(now[i] == list[i]);
    }
}

/// Flattening keeps each key single.
pub proof fn law_flattened_keys_differ(v: JsonView, prefix: Seq<char>, out: Entries)
    requires
        keys_differ(out),
    ensures
        keys_differ(json_table::flatten(v, prefix, out)),
    decreases v, 0nat,
{
    match v {
        JsonView::Object(members, _) => {
            let start = if members.len() == 0 && prefix.len() > 0 {
                json_table::put(out, prefix, Seq::empty())
            } else {
                out
            };
            law_put(out, prefix, Seq::empty());
            lemma_members_differ(members, members.len(), prefix, start);
        },
        JsonView::Array(items, compact) => {
            law_put(out, prefix, json_table::array_text(items, compact));
        },
        other => {
            law_put(out, prefix, json_table::scalar_text(other));
        },
    }
}

proof fn lemma_members_differ(
    members: Seq<(Seq<char>, JsonView)>,
    n: nat,
    prefix: Seq<char>,
    out: Entries,
)
    requires
        keys_differ(out),
        n <= members.len(),
    ensures
        keys_differ(json_table::flatten_members(members, n, prefix, out)),
    decreases members, n,
{
    if n > 0 {
        lemma_members_differ(members, (n - 1) as nat, prefix, out);
        let member = members[n - 1];
        law_flattened_keys_differ(
            member.1,
            json_table::dotted(prefix, member.0),
            json_table::flatten_members(members, (n - 1) as nat, prefix, out),
        );
    }
}

// ---------------------------------------------------------------------------
// Tables
// ---------------------------------------------------------------------------

/// No column stands twice in the table of a document.
pub proof fn law_columns_are_distinct(v: JsonView)
    ensures
        json_table::document_table(v).headers.no_duplicates(),
{
    laws::lemma_first_seen(json_table::all_keys(json_table::document_rows(v)));
}

proof fn lemma_key_listed(rows: Seq<Entries>, i: int, k: int)
    requires
        0 <= i < rows.len(),
        0 <= k < rows[i].len(),
    ensures
        json_table::all_keys(rows).contains(rows[i][k].0),
    decreases rows.len(),
{
    let rest = json_table::all_keys(rows.drop_last());
    let last = json_table::keys(rows.last());
    let all = rest + last;
    if i < rows.len() - 1 {
        lemma_key_listed(rows.drop_last(), i, k);
        let j = choose|j: int| 0 <= j < rest.len() && rest[j] == rows[i][k].0;
        assert(all[j] == rows[i][k].0);
    } else {
        assert(last[k] == rows[i][k].0);
        assert(all[rest.len() + k] == rows[i][k].0);
    }
}

proof fn lemma_value_of(list: Entries, k: int)
    requires
        keys_differ(list),
        0 <= k < list.len(),
    ensures
        json_table::value_of(list, list[k].0) == list[k].1,
    decreases list.len(),
{
    if k < list.len() - 1 {
        assert(list[k].0 != list[list.len() - 1].0);
        let rest = list.drop_last();
        assert(rest[k] == list[k]);
        lemma_value_of(rest, k);
    }
}

proof fn lemma_row_keys_differ(v: JsonView)
    ensures
        keys_differ(json_table::row_entries(v)),
{
    if v is Object {
        law_flattened_keys_differ(v, Seq::empty(), Seq::empty());
    }
}

/// Nothing is dropped: every flattened value of a row stands in that row,
/// under the header of its key.
pub proof fn law_table_keeps_values(v: JsonView, i: int, k: int)
    requires
        0 <= i < json_table::document_rows(v).len(),
        0 <= k < json_table::document_rows(v)[i].len(),
    ensures
        exists|c: int|
            0 <= c < json_table::document_table(v).headers.len() && (
            #[trigger] json_table::document_table(v).headers[c]) == json_table::document_rows(v)[i][k].0
                && json_table::document_table(v).rows[i][c] == json_table::document_rows(
                v,
            )[i][k].1,
{
    let rows = json_table::document_rows(v);
    let table = json_table::document_table(v);
    let row = rows[i];
    lemma_key_listed(rows, i, k);
    laws::lemma_first_seen(json_table::all_keys(rows));
    assert(table.headers.contains(row[k].0));
    let c = choose|c: int| 0 <= c < table.headers.len() && table.headers[c] == row[k].0;
    match v {
        JsonView::Array(items, _) => {
            lemma_row_keys_differ(items[i]);
        },
        other => {
            lemma_row_keys_differ(other);
        },
    }
    lemma_value_of(row, k);
    assert(table.rows[i][c] == json_table::value_of(row, table.headers[c]));
}

/// Every row of the table of a document is as wide as its header.
pub proof fn law_table_is_rectangular(v: JsonView, i: int)
    requires
        0 <= i < json_table::document_table(v).rows.len(),
    ensures
        json_table::document_table(v).rows[i].len() == json_table::document_table(v).headers.len(),
{
}

/// Flattening texts under different keys keeps each of them.
proof fn lemma_texts_kept(members: Seq<(Seq<char>, JsonView)>, n: nat, m: int)
    requires
        0 <= m < n <= members.len(),
        forall|k: int| 0 <= k < members.len() ==> (#[trigger] members[k]).1 is Text,
        forall|k: int, l: int|
            0 <= k < l < members.len() ==> (#[trigger] members[k]).0 != (#[trigger] members[l]).0,
    ensures
        json_table::flatten_members(members, n, Seq::empty(), Seq::empty()).contains(
            (members[m].0, members[m].1->Text_0),
        ),
    decreases n,
{
    let empty: Entries = Seq::empty();
    let before = json_table::flatten_members(members, (n - 1) as nat, Seq::empty(), empty);
    let last = members[n - 1];
    lemma_members_differ(members, (n - 1) as nat, Seq::empty(), empty);
    law_put(before, last.0, last.1->Text_0);
    reveal_with_fuel(json_table::flatten, 2);
    reveal_with_fuel(json_table::flatten_members, 2);
    assert(json_table::dotted(Seq::empty(), last.0) == last.0);
    assert(json_table::flatten(last.1, last.0, before) == json_table::put(
        before,
        last.0,
        last.1->Text_0,
    ));
    assert(json_table::flatten_members(members, n, Seq::empty(), empty) == json_table::put(
        before,
        last.0,
        last.1->Text_0,
    ));
    if m < n - 1 {
        lemma_texts_kept(members, (n - 1) as nat, m);
        let entry = (members[m].0, members[m].1->Text_0);
        let k = choose|k: int| 0 <= k < before.len() && before[k] == entry;
        assert(before[k].0 != last.0);
    }
}

/// Rows that were written read back: the table of the text has each value of a
/// row in that row, under the header of its key.
pub proof fn law_rows_read_back(
    label: Seq<char>,
    s: Seq<char>,
    rows: Seq<Seq<(Seq<char>, Seq<char>)>>,
    i: int,
    j: int,
)
    requires
        json::reads_as_rows(s, rows),
        0 <= i < rows.len(),
        json::is_last(rows[i], j),
    ensures
        json_table::json_table(label, s) matches Ok(t) && t.rows.len() == rows.len() && exists|
            c: int,
        |
            0 <= c < t.headers.len() && (#[trigger] t.headers[c]) == rows[i][j].0 && t.rows[i][c]
                == rows[i][j].1,
{
    let v = json::parsed_json(s)->Ok_0;
    let items = v->Array_0;
    let members = items[i]->Object_0;
    assert(json::is_object_of(items[i], rows[i]));
    let member = (rows[i][j].0, JsonView::Text(rows[i][j].1));
    assert(members.contains(member));
    let m = choose|m: int| 0 <= m < members.len() && members[m] == member;
    lemma_texts_kept(members, members.len(), m);
    let entries = json_table::document_rows(v)[i];
    assert(entries == json_table::row_entries(items[i]));
    let entry = (rows[i][j].0, rows[i][j].1);
    assert(entries.contains(entry));
    let k = choose|k: int| 0 <= k < entries.len() && entries[k] == entry;
    law_table_keeps_values(v, i, k);
}

/// A row of texts under single keys flattens to itself.
proof fn lemma_flat_row(row: Entries, members: Seq<(Seq<char>, JsonView)>, n: nat)
    requires
        json::keys_are_single(row),
        members == row.map_values(|p: (Seq<char>, Seq<char>)| (p.0, JsonView::Text(p.1))),
        n <= row.len(),
    ensures
        json_table::flatten_members(members, n, Seq::empty(), Seq::empty()) == row.take(n as int),
    decreases n,
{
    let empty: Entries = Seq::empty();
    if n == 0 {
        assert(row.take(0) =~= empty);
    } else {
        let before = row.take(n - 1);
        lemma_flat_row(row, members, (n - 1) as nat);
        let last = members[n - 1];
        let key = row[n - 1].0;
        assert(json_table::dotted(Seq::empty(), last.0) == key);
        lemma_place(before, key);
        if json_table::place(before, key) < before.len() {
            let k = json_table::place(before, key) as int;
            assert(before[k] == row[k]);
        }
        reveal_with_fuel(json_table::flatten, 2);
        assert(json_table::flatten(last.1, key, before) == json_table::put(
            before,
            key,
            row[n - 1].1,
        ));
        assert(before.push((key, row[n - 1].1)) =~= row.take(n as int));
    }
}

/// A list of different texts is all first seen.
proof fn lemma_all_first_seen(v: Seq<Seq<char>>)
    requires
        v.no_duplicates(),
    ensures
        converters::first_seen(v) == v,
    decreases v.len(),
{
    if v.len() > 0 {
        let rest = v.drop_last();
        assert(rest.no_duplicates()) by {
            assert forall|i: int, j: int| 0 <= i < rest.len() && 0 <= j < rest.len() && i
                != j implies rest[i] != rest[j] by {
                assert(v[i] != v[j]);
            }
        }
        lemma_all_first_seen(rest);
        if rest.contains(v.last()) {
            let k = choose|k: int| 0 <= k < rest.len() && rest[k] == v.last();
            assert(v[k] == v[v.len() - 1]);
        }
        assert(rest.push(v.last()) =~= v);
    } else {
        assert(v =~= Seq::<Seq<char>>::empty());
    }
}

/// What was seen already adds nothing.
proof fn lemma_seen_again(v: Seq<Seq<char>>, more: Seq<Seq<char>>)
    requires
        forall|k: int| 0 <= k < more.len() ==> v.contains(#[trigger] more[k]),
    ensures
        converters::first_seen(v + more) == converters::first_seen(v),
    decreases more.len(),
{
    if more.len() == 0 {
        assert(v + more =~= v);
    } else {
        let rest = more.drop_last();
        assert forall|k: int| 0 <= k < rest.len() implies v.contains(#[trigger] rest[k]) by {
            assert(rest[k] == more[k]);
        }
        lemma_seen_again(v, rest);
        laws::lemma_first_seen(v + rest);
        assert((v + more).drop_last() =~= v + rest);
        assert(v.contains(more[more.len() - 1]));
        let k = choose|k: int| 0 <= k < v.len() && v[k] == more.last();
        assert((v + rest)[k] == more.last());
        assert((v + more).last() == more.last());
    }
}

/// Rows that all have the same keys have these as header.
proof fn lemma_same_keys(rows: Seq<Entries>, headers: Seq<Seq<char>>)
    requires
        rows.len() > 0,
        headers.no_duplicates(),
        forall|i: int| 0 <= i < rows.len() ==> json_table::keys(#[trigger] rows[i]) == headers,
    ensures
        json_table::union_headers(rows) == headers,
        forall|k: int|
            0 <= k < headers.len() ==> json_table::all_keys(rows).contains(#[trigger] headers[k]),
    decreases rows.len(),
{
    let front = rows.drop_last();
    let before = json_table::all_keys(front);
    let all = json_table::all_keys(rows);
    assert(json_table::keys(rows[rows.len() - 1]) == headers);
    assert(all == before + headers);
    if front.len() == 0 {
        assert(all =~= headers);
        lemma_all_first_seen(headers);
    } else {
        assert forall|i: int| 0 <= i < front.len() implies json_table::keys(#[trigger] front[i])
            == headers by {
            assert(front[i] == rows[i]);
        }
        lemma_same_keys(front, headers);
        lemma_seen_again(before, headers);
    }
    assert forall|k: int| 0 <= k < headers.len() implies all.contains(#[trigger] headers[k]) by {
        assert(all[before.len() + k] == headers[k]);
    }
}

/// A table that was written as JSON reads back as it was: one with rows, all as
/// wide as the header, and with headers that differ and are not empty.
pub proof fn law_json_table_reads_back(label: Seq<char>, s: Seq<char>, t: TableView)
    requires
        json::reads_as_rows(s, tabular::keyed_rows(t)),
        t.rows.len() > 0,
        t.headers.no_duplicates(),
        forall|c: int| 0 <= c < t.headers.len() ==> (#[trigger] t.headers[c]).len() > 0,
        forall|i: int| 0 <= i < t.rows.len() ==> (#[trigger] t.rows[i]).len() == t.headers.len(),
    ensures
        json_table::json_table(label, s) == Ok::<_, converters::Failure>(t),
{
    let v = json::parsed_json(s)->Ok_0;
    let items = v->Array_0;
    let written = tabular::keyed_rows(t);
    let rows = json_table::document_rows(v);
    assert forall|i: int| 0 <= i < rows.len() implies #[trigger] rows[i] == written[i]
        && json_table::keys(rows[i]) == t.headers by {
        let row = written[i];
        assert(row == tabular::keyed_row(t.headers, t.rows[i]));
        assert(json::is_object_of(items[i], row));
        assert(json::keys_are_single(row)) by {
            assert forall|j: int, k: int| 0 <= j < k < row.len() implies (#[trigger] row[j]).0 != (
            #[trigger] row[k]).0 by {
                assert(t.headers[j] != t.headers[k]);
            }
        }
        let members = items[i]->Object_0;
        lemma_flat_row(row, members, row.len());
        assert(row.take(row.len() as int) =~= row);
        reveal_with_fuel(json_table::flatten, 2);
        assert(json_table::row_entries(items[i]) == row);
        assert(json_table::keys(row) =~= t.headers);
    }
    lemma_same_keys(rows, t.headers);
    let table = json_table::document_table(v);
    assert forall|i: int| 0 <= i < t.rows.len() implies #[trigger] table.rows[i] == t.rows[i] by {
        let row = rows[i];
        assert(row == tabular::keyed_row(t.headers, t.rows[i]));
        assert(keys_differ(row)) by {
            assert forall|j: int, k: int| 0 <= j < k < row.len() implies (#[trigger] row[j]).0 != (
            #[trigger] row[k]).0 by {
                assert(t.headers[j] != t.headers[k]);
            }
        }
        assert forall|c: int| 0 <= c < t.headers.len() implies table.rows[i][c]
            == t.rows[i][c] by {
            assert(row[c].0 == t.headers[c]);
            lemma_value_of(row, c);
        }
        assert(table.rows[i] =~= t.rows[i]);
    }
    assert(table.rows =~= t.rows);
}

// ---------------------------------------------------------------------------
// Values
// ---------------------------------------------------------------------------

/// A cell says what the value says: a truth value by its name, a number by its
/// numeral, a text as it is, nothing where there is none.
pub proof fn law_scalars_as_text(v: JsonView)
    ensures
        v matches JsonView::Bool(b) ==> (b ==> json_table::scalar_text(v) == "true"@) && (!b
            ==> json_table::scalar_text(v) == "false"@),
        v matches JsonView::Number(n) ==> json_table::scalar_text(v) == n,
        v matches JsonView::Text(s) ==> json_table::scalar_text(v) == s,
        v is Null ==> json_table::scalar_text(v).len() == 0,
        v matches JsonView::Array(_, compact) ==> json_table::scalar_text(v) == compact,
        v matches JsonView::Object(_, compact) ==> json_table::scalar_text(v) == compact,
{
}

/// Truth values that differ in a document differ in the table.
pub proof fn law_truth_values_differ(a: bool, b: bool)
    ensures
        json_table::scalar_text(JsonView::Bool(a)) == json_table::scalar_text(JsonView::Bool(b))
            <==> a == b,
{
    reveal_strlit("true");
    reveal_strlit("false");
    assert("true"@.len() != "false"@.len());
}

/// Whether a value is no list and no object.
pub open spec fn is_scalar(v: JsonView) -> bool {
    !(v is Array) && !(v is Object)
}

/// Whether an object holds scalars under different keys.
pub open spec fn is_flat(members: Seq<(Seq<char>, JsonView)>) -> bool {
    &&& forall|k: int| 0 <= k < members.len() ==> is_scalar((#[trigger] members[k]).1)
    &&& forall|k: int, l: int|
        0 <= k < l < members.len() ==> (#[trigger] members[k]).0 != (#[trigger] members[l]).0
}

proof fn lemma_put_new(list: Entries, key: Seq<char>, value: Seq<char>)
    requires
        forall|k: int| 0 <= k < list.len() ==> (#[trigger] list[k]).0 != key,
    ensures
        json_table::put(list, key, value) == list.push((key, value)),
{
    lemma_place(list, key);
}

/// A key below a prefix.
pub open spec fn below(prefix: Seq<char>, key: Seq<char>) -> Seq<char> {
    if prefix.len() > 0 {
        prefix.push('.') + key
    } else {
        key
    }
}

proof fn lemma_below(prefix: Seq<char>, a: Seq<char>, b: Seq<char>)
    ensures
        json_table::dotted(prefix, a) == below(prefix, a),
        below(prefix, a) == below(prefix, b) ==> a == b,
{
    reveal_strlit(".");
    assert(prefix + "."@ + a =~= prefix.push('.') + a);
    let n = prefix.len() as int + 1;
    if prefix.len() > 0 && below(prefix, a) == below(prefix, b) {
        assert(below(prefix, a).skip(n) =~= a);
        assert(below(prefix, b).skip(n) =~= b);
    }
}

/// What the first fields of a flat object give.
spec fn fields(members: Seq<(Seq<char>, JsonView)>, n: nat, prefix: Seq<char>) -> Entries {
    Seq::new(
        n,
        |k: int| (below(prefix, members[k].0), json_table::scalar_text(members[k].1)),
    )
}

proof fn lemma_fields(members: Seq<(Seq<char>, JsonView)>, n: nat, prefix: Seq<char>)
    requires
        is_flat(members),
        n <= members.len(),
    ensures
        json_table::flatten_members(members, n, prefix, Seq::empty()) == fields(members, n, prefix),
    decreases n,
{
    let now = fields(members, n, prefix);
    if n == 0 {
        assert(now =~= Seq::empty());
    } else {
        let less = (n - 1) as nat;
        lemma_fields(members, less, prefix);
        let before = fields(members, less, prefix);
        let member = members[n - 1];
        lemma_below(prefix, member.0, member.0);
        assert(is_scalar(member.1));
        assert forall|k: int| 0 <= k < before.len() implies (#[trigger] before[k]).0 != below(
            prefix,
            member.0,
        ) by {
            lemma_below(prefix, members[k].0, member.0);
            assert(members[k].0 != member.0);
        }
        lemma_put_new(before, below(prefix, member.0), json_table::scalar_text(member.1));
        assert(json_table::flatten(member.1, json_table::dotted(prefix, member.0), before)
            == json_table::put(
            before,
            below(prefix, member.0),
            json_table::scalar_text(member.1),
        ));
        assert(now =~= before.push((below(prefix, member.0), json_table::scalar_text(member.1))));
    }
}

/// The fields of an object stand under their keys, in order; those of an object
/// within another under the key of that one, a point and their own.
pub proof fn law_fields_under_their_keys(
    members: Seq<(Seq<char>, JsonView)>,
    compact: Seq<char>,
    prefix: Seq<char>,
    k: int,
)
    requires
        is_flat(members),
        0 <= k < members.len(),
    ensures
        ({
            let out = json_table::flatten(
                JsonView::Object(members, compact),
                prefix,
                Seq::empty(),
            );
            &&& out.len() == members.len()
            &&& out[k].0 == (if prefix.len() > 0 {
                prefix.push('.') + members[k].0
            } else {
                members[k].0
            })
            &&& members[k].1 matches JsonView::Bool(b) ==> out[k].1 == (if b {
                "true"@
            } else {
                "false"@
            })
            &&& members[k].1 matches JsonView::Number(n) ==> out[k].1 == n
            &&& members[k].1 matches JsonView::Text(s) ==> out[k].1 == s
            &&& members[k].1 is Null ==> out[k].1.len() == 0
        }),
{
    lemma_fields(members, members.len(), prefix);
}

proof fn lemma_members_so_far(
    members: Seq<(Seq<char>, JsonView)>,
    more: (Seq<char>, JsonView),
    n: nat,
    prefix: Seq<char>,
    out: Entries,
)
    requires
        n <= members.len(),
    ensures
        json_table::flatten_members(members.push(more), n, prefix, out)
            == json_table::flatten_members(members, n, prefix, out),
    decreases n,
{
    if n > 0 {
        lemma_members_so_far(members, more, (n - 1) as nat, prefix, out);
        assert(members.push(more)[n - 1] == members[n - 1]);
    }
}

/// The members of an object are flattened one after the other, each below its
/// key, whatever they are.
pub proof fn law_members_in_order(
    members: Seq<(Seq<char>, JsonView)>,
    more: (Seq<char>, JsonView),
    compact: Seq<char>,
    prefix: Seq<char>,
    out: Entries,
)
    requires
        members.len() > 0,
    ensures
        json_table::flatten(JsonView::Object(members.push(more), compact), prefix, out)
            == json_table::flatten(
            more.1,
            below(prefix, more.0),
            json_table::flatten(JsonView::Object(members, compact), prefix, out),
        ),
{
    lemma_members_so_far(members, more, members.len(), prefix, out);
    lemma_below(prefix, more.0, more.0);
    assert(members.push(more)[members.len() as int] == more);
}

/// A document that lists flat objects gives a row for each, and each field is in
/// the column of its key, as the value says it.
pub proof fn law_objects_give_rows(
    items: Seq<JsonView>,
    compact: Seq<char>,
    i: int,
    members: Seq<(Seq<char>, JsonView)>,
    own: Seq<char>,
    k: int,
)
    requires
        0 <= i < items.len(),
        items[i] == JsonView::Object(members, own),
        is_flat(members),
        0 <= k < members.len(),
    ensures
        json_table::document_table(JsonView::Array(items, compact)).rows.len() == items.len(),
        exists|c: int|
            #![trigger json_table::document_table(JsonView::Array(items, compact)).headers[c]]
            ({
                let t = json_table::document_table(JsonView::Array(items, compact));
                &&& 0 <= c < t.headers.len()
                &&& t.headers[c] == members[k].0
                &&& members[k].1 matches JsonView::Bool(b) ==> t.rows[i][c] == (if b {
                    "true"@
                } else {
                    "false"@
                })
                &&& members[k].1 matches JsonView::Number(n) ==> t.rows[i][c] == n
                &&& members[k].1 matches JsonView::Text(s) ==> t.rows[i][c] == s
                &&& members[k].1 is Null ==> t.rows[i][c].len() == 0
            }),
{
    let v = JsonView::Array(items, compact);
    let empty = Seq::<char>::empty();
    lemma_fields(members, members.len(), empty);
    let row = json_table::document_rows(v)[i];
    assert(row == json_table::flatten(items[i], empty, Seq::empty()));
    assert(row[k] == fields(members, members.len(), empty)[k]);
    law_table_keeps_values(v, i, k);
}

/// A document that is a single object gives the row that a list of it gives.
pub proof fn law_single_object(members: Seq<(Seq<char>, JsonView)>, own: Seq<char>, compact: Seq<char>)
    ensures
        json_table::document_table(JsonView::Object(members, own)) == json_table::document_table(
            JsonView::Array(seq![JsonView::Object(members, own)], compact),
        ),
{
    let v = JsonView::Object(members, own);
    assert(json_table::document_rows(JsonView::Array(seq![v], compact))
        =~= json_table::document_rows(v));
}

/// A list of bare values gives one column, called `value`, with a row for each.
pub proof fn law_bare_values(items: Seq<JsonView>, compact: Seq<char>, i: int)
    requires
        items.len() > 0,
        forall|k: int| 0 <= k < items.len() ==> is_scalar(#[trigger] items[k]),
        0 <= i < items.len(),
    ensures
        json_table::document_table(JsonView::Array(items, compact)).headers == seq!["value"@],
        json_table::document_table(JsonView::Array(items, compact)).rows.len() == items.len(),
        json_table::document_table(JsonView::Array(items, compact)).rows[i] == seq![
            json_table::scalar_text(items[i]),
        ],
{
    let v = JsonView::Array(items, compact);
    let rows = json_table::document_rows(v);
    let headers = seq!["value"@];
    assert forall|k: int| 0 <= k < rows.len() implies json_table::keys(#[trigger] rows[k])
        == headers by {
        assert(is_scalar(items[k]));
        assert(json_table::keys(rows[k]) =~= headers);
    }
    assert(headers.no_duplicates());
    lemma_same_keys(rows, headers);
    assert(is_scalar(items[i]));
    let row = rows[i];
    assert(row.drop_last() =~= Seq::<(Seq<char>, Seq<char>)>::empty());
    assert(json_table::value_of(row, "value"@) == row.last().1);
    assert(json_table::document_table(v).rows[i] =~= seq![json_table::scalar_text(items[i])]);
}

// ---------------------------------------------------------------------------
// Lists in a cell
// ---------------------------------------------------------------------------

proof fn lemma_item_texts(a: Seq<JsonView>, b: Seq<JsonView>)
    ensures
        json_table::item_texts(a + b) == json_table::item_texts(a) + json_table::item_texts(b),
        (exists|k: int| 0 <= k < b.len() && !(#[trigger] b[k] is Null))
            ==> json_table::item_texts(b).len() > 0,
    decreases b.len(),
{
    if b.len() == 0 {
        assert(a + b =~= a);
        assert(json_table::item_texts(a) + json_table::item_texts(b) =~= json_table::item_texts(a));
    } else {
        let less = b.drop_last();
        lemma_item_texts(a, less);
        assert((a + b).drop_last() =~= a + less);
        assert((a + b).last() == b.last());
        if !(b.last() is Null) {
            let t = json_table::scalar_text(b.last());
            assert((json_table::item_texts(a) + json_table::item_texts(less)).push(t)
                =~= json_table::item_texts(a) + json_table::item_texts(less).push(t));
        } else if exists|k: int| 0 <= k < b.len() && !(#[trigger] b[k] is Null) {
            let k = choose|k: int| 0 <= k < b.len() && !(#[trigger] b[k] is Null);
            assert(less[k] == b[k]);
        }
    }
}

/// Whether a list of scalars holds one that is not null.
pub open spec fn says_something(items: Seq<JsonView>) -> bool {
    &&& forall|k: int| 0 <= k < items.len() ==> is_scalar(#[trigger] items[k])
    &&& exists|k: int| 0 <= k < items.len() && !(#[trigger] items[k] is Null)
}

/// A list of values in a cell is what they say, in order, with `; ` between two;
/// those that say nothing leave no trace, and a list that holds a list or an
/// object stands there in compact form.
pub proof fn law_lists_in_cells(
    a: Seq<JsonView>,
    b: Seq<JsonView>,
    x: JsonView,
    compact: Seq<char>,
)
    ensures
        says_something(a) && says_something(b) ==> json_table::array_text(a + b, compact)
            == json_table::array_text(a, compact) + "; "@ + json_table::array_text(b, compact),
        says_something(a) ==> json_table::array_text(a.push(JsonView::Null), compact)
            == json_table::array_text(a, compact),
        is_scalar(x) ==> json_table::array_text(seq![x], compact) == json_table::scalar_text(x),
        a.contains(x) && !is_scalar(x) ==> json_table::array_text(a, compact) == compact,
{
    let none = Seq::<JsonView>::empty();
    if says_something(a) && says_something(b) {
        lemma_item_texts(none, a);
        lemma_item_texts(a, b);
        let all = a + b;
        let k = choose|k: int| 0 <= k < a.len() && !(#[trigger] a[k] is Null);
        let l = choose|l: int| 0 <= l < b.len() && !(#[trigger] b[l] is Null);
        assert(!(all[k] is Null));
        assert forall|j: int| 0 <= j < all.len() implies !((#[trigger] all[j]) is Array) && !(
        all[j] is Object) by {
            if j < a.len() {
                assert(is_scalar(a[j]));
            } else {
                assert(is_scalar(b[j - a.len()]));
            }
        }
        lemma_all_scalar(a);
        lemma_all_scalar(b);
        text_laws::law_join(json_table::item_texts(a), json_table::item_texts(b), "; "@);
    }
    if says_something(a) {
        let longer = a.push(JsonView::Null);
        let k = choose|k: int| 0 <= k < a.len() && !(#[trigger] a[k] is Null);
        assert(!(longer[k] is Null));
        lemma_all_scalar(a);
        assert forall|j: int| 0 <= j < longer.len() implies !((#[trigger] longer[j]) is Array) && !(
        longer[j] is Object) by {
            if j < a.len() {
                assert(is_scalar(a[j]));
            }
        }
        assert(longer.drop_last() =~= a);
    }
    if is_scalar(x) {
        let one = seq![x];
        assert(one[0] == x);
        if !(x is Null) {
            assert(json_table::all_scalar(one));
            assert(one.drop_last() =~= none);
            assert(json_table::item_texts(none) =~= Seq::<Seq<char>>::empty());
            assert(json_table::item_texts(one) =~= seq![json_table::scalar_text(x)]);
        } else {
            assert(json_table::all_null(one));
            assert(json_table::scalar_text(x) =~= Seq::<char>::empty());
        }
    }
}

proof fn lemma_all_scalar(items: Seq<JsonView>)
    requires
        says_something(items),
    ensures
        json_table::all_scalar(items),
        !json_table::all_null(items),
{
    assert forall|j: int| 0 <= j < items.len() implies !((#[trigger] items[j]) is Array) && !(
    items[j] is Object) by {
        assert(is_scalar(items[j]));
    }
}

/// Keys take their columns in the order in which they are first seen.
pub proof fn law_first_seen(v: Seq<Seq<char>>, x: Seq<char>)
    ensures
        v.contains(x) ==> converters::first_seen(v.push(x)) == converters::first_seen(v),
        !v.contains(x) ==> converters::first_seen(v.push(x)) == converters::first_seen(v).push(x),
{
    assert(v.push(x).drop_last() =~= v);
    laws::lemma_first_seen(v);
}

} // verus!

//! Tables: a header row and rows of the same width, all texts.
use vstd::prelude::*;

use crate::number;
use crate::text;

verus! {

/// A table.
#[derive(Debug)]
pub struct Table {
    pub headers: Vec<String>,
    pub rows: Vec<Vec<String>>,
}

/// What a [`Table`] holds.
#[verifier::ext_equal]
pub struct TableView {
    pub headers: Seq<Seq<char>>,
    pub rows: Seq<Seq<Seq<char>>>,
}

impl DeepView for Table {
    type V = TableView;

    open spec fn deep_view(&self) -> TableView {
        TableView { headers: self.headers.deep_view(), rows: self.rows.deep_view() }
    }
}

/// The table without columns and rows.
pub open spec fn empty_table() -> TableView {
    TableView { headers: Seq::empty(), rows: Seq::empty() }
}

/// The table without columns and rows.
pub fn no_table() -> (r: Table)
    ensures
        r.deep_view() == empty_table(),
{
    let r = Table { headers: Vec::new(), rows: Vec::new() };
    assert(r.headers.deep_view() =~= Seq::empty());
    assert(r.rows.deep_view() =~= Seq::empty());
    r
}

// ---------------------------------------------------------------------------
// Width
// ---------------------------------------------------------------------------

/// A row padded with empty texts, or cut, to a width.
pub open spec fn fitted(row: Seq<Seq<char>>, width: nat) -> Seq<Seq<char>> {
    Seq::new(
        width,
        |i: int|
            if i < row.len() {
                row[i]
            } else {
                Seq::empty()
            },
    )
}

/// The length of the longest row.
pub open spec fn widest(rows: Seq<Seq<Seq<char>>>) -> nat
    decreases rows.len(),
{
    if rows.len() == 0 {
        0
    } else {
        let before = widest(rows.drop_last());
        if rows.last().len() > before {
            rows.last().len()
        } else {
            before
        }
    }
}

/// Pad with `""` or truncate a row to `width`.
pub fn normalise_width(row: &mut Vec<String>, width: usize)
    ensures
        final(row).deep_view() == fitted(old(row).deep_view(), width as nat),
{
    let ghost all = row.deep_view();
    if row.len() > width {
        row.truncate(width);
    }
    while row.len() < width
        invariant
            row@.len() <= width,
            all.len() < row@.len() || all.len() == row@.len() || row@.len() == width,
            forall|i: int| 0 <= i < row@.len() && i < all.len() ==> (#[trigger] row@[i])@ == all[i],
            forall|i: int|
                all.len() <= i < row@.len() ==> (#[trigger] row@[i])@ == Seq::<char>::empty(),
        decreases width - row@.len(),
    {
        row.push(String::new());
        assert(row@[row@.len() - 1]@ =~= Seq::empty());
    }
    assert(row.deep_view() =~= fitted(all, width as nat));
}

/// The length of the longest row.
pub fn widest_of(rows: &Vec<Vec<String>>) -> (r: usize)
    ensures
        r == widest(rows.deep_view()),
{
    let ghost all = rows.deep_view();
    let mut width: usize = 0;
    for i in 0..rows.len()
        invariant
            all == rows.deep_view(),
            width == widest(all.take(i as int)),
    {
        assert(all.take(i + 1).drop_last() =~= all.take(i as int));
        assert(all[i as int] == rows@[i as int].deep_view());
        if rows[i].len() > width {
            width = rows[i].len();
        }
    }
    assert(all.take(all.len() as int) =~= all);
    width
}

// ---------------------------------------------------------------------------
// Headers
// ---------------------------------------------------------------------------

/// A header, or `column_N` for a blank one.
pub open spec fn named_header(headers: Seq<Seq<char>>, i: int) -> Seq<char> {
    if text::blank(headers[i]) {
        "column_"@ + number::decimal((i + 1) as nat)
    } else {
        headers[i]
    }
}

/// Whether a column keeps its header: one that is not blank, and that no
/// earlier column has.
pub open spec fn keeps_header(headers: Seq<Seq<char>>, i: int) -> bool {
    !text::blank(headers[i]) && !headers.take(i).contains(headers[i])
}

/// A name, or the name with a number behind it: `name`, `name (2)`, `name (3)`.
pub open spec fn numbered(name: Seq<char>, n: nat) -> Seq<char> {
    if n > 1 {
        name + " ("@ + number::decimal(n) + ")"@
    } else {
        name
    }
}

/// The first of `name`, `name (2)`, `name (3)` and so on, from a number on, that
/// is not taken. One of as many names as are taken, and one more, is not.
pub open spec fn first_free(name: Seq<char>, n: nat, taken: Seq<Seq<char>>) -> Seq<char>
    decreases taken.len() + 1 - n,
{
    if n > taken.len() || !taken.contains(numbered(name, n)) {
        numbered(name, n)
    } else {
        first_free(name, n + 1, taken)
    }
}

/// The first `n` headers with blank and repeated ones renamed.
pub open spec fn renamed(headers: Seq<Seq<char>>, n: nat) -> Seq<Seq<char>>
    decreases n,
{
    if n == 0 {
        Seq::empty()
    } else {
        let i = n - 1;
        let before = renamed(headers, i as nat);
        before.push(
            if keeps_header(headers, i) {
                headers[i]
            } else {
                first_free(named_header(headers, i), 1, headers + before)
            },
        )
    }
}

/// The headers with blank and repeated ones renamed.
pub open spec fn deduped(headers: Seq<Seq<char>>) -> Seq<Seq<char>> {
    renamed(headers, headers.len())
}

proof fn lemma_numbered_differ(name: Seq<char>, a: nat, b: nat)
    requires
        1 <= a < b,
    ensures
        numbered(name, a) != numbered(name, b),
{
    reveal_strlit(" (");
    reveal_strlit(")");
    let first = numbered(name, a);
    let second = numbered(name, b);
    if a > 1 {
        if first == second {
            let n = name.len() as int + 2;
            assert(first.subrange(n, first.len() - 1) =~= number::decimal(a));
            assert(second.subrange(n, second.len() - 1) =~= number::decimal(b));
            number::lemma_decimal_value(a);
            number::lemma_decimal_value(b);
        }
    } else {
        assert(second.len() > name.len());
    }
}

/// A list holds no more different names than it is long.
proof fn lemma_taken(name: Seq<char>, m: nat, taken: Seq<Seq<char>>)
    requires
        forall|k: nat| 1 <= k <= m ==> taken.contains(#[trigger] numbered(name, k)),
    ensures
        m <= taken.len(),
    decreases m,
{
    if m > 0 {
        let last = numbered(name, m);
        assert(taken.contains(last));
        let p = choose|p: int| 0 <= p < taken.len() && taken[p] == last;
        let rest = taken.remove(p);
        assert forall|k: nat| 1 <= k <= m - 1 implies rest.contains(
            #[trigger] numbered(name, k),
        ) by {
            lemma_numbered_differ(name, k, m);
            let x = numbered(name, k);
            assert(taken.contains(x));
            let q = choose|q: int| 0 <= q < taken.len() && taken[q] == x;
            assert(q != p);
            if q < p {
                assert(rest[q] == x);
            } else {
                assert(rest[q - 1] == x);
            }
        }
        lemma_taken(name, (m - 1) as nat, rest);
    }
}

/// The first free name is free, and begins with the name.
proof fn lemma_first_free(name: Seq<char>, n: nat, taken: Seq<Seq<char>>)
    requires
        n >= 1,
        forall|k: nat| 1 <= k < n ==> taken.contains(#[trigger] numbered(name, k)),
    ensures
        !taken.contains(first_free(name, n, taken)),
        name.is_prefix_of(first_free(name, n, taken)),
    decreases taken.len() + 1 - n,
{
    if taken.contains(numbered(name, n)) {
        if n > taken.len() {
            lemma_taken(name, n, taken);
        } else {
            lemma_first_free(name, n + 1, taken);
        }
    }
    assert(name.is_prefix_of(numbered(name, n)));
}

proof fn lemma_name_not_blank(headers: Seq<Seq<char>>, i: int)
    ensures
        !text::blank(named_header(headers, i)),
{
    let name = named_header(headers, i);
    reveal_strlit("column_");
    if text::blank(headers[i]) {
        assert(name[0] == 'c');
        assert(!text::is_space(name[0]));
    }
}

/// What holds of the first renamed headers: they differ, none is blank, and none
/// is a header that a later column keeps.
proof fn lemma_renamed(headers: Seq<Seq<char>>, n: nat)
    requires
        n <= headers.len(),
    ensures
        renamed(headers, n).len() == n,
        renamed(headers, n).no_duplicates(),
        forall|i: int| 0 <= i < n ==> !text::blank(#[trigger] renamed(headers, n)[i]),
        forall|i: int|
            0 <= i < n && keeps_header(headers, i) ==> #[trigger] renamed(headers, n)[i]
                == headers[i],
        forall|i: int, j: int|
            0 <= i < n <= j < headers.len() && keeps_header(headers, j) ==> #[trigger] renamed(
                headers,
                n,
            )[i] != #[trigger] headers[j],
    decreases n,
{
    if n > 0 {
        let k = n - 1;
        let before = renamed(headers, k as nat);
        let now = renamed(headers, n);
        lemma_renamed(headers, k as nat);
        if keeps_header(headers, k) {
            assert(now[k] == headers[k]);
            assert forall|j: int| n <= j < headers.len() && keeps_header(headers, j) implies now[k]
                != #[trigger] headers[j] by {
                assert(headers.take(j)[k] == headers[k]);
            }
            assert forall|i: int| 0 <= i < k implies now[i] != now[k] by {
                assert(before[i] != headers[k]);
            }
        } else {
            let name = named_header(headers, k);
            let taken = headers + before;
            lemma_first_free(name, 1, taken);
            lemma_name_not_blank(headers, k);
            let p = choose|p: int| 0 <= p < name.len() && !text::is_space(#[trigger] name[p]);
            assert(now[k][p] == name[p]);
            assert(!text::blank(now[k]));
            assert forall|j: int| n <= j < headers.len() implies now[k] != #[trigger] headers[j] by {
                assert(taken[j] == headers[j]);
            }
            assert forall|i: int| 0 <= i < k implies now[i] != now[k] by {
                assert(taken[headers.len() + i] == before[i]);
            }
        }
        assert forall|i: int| 0 <= i < k implies now[i] == before[i] by {}
        assert forall|i: int, j: int|
            0 <= i < n <= j < headers.len() && keeps_header(headers, j) implies #[trigger] now[i]
            != #[trigger] headers[j] by {
            if i < k {
                assert(before[i] != headers[j]);
            }
        }
    }
}

fn keeps_its_header(headers: &Vec<String>, i: usize) -> (r: bool)
    requires
        i < headers@.len(),
    ensures
        r == keeps_header(headers.deep_view(), i as int),
{
    let ghost all = headers.deep_view();
    let own = headers[i].as_str();
    if text::is_blank(own) {
        return false;
    }
    for j in 0..i
        invariant
            i < headers@.len(),
            all == headers.deep_view(),
            own@ == all[i as int],
            forall|k: int| 0 <= k < j ==> all[k] != all[i as int],
    {
        assert(all[j as int] == headers@[j as int]@);
        if text::same(headers[j].as_str(), own) {
            assert(all.take(i as int)[j as int] == all[i as int]);
            return false;
        }
    }
    assert(!all.take(i as int).contains(all[i as int]));
    true
}

fn number_name(name: &str, n: usize) -> (r: String)
    ensures
        r@ == numbered(name@, n as nat),
{
    if n > 1 {
        text::cat4(name, " (", number::decimal_of(n as u64).as_str(), ")")
    } else {
        name.to_owned()
    }
}

/// The first name that is not among those taken; these stand behind one more
/// text in front.
fn free_name(name: &str, taken: &Vec<String>) -> (r: String)
    requires
        taken@.len() > 0,
    ensures
        r@ == first_free(name@, 1, taken.deep_view().skip(1)),
{
    let ghost all = taken.deep_view().skip(1);
    let mut n: usize = 1;
    loop
        invariant
            taken@.len() > 0,
            all == taken.deep_view().skip(1),
            1 <= n <= taken@.len(),
            first_free(name@, 1, all) == first_free(name@, n as nat, all),
        decreases taken@.len() - n,
    {
        let candidate = number_name(name, n);
        let mut hit = false;
        for j in 1..taken.len()
            invariant
                taken@.len() > 0,
                all == taken.deep_view().skip(1),
                hit ==> all.contains(candidate@),
                !hit ==> forall|k: int| 0 <= k < j - 1 ==> all[k] != candidate@,
        {
            assert(all[j - 1] == taken@[j as int]@);
            if text::same(taken[j].as_str(), candidate.as_str()) {
                hit = true;
            }
        }
        assert(hit == all.contains(candidate@));
        if !hit || n == taken.len() {
            return candidate;
        }
        n = n + 1;
    }
}

/// Rename empty/duplicate headers to `column_N` / `name (2)` style.
pub fn dedupe_headers(headers: &Vec<String>) -> (r: Vec<String>)
    ensures
        r.deep_view() == deduped(headers.deep_view()),
        forall|i: int, j: int| 0 <= i < j < r@.len() ==> r@[i]@ != r@[j]@,
        forall|i: int| 0 <= i < r@.len() ==> !text::blank(#[trigger] r@[i]@),
{
    let ghost all = headers.deep_view();
    let mut taken: Vec<String> = Vec::new();
    taken.push(String::new());
    for i in 0..headers.len()
        invariant
            all == headers.deep_view(),
            taken@.len() == i + 1,
            taken.deep_view().skip(1) == all.take(i as int),
    {
        assert(all[i as int] == headers@[i as int]@);
        let ghost before = taken.deep_view();
        taken.push(headers[i].clone());
        assert(taken.deep_view() =~= before.push(all[i as int]));
        assert(taken.deep_view().skip(1) =~= all.take(i + 1));
    }
    assert(all.take(all.len() as int) =~= all);
    let mut out: Vec<String> = Vec::new();
    assert(out.deep_view() =~= renamed(all, 0));
    assert(taken.deep_view().skip(1) =~= all + renamed(all, 0));
    for i in 0..headers.len()
        invariant
            all == headers.deep_view(),
            out.deep_view() == renamed(all, i as nat),
            taken@.len() > 0,
            taken.deep_view().skip(1) == all + renamed(all, i as nat),
    {
        let ghost so_far = out.deep_view();
        let ghost before = taken.deep_view();
        assert(all[i as int] == headers@[i as int]@);
        let name = if keeps_its_header(headers, i) {
            headers[i].clone()
        } else if text::is_blank(headers[i].as_str()) {
            let base = text::cat("column_", number::decimal_of((i + 1) as u64).as_str());
            free_name(base.as_str(), &taken)
        } else {
            free_name(headers[i].as_str(), &taken)
        };
        let ghost chosen = name@;
        taken.push(name.clone());
        out.push(name);
        assert(out.deep_view() =~= so_far.push(chosen));
        assert(renamed(all, (i + 1) as nat) == so_far.push(chosen));
        assert(taken.deep_view() =~= before.push(chosen));
        assert(taken.deep_view().skip(1) =~= before.skip(1).push(chosen));
        assert((all + so_far).push(chosen) =~= all + so_far.push(chosen));
    }
    proof {
        lemma_renamed(all, all.len());
        let done = renamed(all, all.len());
        assert forall|i: int| 0 <= i < out@.len() implies (#[trigger] out@[i])@ == done[i] by {
            assert(out.deep_view()[i] == done[i]);
        }
    }
    out
}

// ---------------------------------------------------------------------------
// Shaping
// ---------------------------------------------------------------------------

/// Whether every field of a row is blank.
pub open spec fn blank_row(row: Seq<Seq<char>>) -> bool {
    forall|i: int| 0 <= i < row.len() ==> text::blank(#[trigger] row[i])
}

/// Whether every field of a row is blank.
pub fn is_blank_row(row: &Vec<String>) -> (r: bool)
    ensures
        r == blank_row(row.deep_view()),
{
    for i in 0..row.len()
        invariant
            forall|j: int| 0 <= j < i ==> text::blank((#[trigger] row@[j])@),
    {
        if !text::is_blank(row[i].as_str()) {
            assert(!text::blank(row.deep_view()[i as int]));
            return false;
        }
    }
    true
}

/// Pads or cuts all rows to a width.
fn fit_all(rows: Vec<Vec<String>>, width: usize) -> (r: Vec<Vec<String>>)
    ensures
        r.deep_view() == rows.deep_view().map_values(
            |row: Seq<Seq<char>>| fitted(row, width as nat),
        ),
{
    let ghost all = rows.deep_view();
    let mut out = rows;
    let n = out.len();
    assert forall|j: int| 0 <= j < n implies (#[trigger] out@[j]).deep_view() == all[j] by {}
    let mut i: usize = 0;
    while i < n
        invariant
            i <= n,
            n == out@.len(),
            n == all.len(),
            forall|j: int|
                0 <= j < i ==> (#[trigger] out@[j]).deep_view() == fitted(all[j], width as nat),
            forall|j: int| i <= j < n ==> (#[trigger] out@[j]).deep_view() == all[j],
        decreases n - i,
    {
        normalise_width(&mut out[i], width);
        i = i + 1;
    }
    assert(out.deep_view() =~= all.map_values(
        |row: Seq<Seq<char>>| fitted(row, width as nat),
    ));
    out
}

/// Rows as a table: all as wide as the widest, the first as header.
pub open spec fn shaped(rows: Seq<Seq<Seq<char>>>) -> TableView {
    if rows.len() == 0 {
        empty_table()
    } else {
        let width = widest(rows);
        TableView {
            headers: deduped(fitted(rows[0], width)),
            rows: rows.skip(1).map_values(|row: Seq<Seq<char>>| fitted(row, width)),
        }
    }
}

/// Rows as a table: all as wide as the widest, the first as header.
pub fn shape(rows: Vec<Vec<String>>) -> (r: Table)
    ensures
        r.deep_view() == shaped(rows.deep_view()),
{
    if rows.len() == 0 {
        return no_table();
    }
    let ghost all = rows.deep_view();
    let width = widest_of(&rows);
    let mut rest = rows;
    let mut first = rest.remove(0);
    assert(first.deep_view() == all[0]);
    normalise_width(&mut first, width);
    let headers = dedupe_headers(&first);
    assert(rest.deep_view() =~= all.skip(1));
    Table { headers, rows: fit_all(rest, width) }
}

/// Rows as a table: the first as header, all others as wide as it.
pub open spec fn headed(rows: Seq<Seq<Seq<char>>>) -> TableView {
    if rows.len() == 0 {
        empty_table()
    } else {
        let width = rows[0].len();
        TableView {
            headers: deduped(rows[0]),
            rows: rows.skip(1).map_values(|row: Seq<Seq<char>>| fitted(row, width)),
        }
    }
}

/// Rows as a table: the first as header, all others as wide as it.
pub fn head(rows: Vec<Vec<String>>) -> (r: Table)
    ensures
        r.deep_view() == headed(rows.deep_view()),
{
    if rows.len() == 0 {
        return no_table();
    }
    let ghost all = rows.deep_view();
    let mut rest = rows;
    let first = rest.remove(0);
    assert(first.deep_view() == all[0]);
    let width = first.len();
    let headers = dedupe_headers(&first);
    assert(rest.deep_view() =~= all.skip(1));
    Table { headers, rows: fit_all(rest, width) }
}

/// The rows that are not blank.
pub open spec fn filled_rows(rows: Seq<Seq<Seq<char>>>) -> Seq<Seq<Seq<char>>>
    decreases rows.len(),
{
    if rows.len() == 0 {
        Seq::empty()
    } else if blank_row(rows.last()) {
        filled_rows(rows.drop_last())
    } else {
        filled_rows(rows.drop_last()).push(rows.last())
    }
}

/// Leaves the blank rows out.
pub fn drop_blank_rows(rows: Vec<Vec<String>>) -> (r: Vec<Vec<String>>)
    ensures
        r.deep_view() == filled_rows(rows.deep_view()),
{
    let ghost all = rows.deep_view();
    let mut out: Vec<Vec<String>> = Vec::new();
    assert(out.deep_view() =~= filled_rows(all.take(0)));
    for row in it: rows
        invariant
            it.seq() == rows@,
            all == rows.deep_view(),
            out.deep_view() == filled_rows(all.take(it.index() as int)),
    {
        let ghost k = it.index() as int;
        let ghost before = out.deep_view();
        proof {
            assert(all.take(k + 1).drop_last() =~= all.take(k));
            assert(all[k] == row.deep_view());
        }
        if !is_blank_row(&row) {
            out.push(row);
            assert(out.deep_view() =~= before.push(all[k]));
        }
    }
    assert(all.take(all.len() as int) =~= all);
    out
}

// ---------------------------------------------------------------------------
// Laws
// ---------------------------------------------------------------------------

/// A shaped table is a rectangle: every row is as wide as the header.
pub proof fn law_shaped_is_rectangular(rows: Seq<Seq<Seq<char>>>, i: int)
    requires
        0 <= i < shaped(rows).rows.len(),
    ensures
        shaped(rows).rows[i].len() == shaped(rows).headers.len(),
{
    let first = fitted(rows[0], widest(rows));
    lemma_renamed(first, first.len());
}

/// Shaping cuts nothing off: every field keeps its place.
pub proof fn law_shaping_keeps_fields(rows: Seq<Seq<Seq<char>>>, i: int, j: int)
    requires
        1 <= i < rows.len(),
        0 <= j < rows[i].len(),
    ensures
        j < shaped(rows).rows[i - 1].len(),
        shaped(rows).rows[i - 1][j] == rows[i][j],
{
    lemma_widest(rows, i);
}

proof fn lemma_widest(rows: Seq<Seq<Seq<char>>>, i: int)
    requires
        0 <= i < rows.len(),
    ensures
        rows[i].len() <= widest(rows),
    decreases rows.len(),
{
    if i < rows.len() - 1 {
        lemma_widest(rows.drop_last(), i);
    }
}

/// The header of a CSV file decides its width: fields behind it are cut, all
/// others keep their place.
pub proof fn law_header_decides_width(rows: Seq<Seq<Seq<char>>>, i: int, j: int)
    requires
        1 <= i < rows.len(),
        0 <= j < rows[0].len(),
    ensures
        headed(rows).headers.len() == rows[0].len(),
        headed(rows).rows[i - 1].len() == rows[0].len(),
        headed(rows).rows[i - 1][j] == if j < rows[i].len() {
            rows[i][j]
        } else {
            Seq::empty()
        },
{
    lemma_renamed(rows[0], rows[0].len());
}

/// No two columns have the same header, and none is blank.
pub proof fn law_headers_differ(headers: Seq<Seq<char>>)
    ensures
        deduped(headers).len() == headers.len(),
        deduped(headers).no_duplicates(),
        forall|i: int| 0 <= i < headers.len() ==> !text::blank(#[trigger] deduped(headers)[i]),
{
    lemma_renamed(headers, headers.len());
}

/// A header that is not blank, and that no earlier column has, stays as it is.
pub proof fn law_new_header_stays(headers: Seq<Seq<char>>, i: int)
    requires
        0 <= i < headers.len(),
        !text::blank(headers[i]),
        forall|j: int| 0 <= j < i ==> headers[j] != headers[i],
    ensures
        deduped(headers)[i] == headers[i],
{
    lemma_renamed(headers, headers.len());
    assert(!headers.take(i).contains(headers[i]));
}

/// Headers that differ and are not blank all stay as they are.
pub proof fn law_good_headers_stay(headers: Seq<Seq<char>>)
    requires
        headers.no_duplicates(),
        forall|i: int| 0 <= i < headers.len() ==> !text::blank(#[trigger] headers[i]),
    ensures
        deduped(headers) == headers,
{
    lemma_renamed(headers, headers.len());
    assert forall|i: int| 0 <= i < headers.len() implies deduped(headers)[i] == headers[i] by {
        law_new_header_stays(headers, i);
    }
    assert(deduped(headers) =~= headers);
}

} // verus!

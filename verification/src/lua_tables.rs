//! The shapes in which mod scripts see tables: Lua tables that hold TSV rows,
//! and Lua tables read as JSON arrays.
use vstd::prelude::*;
use crate::keyed::{keyed_find, keyed_map, keys_unique};
use crate::text::copy_str;
use crate::tsv::{cells_map, table_view, TsvRow};

verus! {

/// What a script's row table holds, as the TSV writer reads it: every integer
/// key of the table, the values that read as strings under positive integer
/// keys, and the values that read as strings under header names.
#[derive(Debug)]
pub struct LuaRowTable {
    pub int_keys: Vec<i64>,
    pub indexed: Vec<(i64, String)>,
    pub named: Vec<(String, String)>,
}

/// The value under integer key `c`: the first entry with that key.
pub open spec fn indexed_lookup(s: Seq<(i64, String)>, c: int) -> Option<Seq<char>>
    decreases s.len(),
{
    if s.len() == 0 {
        None
    } else if s[0].0 == c {
        Some(s[0].1@)
    } else {
        indexed_lookup(s.drop_first(), c)
    }
}

/// The largest positive key, or 0 when there is none.
pub open spec fn max_positive(keys: Seq<i64>) -> int
    decreases keys.len(),
{
    if keys.len() == 0 {
        0
    } else {
        let m = max_positive(keys.drop_last());
        if keys.last() > m {
            keys.last() as int
        } else {
            m
        }
    }
}

/// Cell `c` (1-based) of a row: the value under integer key `c`; failing
/// that, the value under the header of column `c`; failing that, empty.
pub open spec fn cell_spec(t: LuaRowTable, headers: Seq<Seq<char>>, c: int) -> Seq<char> {
    match indexed_lookup(t.indexed@, c) {
        Some(v) => v,
        None => if 1 <= c <= headers.len() && keyed_map(t.named@).contains_key(headers[c - 1]) {
            keyed_map(t.named@)[headers[c - 1]]
        } else {
            Seq::empty()
        },
    }
}

/// The number of columns written for a row: one per header, or, without
/// headers, up to the row's largest positive integer key.
pub open spec fn width_spec(t: LuaRowTable, headers: Seq<Seq<char>>) -> int {
    if headers.len() > 0 {
        headers.len() as int
    } else {
        max_positive(t.int_keys@)
    }
}

/// The cells written for a row.
pub open spec fn row_cells(t: LuaRowTable, headers: Seq<Seq<char>>) -> Seq<Seq<char>> {
    Seq::new(width_spec(t, headers) as nat, |i: int| cell_spec(t, headers, i + 1))
}

/// The rows written for row tables in order; a row without columns is left out.
pub open spec fn data_rows(tables: Seq<LuaRowTable>, headers: Seq<Seq<char>>) -> Seq<
    Seq<Seq<char>>,
>
    decreases tables.len(),
{
    if tables.len() == 0 {
        Seq::empty()
    } else {
        data_rows(tables.drop_last(), headers) + if width_spec(tables.last(), headers) > 0 {
            seq![row_cells(tables.last(), headers)]
        } else {
            Seq::empty()
        }
    }
}

/// The rows written for a script's table: the header row (when there are
/// headers), then its row tables in order of their indices.
pub open spec fn lua_tsv_rows_spec(headers: Seq<Seq<char>>, tables: Seq<LuaRowTable>) -> Seq<
    Seq<Seq<char>>,
> {
    (if headers.len() > 0 {
        seq![headers]
    } else {
        Seq::empty()
    }) + data_rows(tables, headers)
}

/// The row table under an index: the first one listed with it.
pub open spec fn table_at(rows: Seq<(i64, LuaRowTable)>, k: i64) -> LuaRowTable
    recommends
        exists|i: int| 0 <= i < rows.len() && rows[i].0 == k,
{
    rows[choose|i: int| 0 <= i < rows.len() && rows[i].0 == k].1
}

/// The indices of listed row tables.
pub open spec fn row_indices(rows: Seq<(i64, LuaRowTable)>) -> Seq<i64> {
    Seq::new(rows.len(), |i: int| rows[i].0)
}

/// `order` lists `indices` in ascending order.
pub open spec fn sorted_permutation(order: Seq<i64>, indices: Seq<i64>) -> bool {
    &&& order.to_multiset() == indices.to_multiset()
    &&& forall|a: int, b: int| 0 <= a < b < order.len() ==> order[a] <= order[b]
}

/// Calls `slice::sort` on a vector of integers: afterwards it is in ascending
/// order and holds the same integers, each as often as before.
#[verifier::external_body]
fn sort_ascending(v: &mut Vec<i64>)
    ensures
        sorted_permutation(final(v)@, old(v)@),
{
    v.sort();
}

/// The value under integer key `c`, if any.
fn indexed_get(s: &Vec<(i64, String)>, c: i64) -> (r: Option<&String>)
    ensures
        r matches Some(v) ==> indexed_lookup(s@, c as int) == Some(v@),
        r is None ==> indexed_lookup(s@, c as int) is None,
{
    let mut i: usize = 0;
    assert(s@.subrange(0, s@.len() as int) =~= s@);
    while i < s.len()
        invariant
            i <= s@.len(),
            indexed_lookup(s@, c as int) == indexed_lookup(
                s@.subrange(i as int, s@.len() as int),
                c as int,
            ),
        decreases s.len() - i,
    {
        assert(s@.subrange(i as int, s@.len() as int).drop_first() =~= s@.subrange(
            i + 1,
            s@.len() as int,
        ));
        if s[i].0 == c {
            return Some(&s[i].1);
        }
        i = i + 1;
    }
    None
}

/// The largest positive key, or 0.
pub fn max_positive_key(keys: &Vec<i64>) -> (m: i64)
    ensures
        m == max_positive(keys@),
        m >= 0,
{
    let mut m: i64 = 0;
    let mut i: usize = 0;
    while i < keys.len()
        invariant
            i <= keys@.len(),
            m == max_positive(keys@.take(i as int)),
            m >= 0,
        decreases keys.len() - i,
    {
        assert(keys@.take(i + 1).drop_last() =~= keys@.take(i as int));
        if keys[i] > m {
            m = keys[i];
        }
        i = i + 1;
    }
    assert(keys@.take(keys@.len() as int) =~= keys@);
    m
}

/// The row table that a script gets for a data row read from a TSV file:
/// each cell under its 1-based column number and, where the column has a
/// header, under that header.
pub open spec fn is_row_table_of(
    t: LuaRowTable,
    headers: Seq<Seq<char>>,
    cells: Seq<Seq<char>>,
) -> bool {
    &&& t.int_keys@.len() == cells.len()
    &&& t.indexed@.len() == cells.len()
    &&& forall|j: int| 0 <= j < cells.len() ==> #[trigger] t.int_keys@[j] == j + 1
    &&& forall|j: int|
        0 <= j < cells.len() ==> (#[trigger] t.indexed@[j]).0 == j + 1 && t.indexed@[j].1@
            == cells[j]
    &&& keys_unique(t.named@)
    &&& keyed_map(t.named@) == cells_map(headers, cells)
}

/// Looking up a column number in entries numbered consecutively from `b`
/// finds the entry with that number.
proof fn lemma_indexed_consecutive(s: Seq<(i64, String)>, b: int, c: int)
    requires
        forall|j: int| 0 <= j < s.len() ==> (#[trigger] s[j]).0 == j + b,
        b <= c < b + s.len(),
    ensures
        indexed_lookup(s, c) == Some(s[c - b].1@),
    decreases s.len(),
{
    if s[0].0 != c {
        let rest = s.drop_first();
        assert forall|j: int| 0 <= j < rest.len() implies (#[trigger] rest[j]).0 == j + (b + 1) by {
            assert(rest[j] == s[j + 1]);
        }
        lemma_indexed_consecutive(rest, b + 1, c);
        assert(rest[c - (b + 1)] == s[c - b]);
    }
}

/// A row table made from a row with one cell per header writes that row back.
proof fn lemma_row_table_cells(t: LuaRowTable, headers: Seq<Seq<char>>, cells: Seq<Seq<char>>)
    requires
        is_row_table_of(t, headers, cells),
        cells.len() == headers.len(),
        headers.len() > 0,
    ensures
        width_spec(t, headers) > 0,
        row_cells(t, headers) == cells,
{
    assert forall|i: int| 0 <= i < cells.len() implies #[trigger] row_cells(t, headers)[i]
        == cells[i] by {
        lemma_indexed_consecutive(t.indexed@, 1, i + 1);
    }
    assert(row_cells(t, headers) =~= cells);
}

/// Rows read from a TSV file into row tables, one cell per header in every
/// row, are written back as the header row and those rows, in order.
pub proof fn law_tsv_rows_round_trip(
    headers: Seq<Seq<char>>,
    rows: Seq<Seq<Seq<char>>>,
    tables: Seq<LuaRowTable>,
)
    requires
        headers.len() > 0,
        tables.len() == rows.len(),
        forall|i: int| 0 <= i < rows.len() ==> #[trigger] rows[i].len() == headers.len(),
        forall|i: int| 0 <= i < rows.len() ==> is_row_table_of(#[trigger] tables[i], headers, rows[i]),
    ensures
        lua_tsv_rows_spec(headers, tables) == seq![headers] + rows,
    decreases rows.len(),
{
    lemma_data_rows_round_trip(headers, rows, tables);
}

proof fn lemma_data_rows_round_trip(
    headers: Seq<Seq<char>>,
    rows: Seq<Seq<Seq<char>>>,
    tables: Seq<LuaRowTable>,
)
    requires
        headers.len() > 0,
        tables.len() == rows.len(),
        forall|i: int| 0 <= i < rows.len() ==> #[trigger] rows[i].len() == headers.len(),
        forall|i: int| 0 <= i < rows.len() ==> is_row_table_of(#[trigger] tables[i], headers, rows[i]),
    ensures
        data_rows(tables, headers) == rows,
    decreases rows.len(),
{
    if rows.len() > 0 {
        let n = rows.len() - 1;
        assert forall|i: int| 0 <= i < n implies #[trigger] rows.drop_last()[i].len() == headers.len() by {
            assert(rows.drop_last()[i] == rows[i]);
        }
        assert forall|i: int| 0 <= i < n implies is_row_table_of(
            #[trigger] tables.drop_last()[i],
            headers,
            rows.drop_last()[i],
        ) by {
            assert(tables.drop_last()[i] == tables[i]);
            assert(rows.drop_last()[i] == rows[i]);
        }
        lemma_data_rows_round_trip(headers, rows.drop_last(), tables.drop_last());
        assert(rows[n].len() == headers.len());
        assert(is_row_table_of(tables[n], headers, rows[n]));
        lemma_row_table_cells(tables[n], headers, rows[n]);
        assert(rows =~= rows.drop_last().push(rows[n]));
    }
}

impl LuaRowTable {
    /// The row table for a data row read from a TSV file (see [`is_row_table_of`]).
    pub fn from_tsv_row(headers: &Vec<String>, cells: &Vec<String>) -> (t: LuaRowTable)
        requires
            cells@.len() < i64::MAX,
        ensures
            is_row_table_of(t, crate::text::views(headers@), crate::text::views(cells@)),
    {
        let mut int_keys: Vec<i64> = Vec::new();
        let mut indexed: Vec<(i64, String)> = Vec::new();
        let mut j: usize = 0;
        while j < cells.len()
            invariant
                j <= cells@.len() < i64::MAX,
                int_keys@.len() == j,
                indexed@.len() == j,
                forall|a: int| 0 <= a < j ==> #[trigger] int_keys@[a] == a + 1,
                forall|a: int|
                    0 <= a < j ==> (#[trigger] indexed@[a]).0 == a + 1 && indexed@[a].1@
                        == cells@[a]@,
            decreases cells.len() - j,
        {
            let k: i64 = (j + 1) as i64;
            int_keys.push(k);
            indexed.push((k, copy_str(cells[j].as_str())));
            j = j + 1;
        }
        let row = TsvRow::from_cells(headers, cells);
        LuaRowTable { int_keys, indexed, named: row.data }
    }

    /// The cells written for this row under the given headers.
    pub fn cells(&self, headers: &Vec<String>) -> (r: Vec<String>)
        requires
            keys_unique(self.named@),
            headers@.len() <= i64::MAX,
        ensures
            crate::text::views(r@) == row_cells(*self, crate::text::views(headers@)),
    {
        let ghost h = crate::text::views(headers@);
        let width: i64 = if headers.len() > 0 {
            headers.len() as i64
        } else {
            max_positive_key(&self.int_keys)
        };
        let mut r: Vec<String> = Vec::new();
        let mut c: i64 = 0;
        while c < width
            invariant
                0 <= c <= width,
                width == width_spec(*self, h),
                h == crate::text::views(headers@),
                headers@.len() <= i64::MAX,
                keys_unique(self.named@),
                crate::text::views(r@) == row_cells(*self, h).take(c as int),
            decreases width - c,
        {
            let ghost before = crate::text::views(r@);
            let col = c + 1;
            let cell = match indexed_get(&self.indexed, col) {
                Some(v) => copy_str(v.as_str()),
                None => {
                    if headers.len() > 0 {
                        let hi: usize = (col - 1) as usize;
                        match keyed_find(&self.named, headers[hi].as_str()) {
                            Some(i) => copy_str(self.named[i].1.as_str()),
                            None => String::new(),
                        }
                    } else {
                        String::new()
                    }
                },
            };
            r.push(cell);
            assert(crate::text::views(r@) =~= before.push(cell_spec(*self, h, col as int)));
            c = col;
            assert(row_cells(*self, h).take(c as int) =~= row_cells(*self, h).take(c - 1).push(
                cell_spec(*self, h, c as int),
            ));
        }
        assert(row_cells(*self, h).take(width as int) =~= row_cells(*self, h));
        r
    }
}

/// `written` is what the row tables `listed` under their indices write, in
/// ascending order of the indices, under `headers`.
pub open spec fn written_in_index_order(
    headers: Seq<Seq<char>>,
    listed: Seq<(i64, LuaRowTable)>,
    written: Seq<Seq<Seq<char>>>,
) -> bool {
    exists|order: Seq<i64>|
        #[trigger] sorted_permutation(order, row_indices(listed)) && written == lua_tsv_rows_spec(
            headers,
            Seq::new(order.len(), |i: int| table_at(listed, order[i])),
        )
}

/// The rows that a script's TSV table writes: the header row when there are
/// headers, then each row table in ascending order of its index, as its cells;
/// rows without columns are left out. The indices are distinct, as the keys of
/// a table are.
pub fn lua_tsv_rows(headers: &Vec<String>, rows: &Vec<(i64, LuaRowTable)>) -> (r: Vec<Vec<String>>)
    requires
        headers@.len() <= i64::MAX,
        forall|a: int, b: int| 0 <= a < b < rows@.len() ==> rows@[a].0 != rows@[b].0,
        forall|a: int| 0 <= a < rows@.len() ==> keys_unique(#[trigger] rows@[a].1.named@),
    ensures
        written_in_index_order(crate::text::views(headers@), rows@, table_view(r@)),
{
    let ghost h = crate::text::views(headers@);
    let ghost idx = row_indices(rows@);
    let mut order: Vec<i64> = Vec::new();
    let mut i: usize = 0;
    while i < rows.len()
        invariant
            i <= rows@.len(),
            idx == row_indices(rows@),
            order@ == idx.take(i as int),
        decreases rows.len() - i,
    {
        order.push(rows[i].0);
        i = i + 1;
        assert(order@ =~= idx.take(i as int));
    }
    assert(idx.take(rows@.len() as int) =~= idx);
    sort_ascending(&mut order);
    let ghost tables = Seq::new(order@.len(), |i: int| table_at(rows@, order@[i]));
    let mut out: Vec<Vec<String>> = Vec::new();
    if headers.len() > 0 {
        out.push(crate::tsv::clone_strings(headers));
    }
    let ghost head = if h.len() > 0 {
        seq![h]
    } else {
        Seq::<Seq<Seq<char>>>::empty()
    };
    assert(table_view(out@) =~= head);
    let mut j: usize = 0;
    while j < order.len()
        invariant
            j <= order@.len(),
            sorted_permutation(order@, idx),
            idx == row_indices(rows@),
            tables == Seq::new(order@.len(), |i: int| table_at(rows@, order@[i])),
            h == crate::text::views(headers@),
            headers@.len() <= i64::MAX,
            forall|a: int, b: int| 0 <= a < b < rows@.len() ==> rows@[a].0 != rows@[b].0,
            forall|a: int| 0 <= a < rows@.len() ==> keys_unique(#[trigger] rows@[a].1.named@),
            head == (if h.len() > 0 { seq![h] } else { Seq::<Seq<Seq<char>>>::empty() }),
            table_view(out@) == head + data_rows(tables.take(j as int), h),
        decreases order.len() - j,
    {
        let k = order[j];
        proof {
            assert(order@[j as int] == k);
            assert(order@.contains(k));
            vstd::seq_lib::to_multiset_contains(order@, k);
            vstd::seq_lib::to_multiset_contains(idx, k);
        }
        let mut p: usize = 0;
        while p < rows.len() && rows[p].0 != k
            invariant
                p <= rows@.len(),
                forall|q: int| 0 <= q < p ==> rows@[q].0 != k,
            decreases rows.len() - p,
        {
            p = p + 1;
        }
        if p == rows.len() {
            proof {
                let q = choose|q: int| 0 <= q < idx.len() && idx[q] == k;
                assert(rows@[q].0 == k);
            }
            return out;
        }
        let t = &rows[p].1;
        proof {
            assert(table_at(rows@, k) == *t) by {
                let c = choose|c: int| 0 <= c < rows@.len() && rows@[c].0 == k;
                if c != p as int {
                    if c < p {
                    } else {
                        assert(rows@[p as int].0 != rows@[c].0);
                    }
                }
            }
            assert(tables.take(j + 1).drop_last() =~= tables.take(j as int));
            assert(tables.take(j + 1).last() == *t);
        }
        let ghost before = table_view(out@);
        let w_nonzero = if headers.len() > 0 {
            true
        } else {
            max_positive_key(&t.int_keys) > 0
        };
        if w_nonzero {
            let cells = t.cells(headers);
            out.push(cells);
            assert(table_view(out@) =~= before.push(row_cells(*t, h)));
        }
        j = j + 1;
        assert(head + data_rows(tables.take(j as int), h) =~= before + if width_spec(*t, h) > 0 {
            seq![row_cells(*t, h)]
        } else {
            Seq::empty()
        });
    }
    assert(tables.take(order@.len() as int) =~= tables);
    assert(sorted_permutation(order@, idx));
    out
}

/// A sorted permutation of a strictly increasing sequence is that sequence.
proof fn lemma_sorted_order_of_increasing(order: Seq<i64>, idx: Seq<i64>)
    requires
        sorted_permutation(order, idx),
        forall|a: int, b: int| 0 <= a < b < idx.len() ==> idx[a] < idx[b],
    ensures
        order == idx,
    decreases idx.len(),
{
    broadcast use vstd::seq_lib::group_to_multiset_ensures;

    assert(order.len() == idx.len()) by {
        assert(order.to_multiset().len() == idx.to_multiset().len());
    }
    if idx.len() > 0 {
        assert(idx.contains(idx[0]));
        assert(order.to_multiset().count(idx[0]) > 0);
        assert(order.contains(idx[0]));
        let k = choose|k: int| 0 <= k < order.len() && order[k] == idx[0];
        assert(order[0] <= order[k]);
        assert(order.contains(order[0]));
        assert(idx.to_multiset().count(order[0]) > 0);
        assert(idx.contains(order[0]));
        let m = choose|m: int| 0 <= m < idx.len() && idx[m] == order[0];
        assert(idx[0] <= idx[m]);
        assert(order[0] == idx[0]);
        let o2 = order.remove(0);
        let i2 = idx.remove(0);
        assert(o2.to_multiset() == order.to_multiset().remove(order[0]));
        assert(i2.to_multiset() == idx.to_multiset().remove(idx[0]));
        assert forall|a: int, b: int| 0 <= a < b < o2.len() implies o2[a] <= o2[b] by {
            assert(o2[a] == order[a + 1]);
            assert(o2[b] == order[b + 1]);
        }
        assert forall|a: int, b: int| 0 <= a < b < i2.len() implies i2[a] < i2[b] by {
            assert(i2[a] == idx[a + 1]);
            assert(i2[b] == idx[b + 1]);
        }
        lemma_sorted_order_of_increasing(o2, i2);
        assert(order =~= seq![order[0]] + o2);
        assert(idx =~= seq![idx[0]] + i2);
    }
}

/// A script's TSV table whose row tables were read from a TSV file, under
/// the indices 1, 2, ... in file order and with one cell per header in every
/// row, is written back as the header row and the rows of that file.
pub proof fn law_lua_tsv_write_back(
    headers: Seq<Seq<char>>,
    rows: Seq<Seq<Seq<char>>>,
    listed: Seq<(i64, LuaRowTable)>,
    written: Seq<Seq<Seq<char>>>,
)
    requires
        headers.len() > 0,
        listed.len() == rows.len(),
        forall|i: int| 0 <= i < rows.len() ==> #[trigger] rows[i].len() == headers.len(),
        forall|i: int|
            0 <= i < rows.len() ==> (#[trigger] listed[i]).0 == i + 1 && is_row_table_of(
                listed[i].1,
                headers,
                rows[i],
            ),
        written_in_index_order(headers, listed, written),
    ensures
        written == seq![headers] + rows,
{
    let idx = row_indices(listed);
    let order = choose|order: Seq<i64>|
        #[trigger] sorted_permutation(order, idx) && written == lua_tsv_rows_spec(
            headers,
            Seq::new(order.len(), |i: int| table_at(listed, order[i])),
        );
    assert forall|a: int, b: int| 0 <= a < b < idx.len() implies idx[a] < idx[b] by {
        assert(listed[a].0 == a + 1);
        assert(listed[b].0 == b + 1);
    }
    lemma_sorted_order_of_increasing(order, idx);
    let tables = Seq::new(order.len(), |i: int| table_at(listed, order[i]));
    assert forall|i: int| 0 <= i < rows.len() implies is_row_table_of(
        #[trigger] tables[i],
        headers,
        rows[i],
    ) by {
        assert(order[i] == listed[i].0);
        let c = choose|c: int| 0 <= c < listed.len() && listed[c].0 == order[i];
        assert(listed[c].0 == c + 1);
        assert(c == i);
    }
    law_tsv_rows_round_trip(headers, rows, tables);
}

/// The index that a new row takes in a script's TSV table: one past the
/// largest positive integer key, and 1 when there is none.
pub open spec fn next_index_spec(keys: Seq<i64>) -> int {
    max_positive(keys) + 1
}

/// The index for a row added to a script's TSV table.
pub fn next_row_index(keys: &Vec<i64>) -> (r: i64)
    requires
        forall|i: int| 0 <= i < keys@.len() ==> keys@[i] < i64::MAX,
    ensures
        r == next_index_spec(keys@),
        r >= 1,
        forall|i: int| 0 <= i < keys@.len() ==> keys@[i] < r,
{
    let m = max_positive_key(keys);
    proof {
        lemma_max_positive_member(keys@);
        lemma_max_positive_bounds(keys@);
    }
    m + 1
}

/// Every key is at most the largest positive key, or not positive.
proof fn lemma_max_positive_bounds(keys: Seq<i64>)
    ensures
        max_positive(keys) >= 0,
        forall|i: int| 0 <= i < keys.len() ==> keys[i] <= max_positive(keys) || keys[i] <= 0,
    decreases keys.len(),
{
    if keys.len() > 0 {
        lemma_max_positive_bounds(keys.drop_last());
        assert forall|i: int| 0 <= i < keys.len() implies keys[i] <= max_positive(keys)
            || keys[i] <= 0 by {
            if i < keys.len() - 1 {
                assert(keys[i] == keys.drop_last()[i]);
            }
        }
    }
}

proof fn lemma_max_positive_member(keys: Seq<i64>)
    ensures
        max_positive(keys) == 0 || exists|i: int| 0 <= i < keys.len() && keys[i] == max_positive(keys),
    decreases keys.len(),
{
    if keys.len() > 0 {
        lemma_max_positive_member(keys.drop_last());
        if max_positive(keys) != 0 && max_positive(keys) == max_positive(keys.drop_last()) {
            let i = choose|i: int|
                0 <= i < keys.drop_last().len() && keys.drop_last()[i] == max_positive(
                    keys.drop_last(),
                );
            assert(keys[i] == keys.drop_last()[i]);
        } else if max_positive(keys) != 0 {
            assert(keys[keys.len() - 1] == max_positive(keys));
        }
    }
}

/// How long a Lua table is when it is read as a JSON array: every key is a
/// positive integer (`Some` of it) and there is at least one; the length is
/// the largest key. `None` means the table is read as an object.
pub open spec fn array_bound_spec(keys: Seq<Option<i64>>) -> Option<i64> {
    if keys.len() > 0 && forall|i: int| 0 <= i < keys.len() ==> (#[trigger] keys[i] matches Some(k)
        && k > 0) {
        Some(max_positive(Seq::new(keys.len(), |i: int| keys[i]->0)) as i64)
    } else {
        None
    }
}

/// The array length of a Lua table with these keys (`None` for a key that is
/// not an integer), or `None` when it is to be read as an object.
pub fn array_bound(keys: &Vec<Option<i64>>) -> (r: Option<i64>)
    ensures
        r == array_bound_spec(keys@),
{
    let ghost ints = Seq::new(keys@.len(), |i: int| keys@[i]->0);
    let mut max: i64 = 0;
    let mut i: usize = 0;
    while i < keys.len()
        invariant
            i <= keys@.len(),
            ints == Seq::new(keys@.len(), |i: int| keys@[i]->0),
            forall|a: int| 0 <= a < i ==> (#[trigger] keys@[a] matches Some(k) && k > 0),
            max == max_positive(ints.take(i as int)),
            max >= 0,
            i > 0 ==> max > 0,
        decreases keys.len() - i,
    {
        match keys[i] {
            Some(k) => {
                if k > 0 {
                    assert(ints.take(i + 1).drop_last() =~= ints.take(i as int));
                    if k > max {
                        max = k;
                    }
                } else {
                    return None;
                }
            },
            None => {
                return None;
            },
        }
        i = i + 1;
    }
    assert(ints.take(keys@.len() as int) =~= ints);
    if max > 0 {
        Some(max)
    } else {
        None
    }
}

/// A JSON array of `n` items becomes a Lua table under the keys 1..=n, and
/// such a table is read back as an array of length `n`, for `n` > 0.
pub proof fn law_array_keys_read_back(n: i64)
    requires
        n > 0,
    ensures
        array_bound_spec(Seq::new(n as nat, |i: int| Some((i + 1) as i64))) == Some(n),
{
    let keys = Seq::new(n as nat, |i: int| Some((i + 1) as i64));
    let ints = Seq::new(keys.len(), |i: int| keys[i]->0);
    assert(ints =~= Seq::new(n as nat, |i: int| (i + 1) as i64));
    lemma_max_positive_consecutive(n as int);
}

/// The largest positive key among 1..=n is n.
proof fn lemma_max_positive_consecutive(n: int)
    requires
        0 <= n <= i64::MAX,
    ensures
        max_positive(Seq::new(n as nat, |i: int| (i + 1) as i64)) == n,
    decreases n,
{
    if n > 0 {
        let s = Seq::new(n as nat, |i: int| (i + 1) as i64);
        assert(s.drop_last() =~= Seq::new((n - 1) as nat, |i: int| (i + 1) as i64));
        lemma_max_positive_consecutive(n - 1);
    }
}

} // verus!

//! Tab-separated tables: the text form that game data files use, and the
//! header-keyed form that mod scripts work on.
use vstd::prelude::*;
use crate::keyed::{keyed_find, keyed_insert, keyed_map, keys_unique};
use crate::text::{chars_of, concat, contains_char, copy_str, decode_utf8_bytes, join, join_spec, views};

verus! {

/// Unit type for reading and writing TSV text.
pub struct TsvHandler;

/// A data row: cell values keyed by column header.
#[derive(Debug)]
pub struct TsvRow {
    /// (header, value) pairs; no header occurs twice.
    pub data: Vec<(String, String)>,
}

/// A table: the header row and the data rows.
#[derive(Debug)]
pub struct TsvData {
    pub headers: Vec<String>,
    pub rows: Vec<TsvRow>,
}

/// Why TSV text could not be read.
#[derive(Debug, PartialEq, Eq, Structural)]
pub enum TsvError {
    /// The bytes are not UTF-8.
    InvalidUtf8,
    /// The text is not a valid tab-separated table.
    InvalidRecord,
}

/// The views of a table of strings.
pub open spec fn table_view(rows: Seq<Vec<String>>) -> Seq<Seq<Seq<char>>> {
    Seq::new(rows.len(), |i: int| views(rows[i]@))
}

impl TsvRow {
    pub open spec fn wf(&self) -> bool {
        keys_unique(self.data@)
    }

    /// The row as a map from header to value.
    pub open spec fn view_map(&self) -> Map<Seq<char>, Seq<char>> {
        keyed_map(self.data@)
    }
}

impl TsvData {
    pub open spec fn wf(&self) -> bool {
        forall|j: int| 0 <= j < self.rows@.len() ==> #[trigger] self.rows@[j].wf()
    }

    /// The maps of the rows.
    pub open spec fn row_maps(&self) -> Seq<Map<Seq<char>, Seq<char>>> {
        Seq::new(self.rows@.len(), |j: int| self.rows@[j].view_map())
    }
}

/// The map of a data row: cell `i` under header `i`, for the cells that have a
/// header; a later cell under a repeated header replaces an earlier one.
pub open spec fn cells_map(headers: Seq<Seq<char>>, cells: Seq<Seq<char>>) -> Map<
    Seq<char>,
    Seq<char>,
>
    decreases cells.len(),
{
    if cells.len() == 0 {
        Map::empty()
    } else {
        let n = cells.len() - 1;
        let m = cells_map(headers, cells.drop_last());
        if n < headers.len() {
            m.insert(headers[n], cells[n])
        } else {
            m
        }
    }
}

/// The row of a map: the value under each header, empty where the map has none.
pub open spec fn map_row(headers: Seq<Seq<char>>, m: Map<Seq<char>, Seq<char>>) -> Seq<Seq<char>> {
    Seq::new(
        headers.len(),
        |i: int|
            if m.contains_key(headers[i]) {
                m[headers[i]]
            } else {
                Seq::empty()
            },
    )
}

/// The rows of a table: the header row, then each data row in header order.
pub open spec fn table_rows(
    headers: Seq<Seq<char>>,
    maps: Seq<Map<Seq<char>, Seq<char>>>,
) -> Seq<Seq<Seq<char>>> {
    seq![headers] + Seq::new(maps.len(), |j: int| map_row(headers, maps[j]))
}

/// A field as written: in double quotes when it holds a comma.
pub open spec fn quote_field_spec(f: Seq<char>) -> Seq<char> {
    if f.contains(',') {
        "\""@ + f + "\""@
    } else {
        f
    }
}

/// A row as a line of text (without line ending): quoted fields joined by tabs.
pub open spec fn row_line(row: Seq<Seq<char>>) -> Seq<char> {
    join_spec(Seq::new(row.len(), |i: int| quote_field_spec(row[i])), "\t"@)
}

/// A field is written unchanged unless it holds a comma; one that holds a
/// comma is written in exactly one pair of double quotes around it.
pub proof fn law_quote_only_commas(f: Seq<char>)
    ensures
        !f.contains(',') ==> quote_field_spec(f) == f,
        f.contains(',') ==> quote_field_spec(f) == seq!['"'] + f + seq!['"'],
{
    reveal_strlit("\"");
    assert("\""@ =~= seq!['"']);
}

/// A row none of whose fields holds a comma is written as its fields joined
/// by tabs, each unchanged.
pub proof fn law_plain_row_line(row: Seq<Seq<char>>)
    requires
        forall|i: int| 0 <= i < row.len() ==> !(#[trigger] row[i]).contains(','),
    ensures
        row_line(row) == join_spec(row, "\t"@),
{
    assert(Seq::new(row.len(), |i: int| quote_field_spec(row[i])) =~= row);
}

/// The text of a table where every row ends with '\n'.
pub open spec fn tsv_text(rows: Seq<Seq<Seq<char>>>) -> Seq<char>
    decreases rows.len(),
{
    if rows.len() == 0 {
        Seq::empty()
    } else {
        tsv_text(rows.drop_last()) + row_line(rows.last()) + "\n"@
    }
}

/// The text of a table with '\n' between rows and none after the last.
pub open spec fn tsv_text_joined(rows: Seq<Seq<Seq<char>>>) -> Seq<char> {
    join_spec(Seq::new(rows.len(), |i: int| row_line(rows[i])), "\n"@)
}

/// The name of what the `csv` crate reads from a text with tab as delimiter,
/// no header row, rows of varying length, and double-quote quoting with
/// doubled quotes as escapes: the records as rows of fields, or `None` when a
/// record is invalid.
pub uninterp spec fn csv_tab_records(text: Seq<char>) -> Option<Seq<Seq<Seq<char>>>>;

/// Declares the error type of the `csv` crate.
#[verifier::external_type_specification]
#[verifier::external_body]
pub struct ExCsvError(csv::Error);

/// Reads the records of a text with `csv::ReaderBuilder` configured as
/// [`csv_tab_records`] says; the result is that name applied to the text.
#[verifier::external_body]
fn read_tab_records(text: &str) -> (r: Result<Vec<Vec<String>>, csv::Error>)
    ensures
        r matches Ok(rows) ==> csv_tab_records(text@) == Some(table_view(rows@)),
        r is Err ==> csv_tab_records(text@) is None,
{
    let mut reader = csv::ReaderBuilder::new().delimiter(b'\t').has_headers(false).flexible(
        true,
    ).quoting(true).double_quote(true).from_reader(text.as_bytes());
    let mut rows = Vec::new();
    for result in reader.records() {
        let record = result?;
        rows.push(record.iter().map(|s| s.to_string()).collect());
    }
    Ok(rows)
}

/// A copy of a vector of strings.
pub fn clone_strings(v: &Vec<String>) -> (r: Vec<String>)
    ensures
        views(r@) == views(v@),
{
    let mut r: Vec<String> = Vec::new();
    let mut i: usize = 0;
    while i < v.len()
        invariant
            i <= v.len(),
            views(r@) == views(v@).take(i as int),
        decreases v.len() - i,
    {
        let ghost before = views(r@);
        r.push(copy_str(v[i].as_str()));
        assert(views(r@) =~= before.push(v@[i as int]@));
        i = i + 1;
        assert(views(v@).take(i as int) =~= views(v@).take(i - 1).push(v@[i - 1]@));
    }
    assert(views(v@).take(v.len() as int) =~= views(v@));
    r
}

impl TsvRow {
    /// An empty row.
    pub fn new() -> (r: TsvRow)
        ensures
            r.wf(),
            r.view_map() == Map::<Seq<char>, Seq<char>>::empty(),
    {
        let r = TsvRow { data: Vec::new() };
        assert(r.view_map() =~= Map::<Seq<char>, Seq<char>>::empty());
        r
    }

    /// Sets the value under a header, replacing any value there.
    pub fn insert(&mut self, header: String, value: String)
        requires
            old(self).wf(),
        ensures
            final(self).wf(),
            final(self).view_map() == old(self).view_map().insert(header@, value@),
    {
        keyed_insert(&mut self.data, header, value);
    }

    /// The value under a header, if any.
    pub fn get(&self, header: &String) -> (r: Option<&String>)
        requires
            self.wf(),
        ensures
            r matches Some(v) ==> self.view_map().contains_key(header@) && self.view_map()[header@]
                == v@,
            r is None ==> !self.view_map().contains_key(header@),
    {
        match keyed_find(&self.data, header.as_str()) {
            Some(i) => Some(&self.data[i].1),
            None => None,
        }
    }

    /// The row of a table whose cells are `cells`: cell `i` under header `i`,
    /// for each cell that has a header (extra cells are dropped).
    pub fn from_cells(headers: &Vec<String>, cells: &Vec<String>) -> (r: TsvRow)
        ensures
            r.wf(),
            r.view_map() == cells_map(views(headers@), views(cells@)),
    {
        let mut r = TsvRow::new();
        let mut i: usize = 0;
        while i < cells.len()
            invariant
                i <= cells.len(),
                r.wf(),
                r.view_map() == cells_map(views(headers@), views(cells@).take(i as int)),
            decreases cells.len() - i,
        {
            assert(views(cells@).take(i + 1).drop_last() =~= views(cells@).take(i as int));
            if i < headers.len() {
                r.insert(headers[i].clone(), cells[i].clone());
            }
            i = i + 1;
        }
        assert(views(cells@).take(cells.len() as int) =~= views(cells@));
        r
    }
}

impl TsvData {
    /// Reads a table from its rows: the first row holds the headers and every
    /// later row is a data row keyed by them. No rows give an empty table.
    pub fn from_rows(rows: &Vec<Vec<String>>) -> (r: TsvData)
        ensures
            r.wf(),
            rows@.len() == 0 ==> views(r.headers@).len() == 0 && r.rows@.len() == 0,
            rows@.len() > 0 ==> {
                &&& views(r.headers@) == views(rows@[0]@)
                &&& r.rows@.len() == rows@.len() - 1
                &&& forall|j: int|
                    0 <= j < r.rows@.len() ==> #[trigger] r.row_maps()[j] == cells_map(
                        views(rows@[0]@),
                        views(rows@[j + 1]@),
                    )
            },
    {
        if rows.len() == 0 {
            return TsvData { headers: Vec::new(), rows: Vec::new() };
        }
        let headers = clone_strings(&rows[0]);
        let mut data: Vec<TsvRow> = Vec::new();
        let mut j: usize = 1;
        while j < rows.len()
            invariant
                1 <= j <= rows@.len(),
                views(headers@) == views(rows@[0]@),
                data@.len() == j - 1,
                forall|a: int| 0 <= a < data@.len() ==> #[trigger] data@[a].wf(),
                forall|a: int|
                    0 <= a < data@.len() ==> #[trigger] data@[a].view_map() == cells_map(
                        views(rows@[0]@),
                        views(rows@[a + 1]@),
                    ),
            decreases rows.len() - j,
        {
            let row = TsvRow::from_cells(&headers, &rows[j]);
            data.push(row);
            j = j + 1;
        }
        let r = TsvData { headers, rows: data };
        assert forall|a: int| 0 <= a < r.rows@.len() implies #[trigger] r.row_maps()[a]
            == cells_map(views(rows@[0]@), views(rows@[a + 1]@)) by {
            assert(r.row_maps()[a] == r.rows@[a].view_map());
        }
        r
    }

    /// The rows of the table: the header row, then each data row with the
    /// value under each header, or an empty cell where it has none.
    pub fn to_rows(&self) -> (r: Vec<Vec<String>>)
        requires
            self.wf(),
        ensures
            table_view(r@) == table_rows(views(self.headers@), self.row_maps()),
    {
        let mut r: Vec<Vec<String>> = Vec::new();
        r.push(clone_strings(&self.headers));
        let mut j: usize = 0;
        let ghost h = views(self.headers@);
        while j < self.rows.len()
            invariant
                self.wf(),
                j <= self.rows@.len(),
                h == views(self.headers@),
                table_view(r@) == table_rows(h, self.row_maps().take(j as int)),
            decreases self.rows.len() - j,
        {
            let row = &self.rows[j];
            let mut cells: Vec<String> = Vec::new();
            let mut i: usize = 0;
            while i < self.headers.len()
                invariant
                    row.wf(),
                    i <= self.headers@.len(),
                    h == views(self.headers@),
                    views(cells@) == map_row(h, row.view_map()).take(i as int),
                decreases self.headers.len() - i,
            {
                let ghost before = views(cells@);
                let cell = match row.get(&self.headers[i]) {
                    Some(v) => copy_str(v.as_str()),
                    None => String::new(),
                };
                cells.push(cell);
                assert(views(cells@) =~= before.push(map_row(h, row.view_map())[i as int]));
                i = i + 1;
                assert(map_row(h, row.view_map()).take(i as int) =~= map_row(h, row.view_map()).take(
                    i - 1,
                ).push(map_row(h, row.view_map())[i - 1]));
            }
            let ghost before = table_view(r@);
            r.push(cells);
            j = j + 1;
            proof {
                assert(map_row(h, row.view_map()).take(h.len() as int) =~= map_row(
                    h,
                    row.view_map(),
                ));
                assert(table_view(r@) =~= before + seq![map_row(h, row.view_map())]);
                assert(table_view(r@) =~= table_rows(h, self.row_maps().take(j as int)));
            }
        }
        assert(self.row_maps().take(self.rows@.len() as int) =~= self.row_maps());
        r
    }
}

/// Under distinct headers, the map of a data row with a cell for every header
/// holds exactly the headers, each with its cell.
pub proof fn lemma_cells_map(headers: Seq<Seq<char>>, cells: Seq<Seq<char>>)
    requires
        forall|a: int, b: int| 0 <= a < b < headers.len() ==> headers[a] != headers[b],
        cells.len() <= headers.len(),
    ensures
        forall|i: int|
            0 <= i < cells.len() ==> cells_map(headers, cells).contains_key(#[trigger] headers[i])
                && cells_map(headers, cells)[headers[i]] == cells[i],
        forall|k: Seq<char>|
            cells_map(headers, cells).contains_key(k) ==> exists|i: int|
                0 <= i < cells.len() && headers[i] == k,
    decreases cells.len(),
{
    if cells.len() > 0 {
        let n = cells.len() - 1;
        lemma_cells_map(headers, cells.drop_last());
        assert forall|i: int| 0 <= i < cells.len() implies cells_map(headers, cells).contains_key(
            #[trigger] headers[i],
        ) && cells_map(headers, cells)[headers[i]] == cells[i] by {
            if i < n {
                assert(headers[i] != headers[n]);
                assert(cells.drop_last()[i] == cells[i]);
            }
        }
        assert forall|k: Seq<char>| cells_map(headers, cells).contains_key(k) implies exists|i: int|
            0 <= i < cells.len() && headers[i] == k by {
            if k != headers[n] {
                assert(cells_map(headers, cells.drop_last()).contains_key(k));
                let i = choose|i: int| 0 <= i < cells.drop_last().len() && headers[i] == k;
                assert(0 <= i < cells.len() && headers[i] == k);
            }
        }
    }
}

/// Reading a table from rows and writing it back gives the rows again, when
/// the headers are distinct and every data row has one cell per header.
pub proof fn law_rows_round_trip(rows: Seq<Seq<Seq<char>>>)
    requires
        rows.len() > 0,
        forall|a: int, b: int| 0 <= a < b < rows[0].len() ==> rows[0][a] != rows[0][b],
        forall|j: int| 0 < j < rows.len() ==> #[trigger] rows[j].len() == rows[0].len(),
    ensures
        table_rows(
            rows[0],
            Seq::new((rows.len() - 1) as nat, |j: int| cells_map(rows[0], rows[j + 1])),
        ) == rows,
{
    let h = rows[0];
    let maps = Seq::new((rows.len() - 1) as nat, |j: int| cells_map(h, rows[j + 1]));
    assert forall|j: int| 0 <= j < maps.len() implies #[trigger] map_row(h, maps[j]) == rows[j
        + 1] by {
        lemma_cells_map(h, rows[j + 1]);
        assert(rows[j + 1].len() == h.len());
        assert(map_row(h, maps[j]) =~= rows[j + 1]);
    }
    assert(table_rows(h, maps) =~= rows);
}

/// Writing a table to rows and reading it back gives the table again, when
/// the headers are distinct and every data row holds exactly the headers.
pub proof fn law_table_round_trip(
    headers: Seq<Seq<char>>,
    maps: Seq<Map<Seq<char>, Seq<char>>>,
)
    requires
        forall|a: int, b: int| 0 <= a < b < headers.len() ==> headers[a] != headers[b],
        forall|j: int|
            #![trigger maps[j]]
            0 <= j < maps.len() ==> forall|k: Seq<char>|
                #[trigger] maps[j].contains_key(k) <==> headers.contains(k),
    ensures
        ({
            let rows = table_rows(headers, maps);
            &&& rows[0] == headers
            &&& rows.len() == maps.len() + 1
            &&& forall|j: int|
                0 <= j < maps.len() ==> cells_map(rows[0], #[trigger] rows[j + 1]) == maps[j]
        }),
{
    let rows = table_rows(headers, maps);
    assert(rows[0] == headers);
    assert forall|j: int| 0 <= j < maps.len() implies cells_map(rows[0], #[trigger] rows[j + 1])
        == maps[j] by {
        let row = map_row(headers, maps[j]);
        assert(rows[j + 1] == row);
        lemma_cells_map(headers, row);
        assert forall|k: Seq<char>| #[trigger] cells_map(headers, row).contains_key(k)
            <==> maps[j].contains_key(k) by {
            if maps[j].contains_key(k) {
                assert(headers.contains(k));
                let i = choose|i: int| 0 <= i < headers.len() && headers[i] == k;
                assert(cells_map(headers, row).contains_key(headers[i]));
            }
            if cells_map(headers, row).contains_key(k) {
                let i = choose|i: int| 0 <= i < row.len() && headers[i] == k;
                assert(headers[i] == k);
            }
        }
        assert forall|k: Seq<char>| #[trigger] cells_map(headers, row).contains_key(k) implies cells_map(
            headers,
            row,
        )[k] == maps[j][k] by {
            let i = choose|i: int| 0 <= i < row.len() && headers[i] == k;
            assert(cells_map(headers, row)[headers[i]] == row[i]);
            assert(headers.contains(k));
        }
        assert(cells_map(headers, row) =~= maps[j]);
    }
}

impl TsvHandler {
    /// A field as written: in double quotes when it holds a comma (the game
    /// reads such fields only when quoted).
    pub fn quote_field(field: &String) -> (r: String)
        ensures
            r@ == quote_field_spec(field@),
    {
        let v = chars_of(field.as_str());
        if contains_char(&v, ',') {
            let opened = concat("\"", field.as_str());
            concat(opened.as_str(), "\"")
        } else {
            copy_str(field.as_str())
        }
    }

    /// A row as a line of text, without line ending.
    pub fn format_row(row: &Vec<String>) -> (r: String)
        ensures
            r@ == row_line(views(row@)),
    {
        let mut quoted: Vec<String> = Vec::new();
        let mut i: usize = 0;
        while i < row.len()
            invariant
                i <= row.len(),
                views(quoted@) == Seq::new(
                    views(row@).len(),
                    |k: int| quote_field_spec(views(row@)[k]),
                ).take(i as int),
            decreases row.len() - i,
        {
            let ghost before = views(quoted@);
            quoted.push(Self::quote_field(&row[i]));
            assert(views(quoted@) =~= before.push(quote_field_spec(row@[i as int]@)));
            i = i + 1;
            assert(Seq::new(views(row@).len(), |k: int| quote_field_spec(views(row@)[k])).take(
                i as int,
            ) =~= Seq::new(views(row@).len(), |k: int| quote_field_spec(views(row@)[k])).take(
                i - 1,
            ).push(quote_field_spec(row@[i - 1]@)));
        }
        assert(views(quoted@) =~= Seq::new(
            views(row@).len(),
            |k: int| quote_field_spec(views(row@)[k]),
        ));
        join(&quoted, "\t")
    }

    /// The text of a table: each row as a line, each line ending with '\n'.
    pub fn format(data: &Vec<Vec<String>>) -> (r: String)
        ensures
            r@ == tsv_text(table_view(data@)),
    {
        let mut text = String::new();
        let mut j: usize = 0;
        while j < data.len()
            invariant
                j <= data.len(),
                text@ == tsv_text(table_view(data@).take(j as int)),
            decreases data.len() - j,
        {
            assert(table_view(data@).take(j + 1).drop_last() =~= table_view(data@).take(j as int));
            let line = Self::format_row(&data[j]);
            let with_line = concat(text.as_str(), line.as_str());
            text = concat(with_line.as_str(), "\n");
            j = j + 1;
        }
        assert(table_view(data@).take(data.len() as int) =~= table_view(data@));
        text
    }

    /// The text of a table with '\n' between rows and none after the last.
    pub fn format_joined(data: &Vec<Vec<String>>) -> (r: String)
        ensures
            r@ == tsv_text_joined(table_view(data@)),
    {
        let mut lines: Vec<String> = Vec::new();
        let mut j: usize = 0;
        while j < data.len()
            invariant
                j <= data.len(),
                views(lines@) == Seq::new(
                    table_view(data@).len(),
                    |i: int| row_line(table_view(data@)[i]),
                ).take(j as int),
            decreases data.len() - j,
        {
            let ghost before = views(lines@);
            lines.push(Self::format_row(&data[j]));
            assert(views(lines@) =~= before.push(row_line(table_view(data@)[j as int])));
            j = j + 1;
            assert(Seq::new(table_view(data@).len(), |i: int| row_line(table_view(data@)[i])).take(
                j as int,
            ) =~= Seq::new(table_view(data@).len(), |i: int| row_line(table_view(data@)[i])).take(
                j - 1,
            ).push(row_line(table_view(data@)[j - 1])));
        }
        assert(views(lines@) =~= Seq::new(
            table_view(data@).len(),
            |i: int| row_line(table_view(data@)[i]),
        ));
        join(&lines, "\n")
    }

    /// Reads the rows of TSV text given as bytes, which must be UTF-8.
    pub fn parse_from_bytes(content: &[u8]) -> (r: Result<Vec<Vec<String>>, TsvError>)
        ensures
            !vstd::utf8::valid_utf8(content@) ==> r == Err::<Vec<Vec<String>>, TsvError>(
                TsvError::InvalidUtf8,
            ),
            vstd::utf8::valid_utf8(content@) ==> {
                &&& r matches Ok(rows) ==> csv_tab_records(vstd::utf8::decode_utf8(content@))
                    == Some(table_view(rows@))
                &&& r is Err ==> csv_tab_records(vstd::utf8::decode_utf8(content@)) is None
                    && r == Err::<Vec<Vec<String>>, TsvError>(TsvError::InvalidRecord)
            },
    {
        match decode_utf8_bytes(content) {
            Some(text) => Self::parse(text.as_str()),
            None => Err(TsvError::InvalidUtf8),
        }
    }

    /// Reads the rows of TSV text (tab-delimited, rows of any length,
    /// double-quoted fields).
    pub fn parse(text: &str) -> (r: Result<Vec<Vec<String>>, TsvError>)
        ensures
            r matches Ok(rows) ==> csv_tab_records(text@) == Some(table_view(rows@)),
            r is Err ==> csv_tab_records(text@) is None && r == Err::<Vec<Vec<String>>, TsvError>(
                TsvError::InvalidRecord,
            ),
    {
        match read_tab_records(text) {
            Ok(rows) => Ok(rows),
            Err(_) => Err(TsvError::InvalidRecord),
        }
    }
}

} // verus!

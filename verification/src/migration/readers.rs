//! The state of the file format readers and writers that hold no data
//! yet (Parquet and HDF5 through this interface), and the lines of CSV
//! files.

use vstd::prelude::*;
use crate::types::RTDBError;
use crate::migration::model::VectorRecord;
use crate::migration::clients::{trimmed, trim_text, names_view};
use crate::text::{decimal, push_decimal};

verus! {

/// A Parquet reader through the format interface; it reads no records.
#[derive(Debug)]
pub struct ParquetReader {
    pub path: String,
    pub current_batch: usize,
}

impl ParquetReader {
    /// A reader of the file at `path`.
    pub fn new(path: &str) -> (r: Self)
        ensures
            r.path@ == path@,
            r.current_batch == 0,
    {
        ParquetReader { path: path.to_owned(), current_batch: 0 }
    }

    /// A batch: always empty; the first read counts one batch.
    pub fn read_batch(&mut self, batch_size: usize) -> (r: Result<Vec<VectorRecord>, RTDBError>)
        ensures
            r matches Ok(rs) && rs@.len() == 0,
            final(self).path == old(self).path,
            final(self).current_batch == if old(self).current_batch > 0 { old(self).current_batch } else { 1 },
    {
        if self.current_batch > 0 {
            return Ok(Vec::new());
        }
        self.current_batch = self.current_batch + 1;
        Ok(Vec::new())
    }

    /// The number of records: unknown.
    pub fn get_total_count(&self) -> (r: Result<Option<u64>, RTDBError>)
        ensures
            r matches Ok(None),
    {
        Ok(None)
    }

    /// Starts over.
    pub fn reset(&mut self) -> (r: Result<(), RTDBError>)
        ensures
            r is Ok,
            final(self).path == old(self).path,
            final(self).current_batch == 0,
    {
        self.current_batch = 0;
        Ok(())
    }
}

/// A Parquet writer through the format interface: it counts the records
/// handed to it and stores none.
#[derive(Debug)]
pub struct ParquetWriter {
    pub path: String,
    pub records_written: u64,
}

impl ParquetWriter {
    /// A writer of the file at `path`.
    pub fn new(path: &str) -> (r: Self)
        ensures
            r.path@ == path@,
            r.records_written == 0,
    {
        ParquetWriter { path: path.to_owned(), records_written: 0 }
    }

    /// Counts a batch.
    pub fn write_batch(&mut self, records: &[VectorRecord]) -> (r: Result<(), RTDBError>)
        requires
            old(self).records_written + records@.len() <= u64::MAX,
        ensures
            r is Ok,
            final(self).path == old(self).path,
            final(self).records_written == old(self).records_written + records@.len(),
    {
        self.records_written = self.records_written + records.len() as u64;
        Ok(())
    }

    /// Finishes the file.
    pub fn finalize(&mut self) -> (r: Result<(), RTDBError>)
        ensures
            r is Ok,
            *final(self) == *old(self),
    {
        Ok(())
    }
}

/// An HDF5 writer through the format interface: it counts the records
/// handed to it and stores none.
#[derive(Debug)]
pub struct Hdf5Writer {
    pub path: String,
    pub records_written: u64,
}

impl Hdf5Writer {
    /// A writer of the file at `path`.
    pub fn new(path: &str) -> (r: Self)
        ensures
            r.path@ == path@,
            r.records_written == 0,
    {
        Hdf5Writer { path: path.to_owned(), records_written: 0 }
    }

    /// Counts a batch.
    pub fn write_batch(&mut self, records: &[VectorRecord]) -> (r: Result<(), RTDBError>)
        requires
            old(self).records_written + records@.len() <= u64::MAX,
        ensures
            r is Ok,
            final(self).path == old(self).path,
            final(self).records_written == old(self).records_written + records@.len(),
    {
        self.records_written = self.records_written + records.len() as u64;
        Ok(())
    }

    /// Finishes the file.
    pub fn finalize(&mut self) -> (r: Result<(), RTDBError>)
        ensures
            r is Ok,
            *final(self) == *old(self),
    {
        Ok(())
    }
}

/// An HDF5 reader through the format interface; it reads no records.
#[derive(Debug)]
pub struct Hdf5Reader {
    pub path: String,
    pub current_offset: usize,
}

impl Hdf5Reader {
    /// A reader of the file at `path`.
    pub fn new(path: &str) -> (r: Self)
        ensures
            r.path@ == path@,
            r.current_offset == 0,
    {
        Hdf5Reader { path: path.to_owned(), current_offset: 0 }
    }

    /// A batch: always empty.
    pub fn read_batch(&mut self, batch_size: usize) -> (r: Result<Vec<VectorRecord>, RTDBError>)
        ensures
            r matches Ok(rs) && rs@.len() == 0,
            *final(self) == *old(self),
    {
        Ok(Vec::new())
    }

    /// The number of records: unknown.
    pub fn get_total_count(&self) -> (r: Result<Option<u64>, RTDBError>)
        ensures
            r matches Ok(None),
    {
        Ok(None)
    }

    /// Starts over.
    pub fn reset(&mut self) -> (r: Result<(), RTDBError>)
        ensures
            r is Ok,
            final(self).path == old(self).path,
            final(self).current_offset == 0,
    {
        self.current_offset = 0;
        Ok(())
    }
}

/// The text without any leading and trailing quotes (`trim_matches('"')`).
pub open spec fn without_quotes(s: Seq<char>) -> Seq<char>
    decreases s.len(),
{
    if s.len() > 0 && s[0] == '"' {
        without_quotes(s.drop_first())
    } else if s.len() > 0 && s.last() == '"' {
        without_quotes(s.drop_last())
    } else {
        s
    }
}

/// std's `trim_matches('"')`.
pub fn trim_quotes(s: &str) -> (r: String)
    ensures
        r@ == without_quotes(s@),
{
    let chars = crate::text::chars_of(s);
    let mut lo: usize = 0;
    let mut hi: usize = chars.len();
    assert(s@.subrange(0, hi as int) =~= s@);
    while lo < hi && chars[lo] == '"'
        invariant
            lo <= hi <= chars.len(),
            hi == chars.len(),
            chars@ == s@,
            without_quotes(s@) == without_quotes(s@.subrange(lo as int, hi as int)),
        decreases hi - lo,
    {
        assert(s@.subrange(lo as int, hi as int).drop_first() =~= s@.subrange(lo + 1, hi as int));
        lo += 1;
    }
    while lo < hi && chars[hi - 1] == '"'
        invariant
            lo <= hi <= chars.len(),
            chars@ == s@,
            lo < hi ==> chars@[lo as int] != '"',
            without_quotes(s@) == without_quotes(s@.subrange(lo as int, hi as int)),
        decreases hi - lo,
    {
        let ghost t = s@.subrange(lo as int, hi as int);
        assert(t.drop_last() =~= s@.subrange(lo as int, hi - 1));
        assert(t[0] != '"');
        hi -= 1;
    }
    s.substring_char(lo, hi).to_owned()
}


/// The position of the first `c` in `s`.
pub open spec fn first_index(s: Seq<char>, c: char) -> Option<int>
    decreases s.len(),
{
    if s.len() == 0 {
        None
    } else if s[0] == c {
        Some(0)
    } else {
        match first_index(s.drop_first(), c) {
            Some(i) => Some(i + 1),
            None => None,
        }
    }
}

/// The pieces of `s` between commas (`split(',')`): one more than there
/// are commas.
pub open spec fn split_commas(s: Seq<char>) -> Seq<Seq<char>>
    decreases s.len(),
{
    match first_index(s, ',') {
        None => seq![s],
        Some(i) => {
            if 0 <= i < s.len() {
                seq![s.take(i)] + split_commas(s.skip(i + 1))
            } else {
                seq![s]
            }
        },
    }
}

pub proof fn lemma_first_index(s: Seq<char>, c: char, i: int)
    requires
        0 <= i <= s.len(),
        forall|j: int| 0 <= j < i ==> s[j] != c,
        i < s.len() ==> s[i] == c,
    ensures
        first_index(s, c) == (if i < s.len() { Some(i) } else { None::<int> }),
    decreases i,
{
    if i > 0 {
        lemma_first_index(s.drop_first(), c, i - 1);
    }
}

/// The headers a CSV file's first line names: the line trimmed, split at
/// commas, each header trimmed and stripped of quotes.
pub open spec fn csv_header_names(line: Seq<char>) -> Seq<Seq<char>> {
    split_commas(trimmed(line)).map_values(|h: Seq<char>| without_quotes(trimmed(h)))
}

/// The headers of a CSV file from its first line, or the complaint that
/// the file is empty.
pub fn csv_headers(first_line: Option<&str>) -> (r: Result<Vec<String>, RTDBError>)
    ensures
        match first_line {
            Some(line) => r matches Ok(hs) && names_view(hs@) == csv_header_names(line@),
            None => r matches Err(e) && (e matches RTDBError::Serialization(m) && m@ == "Empty CSV file"@),
        },
{
    let line = match first_line {
        Some(l) => l,
        None => return Err(RTDBError::Serialization("Empty CSV file".to_owned())),
    };
    let t = trim_text(line);
    let chars = crate::text::chars_of(t);
    let ghost pieces = split_commas(t@);
    let mut out: Vec<String> = Vec::new();
    let mut start: usize = 0;
    let mut i: usize = 0;
    assert(t@.subrange(0, t@.len() as int) =~= t@);
    while i < chars.len()
        invariant
            start <= i <= chars.len(),
            chars@ == t@,
            forall|j: int| start <= j < i ==> t@[j] != ',',
            split_commas(t@).map_values(|h: Seq<char>| without_quotes(trimmed(h)))
                == names_view(out@) + split_commas(t@.subrange(start as int, t@.len() as int)).map_values(|h: Seq<char>| without_quotes(trimmed(h))),
        decreases chars.len() - i,
    {
        if chars[i] == ',' {
            let ghost rest = t@.subrange(start as int, t@.len() as int);
            proof {
                lemma_first_index(rest, ',', i - start);
                assert(rest.take(i - start) =~= t@.subrange(start as int, i as int));
                assert(rest.skip(i - start + 1) =~= t@.subrange(i + 1, t@.len() as int));
            }
            let piece = t.substring_char(start, i);
            let header = trim_quotes(trim_text(piece));
            let ghost before = out@;
            out.push(header);
            assert(names_view(out@) =~= names_view(before).push(without_quotes(trimmed(t@.subrange(start as int, i as int)))));
            assert(split_commas(rest) =~= seq![t@.subrange(start as int, i as int)] + split_commas(t@.subrange(i + 1, t@.len() as int)));
            assert(split_commas(rest).map_values(|h: Seq<char>| without_quotes(trimmed(h)))
                =~= seq![without_quotes(trimmed(t@.subrange(start as int, i as int)))]
                + split_commas(t@.subrange(i + 1, t@.len() as int)).map_values(|h: Seq<char>| without_quotes(trimmed(h))));
            start = i + 1;
        }
        i += 1;
    }
    let ghost rest = t@.subrange(start as int, t@.len() as int);
    proof {
        lemma_first_index(rest, ',', rest.len() as int);
    }
    let piece = t.substring_char(start, chars.len());
    let header = trim_quotes(trim_text(piece));
    let ghost before = out@;
    out.push(header);
    assert(names_view(out@) =~= names_view(before).push(without_quotes(trimmed(rest))));
    assert(split_commas(rest).map_values(|h: Seq<char>| without_quotes(trimmed(h))) =~= seq![without_quotes(trimmed(rest))]);
    Ok(out)
}

/// What a CSV column holds, by its header (compared without regard to
/// ASCII case): the record's identifier, its vector, or a metadata field.
#[derive(Debug, Clone, Copy, PartialEq, Eq, Structural)]
pub enum CsvColumn {
    Id,
    Vector,
    Field,
}

/// `c` in lower case is `w`, lower-casing ASCII letters only.
pub open spec fn same_letter(c: char, w: char) -> bool {
    if 'A' <= c && c <= 'Z' { (c as u32) + 32 == (w as u32) } else { c == w }
}

/// `s` equals the lower-case `word` but for the case of ASCII letters.
pub open spec fn same_word(s: Seq<char>, word: Seq<char>) -> bool {
    s.len() == word.len() && forall|i: int| 0 <= i < s.len() ==> same_letter(#[trigger] s[i], word[i])
}

/// The kind of the column under `header`: `id` or `_id` names the
/// identifier, `vector`, `embedding` or `embeddings` the vector, anything
/// else a metadata field. (No character outside ASCII lower-cases to a
/// letter of these words, so comparing under ASCII case is comparing under
/// full lower-casing.)
pub open spec fn column_kind(header: Seq<char>) -> CsvColumn {
    if same_word(header, "id"@) || same_word(header, "_id"@) {
        CsvColumn::Id
    } else if same_word(header, "vector"@) || same_word(header, "embedding"@) || same_word(header, "embeddings"@) {
        CsvColumn::Vector
    } else {
        CsvColumn::Field
    }
}

/// Whether `s` equals the lower-case `word` but for ASCII case.
fn is_word(s: &Vec<char>, word: &str) -> (r: bool)
    ensures
        r == same_word(s@, word@),
{
    let w = crate::text::chars_of(word);
    if s.len() != w.len() {
        return false;
    }
    let mut i: usize = 0;
    while i < s.len()
        invariant
            i <= s@.len(),
            s@.len() == w@.len(),
            w@ == word@,
            forall|j: int| 0 <= j < i ==> same_letter(#[trigger] s@[j], word@[j]),
        decreases s@.len() - i,
    {
        let c = s[i];
        let same = if 'A' <= c && c <= 'Z' { (c as u32) + 32 == (w[i] as u32) } else { c == w[i] };
        if !same {
            return false;
        }
        i += 1;
    }
    true
}

/// The kind of the column under `header`.
pub fn csv_column_kind(header: &str) -> (r: CsvColumn)
    ensures
        r == column_kind(header@),
{
    let h = crate::text::chars_of(header);
    proof {
        reveal_strlit("id");
        reveal_strlit("_id");
        reveal_strlit("vector");
        reveal_strlit("embedding");
        reveal_strlit("embeddings");
    }
    if is_word(&h, "id") || is_word(&h, "_id") {
        CsvColumn::Id
    } else if is_word(&h, "vector") || is_word(&h, "embedding") || is_word(&h, "embeddings") {
        CsvColumn::Vector
    } else {
        CsvColumn::Field
    }
}

/// A metadata cell of a CSV row: `true` or `false` (in any ASCII case), or
/// text, which the reader stores as a number where it reads as one.
#[derive(Debug, Clone, PartialEq, Eq)]
pub enum CsvCell {
    Bool(bool),
    Text(String),
}

/// A cell as plain values.
pub enum CellView {
    Bool(bool),
    Text(Seq<char>),
}

/// The view of a cell.
pub open spec fn cell_view(c: CsvCell) -> CellView {
    match c {
        CsvCell::Bool(b) => CellView::Bool(b),
        CsvCell::Text(t) => CellView::Text(t@),
    }
}

/// The cell a value makes.
pub open spec fn cell_of(v: Seq<char>) -> CellView {
    if same_word(v, "true"@) {
        CellView::Bool(true)
    } else if same_word(v, "false"@) {
        CellView::Bool(false)
    } else {
        CellView::Text(v)
    }
}

/// The cell a value makes.
pub fn csv_cell(value: &str) -> (r: CsvCell)
    ensures
        cell_view(r) == cell_of(value@),
{
    let v = crate::text::chars_of(value);
    proof {
        reveal_strlit("true");
        reveal_strlit("false");
    }
    if is_word(&v, "true") {
        CsvCell::Bool(true)
    } else if is_word(&v, "false") {
        CsvCell::Bool(false)
    } else {
        CsvCell::Text(value.to_owned())
    }
}

/// A CSV data row before its numbers are read: the record's identifier,
/// the texts of its vector columns in column order (the reader takes the
/// vector from them), and its metadata cells in column order.
#[derive(Debug)]
pub struct CsvRow {
    pub id: String,
    pub vector_texts: Vec<String>,
    pub fields: Vec<(String, CsvCell)>,
}

/// A row as plain values.
pub struct CsvRowView {
    pub id: Seq<char>,
    pub vector_texts: Seq<Seq<char>>,
    pub fields: Seq<(Seq<char>, CellView)>,
}

/// The view of a row.
pub open spec fn csv_row_view(r: CsvRow) -> CsvRowView {
    CsvRowView {
        id: r.id@,
        vector_texts: names_view(r.vector_texts@),
        fields: r.fields@.map_values(|f: (String, CsvCell)| (f.0@, cell_view(f.1))),
    }
}

/// The identifier named by the first `n` columns (the last identifier
/// column's value), their vector texts and their metadata cells.
pub open spec fn row_columns(headers: Seq<Seq<char>>, values: Seq<Seq<char>>, n: nat)
    -> (Option<Seq<char>>, Seq<Seq<char>>, Seq<(Seq<char>, CellView)>)
    decreases n,
{
    if n == 0 {
        (None, Seq::empty(), Seq::empty())
    } else {
        let (id, vs, fs) = row_columns(headers, values, (n - 1) as nat);
        let h = headers[n - 1];
        let v = values[n - 1];
        match column_kind(h) {
            CsvColumn::Id => (Some(v), vs, fs),
            CsvColumn::Vector => (id, vs.push(v), fs),
            CsvColumn::Field => (id, vs, fs.push((h, cell_of(v)))),
        }
    }
}

/// What a data line of a CSV file with these headers makes, at data line
/// number `line_no`: nothing for a blank line or one with as many values
/// as headers but for a different count; else a row whose identifier is
/// the last identifier column's value, or `csv_row_` and the line number.
/// The values are split at commas after trimming the line, each trimmed
/// and stripped of quotes.
pub open spec fn csv_row_of(headers: Seq<Seq<char>>, line: Seq<char>, line_no: u64) -> Option<CsvRowView> {
    let values = csv_header_names(line);
    if trimmed(line).len() == 0 || values.len() != headers.len() {
        None
    } else {
        let (id, vs, fs) = row_columns(headers, values, headers.len());
        Some(CsvRowView {
            id: match id {
                Some(v) => v,
                None => "csv_row_"@ + decimal(line_no as nat),
            },
            vector_texts: vs,
            fields: fs,
        })
    }
}

/// The row a data line makes, if any (see `csv_row_of`).
pub fn csv_row(headers: &Vec<String>, line: &str, line_no: u64) -> (r: Option<CsvRow>)
    ensures
        match r {
            Some(row) => csv_row_of(names_view(headers@), line@, line_no) == Some(csv_row_view(row)),
            None => csv_row_of(names_view(headers@), line@, line_no) is None,
        },
{
    let t = trim_text(line);
    if t.unicode_len() == 0 {
        return None;
    }
    let values = match csv_headers(Some(line)) {
        Ok(v) => v,
        Err(_) => unreached(),
    };
    if values.len() != headers.len() {
        return None;
    }
    let ghost hv = names_view(headers@);
    let ghost vv = names_view(values@);
    let mut id: Option<String> = None;
    let mut vector_texts: Vec<String> = Vec::new();
    let mut fields: Vec<(String, CsvCell)> = Vec::new();
    let mut i: usize = 0;
    while i < headers.len()
        invariant
            i <= headers@.len(),
            values@.len() == headers@.len(),
            hv == names_view(headers@),
            vv == names_view(values@),
            ({
                let (pid, pvs, pfs) = row_columns(hv, vv, i as nat);
                &&& pid == match id { Some(s) => Some(s@), None => None::<Seq<char>> }
                &&& pvs == names_view(vector_texts@)
                &&& pfs == fields@.map_values(|f: (String, CsvCell)| (f.0@, cell_view(f.1)))
            }),
        decreases headers@.len() - i,
    {
        let h = &headers[i];
        let v = &values[i];
        let ghost fs0 = fields@;
        let ghost vs0 = vector_texts@;
        match csv_column_kind(h.as_str()) {
            CsvColumn::Id => {
                id = Some(v.clone());
            },
            CsvColumn::Vector => {
                vector_texts.push(v.clone());
                assert(names_view(vector_texts@) =~= names_view(vs0).push(v@));
            },
            CsvColumn::Field => {
                let cell = csv_cell(v.as_str());
                fields.push((h.clone(), cell));
                assert(fields@.map_values(|f: (String, CsvCell)| (f.0@, cell_view(f.1)))
                    =~= fs0.map_values(|f: (String, CsvCell)| (f.0@, cell_view(f.1))).push((h@, cell_of(v@))));
            },
        }
        i += 1;
    }
    let id = match id {
        Some(s) => s,
        None => {
            let mut s = "csv_row_".to_owned();
            push_decimal(&mut s, line_no);
            s
        },
    };
    Some(CsvRow { id, vector_texts, fields })
}

/// The rows that lines `pos` on make, looking at no more than `k` lines,
/// the first row numbered `line_no` and each next one the number after;
/// and the number after the last row's.
pub open spec fn csv_scan(headers: Seq<Seq<char>>, lines: Seq<Seq<char>>, pos: int, k: nat, line_no: int)
    -> (Seq<CsvRowView>, int)
    decreases k,
{
    if k == 0 || pos < 0 || pos >= lines.len() {
        (Seq::empty(), line_no)
    } else {
        match csv_row_of(headers, lines[pos], line_no as u64) {
            Some(row) => {
                let (rows, next) = csv_scan(headers, lines, pos + 1, (k - 1) as nat, line_no + 1);
                (seq![row] + rows, next)
            },
            None => csv_scan(headers, lines, pos + 1, (k - 1) as nat, line_no),
        }
    }
}

/// How many data lines a batch read passes over first: as many as were
/// read before, or all there are.
pub open spec fn csv_skipped(n: int, read_before: int) -> int {
    if n <= 1 { 0 } else if read_before < n - 1 { read_before } else { n - 1 }
}

/// A CSV reader's place in its file.
#[derive(Debug)]
pub struct CsvReader {
    pub path: String,
    /// The number after the last row read (0 before any batch): the next
    /// batch passes over this many data lines first.
    pub current_line: u64,
    /// The headers, once read.
    pub headers: Option<Vec<String>>,
}

impl CsvReader {
    /// A reader of the file at `path`, at its start.
    pub fn new(path: &str) -> (r: Self)
        ensures
            r.path@ == path@,
            r.current_line == 0,
            r.headers is None,
    {
        CsvReader { path: path.to_owned(), current_line: 0, headers: None }
    }

    /// Starts over.
    pub fn reset(&mut self) -> (r: Result<(), RTDBError>)
        ensures
            r is Ok,
            final(self).path == old(self).path,
            final(self).headers == old(self).headers,
            final(self).current_line == 0,
    {
        self.current_line = 0;
        Ok(())
    }

    /// The headers: those read before, or those of the file's first line.
    fn headers_of(&mut self, lines: &Vec<String>) -> (r: Result<Vec<String>, RTDBError>)
        ensures
            final(self).path == old(self).path,
            final(self).current_line == old(self).current_line,
            match old(self).headers {
                Some(h) => {
                    &&& r is Ok
                    &&& names_view(r->Ok_0@) == names_view(h@)
                    &&& final(self).headers == old(self).headers
                },
                None => if lines@.len() == 0 {
                    &&& r matches Err(e) && (e matches RTDBError::Serialization(m) && m@ == "Empty CSV file"@)
                    &&& final(self).headers is None
                } else {
                    &&& r is Ok
                    &&& names_view(r->Ok_0@) == csv_header_names(lines@[0]@)
                    &&& final(self).headers is Some
                    &&& names_view(final(self).headers->0@) == names_view(r->Ok_0@)
                },
            },
    {
        match &self.headers {
            Some(h) => {
                let hs = clone_strings(h);
                return Ok(hs);
            },
            None => {},
        }
        let first = if lines.len() > 0 { Some(lines[0].as_str()) } else { None };
        let hs = csv_headers(first)?;
        self.headers = Some(clone_strings(&hs));
        Ok(hs)
    }

    /// The next batch of rows from the lines of the file (its first line
    /// the headers): past the data lines read before, at most
    /// `batch_size` lines are looked at, and each that makes a row (see
    /// `csv_row_of`) gives one, numbered on from the lines passed over;
    /// the reader then stands at the number after the last row's. The
    /// headers are those read before, else the first line's, and an empty
    /// file has none.
    pub fn read_batch(&mut self, lines: &Vec<String>, batch_size: usize) -> (r: Result<Vec<CsvRow>, RTDBError>)
        requires
            lines@.len() < u64::MAX,
        ensures
            final(self).path == old(self).path,
            (old(self).headers is None && lines@.len() == 0) <==> r is Err,
            r matches Err(e) ==> (e matches RTDBError::Serialization(m) && m@ == "Empty CSV file"@)
                && *final(self) == *old(self),
            r is Ok ==> final(self).headers is Some,
            r is Ok ==> names_view(final(self).headers->0@) == match old(self).headers {
                Some(h0) => names_view(h0@),
                None => csv_header_names(lines@[0]@),
            },
            r matches Ok(rows) ==> ({
                let hs = match old(self).headers {
                    Some(h0) => names_view(h0@),
                    None => csv_header_names(lines@[0]@),
                };
                let start = 1 + csv_skipped(lines@.len() as int, old(self).current_line as int);
                let (want, next) = csv_scan(hs, names_view(lines@), start, batch_size as nat, start);
                &&& rows@.map_values(|row: CsvRow| csv_row_view(row)) == want
                &&& final(self).current_line == next
            }),
    {
        let headers = self.headers_of(lines)?;
        let ghost hs = names_view(headers@);
        let ghost lv = names_view(lines@);
        let n = lines.len();
        let mut current_line: u64 = 1;
        let mut pos: usize = 1;
        while current_line <= self.current_line && pos < n
            invariant
                1 <= pos,
                current_line == pos,
                pos <= n || n == 0,
                n == lines@.len(),
                n < u64::MAX,
                pos - 1 <= self.current_line,
                csv_skipped(n as int, self.current_line as int) >= pos - 1,
                csv_skipped(n as int, self.current_line as int) == (if n <= 1 { 0 } else if self.current_line < n - 1 { self.current_line as int } else { n - 1 }),
            decreases n - pos,
        {
            pos += 1;
            current_line += 1;
        }
        let ghost start = pos as int;
        assert(start == 1 + csv_skipped(n as int, self.current_line as int));
        let mut rows: Vec<CsvRow> = Vec::new();
        let mut k: usize = 0;
        while k < batch_size && pos < n
            invariant
                k <= batch_size,
                n == lines@.len(),
                n < u64::MAX,
                start <= pos,
                pos as int == start + k,
                current_line as int <= pos as int,
                hs == names_view(headers@),
                lv == names_view(lines@),
                ({
                    let (want, next) = csv_scan(hs, lv, start, batch_size as nat, start);
                    let (rest, rest_next) = csv_scan(hs, lv, pos as int, (batch_size - k) as nat, current_line as int);
                    &&& want == rows@.map_values(|row: CsvRow| csv_row_view(row)) + rest
                    &&& next == rest_next
                }),
            decreases batch_size - k,
        {
            assert(lv[pos as int] == lines@[pos as int]@);
            let ghost before = rows@;
            let ghost rest_k = (batch_size - k) as nat;
            match csv_row(&headers, lines[pos].as_str(), current_line) {
                Some(row) => {
                    let ghost rv = csv_row_view(row);
                    rows.push(row);
                    assert(rows@.map_values(|row: CsvRow| csv_row_view(row))
                        =~= before.map_values(|row: CsvRow| csv_row_view(row)).push(rv));
                    let ghost (tail, _) = csv_scan(hs, lv, pos + 1, (rest_k - 1) as nat, current_line + 1);
                    assert(before.map_values(|row: CsvRow| csv_row_view(row)) + (seq![rv] + tail)
                        =~= before.map_values(|row: CsvRow| csv_row_view(row)).push(rv) + tail);
                    current_line += 1;
                },
                None => {},
            }
            pos += 1;
            k += 1;
        }
        proof {
            let (rest, _) = csv_scan(hs, lv, pos as int, (batch_size - k) as nat, current_line as int);
            assert(rest =~= Seq::<CsvRowView>::empty());
            assert(rows@.map_values(|row: CsvRow| csv_row_view(row)) + rest =~= rows@.map_values(|row: CsvRow| csv_row_view(row)));
        }
        self.current_line = current_line;
        Ok(rows)
    }
}

/// A copy of each text.
fn clone_strings(v: &Vec<String>) -> (r: Vec<String>)
    ensures
        r@.len() == v@.len(),
        forall|i: int| 0 <= i < v@.len() ==> r@[i]@ == v@[i]@,
        names_view(r@) == names_view(v@),
{
    let mut r: Vec<String> = Vec::new();
    let mut i: usize = 0;
    while i < v.len()
        invariant
            i <= v@.len(),
            r@.len() == i,
            forall|j: int| 0 <= j < i ==> r@[j]@ == v@[j]@,
        decreases v@.len() - i,
    {
        r.push(v[i].clone());
        i += 1;
    }
    assert(names_view(r@) =~= names_view(v@));
    r
}


} // verus!

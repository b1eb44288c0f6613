//! Reading records out of Parquet record batches.
//!
//! A record batch is modelled by what reading needs of it: its row count
//! and, per column, its name and values. Vector components are the bit
//! patterns of `f32` values.

use vstd::prelude::*;
use crate::json::{Json, JsonValue};
use crate::types::{RTDBError, fields_view};
use crate::migration::model::{VectorRecord, record_view, fields_clone};
use crate::migration::validation::byte_len;

verus! {

/// The values of a column, as far as reading records looks at them.
#[derive(Debug)]
pub enum ColumnData {
    /// A text column: each row's text (as the array holds it, also where
    /// the row is null), whether the row is null, and the JSON object the
    /// text parses to, where it is one.
    Text { values: Vec<String>, nulls: Vec<bool>, objects: Vec<Option<Vec<(String, JsonValue)>>> },
    /// A list column of 32-bit floats: each row's list.
    FloatLists(Vec<Vec<u32>>),
    /// A list column of anything else.
    OtherLists,
    /// Any other column.
    Other,
}

/// A named column of a batch.
#[derive(Debug)]
pub struct BatchColumn {
    pub name: String,
    pub data: ColumnData,
}

/// A record batch.
#[derive(Debug)]
pub struct ColumnBatch {
    pub num_rows: usize,
    pub columns: Vec<BatchColumn>,
}

/// Whether every column has a value per row.
pub open spec fn batch_well_formed(b: ColumnBatch) -> bool {
    forall|c: int| 0 <= c < b.columns@.len() ==> match #[trigger] b.columns@[c].data {
        ColumnData::Text { values, nulls, objects } =>
            values@.len() == b.num_rows && nulls@.len() == b.num_rows && objects@.len() == b.num_rows,
        ColumnData::FloatLists(lists) => lists@.len() == b.num_rows,
        _ => true,
    }
}

/// The position of the first column named `name`.
pub open spec fn column_index(cols: Seq<BatchColumn>, name: Seq<char>) -> Option<int> {
    if exists|i: int| 0 <= i < cols.len() && cols[i].name@ == name {
        let i = choose|i: int| 0 <= i < cols.len() && cols[i].name@ == name
            && forall|j: int| 0 <= j < i ==> cols[j].name@ != name;
        Some(i)
    } else {
        None
    }
}

/// Whether `i` is the position of the first column named `name`.
pub open spec fn first_named(cols: Seq<BatchColumn>, name: Seq<char>, i: int) -> bool {
    0 <= i < cols.len() && cols[i].name@ == name && forall|j: int| 0 <= j < i ==> cols[j].name@ != name
}

/// The first column with one of the vector names.
pub open spec fn vector_column_index(cols: Seq<BatchColumn>) -> Option<int> {
    match column_index(cols, "vector"@) {
        Some(i) => Some(i),
        None => match column_index(cols, "embedding"@) {
            Some(i) => Some(i),
            None => match column_index(cols, "embeddings"@) {
                Some(i) => Some(i),
                None => column_index(cols, "vec"@),
            },
        },
    }
}

/// The metadata of row `row`: the object a non-null text of the metadata
/// column parses to; none otherwise.
pub open spec fn row_metadata(meta: Option<ColumnData>, row: int) -> Seq<(Seq<char>, Json)> {
    match meta {
        Some(ColumnData::Text { values, nulls, objects }) => if !nulls@[row] {
            match objects@[row] {
                Some(fs) => fields_view(fs@),
                None => Seq::empty(),
            }
        } else {
            Seq::empty()
        },
        _ => Seq::empty(),
    }
}

/// The mathematical form of a record.
pub type RowView = (Seq<char>, Seq<u32>, Seq<(Seq<char>, Json)>);

/// The records of a batch, or the complaint about it.
pub open spec fn batch_records(b: ColumnBatch) -> Result<Seq<RowView>, Seq<char>> {
    let cols = b.columns@;
    match column_index(cols, "id"@) {
        None => Err("Missing 'id' column in Parquet"@),
        Some(ic) => match vector_column_index(cols) {
            None => Err("Missing vector column"@),
            Some(vc) => {
                let meta = match column_index(cols, "metadata"@) {
                    Some(mc) => Some(cols[mc].data),
                    None => None,
                };
                match cols[ic].data {
                    ColumnData::Text { values: ids, .. } => match cols[vc].data {
                        ColumnData::FloatLists(lists) => Ok(Seq::new(
                            b.num_rows as nat,
                            |i: int| (ids@[i]@, lists@[i]@, row_metadata(meta, i)),
                        )),
                        ColumnData::OtherLists => if b.num_rows > 0 {
                            Err("Invalid vector data type"@)
                        } else {
                            Ok(Seq::empty())
                        },
                        _ => Err("Invalid 'vector' column type"@),
                    },
                    _ => Err("Invalid 'id' column type"@),
                }
            },
        },
    }
}

/// Whether `e` is a migration error with message `m`.
pub open spec fn migration_error(e: RTDBError, m: Seq<char>) -> bool {
    e matches RTDBError::Migration(s) && s@ == m
}

/// The mathematical form of a list of records.
pub open spec fn rows_view(rs: Seq<VectorRecord>) -> Seq<RowView> {
    rs.map_values(|r: VectorRecord| record_view(r))
}

/// The position of the first column named `name`.
pub fn find_column(cols: &Vec<BatchColumn>, name: &str) -> (r: Option<usize>)
    ensures
        match r {
            Some(i) => first_named(cols@, name@, i as int) && column_index(cols@, name@) == Some(i as int),
            None => column_index(cols@, name@) is None,
        },
{
    let target = name.to_owned();
    let mut i: usize = 0;
    while i < cols.len()
        invariant
            i <= cols.len(),
            target@ == name@,
            forall|j: int| 0 <= j < i ==> cols@[j].name@ != name@,
        decreases cols.len() - i,
    {
        if cols[i].name == target {
            proof {
                let k = choose|k: int| 0 <= k < cols@.len() && cols@[k].name@ == name@
                    && forall|j: int| 0 <= j < k ==> cols@[j].name@ != name@;
                assert(first_named(cols@, name@, i as int));
                if k < i {
                } else if k > i {
                    assert(cols@[i as int].name@ != name@);
                }
            }
            return Some(i);
        }
        i += 1;
    }
    None
}

/// The first column with one of the vector names.
fn find_vector_column(cols: &Vec<BatchColumn>) -> (r: Option<usize>)
    ensures
        match r {
            Some(i) => vector_column_index(cols@) == Some(i as int) && i < cols@.len(),
            None => vector_column_index(cols@) is None,
        },
{
    match find_column(cols, "vector") {
        Some(i) => Some(i),
        None => match find_column(cols, "embedding") {
            Some(i) => Some(i),
            None => match find_column(cols, "embeddings") {
                Some(i) => Some(i),
                None => find_column(cols, "vec"),
            },
        },
    }
}

/// The metadata of row `row`.
fn metadata_of_row(meta: Option<&ColumnData>, row: usize) -> (r: Vec<(String, JsonValue)>)
    requires
        match meta {
            Some(ColumnData::Text { values, nulls, objects }) => row < nulls@.len() && row < objects@.len(),
            _ => true,
        },
    ensures
        fields_view(r@) == row_metadata(match meta { Some(d) => Some(*d), None => None }, row as int),
{
    match meta {
        Some(ColumnData::Text { values, nulls, objects }) => {
            if !nulls[row] {
                match &objects[row] {
                    Some(fs) => fields_clone(fs),
                    None => {
                        let v: Vec<(String, JsonValue)> = Vec::new();
                        assert(fields_view(v@) =~= Seq::<(Seq<char>, Json)>::empty());
                        v
                    },
                }
            } else {
                let v: Vec<(String, JsonValue)> = Vec::new();
                assert(fields_view(v@) =~= Seq::<(Seq<char>, Json)>::empty());
                v
            }
        },
        _ => {
            let v: Vec<(String, JsonValue)> = Vec::new();
            assert(fields_view(v@) =~= Seq::<(Seq<char>, Json)>::empty());
            v
        },
    }
}

/// The records of a batch: each row's identifier from the `id` column, its
/// vector from the first of `vector`, `embedding`, `embeddings` and `vec`,
/// and its metadata from the `metadata` column where that is text.
pub fn convert_batch_to_records(b: &ColumnBatch) -> (r: Result<Vec<VectorRecord>, RTDBError>)
    requires
        batch_well_formed(*b),
    ensures
        match (r, batch_records(*b)) {
            (Ok(rs), Ok(v)) => rows_view(rs@) == v,
            (Err(e), Err(m)) => migration_error(e, m),
            _ => false,
        },
{
    let cols = &b.columns;
    let ic = match find_column(cols, "id") {
        Some(i) => i,
        None => return Err(RTDBError::Migration("Missing 'id' column in Parquet".to_owned())),
    };
    let vc = match find_vector_column(cols) {
        Some(i) => i,
        None => return Err(RTDBError::Migration("Missing vector column".to_owned())),
    };
    let meta: Option<&ColumnData> = match find_column(cols, "metadata") {
        Some(mc) => Some(&cols[mc].data),
        None => None,
    };
    let ids = match &cols[ic].data {
        ColumnData::Text { values, .. } => values,
        _ => return Err(RTDBError::Migration("Invalid 'id' column type".to_owned())),
    };
    let lists = match &cols[vc].data {
        ColumnData::FloatLists(lists) => lists,
        ColumnData::OtherLists => {
            if b.num_rows > 0 {
                return Err(RTDBError::Migration("Invalid vector data type".to_owned()));
            }
            let empty: Vec<VectorRecord> = Vec::new();
            assert(rows_view(empty@) =~= Seq::<RowView>::empty());
            return Ok(empty);
        },
        _ => return Err(RTDBError::Migration("Invalid 'vector' column type".to_owned())),
    };
    proof {
        assert(match cols@[ic as int].data { ColumnData::Text { values, nulls, objects } => values@.len() == b.num_rows, _ => true });
        assert(match cols@[vc as int].data { ColumnData::FloatLists(l) => l@.len() == b.num_rows, _ => true });
        match meta {
            Some(d) => {
                let mc = column_index(cols@, "metadata"@).unwrap();
                assert(match cols@[mc].data { ColumnData::Text { values, nulls, objects } =>
                    nulls@.len() == b.num_rows && objects@.len() == b.num_rows, _ => true });
            },
            None => {},
        }
    }
    let ghost meta_data = match meta { Some(d) => Some(*d), None => None };
    let ghost expected = batch_records(*b)->Ok_0;
    let mut out: Vec<VectorRecord> = Vec::new();
    let mut i: usize = 0;
    while i < b.num_rows
        invariant
            i <= b.num_rows,
            ids@.len() == b.num_rows,
            lists@.len() == b.num_rows,
            match meta {
                Some(ColumnData::Text { values, nulls, objects }) => nulls@.len() == b.num_rows && objects@.len() == b.num_rows,
                _ => true,
            },
            meta_data == match meta { Some(d) => Some(*d), None => None::<ColumnData> },
            expected.len() == b.num_rows,
            forall|k: int| 0 <= k < b.num_rows ==> #[trigger] expected[k] == (ids@[k]@, lists@[k]@, row_metadata(meta_data, k)),
            rows_view(out@) == expected.take(i as int),
        decreases b.num_rows - i,
    {
        let vector = lists[i].clone();
        assert(vector@ =~= lists@[i as int]@);
        let rec = VectorRecord { id: ids[i].clone(), vector, metadata: metadata_of_row(meta, i) };
        let ghost before = out@;
        out.push(rec);
        assert(rows_view(out@) =~= rows_view(before).push(record_view(rec)));
        assert(rows_view(out@) =~= expected.take(i + 1));
        i += 1;
    }
    assert(expected.take(b.num_rows as int) =~= expected);
    Ok(out)
}


/// The first `n` elements, or all of them when there are fewer.
pub open spec fn prefix<A>(s: Seq<A>, n: int) -> Seq<A> {
    if n < s.len() { s.take(n) } else { s }
}

/// The complaint about a failed read of the stream.
pub open spec fn stream_complaint(e: Seq<char>) -> Seq<char> {
    "Parquet stream error: "@ + e
}

/// The rows of the batches before position `i`.
pub open spec fn rows_before(bs: Seq<Result<ColumnBatch, String>>, i: int) -> int
    decreases i,
{
    if i <= 0 {
        0
    } else {
        rows_before(bs, i - 1) + match bs[i - 1] {
            Ok(b) => b.num_rows as int,
            Err(_) => 0,
        }
    }
}

/// Whether each batch read is well formed.
pub open spec fn stream_well_formed(bs: Seq<Result<ColumnBatch, String>>) -> bool {
    forall|i: int| 0 <= i < bs.len() ==> (#[trigger] bs[i] matches Ok(b) ==> batch_well_formed(b))
}

/// Collecting records from batch `i` on, having `acc`, until `limit` are
/// collected or the stream ends.
pub open spec fn collect_from(bs: Seq<Result<ColumnBatch, String>>, i: int, limit: int, acc: Seq<RowView>) -> Result<Seq<RowView>, Seq<char>>
    decreases bs.len() - i,
{
    if acc.len() >= limit || i >= bs.len() || i < 0 {
        Ok(acc)
    } else {
        match bs[i] {
            Err(e) => Err(stream_complaint(e@)),
            Ok(b) => match batch_records(b) {
                Err(m) => Err(m),
                Ok(rs) => collect_from(bs, i + 1, limit, acc + prefix(rs, limit - acc.len())),
            },
        }
    }
}

/// Skipping to row `offset` from batch `i` on, at row `pos`: whole batches
/// before the offset are passed over; a batch that holds the offset gives
/// the records from it on (at most `limit`, and from that batch alone);
/// else the records are collected from the next batch.
pub open spec fn skip_from(bs: Seq<Result<ColumnBatch, String>>, i: int, pos: int, offset: int, limit: int) -> Result<Seq<RowView>, Seq<char>>
    decreases bs.len() - i,
{
    if pos >= offset || i >= bs.len() || i < 0 {
        collect_from(bs, i, limit, Seq::empty())
    } else {
        match bs[i] {
            Err(e) => Err(stream_complaint(e@)),
            Ok(b) => if pos + b.num_rows <= offset {
                skip_from(bs, i + 1, pos + b.num_rows, offset, limit)
            } else {
                match batch_records(b) {
                    Err(m) => Err(m),
                    Ok(rs) => Ok(prefix(rs.skip(offset - pos), limit)),
                }
            },
        }
    }
}

/// The records a read of `limit` records from row `offset` gives from a
/// stream of batches (each batch as read, or the stream's complaint).
pub open spec fn fetch_records(bs: Seq<Result<ColumnBatch, String>>, offset: u64, limit: usize) -> Result<Seq<RowView>, Seq<char>> {
    skip_from(bs, 0, 0, offset as int, limit as int)
}

/// Copies of records `from` up to `to`.
fn copy_range(rs: &Vec<VectorRecord>, from: usize, to: usize, out: &mut Vec<VectorRecord>)
    requires
        from <= to <= rs@.len(),
    ensures
        rows_view(final(out)@) == rows_view(old(out)@) + rows_view(rs@).subrange(from as int, to as int),
{
    let mut k: usize = from;
    assert(rows_view(out@) =~= rows_view(old(out)@) + rows_view(rs@).subrange(from as int, from as int));
    while k < to
        invariant
            from <= k <= to <= rs@.len(),
            rows_view(out@) == rows_view(old(out)@) + rows_view(rs@).subrange(from as int, k as int),
        decreases to - k,
    {
        let ghost before = out@;
        out.push(rs[k].copy());
        assert(rows_view(out@) =~= rows_view(before).push(record_view(rs@[k as int])));
        assert(rows_view(out@) =~= rows_view(old(out)@) + rows_view(rs@).subrange(from as int, k + 1));
        k += 1;
    }
}

proof fn lemma_rows_before_grows(bs: Seq<Result<ColumnBatch, String>>, i: int, j: int)
    requires
        0 <= i <= j,
    ensures
        rows_before(bs, i) <= rows_before(bs, j),
    decreases j - i,
{
    if j > i {
        lemma_rows_before_grows(bs, i, j - 1);
    }
}

proof fn lemma_collect_step(bs: Seq<Result<ColumnBatch, String>>, i: int, limit: int, acc: Seq<RowView>, rs: Seq<RowView>)
    requires
        0 <= i < bs.len(),
        acc.len() < limit,
        bs[i] matches Ok(b) && batch_records(b) == Ok::<Seq<RowView>, Seq<char>>(rs),
    ensures
        collect_from(bs, i, limit, acc) == collect_from(bs, i + 1, limit, acc + prefix(rs, limit - acc.len())),
{
}

proof fn lemma_collect_fails(bs: Seq<Result<ColumnBatch, String>>, i: int, limit: int, acc: Seq<RowView>)
    requires
        0 <= i < bs.len(),
        acc.len() < limit,
        bs[i] matches Ok(b) && batch_records(b) is Err,
    ensures
        collect_from(bs, i, limit, acc) == batch_records(bs[i]->Ok_0),
{
}

/// Reads `limit` records from row `offset` of a stream of batches, as
/// `ParquetSourceClient::fetch_batch` does.
pub fn fetch_from_batches(bs: &Vec<Result<ColumnBatch, String>>, offset: u64, limit: usize) -> (r: Result<Vec<VectorRecord>, RTDBError>)
    requires
        stream_well_formed(bs@),
        rows_before(bs@, bs@.len() as int) <= u64::MAX,
    ensures
        match (r, fetch_records(bs@, offset, limit)) {
            (Ok(rs), Ok(v)) => rows_view(rs@) == v,
            (Err(e), Err(m)) => migration_error(e, m),
            _ => false,
        },
{
    let mut i: usize = 0;
    let mut pos: u64 = 0;
    while pos < offset && i < bs.len()
        invariant
            i <= bs.len(),
            stream_well_formed(bs@),
            rows_before(bs@, bs@.len() as int) <= u64::MAX,
            pos == rows_before(bs@, i as int),
            fetch_records(bs@, offset, limit) == skip_from(bs@, i as int, pos as int, offset as int, limit as int),
        decreases bs.len() - i,
    {
        match &bs[i] {
            Err(e) => {
                let mut m = "Parquet stream error: ".to_owned();
                m.append(e.as_str());
                return Err(RTDBError::Migration(m));
            },
            Ok(b) => {
                proof {
                    lemma_rows_before_grows(bs@, i + 1, bs@.len() as int);
                }
                let n = b.num_rows as u64;
                if pos + n <= offset {
                    pos = pos + n;
                    i += 1;
                } else {
                    assert(bs@[i as int] matches Ok(x) ==> batch_well_formed(x));
                    let rs = convert_batch_to_records(b)?;
                    let skip = (offset - pos) as usize;
                    let end = if limit < rs.len() - skip { skip + limit } else { rs.len() };
                    let mut out: Vec<VectorRecord> = Vec::new();
                    copy_range(&rs, skip, end, &mut out);
                    assert(rows_view(out@) =~= prefix(rows_view(rs@).skip(skip as int), limit as int));
                    return Ok(out);
                }
            },
        }
    }
    let mut out: Vec<VectorRecord> = Vec::new();
    assert(rows_view(out@) =~= Seq::<RowView>::empty());
    while out.len() < limit && i < bs.len()
        invariant
            i <= bs.len(),
            stream_well_formed(bs@),
            fetch_records(bs@, offset, limit) == collect_from(bs@, i as int, limit as int, rows_view(out@)),
        decreases bs.len() - i,
    {
        let ghost acc = rows_view(out@);
        match &bs[i] {
            Err(e) => {
                let mut m = "Parquet stream error: ".to_owned();
                m.append(e.as_str());
                return Err(RTDBError::Migration(m));
            },
            Ok(b) => {
                assert(bs@[i as int] matches Ok(x) ==> batch_well_formed(x));
                let rs = match convert_batch_to_records(b) {
                    Ok(rs) => rs,
                    Err(e) => {
                        proof {
                            lemma_collect_fails(bs@, i as int, limit as int, acc);
                        }
                        return Err(e);
                    },
                };
                let wanted = limit - out.len();
                let take = if rs.len() < wanted { rs.len() } else { wanted };
                copy_range(&rs, 0, take, &mut out);
                proof {
                    assert(rows_view(rs@).subrange(0, take as int) =~= prefix(rows_view(rs@), limit - acc.len()));
                    lemma_collect_step(bs@, i as int, limit as int, acc, rows_view(rs@));
                }
                i += 1;
            },
        }
    }
    Ok(out)
}



/// What a Parquet file's metadata tells of it.
#[derive(Debug, Clone)]
pub struct ParquetFileInfo {
    pub num_rows: u64,
    pub num_row_groups: usize,
    /// Bytes.
    pub file_size: u64,
    /// The writer that created the file, as its metadata names it.
    pub compression: String,
    /// Columns of the schema.
    pub schema_fields: usize,
}

/// The estimated bytes of a JSON value: fixed sizes for null, booleans and
/// numbers, the text and its quotes for a string, and the parts and their
/// punctuation for arrays and objects.
pub open spec fn json_size(v: Json) -> int
    decreases v,
{
    match v {
        Json::Null => 4,
        Json::Bool(_) => 5,
        Json::Number(_) => 16,
        Json::Str(s) => byte_len(s) + 2,
        Json::Array(xs) => items_size(xs) + 2,
        Json::Object(fs) => entries_size(fs) + 2,
    }
}

/// The estimated bytes of the elements of an array.
pub open spec fn items_size(xs: Seq<Json>) -> int
    decreases xs,
{
    if xs.len() == 0 {
        0
    } else {
        items_size(xs.drop_last()) + json_size(xs.last())
    }
}

/// The estimated bytes of the entries of an object: each key, its value,
/// and three bytes of punctuation.
pub open spec fn entries_size(fs: Seq<(Seq<char>, Json)>) -> int
    decreases fs,
{
    if fs.len() == 0 {
        0
    } else {
        entries_size(fs.drop_last()) + byte_len(fs.last().0) + json_size(fs.last().1) + 3
    }
}

/// The estimated bytes of a record: its identifier, four bytes a
/// component, and each metadata key and value.
pub open spec fn record_size(r: RowView) -> int {
    byte_len(r.0) + 4 * r.1.len() + fields_size(r.2)
}

/// The estimated bytes of metadata: each key and value.
pub open spec fn fields_size(fs: Seq<(Seq<char>, Json)>) -> int
    decreases fs.len(),
{
    if fs.len() == 0 {
        0
    } else {
        fields_size(fs.drop_last()) + byte_len(fs.last().0) + json_size(fs.last().1)
    }
}

/// The estimated bytes of records.
pub open spec fn records_size(rs: Seq<RowView>) -> int
    decreases rs.len(),
{
    if rs.len() == 0 {
        0
    } else {
        records_size(rs.drop_last()) + record_size(rs.last())
    }
}

/// Estimates are never negative, and a prefix's is at most the whole's.
proof fn lemma_sizes_grow(v: Json)
    ensures
        json_size(v) >= 2,
        match v {
            Json::Array(xs) => forall|i: int| 0 <= i <= xs.len() ==> 0 <= #[trigger] items_size(xs.take(i)) <= items_size(xs),
            Json::Object(fs) => forall|i: int| 0 <= i <= fs.len() ==> 0 <= #[trigger] entries_size(fs.take(i)) <= entries_size(fs),
            _ => true,
        },
    decreases v,
{
    match v {
        Json::Array(xs) => {
            lemma_items_grow(xs);
            assert(items_size(xs.take(0)) <= items_size(xs));
            assert(xs.take(0) =~= Seq::<Json>::empty());
        },
        Json::Object(fs) => {
            lemma_entries_grow(fs);
            assert(entries_size(fs.take(0)) <= entries_size(fs));
            assert(fs.take(0) =~= Seq::<(Seq<char>, Json)>::empty());
        },
        _ => {},
    }
}

proof fn lemma_items_grow(xs: Seq<Json>)
    ensures
        forall|i: int| 0 <= i <= xs.len() ==> 0 <= #[trigger] items_size(xs.take(i)) <= items_size(xs),
    decreases xs,
{
    if xs.len() > 0 {
        lemma_items_grow(xs.drop_last());
        lemma_sizes_grow(xs.last());
        assert forall|i: int| 0 <= i <= xs.len() implies 0 <= #[trigger] items_size(xs.take(i)) <= items_size(xs) by {
            assert(0 <= items_size(xs.drop_last().take(0)) <= items_size(xs.drop_last()));
            if i == xs.len() {
                assert(xs.take(i) =~= xs);
            } else {
                assert(xs.take(i) =~= xs.drop_last().take(i));
                assert(0 <= items_size(xs.drop_last().take(i)) <= items_size(xs.drop_last()));
            }
        }
    } else {
        assert(xs.take(0) =~= xs);
    }
}

proof fn lemma_entries_grow(fs: Seq<(Seq<char>, Json)>)
    ensures
        forall|i: int| 0 <= i <= fs.len() ==> 0 <= #[trigger] entries_size(fs.take(i)) <= entries_size(fs),
    decreases fs,
{
    if fs.len() > 0 {
        lemma_entries_grow(fs.drop_last());
        lemma_sizes_grow(fs.last().1);
        assert forall|i: int| 0 <= i <= fs.len() implies 0 <= #[trigger] entries_size(fs.take(i)) <= entries_size(fs) by {
            assert(0 <= entries_size(fs.drop_last().take(0)) <= entries_size(fs.drop_last()));
            if i == fs.len() {
                assert(fs.take(i) =~= fs);
            } else {
                assert(fs.take(i) =~= fs.drop_last().take(i));
                assert(0 <= entries_size(fs.drop_last().take(i)) <= entries_size(fs.drop_last()));
            }
        }
    } else {
        assert(fs.take(0) =~= fs);
    }
}

/// The estimated bytes of a JSON value.
pub fn estimate_json_size(v: &JsonValue) -> (r: usize)
    requires
        json_size(v@) <= usize::MAX,
    ensures
        r == json_size(v@),
    decreases v,
{
    proof {
        lemma_sizes_grow(v@);
    }
    match v {
        JsonValue::Null => 4,
        JsonValue::Bool(_) => 5,
        JsonValue::Number(_) => 16,
        JsonValue::Str(s) => {
            let n = s.as_str().len();
            assert(n == byte_len(s@));
            n + 2
        },
        JsonValue::Array(xs) => {
            let ghost items = v@->Array_0;
            let mut total: usize = 0;
            let mut i: usize = 0;
            while i < xs.len()
                invariant
                    i <= xs.len(),
                    v == JsonValue::Array(*xs),
                    items == v@->Array_0,
                    items.len() == xs@.len(),
                    forall|k: int| 0 <= k < xs@.len() ==> #[trigger] items[k] == xs@[k]@,
                    json_size(v@) == items_size(items) + 2,
                    json_size(v@) <= usize::MAX,
                    forall|k: int| 0 <= k <= items.len() ==> 0 <= #[trigger] items_size(items.take(k)) <= items_size(items),
                    total == items_size(items.take(i as int)),
                decreases xs.len() - i,
            {
                proof {
                    assert(decreases_to!(v => xs@[i as int]));
                    assert(items.take(i + 1).drop_last() =~= items.take(i as int));
                    assert(items.take(i + 1).last() == xs@[i as int]@);
                    assert(items_size(items.take(i + 1)) <= items_size(items));
                    lemma_sizes_grow(xs@[i as int]@);
                }
                let x = estimate_json_size(&xs[i]);
                total = total + x;
                i += 1;
            }
            assert(items.take(xs.len() as int) =~= items);
            total + 2
        },
        JsonValue::Object(fs) => {
            let ghost entries = v@->Object_0;
            let mut total: usize = 0;
            let mut i: usize = 0;
            while i < fs.len()
                invariant
                    i <= fs.len(),
                    v == JsonValue::Object(*fs),
                    entries == v@->Object_0,
                    entries.len() == fs@.len(),
                    forall|k: int| 0 <= k < fs@.len() ==> #[trigger] entries[k] == (fs@[k].0@, fs@[k].1@),
                    json_size(v@) == entries_size(entries) + 2,
                    json_size(v@) <= usize::MAX,
                    forall|k: int| 0 <= k <= entries.len() ==> 0 <= #[trigger] entries_size(entries.take(k)) <= entries_size(entries),
                    total == entries_size(entries.take(i as int)),
                decreases fs.len() - i,
            {
                proof {
                    assert(decreases_to!(v => fs@[i as int].1));
                    assert(entries.take(i + 1).drop_last() =~= entries.take(i as int));
                    assert(entries.take(i + 1).last() == (fs@[i as int].0@, fs@[i as int].1@));
                    assert(entries_size(entries.take(i + 1)) <= entries_size(entries));
                    lemma_sizes_grow(fs@[i as int].1@);
                }
                let k = fs[i].0.as_str().len();
                assert(k == byte_len(fs@[i as int].0@));
                let x = estimate_json_size(&fs[i].1);
                total = total + k + x + 3;
                i += 1;
            }
            assert(entries.take(fs.len() as int) =~= entries);
            total + 2
        },
    }
}

proof fn lemma_fields_grow(fs: Seq<(Seq<char>, Json)>)
    ensures
        forall|i: int| 0 <= i <= fs.len() ==> 0 <= #[trigger] fields_size(fs.take(i)) <= fields_size(fs),
    decreases fs.len(),
{
    if fs.len() > 0 {
        lemma_fields_grow(fs.drop_last());
        lemma_sizes_grow(fs.last().1);
        assert forall|i: int| 0 <= i <= fs.len() implies 0 <= #[trigger] fields_size(fs.take(i)) <= fields_size(fs) by {
            assert(0 <= fields_size(fs.drop_last().take(0)) <= fields_size(fs.drop_last()));
            if i == fs.len() {
                assert(fs.take(i) =~= fs);
            } else {
                assert(fs.take(i) =~= fs.drop_last().take(i));
                assert(0 <= fields_size(fs.drop_last().take(i)) <= fields_size(fs.drop_last()));
            }
        }
    } else {
        assert(fs.take(0) =~= fs);
    }
}

proof fn lemma_records_grow(rs: Seq<RowView>)
    ensures
        forall|i: int| 0 <= i <= rs.len() ==> 0 <= #[trigger] records_size(rs.take(i)) <= records_size(rs),
    decreases rs.len(),
{
    if rs.len() > 0 {
        lemma_records_grow(rs.drop_last());
        lemma_fields_grow(rs.last().2);
        assert(fields_size(rs.last().2.take(0)) == 0) by {
            assert(rs.last().2.take(0) =~= Seq::<(Seq<char>, Json)>::empty());
        }
        assert forall|i: int| 0 <= i <= rs.len() implies 0 <= #[trigger] records_size(rs.take(i)) <= records_size(rs) by {
            assert(0 <= records_size(rs.drop_last().take(0)) <= records_size(rs.drop_last()));
            if i == rs.len() {
                assert(rs.take(i) =~= rs);
            } else {
                assert(rs.take(i) =~= rs.drop_last().take(i));
                assert(0 <= records_size(rs.drop_last().take(i)) <= records_size(rs.drop_last()));
            }
        }
    } else {
        assert(rs.take(0) =~= rs);
    }
}

/// The estimated bytes of records in memory.
pub fn estimate_memory_usage(records: &[VectorRecord]) -> (r: usize)
    requires
        records_size(records@.map_values(|x: VectorRecord| record_view(x))) <= usize::MAX,
    ensures
        r == records_size(records@.map_values(|x: VectorRecord| record_view(x))),
{
    let ghost rows = records@.map_values(|x: VectorRecord| record_view(x));
    proof {
        lemma_records_grow(rows);
    }
    let mut total: usize = 0;
    let mut i: usize = 0;
    while i < records.len()
        invariant
            i <= records@.len(),
            rows == records@.map_values(|x: VectorRecord| record_view(x)),
            records_size(rows) <= usize::MAX,
            forall|k: int| 0 <= k <= rows.len() ==> 0 <= #[trigger] records_size(rows.take(k)) <= records_size(rows),
            total == records_size(rows.take(i as int)),
        decreases records@.len() - i,
    {
        assert(rows.take(i + 1).drop_last() =~= rows.take(i as int));
        assert(records_size(rows.take(i + 1)) <= records_size(rows));
        let rec = &records[i];
        let ghost fv = fields_view(rec.metadata@);
        assert(rows.take(i + 1).last() == record_view(*rec));
        proof {
            lemma_fields_grow(fv);
            assert(fv.take(0) =~= Seq::<(Seq<char>, Json)>::empty());
        }
        let mut meta: usize = 0;
        let mut j: usize = 0;
        while j < rec.metadata.len()
            invariant
                j <= rec.metadata@.len(),
                fv == fields_view(rec.metadata@),
                forall|k: int| 0 <= k <= fv.len() ==> 0 <= #[trigger] fields_size(fv.take(k)) <= fields_size(fv),
                fields_size(fv) <= usize::MAX,
                meta == fields_size(fv.take(j as int)),
            decreases rec.metadata@.len() - j,
        {
            assert(fv.take(j + 1).drop_last() =~= fv.take(j as int));
            assert(fv.take(j + 1).last() == (rec.metadata@[j as int].0@, rec.metadata@[j as int].1@));
            assert(fields_size(fv.take(j + 1)) <= fields_size(fv));
            proof {
                lemma_sizes_grow(rec.metadata@[j as int].1@);
            }
            let k = rec.metadata[j].0.as_str().len();
            assert(k == byte_len(rec.metadata@[j as int].0@));
            let x = estimate_json_size(&rec.metadata[j].1);
            meta = meta + k + x;
            j += 1;
        }
        assert(fv.take(rec.metadata.len() as int) =~= fv);
        let id_len = rec.id.as_str().len();
        assert(id_len == byte_len(rec.id@));
        total = total + id_len + rec.vector.len() * 4 + meta;
        i += 1;
    }
    assert(rows.take(records.len() as int) =~= rows);
    total
}


} // verus!

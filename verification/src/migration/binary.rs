//! Framing of the binary record format: a 16-byte header (`RTDB`,
//! version 1, record count, little-endian) followed by records, each an
//! identifier, a vector and a metadata blob, every part preceded by its
//! little-endian 32-bit length (the vector by its dimension).
//!
//! The metadata blob is JSON text produced and parsed by the caller.

use vstd::prelude::*;
use vstd::bytes::*;
use vstd::utf8::{encode_utf8, decode_utf8, valid_utf8};
use std::string::FromUtf8Error;
use crate::types::RTDBError;

verus! {

broadcast use vstd::utf8::encode_utf8_valid_utf8, vstd::utf8::encode_utf8_decode_utf8;

/// The error text of a read that ran out of input.
pub open spec fn eof_text() -> Seq<char> {
    "failed to fill whole buffer"@
}

/// The bytes of `RTDB`.
pub open spec fn magic() -> Seq<u8> {
    seq![82u8, 84u8, 68u8, 66u8]
}

/// The header announcing `count` records.
pub open spec fn header_bytes(count: u64) -> Seq<u8> {
    magic() + spec_u32_to_le_bytes(1) + spec_u64_to_le_bytes(count)
}

/// The header of a file holding `count` records.
pub fn encode_header(count: u64) -> (r: Vec<u8>)
    ensures
        r@ == header_bytes(count),
{
    let mut r: Vec<u8> = vec![82u8, 84u8, 68u8, 66u8];
    let mut v = u32_to_le_bytes(1);
    r.append(&mut v);
    let mut c = u64_to_le_bytes(count);
    r.append(&mut c);
    assert(r@ =~= header_bytes(count));
    r
}

/// What reading a header from `b` gives: the record count, or the
/// error's kind (I/O or format) and message.
pub open spec fn header_outcome(b: Seq<u8>) -> Result<u64, (bool, Seq<char>)> {
    if b.len() < 4 {
        Err((true, "Failed to read magic: "@ + eof_text()))
    } else if b.subrange(0, 4) != magic() {
        Err((false, "Invalid binary format magic"@))
    } else if b.len() < 8 {
        Err((true, "Failed to read version: "@ + eof_text()))
    } else if spec_u32_from_le_bytes(b.subrange(4, 8)) != 1 {
        Err((false, "Unsupported binary format version: "@ + crate::text::decimal(spec_u32_from_le_bytes(b.subrange(4, 8)) as nat)))
    } else if b.len() < 16 {
        Err((true, "Failed to read record count: "@ + eof_text()))
    } else {
        Ok(spec_u64_from_le_bytes(b.subrange(8, 16)))
    }
}

/// `r` is what `outcome` describes: an I/O error (`true`) or a
/// serialization error (`false`) with the message, or the value.
pub open spec fn matches_outcome<T>(r: Result<T, RTDBError>, outcome: Result<T, (bool, Seq<char>)>) -> bool {
    match outcome {
        Ok(v) => r == Ok::<T, RTDBError>(v),
        Err((true, m)) => r matches Err(RTDBError::Io(s)) && s@ == m,
        Err((false, m)) => r matches Err(RTDBError::Serialization(s)) && s@ == m,
    }
}

/// The bytes `b[from..from + n]` in a vector.
fn copy_bytes(b: &Vec<u8>, from: usize, n: usize) -> (r: Vec<u8>)
    requires
        from + n <= b@.len(),
    ensures
        r@ == b@.subrange(from as int, from + n),
{
    let mut r: Vec<u8> = Vec::new();
    let mut i: usize = 0;
    while i < n
        invariant
            from + n <= b@.len(),
            i <= n,
            r@ == b@.subrange(from as int, from + i),
        decreases n - i,
    {
        assert(from + i < b@.len());
        assert(b@.len() == b.len());
        r.push(b[from + i]);
        assert(b@.subrange(from as int, from + i + 1) =~= b@.subrange(from as int, from + i).push(b@[from + i]));
        i += 1;
    }
    r
}

/// `prefix` followed by the text of an exhausted read.
fn eof_error(prefix: &str) -> (r: RTDBError)
    ensures
        r matches RTDBError::Io(s) && s@ == prefix@ + eof_text(),
{
    let mut m = prefix.to_owned();
    m.append("failed to fill whole buffer");
    RTDBError::Io(m)
}

/// Reads a header.
pub fn decode_header(b: &Vec<u8>) -> (r: Result<u64, RTDBError>)
    ensures
        matches_outcome(r, header_outcome(b@)),
{
    if b.len() < 4 {
        return Err(eof_error("Failed to read magic: "));
    }
    if !(b[0] == 82u8 && b[1] == 84u8 && b[2] == 68u8 && b[3] == 66u8) {
        assert(b@.subrange(0, 4) != magic()) by {
            if b@.subrange(0, 4) == magic() {
                assert(b@.subrange(0, 4)[0] == b@[0]);
                assert(b@.subrange(0, 4)[1] == b@[1]);
                assert(b@.subrange(0, 4)[2] == b@[2]);
                assert(b@.subrange(0, 4)[3] == b@[3]);
            }
        }
        return Err(RTDBError::Serialization("Invalid binary format magic".to_owned()));
    }
    assert(b@.subrange(0, 4) =~= magic());
    if b.len() < 8 {
        return Err(eof_error("Failed to read version: "));
    }
    let vb = copy_bytes(b, 4, 4);
    let version = u32_from_le_bytes(vb.as_slice());
    if version != 1 {
        let mut m = "Unsupported binary format version: ".to_owned();
        crate::text::push_decimal(&mut m, version as u64);
        return Err(RTDBError::Serialization(m));
    }
    if b.len() < 16 {
        return Err(eof_error("Failed to read record count: "));
    }
    let cb = copy_bytes(b, 8, 8);
    Ok(u64_from_le_bytes(cb.as_slice()))
}

/// A header read back gives the count it was written with.
pub proof fn lemma_header_roundtrip(count: u64)
    ensures
        header_outcome(header_bytes(count)) == Ok::<u64, (bool, Seq<char>)>(count),
{
    lemma_auto_spec_u32_to_from_le_bytes();
    lemma_auto_spec_u64_to_from_le_bytes();
    let b = header_bytes(count);
    assert(b.subrange(0, 4) =~= magic());
    assert(b.subrange(4, 8) =~= spec_u32_to_le_bytes(1));
    assert(b.subrange(8, 16) =~= spec_u64_to_le_bytes(count));
}

/// std's UTF-8 decoding error, opaque here.
#[verifier::external_type_specification]
#[verifier::external_body]
pub struct ExFromUtf8Error(FromUtf8Error);

/// Decodes UTF-8 bytes into a string (std's `String::from_utf8`): it
/// succeeds exactly on valid UTF-8, with the decoded characters.
#[verifier::external_body]
fn string_from_utf8(bytes: Vec<u8>) -> (r: Result<String, FromUtf8Error>)
    ensures
        r is Ok <==> valid_utf8(bytes@),
        r matches Ok(s) ==> s@ == decode_utf8(bytes@),
{
    String::from_utf8(bytes)
}

/// The message of a UTF-8 decoding error (its `Display` text).
#[verifier::external_body]
fn utf8_error_text(e: &FromUtf8Error) -> String {
    e.to_string()
}

/// Components as consecutive little-endian 32-bit words.
pub open spec fn words_le(v: Seq<u32>) -> Seq<u8>
    decreases v.len(),
{
    if v.len() == 0 {
        Seq::empty()
    } else {
        words_le(v.drop_last()) + spec_u32_to_le_bytes(v.last())
    }
}

/// One record: identifier bytes, dimension and components, metadata, each
/// length-prefixed.
pub open spec fn record_bytes(id: Seq<char>, vector: Seq<u32>, metadata: Seq<u8>) -> Seq<u8> {
    spec_u32_to_le_bytes(encode_utf8(id).len() as u32) + encode_utf8(id)
        + spec_u32_to_le_bytes(vector.len() as u32) + words_le(vector)
        + spec_u32_to_le_bytes(metadata.len() as u32) + metadata
}

/// Appends `x` little-endian.
fn push_u32(out: &mut Vec<u8>, x: u32)
    ensures
        final(out)@ == old(out)@ + spec_u32_to_le_bytes(x),
{
    let mut w = u32_to_le_bytes(x);
    out.append(&mut w);
}

/// The bytes of one record.
pub fn encode_record(id: &String, vector: &Vec<u32>, metadata: &Vec<u8>) -> (r: Vec<u8>)
    ensures
        r@ == record_bytes(id@, vector@, metadata@),
{
    let idb = id.as_str().as_bytes();
    let mut r: Vec<u8> = Vec::new();
    push_u32(&mut r, idb.len() as u32);
    let mut i: usize = 0;
    let ghost r0 = r@;
    while i < idb.len()
        invariant
            i <= idb@.len(),
            r@ == r0 + idb@.take(i as int),
        decreases idb@.len() - i,
    {
        r.push(idb[i]);
        assert(idb@.take(i + 1) =~= idb@.take(i as int).push(idb@[i as int]));
        i += 1;
    }
    assert(idb@.take(idb@.len() as int) =~= idb@);
    push_u32(&mut r, vector.len() as u32);
    let ghost r1 = r@;
    let mut k: usize = 0;
    assert(vector@.take(0) =~= Seq::<u32>::empty());
    while k < vector.len()
        invariant
            k <= vector@.len(),
            r@ == r1 + words_le(vector@.take(k as int)),
        decreases vector@.len() - k,
    {
        push_u32(&mut r, vector[k]);
        assert(vector@.take(k + 1).drop_last() =~= vector@.take(k as int));
        k += 1;
    }
    assert(vector@.take(vector@.len() as int) =~= vector@);
    push_u32(&mut r, metadata.len() as u32);
    let ghost r2 = r@;
    let mut j: usize = 0;
    while j < metadata.len()
        invariant
            j <= metadata@.len(),
            r@ == r2 + metadata@.take(j as int),
        decreases metadata@.len() - j,
    {
        r.push(metadata[j]);
        assert(metadata@.take(j + 1) =~= metadata@.take(j as int).push(metadata@[j as int]));
        j += 1;
    }
    assert(metadata@.take(metadata@.len() as int) =~= metadata@);
    assert(idb@ == encode_utf8(id@));
    assert(r@ =~= record_bytes(id@, vector@, metadata@));
    r
}

/// The little-endian 32-bit word at `o`.
pub open spec fn word_at(b: Seq<u8>, o: int) -> u32 {
    spec_u32_from_le_bytes(b.subrange(o, o + 4))
}

/// `n` words starting at `o`.
pub open spec fn words_at(b: Seq<u8>, o: int, n: nat) -> Seq<u32> {
    Seq::new(n, |k: int| word_at(b, o + 4 * k))
}

/// What reading one record at offset `o` finds.
pub enum RecordParse {
    /// No record starts there: the input ends.
    End,
    /// Reading stopped: I/O (`true`) or format (`false`) error, message.
    Fail(bool, Seq<char>),
    /// The identifier bytes are not UTF-8.
    BadId(Seq<u8>),
    /// A record: identifier bytes, components, metadata, next offset.
    Record(Seq<u8>, Seq<u32>, Seq<u8>, int),
}

/// Reading one record at offset `o` of `b`.
pub open spec fn parse_record(b: Seq<u8>, o: int) -> RecordParse {
    if o + 4 > b.len() {
        RecordParse::End
    } else {
        let idl = word_at(b, o) as int;
        let p1 = o + 4;
        if p1 + idl > b.len() {
            RecordParse::Fail(true, "Failed to read ID: "@ + eof_text())
        } else if !valid_utf8(b.subrange(p1, p1 + idl)) {
            RecordParse::BadId(b.subrange(p1, p1 + idl))
        } else {
            let p2 = p1 + idl;
            if p2 + 4 > b.len() {
                RecordParse::Fail(true, "Failed to read vector dimension: "@ + eof_text())
            } else {
                let dim = word_at(b, p2) as nat;
                let p3 = p2 + 4;
                if p3 + 4 * dim > b.len() {
                    RecordParse::Fail(true, "Failed to read vector: "@ + eof_text())
                } else {
                    let p4 = p3 + 4 * dim;
                    if p4 + 4 > b.len() {
                        RecordParse::Fail(true, "Failed to read metadata length: "@ + eof_text())
                    } else {
                        let ml = word_at(b, p4) as int;
                        let p5 = p4 + 4;
                        if p5 + ml > b.len() {
                            RecordParse::Fail(true, "Failed to read metadata: "@ + eof_text())
                        } else {
                            RecordParse::Record(b.subrange(p1, p1 + idl), words_at(b, p3, dim), b.subrange(p5, p5 + ml), p5 + ml)
                        }
                    }
                }
            }
        }
    }
}

/// The word at `o`.
fn read_word(b: &Vec<u8>, o: usize) -> (r: u32)
    requires
        o + 4 <= b@.len(),
    ensures
        r == word_at(b@, o as int),
{
    let w = copy_bytes(b, o, 4);
    u32_from_le_bytes(w.as_slice())
}

/// The prefix of the message for identifier bytes that are not UTF-8.
pub open spec fn bad_id_prefix() -> Seq<char> {
    "Invalid UTF-8 in ID: "@
}

/// Reads the record at `offset`: `None` at the end of the input, else
/// the identifier, components, metadata bytes and the next offset.
pub fn decode_record(b: &Vec<u8>, offset: usize) -> (r: Result<Option<(String, Vec<u32>, Vec<u8>, usize)>, RTDBError>)
    requires
        offset <= b@.len(),
    ensures
        match parse_record(b@, offset as int) {
            RecordParse::End => r matches Ok(None),
            RecordParse::Fail(true, m) => r matches Err(RTDBError::Io(s)) && s@ == m,
            RecordParse::Fail(false, m) => r matches Err(RTDBError::Serialization(s)) && s@ == m,
            RecordParse::BadId(_) => r matches Err(RTDBError::Serialization(s))
                && s@.len() >= bad_id_prefix().len() && s@.take(bad_id_prefix().len() as int) == bad_id_prefix(),
            RecordParse::Record(idb, v, m, next) => r matches Ok(Some((s, vv, mm, n)))
                && s@ == decode_utf8(idb) && vv@ == v && mm@ == m && n == next,
        },
{
    let len = b.len();
    if len - offset < 4 {
        return Ok(None);
    }
    let idl = read_word(b, offset) as usize;
    let p1 = offset + 4;
    if idl > len - p1 {
        return Err(eof_error("Failed to read ID: "));
    }
    let idb = copy_bytes(b, p1, idl);
    let id = match string_from_utf8(idb) {
        Ok(s) => s,
        Err(e) => {
            let mut m = "Invalid UTF-8 in ID: ".to_owned();
            let t = utf8_error_text(&e);
            m.append(t.as_str());
            proof {
                reveal_strlit("Invalid UTF-8 in ID: ");
                assert(m@.take(bad_id_prefix().len() as int) =~= bad_id_prefix());
            }
            return Err(RTDBError::Serialization(m));
        },
    };
    let p2 = p1 + idl;
    if len - p2 < 4 {
        return Err(eof_error("Failed to read vector dimension: "));
    }
    let dim = read_word(b, p2) as usize;
    let p3 = p2 + 4;
    if (len - p3) / 4 < dim {
        return Err(eof_error("Failed to read vector: "));
    }
    let mut vector: Vec<u32> = Vec::new();
    let mut k: usize = 0;
    while k < dim
        invariant
            k <= dim,
            p3 + 4 * dim <= b@.len(),
            vector@ == words_at(b@, p3 as int, k as nat),
        decreases dim - k,
    {
        assert(b@.len() == b.len());
        assert(p3 + 4 * k + 4 <= b@.len());
        vector.push(read_word(b, p3 + 4 * k));
        assert(vector@ =~= words_at(b@, p3 as int, (k + 1) as nat));
        k += 1;
    }
    let p4 = p3 + 4 * dim;
    if len - p4 < 4 {
        return Err(eof_error("Failed to read metadata length: "));
    }
    let ml = read_word(b, p4) as usize;
    let p5 = p4 + 4;
    if ml > len - p5 {
        return Err(eof_error("Failed to read metadata: "));
    }
    let metadata = copy_bytes(b, p5, ml);
    Ok(Some((id, vector, metadata, p5 + ml)))
}

/// The components' words, read back, are the components.
proof fn lemma_words_roundtrip(v: Seq<u32>, rest: Seq<u8>)
    ensures
        words_le(v).len() == 4 * v.len(),
        forall|k: int| 0 <= k < v.len() ==> #[trigger] word_at(words_le(v) + rest, 4 * k) == v[k],
    decreases v.len(),
{
    lemma_auto_spec_u32_to_from_le_bytes();
    if v.len() > 0 {
        let w = words_le(v.drop_last());
        lemma_words_roundtrip(v.drop_last(), spec_u32_to_le_bytes(v.last()) + rest);
        assert(words_le(v) + rest =~= w + (spec_u32_to_le_bytes(v.last()) + rest));
        assert forall|k: int| 0 <= k < v.len() implies #[trigger] word_at(words_le(v) + rest, 4 * k) == v[k] by {
            if k < v.len() - 1 {
                assert(v.drop_last()[k] == v[k]);
            } else {
                assert((words_le(v) + rest).subrange(4 * k, 4 * k + 4) =~= spec_u32_to_le_bytes(v.last()));
            }
        }
    }
}

/// A record read back gives the identifier, components and metadata it
/// was written with, and the offset just past it (when every length fits
/// the 32-bit length fields).
pub proof fn lemma_record_roundtrip(id: Seq<char>, vector: Seq<u32>, metadata: Seq<u8>)
    requires
        encode_utf8(id).len() <= u32::MAX,
        vector.len() <= u32::MAX,
        metadata.len() <= u32::MAX,
    ensures
        parse_record(record_bytes(id, vector, metadata), 0)
            == RecordParse::Record(encode_utf8(id), vector, metadata, record_bytes(id, vector, metadata).len() as int),
        decode_utf8(encode_utf8(id)) == id,
{
    lemma_auto_spec_u32_to_from_le_bytes();
    let e = encode_utf8(id);
    let b = record_bytes(id, vector, metadata);
    let l1 = spec_u32_to_le_bytes(e.len() as u32);
    let l2 = spec_u32_to_le_bytes(vector.len() as u32);
    let l3 = spec_u32_to_le_bytes(metadata.len() as u32);
    let w = words_le(vector);
    lemma_words_roundtrip(vector, l3 + metadata);
    assert(b =~= l1 + e + l2 + w + l3 + metadata);
    let p1: int = 4;
    let p2: int = 4 + e.len() as int;
    let p3: int = p2 + 4;
    let p4: int = p3 + 4 * vector.len();
    let p5: int = p4 + 4;
    assert(b.subrange(0, 4) =~= l1);
    assert(b.subrange(p1, p1 + e.len()) =~= e);
    assert(b.subrange(p2, p2 + 4) =~= l2);
    assert(b.subrange(p4, p4 + 4) =~= l3);
    assert(b.subrange(p5, p5 + metadata.len()) =~= metadata);
    assert(words_at(b, p3, vector.len()) =~= vector) by {
        assert forall|k: int| 0 <= k < vector.len() implies word_at(b, p3 + 4 * k) == vector[k] by {
            assert(b.subrange(p3 + 4 * k, p3 + 4 * k + 4) =~= (w + (l3 + metadata)).subrange(4 * k, 4 * k + 4));
            assert(word_at(w + (l3 + metadata), 4 * k) == vector[k]);
        }
    }
}

/// What reading up to `k` records from offset `o` comes to: the records
/// (identifier, components, metadata bytes) and the offset after them, or
/// the reading that stopped the batch.
pub enum BatchParse {
    Records(Seq<(Seq<char>, Seq<u32>, Seq<u8>)>, int),
    Stop(RecordParse),
}

/// Reading up to `k` records from offset `o` of `b`, stopping at the end
/// of the input.
pub open spec fn batch_parse(b: Seq<u8>, o: int, k: nat) -> BatchParse
    decreases k,
{
    if k == 0 {
        BatchParse::Records(Seq::empty(), o)
    } else {
        match parse_record(b, o) {
            RecordParse::End => BatchParse::Records(Seq::empty(), o),
            RecordParse::Record(idb, v, m, next) => match batch_parse(b, next, (k - 1) as nat) {
                BatchParse::Records(rs, end) => BatchParse::Records(seq![(decode_utf8(idb), v, m)] + rs, end),
                BatchParse::Stop(p) => BatchParse::Stop(p),
            },
            p => BatchParse::Stop(p),
        }
    }
}

/// `e` is the error a failed reading gives.
pub open spec fn record_error(e: RTDBError, p: RecordParse) -> bool {
    match p {
        RecordParse::Fail(true, m) => e matches RTDBError::Io(s) && s@ == m,
        RecordParse::Fail(false, m) => e matches RTDBError::Serialization(s) && s@ == m,
        RecordParse::BadId(_) => e matches RTDBError::Serialization(s)
            && s@.len() >= bad_id_prefix().len() && s@.take(bad_id_prefix().len() as int) == bad_id_prefix(),
        _ => false,
    }
}

/// `e` is the error a failed header reading gives.
pub open spec fn header_failure(e: RTDBError, h: Result<u64, (bool, Seq<char>)>) -> bool {
    match h {
        Err((true, m)) => e matches RTDBError::Io(s) && s@ == m,
        Err((false, m)) => e matches RTDBError::Serialization(s) && s@ == m,
        Ok(_) => false,
    }
}

/// The view of decoded records.
pub open spec fn decoded_view(rs: Seq<(String, Vec<u32>, Vec<u8>)>) -> Seq<(Seq<char>, Seq<u32>, Seq<u8>)> {
    rs.map_values(|r: (String, Vec<u32>, Vec<u8>)| (r.0@, r.1@, r.2@))
}

/// A binary file reader's place in its file: the offset of the next
/// record and, once the header is read, the record count it gives.
#[derive(Debug)]
pub struct BinaryReader {
    pub path: String,
    pub current_offset: u64,
    pub total_records: Option<u64>,
}

impl BinaryReader {
    /// A reader of the file at `path` whose header is not read yet.
    pub fn new(path: &str) -> (r: Self)
        ensures
            r.path@ == path@,
            r.current_offset == 0,
            r.total_records is None,
    {
        BinaryReader { path: path.to_owned(), current_offset: 0, total_records: None }
    }

    /// The record count the header gave, if it was read.
    pub fn get_total_count(&self) -> (r: Result<Option<u64>, RTDBError>)
        ensures
            r == Ok::<Option<u64>, RTDBError>(self.total_records),
    {
        Ok(self.total_records)
    }

    /// Goes back to the first record.
    pub fn reset(&mut self) -> (r: Result<(), RTDBError>)
        ensures
            r is Ok,
            final(self).path == old(self).path,
            final(self).total_records == old(self).total_records,
            final(self).current_offset == 16,
    {
        self.current_offset = 16;
        Ok(())
    }

    /// The next batch of up to `batch_size` records of the file's bytes
    /// `b`: the header is read first if it was not (the first record then
    /// follows it), and the records from the reader's offset on, up to the
    /// end of the input; a record that cannot be read fails the batch.
    pub fn read_batch(&mut self, b: &Vec<u8>, batch_size: usize) -> (r: Result<Vec<(String, Vec<u32>, Vec<u8>)>, RTDBError>)
        ensures
            final(self).path == old(self).path,
            old(self).total_records is None && header_outcome(b@) is Err ==> {
                &&& r is Err
                &&& header_failure(r->Err_0, header_outcome(b@))
                &&& *final(self) == *old(self)
            },
            !(old(self).total_records is None && header_outcome(b@) is Err) ==> ({
                let start: int = if old(self).total_records is None { 16 } else { old(self).current_offset as int };
                &&& final(self).total_records == if old(self).total_records is None {
                        Some(header_outcome(b@)->Ok_0)
                    } else {
                        old(self).total_records
                    }
                &&& match batch_parse(b@, start, batch_size as nat) {
                    BatchParse::Records(rs, end) => r is Ok && decoded_view(r->Ok_0@) == rs && final(self).current_offset == end,
                    BatchParse::Stop(p) => r is Err && record_error(r->Err_0, p),
                }
            }),
    {
        if self.total_records.is_none() {
            let count = decode_header(b)?;
            self.total_records = Some(count);
            self.current_offset = 16;
        }
        let ghost start = self.current_offset as int;
        let mut records: Vec<(String, Vec<u32>, Vec<u8>)> = Vec::new();
        if self.current_offset > b.len() as u64 {
            assert(batch_parse(b@, start, batch_size as nat) == BatchParse::Records(Seq::empty(), start)) by {
                reveal_with_fuel(batch_parse, 2);
            }
            assert(decoded_view(records@) =~= Seq::<(Seq<char>, Seq<u32>, Seq<u8>)>::empty());
            return Ok(records);
        }
        let mut offset: usize = self.current_offset as usize;
        let ghost s1 = *self;
        let mut k: usize = 0;
        loop
            invariant
                k <= batch_size,
                offset <= b@.len(),
                *self == s1,
                s1.path == old(self).path,
                old(self).total_records is None ==> header_outcome(b@) is Ok,
                s1.total_records == if old(self).total_records is None {
                    Some(header_outcome(b@)->Ok_0)
                } else {
                    old(self).total_records
                },
                start == if old(self).total_records is None { 16 } else { old(self).current_offset as int },
                ({
                    let whole = batch_parse(b@, start, batch_size as nat);
                    let rest = batch_parse(b@, offset as int, (batch_size - k) as nat);
                    &&& match rest {
                        BatchParse::Records(rs, end) => whole == BatchParse::Records(decoded_view(records@) + rs, end),
                        BatchParse::Stop(p) => whole == BatchParse::Stop(p),
                    }
                }),
            ensures
                offset <= b@.len(),
                *self == s1,
                batch_parse(b@, start, batch_size as nat) == BatchParse::Records(decoded_view(records@), offset as int),
            decreases batch_size - k,
        {
            if k >= batch_size {
                proof {
                    assert(decoded_view(records@) + Seq::empty() =~= decoded_view(records@));
                }
                break;
            }
            match decode_record(b, offset) {
                Ok(None) => {
                    proof {
                        assert(decoded_view(records@) + Seq::empty() =~= decoded_view(records@));
                    }
                    break;
                },
                Ok(Some((id, vector, metadata, next))) => {
                    let ghost before = records@;
                    records.push((id, vector, metadata));
                    assert(decoded_view(records@) =~= decoded_view(before).push((id@, vector@, metadata@)));
                    proof {
                        let rest2 = batch_parse(b@, next as int, (batch_size - k - 1) as nat);
                        match rest2 {
                            BatchParse::Records(rs, end) => {
                                assert(decoded_view(before) + (seq![(id@, vector@, metadata@)] + rs)
                                    =~= decoded_view(before).push((id@, vector@, metadata@)) + rs);
                            },
                            _ => {},
                        }
                    }
                    offset = next;
                },
                Err(e) => {
                    return Err(e);
                },
            }
            k += 1;
        }
        self.current_offset = offset as u64;
        Ok(records)
    }
}

} // verus!

//! Validation of migrated records: vectors, identifiers and metadata, in
//! batches with duplicate detection, and against a schema.

use vstd::prelude::*;
use vstd::string::*;
use regex::Regex;
use crate::text::{decimal, push_decimal, chars_of, first_from, lemma_first_from};
use crate::json::{Json, JsonValue};
use crate::types::{RTDBError, fields_view};
use super::model::{ValidationConfig, VectorRecord, record_view, field_names};

verus! {

/// `r` is `Ok` when `msg` is `None`, and a validation error carrying
/// `msg` otherwise.
pub open spec fn reports(r: Result<(), RTDBError>, msg: Option<Seq<char>>) -> bool {
    match msg {
        None => r is Ok,
        Some(m) => r matches Err(RTDBError::Validation(s)) && s@ == m,
    }
}

// ---------------------------------------------------------------------
// Vectors
// ---------------------------------------------------------------------

/// The `f32` with these bits is finite (its exponent is not all ones).
pub open spec fn finite_bits(b: u32) -> bool {
    b & 0x7f80_0000u32 != 0x7f80_0000u32
}

/// How a non-finite `f32` with these bits is displayed.
pub open spec fn nonfinite_text(b: u32) -> Seq<char> {
    if b & 0x007f_ffffu32 != 0 {
        "NaN"@
    } else if b & 0x8000_0000u32 != 0 {
        "-inf"@
    } else {
        "inf"@
    }
}

/// Position `i` of `v` holds a non-finite component.
pub open spec fn nonfinite_at(v: Seq<u32>) -> spec_fn(int) -> bool {
    |i: int| !finite_bits(v[i])
}

/// Forbidden character `k` occurs in `id`.
pub open spec fn forbidden_in(id: Seq<char>) -> spec_fn(int) -> bool {
    |k: int| id.contains(forbidden_id_chars()[k])
}

/// What is wrong with a vector, if anything: it is empty, has the wrong
/// dimension, or holds a non-finite component (the first one is named).
pub open spec fn vector_problem(v: Seq<u32>, expected: Option<usize>) -> Option<Seq<char>> {
    if v.len() == 0 {
        Some("Vector cannot be empty"@)
    } else if expected is Some && v.len() != expected->0 {
        Some("Vector dimension mismatch: expected "@ + decimal(expected->0 as nat) + ", got "@ + decimal(v.len()))
    } else {
        match first_from(0, v.len() as int, nonfinite_at(v)) {
            Some(i) => Some("Invalid vector value at index "@ + decimal(i as nat) + ": "@ + nonfinite_text(v[i])),
            None => None,
        }
    }
}

/// The display text of a non-finite component.
fn nonfinite_str(b: u32) -> (r: &'static str)
    ensures
        r@ == nonfinite_text(b),
{
    if b & 0x007f_ffffu32 != 0 {
        "NaN"
    } else if b & 0x8000_0000u32 != 0 {
        "-inf"
    } else {
        "inf"
    }
}

/// Checks a vector: not empty, of the expected dimension if one is given,
/// and with finite components only.
pub fn validate_vector(vector: &Vec<u32>, expected_dimension: Option<usize>) -> (r: Result<(), RTDBError>)
    ensures
        reports(r, vector_problem(vector@, expected_dimension)),
{
    if vector.len() == 0 {
        return Err(RTDBError::Validation("Vector cannot be empty".to_owned()));
    }
    match expected_dimension {
        Some(d) => {
            if vector.len() != d {
                let mut m = "Vector dimension mismatch: expected ".to_owned();
                push_decimal(&mut m, d as u64);
                m.append(", got ");
                push_decimal(&mut m, vector.len() as u64);
                return Err(RTDBError::Validation(m));
            }
        },
        None => {},
    }
    let ghost p = nonfinite_at(vector@);
    let mut i: usize = 0;
    while i < vector.len()
        invariant
            i <= vector@.len(),
            p == nonfinite_at(vector@),
            vector@.len() > 0,
            expected_dimension is Some ==> vector@.len() == expected_dimension->0,
            first_from(0, vector@.len() as int, p) == first_from(i as int, vector@.len() as int, p),
        decreases vector@.len() - i,
    {
        let b = vector[i];
        if b & 0x7f80_0000u32 == 0x7f80_0000u32 {
            assert(p(i as int));
            assert(first_from(i as int, vector@.len() as int, p) == Some(i as int));
            let mut m = "Invalid vector value at index ".to_owned();
            push_decimal(&mut m, i as u64);
            m.append(": ");
            m.append(nonfinite_str(b));
            return Err(RTDBError::Validation(m));
        }
        i += 1;
    }
    Ok(())
}

// ---------------------------------------------------------------------
// Identifiers
// ---------------------------------------------------------------------

/// Characters an identifier may not hold, in the order they are looked for.
pub open spec fn forbidden_id_chars() -> Seq<char> {
    seq!['/', '\\', '?', '%', '*', ':', '|', '"', '<', '>', '\0']
}

/// The UTF-8 length of a text, as `str::len` gives it.
pub open spec fn byte_len(s: Seq<char>) -> usize {
    vstd::utf8::encode_utf8(s).len() as usize
}

/// What is wrong with a record identifier, if anything: it is empty,
/// longer than 255 bytes, or holds a forbidden character (the first of
/// the list that occurs is named).
pub open spec fn id_problem(id: Seq<char>) -> Option<Seq<char>> {
    if byte_len(id) == 0 {
        Some("Record ID cannot be empty"@)
    } else if byte_len(id) > 255 {
        Some("Record ID too long: "@ + decimal(byte_len(id) as nat) + " characters (limit: 255)"@)
    } else {
        match first_from(0, 11, forbidden_in(id)) {
            Some(k) => Some("Record ID contains invalid character: '"@ + seq![forbidden_id_chars()[k]] + "'"@),
            None => None,
        }
    }
}

/// An identifier holding a slash, a backslash, `?`, `%`, `*`, `:`, `|`, a
/// double quote, `<`, `>` or a NUL character is refused; one that is not
/// empty, is at most 255 bytes long and holds none of them is accepted.
pub proof fn lemma_id_characters(id: Seq<char>)
    ensures
        ({
            let bad = id.contains('/') || id.contains('\\') || id.contains('?') || id.contains('%')
                || id.contains('*') || id.contains(':') || id.contains('|') || id.contains('"')
                || id.contains('<') || id.contains('>') || id.contains('\0');
            &&& bad ==> id_problem(id) is Some
            &&& (id_problem(id) is None <==> (0 < byte_len(id) && byte_len(id) <= 255 && !bad))
        }),
{
    let p = forbidden_in(id);
    lemma_first_from(0, 11, p);
    let f = forbidden_id_chars();
    assert(f[0] == '/' && f[1] == '\\' && f[2] == '?' && f[3] == '%' && f[4] == '*' && f[5] == ':'
        && f[6] == '|' && f[7] == '"' && f[8] == '<' && f[9] == '>' && f[10] == '\0');
    assert(p(0) == id.contains('/'));
    assert(p(1) == id.contains('\\'));
    assert(p(2) == id.contains('?'));
    assert(p(3) == id.contains('%'));
    assert(p(4) == id.contains('*'));
    assert(p(5) == id.contains(':'));
    assert(p(6) == id.contains('|'));
    assert(p(7) == id.contains('"'));
    assert(p(8) == id.contains('<'));
    assert(p(9) == id.contains('>'));
    assert(p(10) == id.contains('\0'));
}

/// Whether `c` occurs in `s`.
fn contains_char(s: &Vec<char>, c: char) -> (r: bool)
    ensures
        r == s@.contains(c),
{
    let mut i: usize = 0;
    while i < s.len()
        invariant
            i <= s@.len(),
            forall|j: int| 0 <= j < i ==> s@[j] != c,
        decreases s@.len() - i,
    {
        if s[i] == c {
            assert(s@[i as int] == c);
            return true;
        }
        i += 1;
    }
    false
}

/// Checks a record identifier: not empty, at most 255 bytes, and free of
/// characters that break URLs or file names.
pub fn validate_id(id: &str) -> (r: Result<(), RTDBError>)
    ensures
        reports(r, id_problem(id@)),
        id@.contains(':') || id@.contains('/') || id@.contains('\\') || id@.contains('?') || id@.contains('%')
            || id@.contains('*') || id@.contains('|') || id@.contains('"') || id@.contains('<')
            || id@.contains('>') || id@.contains('\0') ==> r is Err,
{
    proof {
        lemma_id_characters(id@);
    }
    let len = id.len();
    assert(id.spec_bytes() == vstd::utf8::encode_utf8(id@));
    assert(len == byte_len(id@));
    if len == 0 {
        return Err(RTDBError::Validation("Record ID cannot be empty".to_owned()));
    }
    if len > 255 {
        let mut m = "Record ID too long: ".to_owned();
        push_decimal(&mut m, len as u64);
        m.append(" characters (limit: 255)");
        return Err(RTDBError::Validation(m));
    }
    let chars = chars_of(id);
    let forbidden: [char; 11] = ['/', '\\', '?', '%', '*', ':', '|', '"', '<', '>', '\0'];
    assert(forbidden@ == forbidden_id_chars());
    let ghost p = forbidden_in(id@);
    let mut k: usize = 0;
    while k < 11
        invariant
            k <= 11,
            chars@ == id@,
            forbidden@ == forbidden_id_chars(),
            p == forbidden_in(id@),
            0 < byte_len(id@) <= 255,
            first_from(0, 11, p) == first_from(k as int, 11, p),
        decreases 11 - k,
    {
        let c = forbidden[k];
        if contains_char(&chars, c) {
            let mut m = "Record ID contains invalid character: '".to_owned();
            crate::text::push_char(&mut m, c);
            m.append("'");
            assert(p(k as int));
            assert(first_from(k as int, 11, p) == Some(k as int));
            assert(c == forbidden_id_chars()[k as int]);
            assert(m@ == "Record ID contains invalid character: '"@ + seq![forbidden_id_chars()[k as int]] + "'"@);
            return Err(RTDBError::Validation(m));
        }
        k += 1;
    }
    Ok(())
}

// ---------------------------------------------------------------------
// Metadata
// ---------------------------------------------------------------------

/// regex's compiled regular expression, opaque here.
#[verifier::external_type_specification]
#[verifier::external_body]
pub struct ExRegex(regex::Regex);

/// regex's compilation error, opaque here.
#[verifier::external_type_specification]
#[verifier::external_body]
pub struct ExRegexError(regex::Error);

/// Whether regex accepts `pattern` (what `Regex::new` decides).
pub uninterp spec fn regex_compiles(pattern: Seq<char>) -> bool;

/// Whether the regular expression `pattern` matches somewhere in
/// `haystack` (what `Regex::is_match` decides).
pub uninterp spec fn regex_finds(pattern: Seq<char>, haystack: Seq<char>) -> bool;

/// The pattern field names must match: a letter or underscore, then
/// letters, digits and underscores.
pub open spec fn field_name_pattern() -> Seq<char> {
    "^[a-zA-Z_][a-zA-Z0-9_]*$"@
}

/// An ASCII letter or an underscore.
pub open spec fn identifier_start(c: char) -> bool {
    ('a' <= c && c <= 'z') || ('A' <= c && c <= 'Z') || c == '_'
}

/// An ASCII letter, an ASCII digit or an underscore.
pub open spec fn identifier_char(c: char) -> bool {
    identifier_start(c) || ('0' <= c && c <= '9')
}

/// The texts the field-name pattern matches: a letter or underscore, then
/// letters, digits and underscores, and nothing else.
pub open spec fn is_identifier(s: Seq<char>) -> bool {
    &&& s.len() > 0
    &&& identifier_start(s[0])
    &&& forall|i: int| 1 <= i < s.len() ==> identifier_char(#[trigger] s[i])
}

/// A compiled regular expression and the pattern it was compiled from.
pub struct CompiledPattern {
    re: Regex,
    source: Ghost<Seq<char>>,
}

impl CompiledPattern {
    /// The pattern it was compiled from.
    pub closed spec fn pattern(&self) -> Seq<char> {
        self.source@
    }
}

/// Compiles a pattern (regex's `Regex::new`). The field-name pattern is
/// valid regex syntax, small enough for regex's default size limit, so it
/// compiles.
#[verifier::external_body]
fn compile_regex(pattern: &str) -> (r: Result<CompiledPattern, regex::Error>)
    ensures
        r is Ok <==> regex_compiles(pattern@),
        r matches Ok(c) ==> c.pattern() == pattern@,
        pattern@ == field_name_pattern() ==> r is Ok,
{
    match Regex::new(pattern) {
        Ok(re) => Ok(CompiledPattern { re, source: Ghost(pattern@) }),
        Err(e) => Err(e),
    }
}

/// Whether the regex matches somewhere in `haystack` (regex's
/// `Regex::is_match`). Without the multi-line flag `^` and `$` match only
/// at the ends of the haystack, and the classes are the ASCII ranges
/// written, so the field-name pattern matches exactly the identifiers.
#[verifier::external_body]
fn regex_is_match(c: &CompiledPattern, haystack: &str) -> (r: bool)
    ensures
        r == regex_finds(c.pattern(), haystack@),
        c.pattern() == field_name_pattern() ==> (r == is_identifier(haystack@)),
{
    c.re.is_match(haystack)
}

/// What is wrong with one metadata value, if anything: a string over
/// 10000 bytes, an array over 1000 elements, an object over 100 keys.
pub open spec fn value_problem(name: Seq<char>, v: Json) -> Option<Seq<char>> {
    match v {
        Json::Str(s) => if byte_len(s) > 10000 {
            Some("String field '"@ + name + "' too long: "@ + decimal(byte_len(s) as nat) + " characters (limit: 10000)"@)
        } else {
            None
        },
        Json::Array(a) => if a.len() > 1000 {
            Some("Array field '"@ + name + "' too long: "@ + decimal(a.len()) + " elements (limit: 1000)"@)
        } else {
            None
        },
        Json::Object(o) => if o.len() > 100 {
            Some("Object field '"@ + name + "' has too many keys: "@ + decimal(o.len()) + " (limit: 100)"@)
        } else {
            None
        },
        _ => None,
    }
}

/// Required field `k` is missing.
pub open spec fn missing_at(fields: Seq<(Seq<char>, Json)>, required: Seq<Seq<char>>) -> spec_fn(int) -> bool {
    |k: int| !field_names(fields).contains(required[k])
}

/// Field `i`'s name did not match the pattern.
pub open spec fn bad_name_at(name_ok: Seq<bool>) -> spec_fn(int) -> bool {
    |i: int| !name_ok[i]
}

/// Field `i`'s value has a problem.
pub open spec fn bad_value_at(fields: Seq<(Seq<char>, Json)>) -> spec_fn(int) -> bool {
    |i: int| value_problem(fields[i].0, fields[i].1) is Some
}

/// What is wrong with metadata, if anything, given which names matched
/// the field-name pattern and the size of its serialization: the first
/// missing required field, else the first badly named field, else a size
/// over 1 MiB, else the first field with a bad value.
pub open spec fn metadata_problem(
    fields: Seq<(Seq<char>, Json)>,
    required: Seq<Seq<char>>,
    name_ok: Seq<bool>,
    size: usize,
) -> Option<Seq<char>> {
    match first_from(0, required.len() as int, missing_at(fields, required)) {
        Some(k) => Some("Required field '"@ + required[k] + "' is missing from metadata"@),
        None => match first_from(0, fields.len() as int, bad_name_at(name_ok)) {
            Some(i) => Some("Invalid field name '"@ + fields[i].0
                + "': must start with letter or underscore, contain only alphanumeric characters and underscores"@),
            None => if size > 1024 * 1024 {
                Some("Metadata too large: "@ + decimal(size as nat) + " bytes (limit: 1MB)"@)
            } else {
                match first_from(0, fields.len() as int, bad_value_at(fields)) {
                    Some(i) => value_problem(fields[i].0, fields[i].1),
                    None => None,
                }
            },
        },
    }
}

/// `prefix`, `name`, then `rest`.
fn message3(prefix: &str, name: &str, rest: &str) -> (r: String)
    ensures
        r@ == prefix@ + name@ + rest@,
{
    let mut m = prefix.to_owned();
    m.append(name);
    m.append(rest);
    m
}

/// Checks one metadata value.
pub fn validate_metadata_value(field_name: &str, value: &JsonValue) -> (r: Result<(), RTDBError>)
    ensures
        reports(r, value_problem(field_name@, value@)),
{
    match value {
        JsonValue::Str(s) => {
            let t = s.as_str();
            let n = t.len();
            assert(t@ == s@);
            assert(n == byte_len(s@));
            if n > 10000 {
                let mut m = message3("String field '", field_name, "' too long: ");
                push_decimal(&mut m, n as u64);
                m.append(" characters (limit: 10000)");
                return Err(RTDBError::Validation(m));
            }
            Ok(())
        },
        JsonValue::Array(a) => {
            if a.len() > 1000 {
                let mut m = message3("Array field '", field_name, "' too long: ");
                push_decimal(&mut m, a.len() as u64);
                m.append(" elements (limit: 1000)");
                return Err(RTDBError::Validation(m));
            }
            Ok(())
        },
        JsonValue::Object(o) => {
            if o.len() > 100 {
                let mut m = message3("Object field '", field_name, "' has too many keys: ");
                push_decimal(&mut m, o.len() as u64);
                m.append(" (limit: 100)");
                return Err(RTDBError::Validation(m));
            }
            Ok(())
        },
        _ => Ok(()),
    }
}

/// Whether `name` is among the field names.
fn has_field(fields: &Vec<(String, JsonValue)>, name: &String) -> (r: bool)
    ensures
        r == field_names(fields_view(fields@)).contains(name@),
{
    let ghost names = field_names(fields_view(fields@));
    let mut i: usize = 0;
    while i < fields.len()
        invariant
            i <= fields@.len(),
            names == field_names(fields_view(fields@)),
            forall|j: int| 0 <= j < i ==> names[j] != name@,
        decreases fields@.len() - i,
    {
        if fields[i].0 == *name {
            assert(names[i as int] == name@);
            return true;
        }
        i += 1;
    }
    assert(!names.contains(name@)) by {
        if names.contains(name@) {
            let j = choose|j: int| 0 <= j < names.len() && names[j] == name@;
            assert(names[j] != name@);
        }
    }
    false
}

/// Checks metadata given, for each field in order, whether its name
/// matched the field-name pattern, and the size of the metadata's JSON
/// serialization in bytes.
pub fn check_metadata(
    metadata: &Vec<(String, JsonValue)>,
    required_fields: &Vec<String>,
    name_ok: &Vec<bool>,
    metadata_size: usize,
) -> (r: Result<(), RTDBError>)
    requires
        name_ok@.len() == metadata@.len(),
    ensures
        reports(r, metadata_problem(fields_view(metadata@), required_fields@.map_values(|f: String| f@), name_ok@, metadata_size)),
{
    let ghost fv = fields_view(metadata@);
    let ghost req = required_fields@.map_values(|f: String| f@);
    let ghost pm = missing_at(fv, req);
    let mut k: usize = 0;
    while k < required_fields.len()
        invariant
            k <= required_fields@.len(),
            fv == fields_view(metadata@),
            req == required_fields@.map_values(|f: String| f@),
            pm == missing_at(fv, req),
            first_from(0, req.len() as int, pm) == first_from(k as int, req.len() as int, pm),
        decreases required_fields@.len() - k,
    {
        if !has_field(metadata, &required_fields[k]) {
            assert(req[k as int] == required_fields@[k as int]@);
            assert(pm(k as int));
            let m = message3("Required field '", required_fields[k].as_str(), "' is missing from metadata");
            return Err(RTDBError::Validation(m));
        }
        assert(req[k as int] == required_fields@[k as int]@);
        k += 1;
    }
    let ghost pn = bad_name_at(name_ok@);
    let mut i: usize = 0;
    while i < metadata.len()
        invariant
            i <= metadata@.len(),
            name_ok@.len() == metadata@.len(),
            fv == fields_view(metadata@),
            req == required_fields@.map_values(|f: String| f@),
            first_from(0, req.len() as int, missing_at(fv, req)) is None,
            pn == bad_name_at(name_ok@),
            first_from(0, fv.len() as int, pn) == first_from(i as int, fv.len() as int, pn),
        decreases metadata@.len() - i,
    {
        if !name_ok[i] {
            assert(pn(i as int));
            let m = message3("Invalid field name '", metadata[i].0.as_str(),
                "': must start with letter or underscore, contain only alphanumeric characters and underscores");
            return Err(RTDBError::Validation(m));
        }
        i += 1;
    }
    if metadata_size > 1024 * 1024 {
        let mut m = "Metadata too large: ".to_owned();
        push_decimal(&mut m, metadata_size as u64);
        m.append(" bytes (limit: 1MB)");
        return Err(RTDBError::Validation(m));
    }
    let ghost pv = bad_value_at(fv);
    let mut i: usize = 0;
    while i < metadata.len()
        invariant
            i <= metadata@.len(),
            name_ok@.len() == metadata@.len(),
            fv == fields_view(metadata@),
            req == required_fields@.map_values(|f: String| f@),
            first_from(0, req.len() as int, missing_at(fv, req)) is None,
            first_from(0, fv.len() as int, bad_name_at(name_ok@)) is None,
            metadata_size <= 1024 * 1024,
            pv == bad_value_at(fv),
            first_from(0, fv.len() as int, pv) == first_from(i as int, fv.len() as int, pv),
        decreases metadata@.len() - i,
    {
        let res = validate_metadata_value(metadata[i].0.as_str(), &metadata[i].1);
        if res.is_err() {
            assert(pv(i as int));
            return res;
        }
        i += 1;
    }
    Ok(())
}

/// For each field in order, whether its name matches the field-name
/// pattern.
pub open spec fn names_matching(fields: Seq<(Seq<char>, Json)>) -> Seq<bool> {
    fields.map_values(|f: (Seq<char>, Json)| is_identifier(f.0))
}

/// Checks metadata: required fields present, names matching the
/// field-name pattern, serialization (of `metadata_size` bytes) within
/// 1 MiB, and each value within its limits.
pub fn validate_metadata(
    metadata: &Vec<(String, JsonValue)>,
    required_fields: &Vec<String>,
    metadata_size: usize,
) -> (r: Result<(), RTDBError>)
    ensures
        reports(r, metadata_problem(
            fields_view(metadata@), required_fields@.map_values(|f: String| f@),
            names_matching(fields_view(metadata@)), metadata_size)),
{
    let pattern = "^[a-zA-Z_][a-zA-Z0-9_]*$";
    proof {
        reveal_strlit("^[a-zA-Z_][a-zA-Z0-9_]*$");
    }
    let re = match compile_regex(pattern) {
        Ok(re) => re,
        Err(_) => unreached(),
    };
    let mut name_ok: Vec<bool> = Vec::new();
    let mut i: usize = 0;
    while i < metadata.len()
        invariant
            i <= metadata@.len(),
            re.pattern() == field_name_pattern(),
            name_ok@.len() == i,
            forall|j: int| 0 <= j < i ==> name_ok@[j] == is_identifier(metadata@[j].0@),
        decreases metadata@.len() - i,
    {
        name_ok.push(regex_is_match(&re, metadata[i].0.as_str()));
        i += 1;
    }
    assert(name_ok@ =~= names_matching(fields_view(metadata@)));
    check_metadata(metadata, required_fields, &name_ok, metadata_size)
}

// ---------------------------------------------------------------------
// Records
// ---------------------------------------------------------------------

/// The displayed error a record fails with, if any: vector problems
/// first (when checked), then metadata problems (when checked), then
/// identifier problems.
pub open spec fn record_failure(record: VectorRecord, config: ValidationConfig, metadata_size: usize) -> Option<Seq<char>> {
    let vp = if config.validate_vectors { vector_problem(record.vector@, config.vector_dimension) } else { None };
    if vp is Some {
        Some("Validation error: "@ + vp->0)
    } else {
        let fv = fields_view(record.metadata@);
        let mp = if config.validate_metadata {
            metadata_problem(fv, config.required_fields@.map_values(|f: String| f@), names_matching(fv), metadata_size)
        } else {
            None
        };
        if mp is Some {
            Some("Validation error: "@ + mp->0)
        } else {
            match id_problem(record.id@) {
                Some(m) => Some("Validation error: "@ + m),
                None => None,
            }
        }
    }
}

/// Checks a record as the configuration asks; `metadata_size` is the size
/// of its metadata's JSON serialization in bytes.
pub fn validate_record(record: &VectorRecord, config: &ValidationConfig, metadata_size: usize) -> (r: Result<(), RTDBError>)
    ensures
        r is Ok <==> record_failure(*record, *config, metadata_size) is None,
        r matches Err(e) ==> Some(crate::types::error_message(e)) == record_failure(*record, *config, metadata_size),
{
    if config.validate_vectors {
        let res = validate_vector(&record.vector, config.vector_dimension);
        if res.is_err() {
            return res;
        }
    }
    if config.validate_metadata {
        let res = validate_metadata(&record.metadata, &config.required_fields, metadata_size);
        if res.is_err() {
            return res;
        }
    }
    validate_id(record.id.as_str())
}

/// A record passes validation exactly when each enabled check passes (the
/// vector check when vectors are checked, the metadata check when
/// metadata is, and the identifier check), and fails with the first
/// failing check's message in that order; whether duplicates are checked
/// plays no part.
pub proof fn lemma_record_checks(record: VectorRecord, config: ValidationConfig, metadata_size: usize)
    ensures
        ({
            let vp = vector_problem(record.vector@, config.vector_dimension);
            let mp = metadata_problem(fields_view(record.metadata@), config.required_fields@.map_values(|f: String| f@),
                names_matching(fields_view(record.metadata@)), metadata_size);
            let ip = id_problem(record.id@);
            &&& record_failure(record, config, metadata_size) is None <==> {
                &&& (!config.validate_vectors || vp is None)
                &&& (!config.validate_metadata || mp is None)
                &&& ip is None
            }
            &&& record_failure(record, config, metadata_size) == if config.validate_vectors && vp is Some {
                    Some("Validation error: "@ + vp->0)
                } else if config.validate_metadata && mp is Some {
                    Some("Validation error: "@ + mp->0)
                } else if ip is Some {
                    Some("Validation error: "@ + ip->0)
                } else {
                    None
                }
            &&& record_failure(record, ValidationConfig { check_duplicates: !config.check_duplicates, ..config }, metadata_size)
                == record_failure(record, config, metadata_size)
        }),
{
}

/// Identifiers seen so far, up to a limit.
pub struct DuplicateChecker {
    seen_ids: Vec<String>,
    max_ids: usize,
}

impl DuplicateChecker {
    /// The identifiers remembered, distinct, in order.
    pub closed spec fn seen(&self) -> Seq<Seq<char>> {
        self.seen_ids@.map_values(|s: String| s@)
    }

    /// How many identifiers it remembers at most.
    pub closed spec fn capacity(&self) -> usize {
        self.max_ids
    }

    /// The remembered identifiers are distinct and within the limit.
    pub closed spec fn well_formed(&self) -> bool {
        &&& self.seen().no_duplicates()
        &&& self.seen().len() <= self.max_ids
    }

    /// A checker that remembers up to a million identifiers.
    pub fn new() -> (r: Self)
        ensures
            r.well_formed(),
            r.seen() == Seq::<Seq<char>>::empty(),
            r.capacity() == 1_000_000,
    {
        let r = DuplicateChecker { seen_ids: Vec::new(), max_ids: 1_000_000 };
        assert(r.seen() =~= Seq::<Seq<char>>::empty());
        r
    }

    /// Whether `id` was seen.
    pub fn is_duplicate(&self, id: &str) -> (r: bool)
        ensures
            r == self.seen().contains(id@),
    {
        let target = id.to_owned();
        crate::jepsen::checkers::contains_string(&self.seen_ids, &target)
    }

    /// Remembers `id`, unless the limit is reached.
    pub fn add_id(&mut self, id: &str)
        requires
            old(self).well_formed(),
        ensures
            final(self).well_formed(),
            final(self).capacity() == old(self).capacity(),
            final(self).seen() == (if old(self).seen().len() < old(self).capacity() && !old(self).seen().contains(id@) {
                old(self).seen().push(id@)
            } else {
                old(self).seen()
            }),
    {
        if self.seen_ids.len() < self.max_ids {
            let target = id.to_owned();
            if !crate::jepsen::checkers::contains_string(&self.seen_ids, &target) {
                let ghost before = self.seen_ids@;
                self.seen_ids.push(target);
                assert(self.seen() =~= before.map_values(|s: String| s@).push(id@));
            }
        }
    }

    /// Forgets every identifier.
    pub fn clear(&mut self)
        ensures
            final(self).well_formed(),
            final(self).seen() == Seq::<Seq<char>>::empty(),
            final(self).capacity() == old(self).capacity(),
    {
        self.seen_ids = Vec::new();
        assert(self.seen() =~= Seq::<Seq<char>>::empty());
    }
}

/// Counts of a validator's verdicts.
#[derive(Debug, Clone, Copy, PartialEq, Eq, Structural)]
pub struct ValidationStats {
    pub total_processed: u64,
    pub valid_count: u64,
    pub invalid_count: u64,
    pub duplicate_count: u64,
}

impl ValidationStats {
    /// All counts zero.
    pub fn new() -> (r: Self)
        ensures
            r == (ValidationStats { total_processed: 0, valid_count: 0, invalid_count: 0, duplicate_count: 0 }),
    {
        ValidationStats { total_processed: 0, valid_count: 0, invalid_count: 0, duplicate_count: 0 }
    }
}

/// A record that failed validation, with the error's message.
#[derive(Debug)]
pub struct InvalidRecord {
    pub record: VectorRecord,
    pub error: String,
}

/// The outcome of validating a batch.
#[derive(Debug)]
pub struct ValidationResult {
    pub valid_records: Vec<VectorRecord>,
    pub invalid_records: Vec<InvalidRecord>,
    pub duplicate_records: Vec<VectorRecord>,
    pub stats: ValidationStats,
}

/// Where the records of a batch went, by position, and the identifiers
/// remembered afterwards.
pub struct BatchVerdicts {
    pub valid: Seq<int>,
    pub invalid: Seq<(int, Seq<char>)>,
    pub duplicates: Seq<int>,
    pub seen: Seq<Seq<char>>,
}

/// `seen` after remembering `id` (up to `cap` identifiers).
pub open spec fn remember(seen: Seq<Seq<char>>, cap: usize, id: Seq<char>) -> Seq<Seq<char>> {
    if seen.len() < cap && !seen.contains(id) { seen.push(id) } else { seen }
}

/// The verdicts on the first `n` records: with duplicate checking on, a
/// record whose identifier was seen is a duplicate; otherwise its
/// identifier is remembered and it is valid or invalid as
/// `record_failure` says.
pub open spec fn batch_upto(
    recs: Seq<VectorRecord>,
    sizes: Seq<usize>,
    config: ValidationConfig,
    cap: usize,
    seen0: Seq<Seq<char>>,
    n: nat,
) -> BatchVerdicts
    decreases n,
{
    if n == 0 {
        BatchVerdicts { valid: Seq::empty(), invalid: Seq::empty(), duplicates: Seq::empty(), seen: seen0 }
    } else {
        let st = batch_upto(recs, sizes, config, cap, seen0, (n - 1) as nat);
        let i = n - 1;
        let rec = recs[i];
        if config.check_duplicates && st.seen.contains(rec.id@) {
            BatchVerdicts { duplicates: st.duplicates.push(i), ..st }
        } else {
            let seen = if config.check_duplicates { remember(st.seen, cap, rec.id@) } else { st.seen };
            match record_failure(rec, config, sizes[i]) {
                None => BatchVerdicts { valid: st.valid.push(i), seen: seen, ..st },
                Some(m) => BatchVerdicts { invalid: st.invalid.push((i, m)), seen: seen, ..st },
            }
        }
    }
}

/// `s` is strictly increasing and within `0..n`.
pub open spec fn ascending_below(s: Seq<int>, n: int) -> bool {
    &&& forall|j: int| 0 <= j < s.len() ==> 0 <= #[trigger] s[j] < n
    &&& forall|j: int, k: int| 0 <= j < k < s.len() ==> s[j] < s[k]
}

/// The positions of the invalid verdicts.
pub open spec fn invalid_positions(v: BatchVerdicts) -> Seq<int> {
    v.invalid.map_values(|e: (int, Seq<char>)| e.0)
}

/// Every record of a batch gets exactly one verdict (valid, invalid or
/// duplicate), each list of verdicts keeps the records' order, and
/// without duplicate checking no record is a duplicate and no identifier
/// is remembered.
pub proof fn lemma_batch_partition(
    recs: Seq<VectorRecord>,
    sizes: Seq<usize>,
    config: ValidationConfig,
    cap: usize,
    seen0: Seq<Seq<char>>,
    n: nat,
)
    ensures
        ({
            let v = batch_upto(recs, sizes, config, cap, seen0, n);
            &&& v.valid.len() + v.invalid.len() + v.duplicates.len() == n
            &&& ascending_below(v.valid, n as int)
            &&& ascending_below(invalid_positions(v), n as int)
            &&& ascending_below(v.duplicates, n as int)
            &&& forall|i: int| 0 <= i < n ==> {
                ||| v.valid.contains(i) && !invalid_positions(v).contains(i) && !v.duplicates.contains(i)
                ||| !v.valid.contains(i) && invalid_positions(v).contains(i) && !v.duplicates.contains(i)
                ||| !v.valid.contains(i) && !invalid_positions(v).contains(i) && v.duplicates.contains(i)
            }
            &&& !config.check_duplicates ==> v.duplicates.len() == 0 && v.seen == seen0
        }),
    decreases n,
{
    if n > 0 {
        lemma_batch_partition(recs, sizes, config, cap, seen0, (n - 1) as nat);
        let st = batch_upto(recs, sizes, config, cap, seen0, (n - 1) as nat);
        let v = batch_upto(recs, sizes, config, cap, seen0, n);
        let i = n - 1;
        assert(invalid_positions(st).len() == st.invalid.len());
        assert(invalid_positions(v).len() == v.invalid.len());
        if !(config.check_duplicates && st.seen.contains(recs[i].id@)) && record_failure(recs[i], config, sizes[i]) is Some {
            assert(invalid_positions(v) =~= invalid_positions(st).push(i));
        } else {
            assert(invalid_positions(v) =~= invalid_positions(st));
        }
        assert forall|k: int| 0 <= k < n implies {
            ||| v.valid.contains(k) && !invalid_positions(v).contains(k) && !v.duplicates.contains(k)
            ||| !v.valid.contains(k) && invalid_positions(v).contains(k) && !v.duplicates.contains(k)
            ||| !v.valid.contains(k) && !invalid_positions(v).contains(k) && v.duplicates.contains(k)
        } by {
            if k < i {
                if v.valid.contains(k) { let j = choose|j: int| 0 <= j < v.valid.len() && v.valid[j] == k; assert(st.valid.contains(k) || j == st.valid.len()); }
                if invalid_positions(v).contains(k) { let j = choose|j: int| 0 <= j < invalid_positions(v).len() && invalid_positions(v)[j] == k; assert(invalid_positions(st).contains(k) || j == invalid_positions(st).len()); }
                if v.duplicates.contains(k) { let j = choose|j: int| 0 <= j < v.duplicates.len() && v.duplicates[j] == k; assert(st.duplicates.contains(k) || j == st.duplicates.len()); }
                if st.valid.contains(k) { let j = choose|j: int| 0 <= j < st.valid.len() && st.valid[j] == k; assert(v.valid[j] == k); }
                if invalid_positions(st).contains(k) { let j = choose|j: int| 0 <= j < invalid_positions(st).len() && invalid_positions(st)[j] == k; assert(invalid_positions(v)[j] == k); }
                if st.duplicates.contains(k) { let j = choose|j: int| 0 <= j < st.duplicates.len() && st.duplicates[j] == k; assert(v.duplicates[j] == k); }
            } else {
                assert(k == i);
                assert(!st.valid.contains(i));
                assert(!invalid_positions(st).contains(i));
                assert(!st.duplicates.contains(i));
                if v.valid.len() > st.valid.len() { assert(v.valid[st.valid.len() as int] == i); }
                if invalid_positions(v).len() > invalid_positions(st).len() { assert(invalid_positions(v)[invalid_positions(st).len() as int] == i); }
                if v.duplicates.len() > st.duplicates.len() { assert(v.duplicates[st.duplicates.len() as int] == i); }
                if v.valid.contains(i) { let j = choose|j: int| 0 <= j < v.valid.len() && v.valid[j] == i; assert(j == st.valid.len()); }
                if invalid_positions(v).contains(i) { let j = choose|j: int| 0 <= j < invalid_positions(v).len() && invalid_positions(v)[j] == i; assert(j == invalid_positions(st).len()); }
                if v.duplicates.contains(i) { let j = choose|j: int| 0 <= j < v.duplicates.len() && v.duplicates[j] == i; assert(j == st.duplicates.len()); }
            }
        }
    }
}

/// A record that is not a duplicate is valid exactly when it passes
/// validation, and an invalid one carries the message validation gives.
pub proof fn lemma_batch_verdicts(
    recs: Seq<VectorRecord>,
    sizes: Seq<usize>,
    config: ValidationConfig,
    cap: usize,
    seen0: Seq<Seq<char>>,
    n: nat,
)
    ensures
        ({
            let v = batch_upto(recs, sizes, config, cap, seen0, n);
            &&& forall|i: int| 0 <= i < n ==> (v.valid.contains(i) <==>
                    (!v.duplicates.contains(i) && record_failure(#[trigger] recs[i], config, sizes[i]) is None))
            &&& forall|j: int| 0 <= j < v.invalid.len() ==>
                    record_failure(recs[(#[trigger] v.invalid[j]).0], config, sizes[v.invalid[j].0]) == Some(v.invalid[j].1)
        }),
    decreases n,
{
    lemma_batch_partition(recs, sizes, config, cap, seen0, n);
    if n > 0 {
        lemma_batch_verdicts(recs, sizes, config, cap, seen0, (n - 1) as nat);
        lemma_batch_partition(recs, sizes, config, cap, seen0, (n - 1) as nat);
        let st = batch_upto(recs, sizes, config, cap, seen0, (n - 1) as nat);
        let v = batch_upto(recs, sizes, config, cap, seen0, n);
        let i = n - 1;
        assert forall|k: int| 0 <= k < n implies (v.valid.contains(k) <==>
            (!v.duplicates.contains(k) && record_failure(#[trigger] recs[k], config, sizes[k]) is None)) by {
            if k < i {
                if v.valid.contains(k) { let q = choose|q: int| 0 <= q < v.valid.len() && v.valid[q] == k; if q == st.valid.len() { assert(v.valid[q] == i); } assert(st.valid.contains(k)); }
                if st.valid.contains(k) { let q = choose|q: int| 0 <= q < st.valid.len() && st.valid[q] == k; assert(v.valid[q] == k); }
                if v.duplicates.contains(k) { let q = choose|q: int| 0 <= q < v.duplicates.len() && v.duplicates[q] == k; if q == st.duplicates.len() { assert(v.duplicates[q] == i); } assert(st.duplicates.contains(k)); }
                if st.duplicates.contains(k) { let q = choose|q: int| 0 <= q < st.duplicates.len() && st.duplicates[q] == k; assert(v.duplicates[q] == k); }
            } else {
                assert(k == i);
                assert(!st.valid.contains(i));
                assert(!st.duplicates.contains(i));
                if v.valid.contains(i) { let q = choose|q: int| 0 <= q < v.valid.len() && v.valid[q] == i; assert(q == st.valid.len()); }
                if v.duplicates.contains(i) { let q = choose|q: int| 0 <= q < v.duplicates.len() && v.duplicates[q] == i; assert(q == st.duplicates.len()); }
                if v.valid.len() > st.valid.len() { assert(v.valid[st.valid.len() as int] == i); }
                if v.duplicates.len() > st.duplicates.len() { assert(v.duplicates[st.duplicates.len() as int] == i); }
            }
        }
        assert forall|j: int| 0 <= j < v.invalid.len() implies
            record_failure(recs[(#[trigger] v.invalid[j]).0], config, sizes[v.invalid[j].0]) == Some(v.invalid[j].1) by {
            if j < st.invalid.len() {
                assert(v.invalid[j] == st.invalid[j]);
            }
        }
    }
}

/// With duplicate checking on and room to remember every identifier, a
/// record is set aside as a duplicate exactly when its identifier was
/// remembered before the batch or belongs to an earlier record of it; the
/// identifiers remembered afterwards are those before and those of the
/// batch. Without duplicate checking no record is a duplicate.
pub proof fn lemma_duplicates_are_repeats(
    recs: Seq<VectorRecord>,
    sizes: Seq<usize>,
    config: ValidationConfig,
    cap: usize,
    seen0: Seq<Seq<char>>,
    n: nat,
)
    requires
        n <= recs.len(),
        seen0.len() + n <= cap,
    ensures
        ({
            let v = batch_upto(recs, sizes, config, cap, seen0, n);
            &&& forall|i: int| 0 <= i < n ==> (v.duplicates.contains(i) <==> {
                &&& config.check_duplicates
                &&& (seen0.contains(#[trigger] recs[i].id@) || exists|k: int| 0 <= k < i && recs[k].id@ == recs[i].id@)
            })
            &&& config.check_duplicates ==> forall|x: Seq<char>| #[trigger] v.seen.contains(x) <==>
                    (seen0.contains(x) || exists|k: int| 0 <= k < n && recs[k].id@ == x)
            &&& v.seen.len() <= seen0.len() + n
        }),
    decreases n,
{
    lemma_batch_partition(recs, sizes, config, cap, seen0, n);
    if n > 0 {
        lemma_duplicates_are_repeats(recs, sizes, config, cap, seen0, (n - 1) as nat);
        lemma_batch_partition(recs, sizes, config, cap, seen0, (n - 1) as nat);
        let st = batch_upto(recs, sizes, config, cap, seen0, (n - 1) as nat);
        let v = batch_upto(recs, sizes, config, cap, seen0, n);
        let i = n - 1;
        let id = recs[i].id@;
        if config.check_duplicates {
            assert(st.seen.len() < cap);
            assert forall|x: Seq<char>| #[trigger] v.seen.contains(x) <==> (st.seen.contains(x) || x == id) by {
                if !st.seen.contains(id) {
                    assert(v.seen == st.seen.push(id));
                    if v.seen.contains(x) {
                        let q = choose|q: int| 0 <= q < v.seen.len() && v.seen[q] == x;
                        if q < st.seen.len() { assert(st.seen[q] == x); }
                    }
                    if st.seen.contains(x) {
                        let q = choose|q: int| 0 <= q < st.seen.len() && st.seen[q] == x;
                        assert(v.seen[q] == x);
                    }
                    assert(v.seen[st.seen.len() as int] == id);
                }
            }
            assert forall|x: Seq<char>| #[trigger] v.seen.contains(x) <==
                (seen0.contains(x) || exists|k: int| 0 <= k < n && recs[k].id@ == x) by {
                if exists|k: int| 0 <= k < n && recs[k].id@ == x {
                    let k = choose|k: int| 0 <= k < n && recs[k].id@ == x;
                    if k < i {
                        assert(st.seen.contains(x));
                    }
                }
                if exists|k: int| 0 <= k < i && recs[k].id@ == x {
                    let k = choose|k: int| 0 <= k < i && recs[k].id@ == x;
                    assert(0 <= k < n && recs[k].id@ == x);
                }
                if v.seen.contains(x) && !st.seen.contains(x) {
                    assert(x == id);
                    assert(0 <= i < n && recs[i].id@ == x);
                }
            }
        }
        assert forall|j: int| 0 <= j < n implies (v.duplicates.contains(j) <==> {
            &&& config.check_duplicates
            &&& (seen0.contains(#[trigger] recs[j].id@) || exists|k: int| 0 <= k < j && recs[k].id@ == recs[j].id@)
        }) by {
            if j < i {
                if v.duplicates.contains(j) {
                    let q = choose|q: int| 0 <= q < v.duplicates.len() && v.duplicates[q] == j;
                    if q == st.duplicates.len() { assert(v.duplicates[q] == i); }
                    assert(st.duplicates.contains(j));
                }
                if st.duplicates.contains(j) {
                    let q = choose|q: int| 0 <= q < st.duplicates.len() && st.duplicates[q] == j;
                    assert(v.duplicates[q] == j);
                }
            } else {
                assert(j == i);
                assert(!st.duplicates.contains(i));
                if v.duplicates.contains(i) {
                    let q = choose|q: int| 0 <= q < v.duplicates.len() && v.duplicates[q] == i;
                    assert(q == st.duplicates.len());
                }
                if config.check_duplicates && st.seen.contains(id) {
                    assert(v.duplicates[st.duplicates.len() as int] == i);
                }
                if config.check_duplicates && (exists|k: int| 0 <= k < i && recs[k].id@ == id) {
                    let k = choose|k: int| 0 <= k < i && recs[k].id@ == id;
                    assert(st.seen.contains(id));
                }
            }
        }
    }
}

/// Validates batches of records, counting verdicts and, when configured,
/// setting aside records whose identifier was already seen.
pub struct BatchValidator {
    config: ValidationConfig,
    duplicate_checker: Option<DuplicateChecker>,
    stats: ValidationStats,
}

impl BatchValidator {
    /// The configuration.
    pub closed spec fn config(&self) -> ValidationConfig {
        self.config
    }

    /// The counts so far.
    pub closed spec fn stats(&self) -> ValidationStats {
        self.stats
    }

    /// The identifiers remembered for duplicate checking.
    pub closed spec fn seen(&self) -> Seq<Seq<char>> {
        match self.duplicate_checker {
            Some(c) => c.seen(),
            None => Seq::empty(),
        }
    }

    /// How many identifiers are remembered at most.
    pub closed spec fn capacity(&self) -> usize {
        match self.duplicate_checker {
            Some(c) => c.capacity(),
            None => 0,
        }
    }

    /// A checker exactly when duplicates are checked, and every processed
    /// record counted once.
    pub closed spec fn well_formed(&self) -> bool {
        &&& (self.duplicate_checker is Some <==> self.config.check_duplicates)
        &&& (self.duplicate_checker matches Some(c) ==> c.well_formed())
        &&& self.stats.valid_count + self.stats.invalid_count + self.stats.duplicate_count == self.stats.total_processed
    }

    /// A validator with zero counts and, when duplicates are checked, an
    /// empty checker of a million identifiers.
    pub fn new(config: ValidationConfig) -> (r: Self)
        ensures
            r.well_formed(),
            r.config() == config,
            r.stats() == (ValidationStats { total_processed: 0, valid_count: 0, invalid_count: 0, duplicate_count: 0 }),
            r.seen() == Seq::<Seq<char>>::empty(),
            config.check_duplicates ==> r.capacity() == 1_000_000,
    {
        let duplicate_checker = if config.check_duplicates { Some(DuplicateChecker::new()) } else { None };
        BatchValidator { config, duplicate_checker, stats: ValidationStats::new() }
    }

    /// Every record processed since the validator was made or reset is
    /// counted once: as valid, as invalid or as a duplicate.
    pub proof fn lemma_counts_balance(&self)
        requires
            self.well_formed(),
        ensures
            self.stats().valid_count + self.stats().invalid_count + self.stats().duplicate_count
                == self.stats().total_processed,
    {
    }

    /// The counts so far.
    pub fn get_stats(&self) -> (r: &ValidationStats)
        ensures
            *r == self.stats(),
    {
        &self.stats
    }

    /// Zeroes the counts and forgets remembered identifiers.
    pub fn reset_stats(&mut self)
        requires
            old(self).well_formed(),
        ensures
            final(self).well_formed(),
            final(self).config() == old(self).config(),
            final(self).stats() == (ValidationStats { total_processed: 0, valid_count: 0, invalid_count: 0, duplicate_count: 0 }),
            final(self).seen() == Seq::<Seq<char>>::empty(),
            final(self).capacity() == old(self).capacity(),
    {
        self.stats = ValidationStats::new();
        match &mut self.duplicate_checker {
            Some(checker) => checker.clear(),
            None => {},
        }
    }

    /// Validates each record in order; `metadata_sizes[i]` is the size of
    /// record `i`'s metadata serialization in bytes.
    pub fn validate_batch(&mut self, records: &Vec<VectorRecord>, metadata_sizes: &Vec<usize>) -> (r: Result<ValidationResult, RTDBError>)
        requires
            old(self).well_formed(),
            metadata_sizes@.len() == records@.len(),
            old(self).stats().total_processed + records@.len() <= u64::MAX,
        ensures
            final(self).well_formed(),
            final(self).config() == old(self).config(),
            final(self).capacity() == old(self).capacity(),
            ({
                let v = batch_upto(records@, metadata_sizes@, old(self).config(), old(self).capacity(), old(self).seen(), records@.len());
                &&& final(self).seen() == v.seen
                &&& v.valid.len() + v.invalid.len() + v.duplicates.len() == records@.len()
                &&& final(self).stats().total_processed == old(self).stats().total_processed + records@.len()
                &&& final(self).stats().valid_count == old(self).stats().valid_count + v.valid.len()
                &&& final(self).stats().invalid_count == old(self).stats().invalid_count + v.invalid.len()
                &&& final(self).stats().duplicate_count == old(self).stats().duplicate_count + v.duplicates.len()
                &&& r matches Ok(res)
                &&& res.stats == final(self).stats()
                &&& res.valid_records@.len() == v.valid.len()
                &&& (forall|j: int| 0 <= j < v.valid.len() ==>
                        record_view(#[trigger] res.valid_records@[j]) == record_view(records@[v.valid[j]]))
                &&& res.duplicate_records@.len() == v.duplicates.len()
                &&& (forall|j: int| 0 <= j < v.duplicates.len() ==>
                        record_view(#[trigger] res.duplicate_records@[j]) == record_view(records@[v.duplicates[j]]))
                &&& res.invalid_records@.len() == v.invalid.len()
                &&& (forall|j: int| 0 <= j < v.invalid.len() ==>
                        record_view((#[trigger] res.invalid_records@[j]).record) == record_view(records@[v.invalid[j].0])
                        && res.invalid_records@[j].error@ == v.invalid[j].1)
            }),
    {
        let ghost config = self.config;
        let ghost cap = self.capacity();
        let ghost seen0 = self.seen();
        let ghost stats0 = self.stats;
        let mut valid_records: Vec<VectorRecord> = Vec::new();
        let mut invalid_records: Vec<InvalidRecord> = Vec::new();
        let mut duplicate_records: Vec<VectorRecord> = Vec::new();
        let mut i: usize = 0;
        while i < records.len()
            invariant
                i <= records@.len(),
                metadata_sizes@.len() == records@.len(),
                stats0.total_processed + records@.len() <= u64::MAX,
                stats0.valid_count + stats0.invalid_count + stats0.duplicate_count == stats0.total_processed,
                (self.duplicate_checker is Some <==> self.config.check_duplicates),
                (self.duplicate_checker matches Some(c) ==> c.well_formed()),
                self.config == config,
                self.capacity() == cap,
                self.stats.total_processed == stats0.total_processed,
                ({
                    let v = batch_upto(records@, metadata_sizes@, config, cap, seen0, i as nat);
                    &&& self.seen() == v.seen
                    &&& self.stats.valid_count == stats0.valid_count + v.valid.len()
                    &&& self.stats.invalid_count == stats0.invalid_count + v.invalid.len()
                    &&& self.stats.duplicate_count == stats0.duplicate_count + v.duplicates.len()
                    &&& v.valid.len() + v.invalid.len() + v.duplicates.len() == i
                    &&& valid_records@.len() == v.valid.len()
                    &&& (forall|j: int| 0 <= j < v.valid.len() ==>
                            record_view(#[trigger] valid_records@[j]) == record_view(records@[v.valid[j]]))
                    &&& duplicate_records@.len() == v.duplicates.len()
                    &&& (forall|j: int| 0 <= j < v.duplicates.len() ==>
                            record_view(#[trigger] duplicate_records@[j]) == record_view(records@[v.duplicates[j]]))
                    &&& invalid_records@.len() == v.invalid.len()
                    &&& (forall|j: int| 0 <= j < v.invalid.len() ==>
                            record_view((#[trigger] invalid_records@[j]).record) == record_view(records@[v.invalid[j].0])
                            && invalid_records@[j].error@ == v.invalid[j].1)
                }),
            decreases records@.len() - i,
        {
            let rec = &records[i];
            let ghost v0 = batch_upto(records@, metadata_sizes@, config, cap, seen0, i as nat);
            let is_dup = match &self.duplicate_checker {
                Some(checker) => checker.is_duplicate(rec.id.as_str()),
                None => false,
            };
            if is_dup {
                duplicate_records.push(rec.copy());
                self.stats.duplicate_count = self.stats.duplicate_count + 1;
            } else {
                match &mut self.duplicate_checker {
                    Some(checker) => checker.add_id(rec.id.as_str()),
                    None => {},
                }
                match validate_record(rec, &self.config, metadata_sizes[i]) {
                    Ok(()) => {
                        valid_records.push(rec.copy());
                        self.stats.valid_count = self.stats.valid_count + 1;
                    },
                    Err(e) => {
                        let error = e.message();
                        invalid_records.push(InvalidRecord { record: rec.copy(), error });
                        self.stats.invalid_count = self.stats.invalid_count + 1;
                    },
                }
            }
            i += 1;
        }
        self.stats.total_processed = self.stats.total_processed + records.len() as u64;
        Ok(ValidationResult { valid_records, invalid_records, duplicate_records, stats: self.stats })
    }
}

// ---------------------------------------------------------------------
// Schemas
// ---------------------------------------------------------------------

/// The type of a metadata value.
#[derive(Debug, Clone, Copy, PartialEq, Eq, Structural)]
pub enum FieldType {
    String,
    Number,
    Boolean,
    Array,
    Object,
}

/// The type of a value; null counts as a string.
pub open spec fn value_type(v: Json) -> FieldType {
    match v {
        Json::Str(_) => FieldType::String,
        Json::Number(_) => FieldType::Number,
        Json::Bool(_) => FieldType::Boolean,
        Json::Array(_) => FieldType::Array,
        Json::Object(_) => FieldType::Object,
        Json::Null => FieldType::String,
    }
}

/// The type of a value; null counts as a string.
pub fn get_value_type(value: &JsonValue) -> (r: FieldType)
    ensures
        r == value_type(value@),
{
    match value {
        JsonValue::Str(_) => FieldType::String,
        JsonValue::Number(_) => FieldType::Number,
        JsonValue::Bool(_) => FieldType::Boolean,
        JsonValue::Array(_) => FieldType::Array,
        JsonValue::Object(_) => FieldType::Object,
        JsonValue::Null => FieldType::String,
    }
}

/// The name a field type is shown by.
pub open spec fn field_type_name(t: FieldType) -> Seq<char> {
    match t {
        FieldType::String => "String"@,
        FieldType::Number => "Number"@,
        FieldType::Boolean => "Boolean"@,
        FieldType::Array => "Array"@,
        FieldType::Object => "Object"@,
    }
}

fn field_type_str(t: FieldType) -> (r: &'static str)
    ensures
        r@ == field_type_name(t),
{
    match t {
        FieldType::String => "String",
        FieldType::Number => "Number",
        FieldType::Boolean => "Boolean",
        FieldType::Array => "Array",
        FieldType::Object => "Object",
    }
}

/// The type declared for `name`, if any.
pub open spec fn declared_type(types: Seq<(Seq<char>, FieldType)>, name: Seq<char>) -> Option<FieldType>
    decreases types.len(),
{
    if types.len() == 0 {
        None
    } else if types[0].0 == name {
        Some(types[0].1)
    } else {
        declared_type(types.drop_first(), name)
    }
}

/// Field `i` has the wrong type, or is undeclared in strict mode.
pub open spec fn schema_bad_at(types: Seq<(Seq<char>, FieldType)>, strict: bool, fields: Seq<(Seq<char>, Json)>) -> spec_fn(int) -> bool {
    |i: int| match declared_type(types, fields[i].0) {
        Some(t) => value_type(fields[i].1) != t,
        None => strict,
    }
}

/// Expected field `k` is missing.
pub open spec fn expected_missing_at(expected: Seq<Seq<char>>, fields: Seq<(Seq<char>, Json)>) -> spec_fn(int) -> bool {
    |k: int| !field_names(fields).contains(expected[k])
}

/// What a record breaks of a schema, if anything: the first expected
/// field it lacks, else its first field of the wrong type (or, in strict
/// mode, undeclared).
pub open spec fn schema_problem(
    expected: Seq<Seq<char>>,
    types: Seq<(Seq<char>, FieldType)>,
    strict: bool,
    fields: Seq<(Seq<char>, Json)>,
) -> Option<Seq<char>> {
    match first_from(0, expected.len() as int, expected_missing_at(expected, fields)) {
        Some(k) => Some("Missing required field: "@ + expected[k]),
        None => match first_from(0, fields.len() as int, schema_bad_at(types, strict, fields)) {
            Some(i) => match declared_type(types, fields[i].0) {
                Some(t) => Some("Field '"@ + fields[i].0 + "' type mismatch: expected "@ + field_type_name(t)
                    + ", got "@ + field_type_name(value_type(fields[i].1))),
                None => Some("Unexpected field in strict mode: "@ + fields[i].0),
            },
            None => None,
        },
    }
}

/// Adding a field keeps the expected names those with a declared type.
proof fn lemma_names_match_after_add(
    e0: Seq<Seq<char>>,
    t0: Seq<(Seq<char>, FieldType)>,
    e1: Seq<Seq<char>>,
    t1: Seq<(Seq<char>, FieldType)>,
    name: Seq<char>,
    ft: FieldType,
)
    requires
        forall|n: Seq<char>| #[trigger] e0.contains(n) <==> (declared_type(t0, n) is Some),
        e1 == (if e0.contains(name) { e0 } else { e0.push(name) }),
        declared_type(t1, name) == Some(ft),
        forall|other: Seq<char>| other != name ==> #[trigger] declared_type(t1, other) == declared_type(t0, other),
    ensures
        forall|n: Seq<char>| #[trigger] e1.contains(n) <==> (declared_type(t1, n) is Some),
{
    assert forall|n: Seq<char>| #[trigger] e1.contains(n) <==> (declared_type(t1, n) is Some) by {
        if !e0.contains(name) {
            assert(e1[e0.len() as int] == name);
            if e1.contains(n) && n != name {
                let q = choose|q: int| 0 <= q < e1.len() && e1[q] == n;
                assert(e0[q] == n);
            }
            if e0.contains(n) {
                let q = choose|q: int| 0 <= q < e0.len() && e0[q] == n;
                assert(e1[q] == n);
            }
        }
        if n != name {
            assert(declared_type(t1, n) == declared_type(t0, n));
        }
    }
}

/// A record's metadata passes a schema exactly when it has every expected
/// field, and each of its fields has the declared type or, undeclared, the
/// schema is not strict.
pub proof fn lemma_schema_passes(
    expected: Seq<Seq<char>>,
    types: Seq<(Seq<char>, FieldType)>,
    strict: bool,
    fields: Seq<(Seq<char>, Json)>,
)
    ensures
        schema_problem(expected, types, strict, fields) is None <==> {
            &&& forall|k: int| 0 <= k < expected.len() ==> field_names(fields).contains(#[trigger] expected[k])
            &&& forall|i: int| 0 <= i < fields.len() ==> match declared_type(types, (#[trigger] fields[i]).0) {
                Some(t) => value_type(fields[i].1) == t,
                None => !strict,
            }
        },
{
    lemma_first_from(0, expected.len() as int, expected_missing_at(expected, fields));
    lemma_first_from(0, fields.len() as int, schema_bad_at(types, strict, fields));
    if first_from(0, expected.len() as int, expected_missing_at(expected, fields)) is None {
        assert forall|k: int| 0 <= k < expected.len() implies field_names(fields).contains(#[trigger] expected[k]) by {
            assert(!expected_missing_at(expected, fields)(k));
        }
    }
    if first_from(0, fields.len() as int, schema_bad_at(types, strict, fields)) is None {
        assert forall|i: int| 0 <= i < fields.len() implies match declared_type(types, (#[trigger] fields[i]).0) {
            Some(t) => value_type(fields[i].1) == t,
            None => !strict,
        } by {
            assert(!schema_bad_at(types, strict, fields)(i));
        }
    }
}

/// After `add_field(name, t)` the name is expected with type `t`: a
/// record without the field, or whose field has another type, fails.
pub proof fn lemma_added_field_required(
    expected: Seq<Seq<char>>,
    types: Seq<(Seq<char>, FieldType)>,
    strict: bool,
    fields: Seq<(Seq<char>, Json)>,
    name: Seq<char>,
    t: FieldType,
)
    requires
        expected.contains(name),
        declared_type(types, name) == Some(t),
    ensures
        !field_names(fields).contains(name) ==> schema_problem(expected, types, strict, fields) is Some,
        (exists|i: int| 0 <= i < fields.len() && fields[i].0 == name && value_type(fields[i].1) != t)
            ==> schema_problem(expected, types, strict, fields) is Some,
{
    lemma_schema_passes(expected, types, strict, fields);
    let k = choose|k: int| 0 <= k < expected.len() && expected[k] == name;
    if exists|i: int| 0 <= i < fields.len() && fields[i].0 == name && value_type(fields[i].1) != t {
        let i = choose|i: int| 0 <= i < fields.len() && fields[i].0 == name && value_type(fields[i].1) != t;
        assert(declared_type(types, fields[i].0) == Some(t));
    }
}

/// Expected metadata fields and their types.
pub struct SchemaValidator {
    expected_fields: Vec<String>,
    field_types: Vec<(String, FieldType)>,
    strict_mode: bool,
}

impl SchemaValidator {
    /// The expected field names, in the order they were added.
    pub closed spec fn expected(&self) -> Seq<Seq<char>> {
        self.expected_fields@.map_values(|f: String| f@)
    }

    /// The declared types.
    pub closed spec fn types(&self) -> Seq<(Seq<char>, FieldType)> {
        self.field_types@.map_values(|t: (String, FieldType)| (t.0@, t.1))
    }

    /// Whether undeclared fields are refused.
    pub closed spec fn strict(&self) -> bool {
        self.strict_mode
    }

    /// The expected names are exactly the names with a declared type.
    pub open spec fn names_match_types(&self) -> bool {
        forall|n: Seq<char>| #[trigger] self.expected().contains(n) <==> (declared_type(self.types(), n) is Some)
    }

    /// No field expected.
    pub fn new(strict_mode: bool) -> (r: Self)
        ensures
            r.names_match_types(),
            r.expected() == Seq::<Seq<char>>::empty(),
            r.types() == Seq::<(Seq<char>, FieldType)>::empty(),
            r.strict() == strict_mode,
    {
        let r = SchemaValidator { expected_fields: Vec::new(), field_types: Vec::new(), strict_mode };
        assert(r.expected() =~= Seq::<Seq<char>>::empty());
        assert(r.types() =~= Seq::<(Seq<char>, FieldType)>::empty());
        r
    }

    /// Expects field `name` with type `field_type` (a field added again
    /// keeps its place and takes the new type).
    pub fn add_field(&mut self, name: String, field_type: FieldType)
        ensures
            old(self).names_match_types() ==> final(self).names_match_types(),
            final(self).strict() == old(self).strict(),
            final(self).expected() == (if old(self).expected().contains(name@) {
                old(self).expected()
            } else {
                old(self).expected().push(name@)
            }),
            declared_type(final(self).types(), name@) == Some(field_type),
            forall|other: Seq<char>| other != name@ ==>
                declared_type(#[trigger] final(self).types(), other) == declared_type(old(self).types(), other),
    {
        if !crate::jepsen::checkers::contains_string(&self.expected_fields, &name) {
            let ghost before = self.expected_fields@;
            self.expected_fields.push(name.clone());
            assert(self.expected() =~= before.map_values(|f: String| f@).push(name@));
        }
        let ghost t0 = self.types();
        let ghost e1 = self.expected();
        assert(e1 == (if old(self).expected().contains(name@) { old(self).expected() } else { old(self).expected().push(name@) }));
        let mut i: usize = 0;
        while i < self.field_types.len()
            invariant
                i <= self.field_types@.len(),
                self.field_types@ == old(self).field_types@,
                self.strict_mode == old(self).strict_mode,
                self.expected() == e1,
                e1 == (if old(self).expected().contains(name@) { old(self).expected() } else { old(self).expected().push(name@) }),
                t0 == self.types(),
                t0 == old(self).types(),
                forall|j: int| 0 <= j < i ==> self.field_types@[j].0@ != name@,
            decreases self.field_types@.len() - i,
        {
            if self.field_types[i].0 == name {
                let ghost before = self.field_types@;
                let key = self.field_types[i].0.clone();
                self.field_types.set(i, (key, field_type));
                proof {
                    lemma_declared_update(t0, i as int, name@, field_type);
                    assert(self.types() =~= t0.update(i as int, (name@, field_type)));
                    if old(self).names_match_types() {
                        lemma_names_match_after_add(old(self).expected(), t0, e1, self.types(), name@, field_type);
                    }
                }
                return;
            }
            i += 1;
        }
        let ghost before = self.field_types@;
        self.field_types.push((name, field_type));
        proof {
            assert(self.types() =~= t0.push((name@, field_type)));
            lemma_declared_push(t0, name@, field_type);
            if old(self).names_match_types() {
                lemma_names_match_after_add(old(self).expected(), t0, e1, self.types(), name@, field_type);
            }
        }
    }

    /// Checks a record's metadata against the schema.
    pub fn validate_schema(&self, record: &VectorRecord) -> (r: Result<(), RTDBError>)
        ensures
            reports(r, schema_problem(self.expected(), self.types(), self.strict(), fields_view(record.metadata@))),
    {
        let ghost fv = fields_view(record.metadata@);
        let ghost ex = self.expected();
        let ghost pm = expected_missing_at(ex, fv);
        let mut k: usize = 0;
        while k < self.expected_fields.len()
            invariant
                k <= self.expected_fields@.len(),
                ex == self.expected(),
                fv == fields_view(record.metadata@),
                pm == expected_missing_at(ex, fv),
                first_from(0, ex.len() as int, pm) == first_from(k as int, ex.len() as int, pm),
            decreases self.expected_fields@.len() - k,
        {
            assert(ex[k as int] == self.expected_fields@[k as int]@);
            if !has_field(&record.metadata, &self.expected_fields[k]) {
                assert(pm(k as int));
                let mut m = "Missing required field: ".to_owned();
                m.append(self.expected_fields[k].as_str());
                return Err(RTDBError::Validation(m));
            }
            k += 1;
        }
        let ghost tv = self.types();
        let ghost pb = schema_bad_at(tv, self.strict_mode, fv);
        let mut i: usize = 0;
        while i < record.metadata.len()
            invariant
                i <= record.metadata@.len(),
                ex == self.expected(),
                tv == self.types(),
                fv == fields_view(record.metadata@),
                first_from(0, ex.len() as int, expected_missing_at(ex, fv)) is None,
                pb == schema_bad_at(tv, self.strict_mode, fv),
                first_from(0, fv.len() as int, pb) == first_from(i as int, fv.len() as int, pb),
            decreases record.metadata@.len() - i,
        {
            let name = &record.metadata[i].0;
            let declared = self.type_of(name);
            match declared {
                Some(t) => {
                    let actual = get_value_type(&record.metadata[i].1);
                    if actual != t {
                        assert(pb(i as int));
                        let mut m = message3("Field '", name.as_str(), "' type mismatch: expected ");
                        m.append(field_type_str(t));
                        m.append(", got ");
                        m.append(field_type_str(actual));
                        return Err(RTDBError::Validation(m));
                    }
                },
                None => {
                    if self.strict_mode {
                        assert(pb(i as int));
                        let mut m = "Unexpected field in strict mode: ".to_owned();
                        m.append(name.as_str());
                        return Err(RTDBError::Validation(m));
                    }
                },
            }
            i += 1;
        }
        Ok(())
    }

    /// The type declared for `name`.
    fn type_of(&self, name: &String) -> (r: Option<FieldType>)
        ensures
            r == declared_type(self.types(), name@),
    {
        let ghost tv = self.types();
        let mut i: usize = 0;
        assert(tv.skip(0) =~= tv);
        while i < self.field_types.len()
            invariant
                i <= self.field_types@.len(),
                tv == self.types(),
                declared_type(tv, name@) == declared_type(tv.skip(i as int), name@),
            decreases self.field_types@.len() - i,
        {
            assert(tv.skip(i as int).drop_first() =~= tv.skip(i + 1));
            assert(tv.skip(i as int)[0] == (self.field_types@[i as int].0@, self.field_types@[i as int].1));
            if self.field_types[i].0 == *name {
                return Some(self.field_types[i].1);
            }
            i += 1;
        }
        None
    }
}

proof fn lemma_declared_update(t: Seq<(Seq<char>, FieldType)>, i: int, name: Seq<char>, ft: FieldType)
    requires
        0 <= i < t.len(),
        t[i].0 == name,
        forall|j: int| 0 <= j < i ==> t[j].0 != name,
    ensures
        declared_type(t.update(i, (name, ft)), name) == Some(ft),
        forall|other: Seq<char>| other != name ==>
            declared_type(#[trigger] t.update(i, (name, ft)), other) == declared_type(t, other),
    decreases t.len(),
{
    let u = t.update(i, (name, ft));
    if i > 0 {
        assert forall|j: int| 0 <= j < i - 1 implies t.drop_first()[j].0 != name by {
            assert(t.drop_first()[j] == t[j + 1]);
        }
        lemma_declared_update(t.drop_first(), i - 1, name, ft);
        assert(u.drop_first() =~= t.drop_first().update(i - 1, (name, ft)));
        assert(u[0] == t[0]);
        assert forall|other: Seq<char>| other != name implies
            declared_type(#[trigger] t.update(i, (name, ft)), other) == declared_type(t, other) by {
            if t[0].0 != other {
                assert(declared_type(t.drop_first().update(i - 1, (name, ft)), other) == declared_type(t.drop_first(), other));
            }
        }
    } else {
        assert(u.drop_first() =~= t.drop_first());
    }
}

proof fn lemma_declared_push(t: Seq<(Seq<char>, FieldType)>, name: Seq<char>, ft: FieldType)
    requires
        forall|j: int| 0 <= j < t.len() ==> t[j].0 != name,
    ensures
        declared_type(t.push((name, ft)), name) == Some(ft),
        forall|other: Seq<char>| other != name ==>
            declared_type(#[trigger] t.push((name, ft)), other) == declared_type(t, other),
    decreases t.len(),
{
    let u = t.push((name, ft));
    if t.len() > 0 {
        assert forall|j: int| 0 <= j < t.drop_first().len() implies t.drop_first()[j].0 != name by {
            assert(t.drop_first()[j] == t[j + 1]);
        }
        lemma_declared_push(t.drop_first(), name, ft);
        assert(u.drop_first() =~= t.drop_first().push((name, ft)));
        assert(u[0] == t[0]);
        assert forall|other: Seq<char>| other != name implies
            declared_type(#[trigger] t.push((name, ft)), other) == declared_type(t, other) by {
            if t[0].0 != other {
                assert(declared_type(t.drop_first().push((name, ft)), other) == declared_type(t.drop_first(), other));
            }
        }
    } else {
        assert(u.drop_first() =~= Seq::<(Seq<char>, FieldType)>::empty());
        assert forall|other: Seq<char>| other != name implies
            declared_type(#[trigger] t.push((name, ft)), other) == declared_type(t, other) by {
            assert(declared_type(u.drop_first(), other) is None);
        }
    }
}

} // verus!

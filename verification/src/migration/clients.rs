//! The logic of the database clients, without the network: credentials
//! become request headers, each database's responses become records, and
//! a configuration picks the client to build.
//!
//! Vector components are handed on as the JSON numbers a response holds
//! (`None` for an element that is no number); turning them into `f32`
//! values is left to the caller.

use vstd::prelude::*;
use crate::json::{
    Json, JsonValue, JsonNumber, json_clone, field_value, object_fields, json_get, json_index,
    json_at, json_as_str, json_as_u64, json_as_i64, json_as_array, json_as_object, json_as_number,
    get_field, as_str, as_u64, as_i64, as_array, as_object, as_number,
};
use crate::types::{RTDBError, fields_view};
use crate::text::{decimal, decimal_string, signed_decimal, signed_decimal_string};
use crate::migration::model::{AuthConfig, SourceType};

verus! {

/// What a target reports of a collection.
#[derive(Debug, Clone)]
pub struct CollectionInfo {
    pub name: String,
    pub dimension: usize,
    pub vector_count: u64,
    pub distance_metric: String,
}

/// A record as a source's response gives it.
#[derive(Debug)]
pub struct SourceRecord {
    pub id: String,
    /// The vector's elements: the number each one is, `None` for any other value.
    pub components: Vec<Option<JsonNumber>>,
    pub metadata: Vec<(String, JsonValue)>,
}

/// The mathematical form of a source record.
pub type RecordView = (Seq<char>, Seq<Option<JsonNumber>>, Seq<(Seq<char>, Json)>);

/// The mathematical form of a source record.
pub open spec fn source_record_view(r: SourceRecord) -> RecordView {
    (r.id@, r.components@, fields_view(r.metadata@))
}

/// The mathematical form of a list of source records.
pub open spec fn records_view(rs: Seq<SourceRecord>) -> Seq<RecordView> {
    rs.map_values(|r: SourceRecord| source_record_view(r))
}

/// The names in a list of strings.
pub open spec fn names_view(names: Seq<String>) -> Seq<Seq<char>> {
    names.map_values(|s: String| s@)
}

/// How an identifier may be written.
#[derive(Debug, Clone, Copy, PartialEq, Eq, Structural)]
pub enum IdForm {
    /// Only as a string.
    Text,
    /// As a string or a non-negative integer.
    TextOrUnsigned,
    /// As a string or an integer within `i64`.
    TextOrSigned,
}

/// The identifier a value gives: a string as it is, or an integer (where
/// the form allows one) in decimal.
pub open spec fn id_of(v: Json, form: IdForm) -> Option<Seq<char>> {
    match json_as_str(v) {
        Some(s) => Some(s),
        None => match form {
            IdForm::Text => None,
            IdForm::TextOrUnsigned => match json_as_u64(v) {
                Some(n) => Some(decimal(n as nat)),
                None => None,
            },
            IdForm::TextOrSigned => match json_as_i64(v) {
                Some(n) => Some(signed_decimal(n as int)),
                None => None,
            },
        },
    }
}

/// The value of the first of `names` that the fields have.
pub open spec fn first_present(fields: Seq<(Seq<char>, Json)>, names: Seq<Seq<char>>) -> Option<Json>
    decreases names.len(),
{
    if names.len() == 0 {
        None
    } else {
        match field_value(fields, names[0]) {
            Some(v) => Some(v),
            None => first_present(fields, names.drop_first()),
        }
    }
}

/// The elements of an array value as numbers; nothing when there is no array.
pub open spec fn components_of(v: Option<Json>) -> Seq<Option<JsonNumber>> {
    match v {
        Some(x) => match json_as_array(x) {
            Some(xs) => xs.map_values(|e: Json| json_as_number(e)),
            None => Seq::empty(),
        },
        None => Seq::empty(),
    }
}

/// The fields whose names are not among `excluded`.
pub open spec fn fields_except(fields: Seq<(Seq<char>, Json)>, excluded: Seq<Seq<char>>) -> Seq<(Seq<char>, Json)> {
    fields.filter(|f: (Seq<char>, Json)| !excluded.contains(f.0))
}

/// The fields of an object value, none for anything else.
pub open spec fn object_or_empty(v: Option<Json>) -> Seq<(Seq<char>, Json)> {
    match v {
        Some(x) => match json_as_object(x) {
            Some(fs) => fs,
            None => Seq::empty(),
        },
        None => Seq::empty(),
    }
}

/// The mathematical form of an optional reference to a value.
pub open spec fn opt_json(v: Option<&JsonValue>) -> Option<Json> {
    match v {
        Some(x) => Some(x@),
        None => None,
    }
}

/// The field `key` of an object's fields.
pub fn field_in<'a>(fs: &'a Vec<(String, JsonValue)>, key: &str) -> (r: Option<&'a JsonValue>)
    ensures
        opt_json(r) == field_value(object_fields(fs@), key@),
{
    let mut i: usize = 0;
    let ghost fields = object_fields(fs@);
    let k = key.to_owned();
    while i < fs.len()
        invariant
            i <= fs.len(),
            fields == object_fields(fs@),
            k@ == key@,
            forall|j: int| 0 <= j < i ==> fields[j].0 != key@,
        decreases fs.len() - i,
    {
        if fs[i].0 == k {
            proof {
                crate::json::lemma_field_value_first(fields, key@, i as int);
            }
            return Some(&fs[i].1);
        }
        i += 1;
    }
    proof {
        crate::json::lemma_field_value_first(fields, key@, fs.len() as int);
    }
    None
}

/// The value of the first of `names` that the fields have.
pub fn first_field<'a>(fs: &'a Vec<(String, JsonValue)>, names: &Vec<String>) -> (r: Option<&'a JsonValue>)
    ensures
        opt_json(r) == first_present(object_fields(fs@), names_view(names@)),
{
    let ghost fields = object_fields(fs@);
    let mut i: usize = 0;
    assert(names_view(names@).skip(0) =~= names_view(names@));
    while i < names.len()
        invariant
            i <= names.len(),
            fields == object_fields(fs@),
            first_present(fields, names_view(names@)) == first_present(fields, names_view(names@).skip(i as int)),
        decreases names.len() - i,
    {
        let ghost rest = names_view(names@).skip(i as int);
        assert(rest[0] == names@[i as int]@);
        assert(rest.drop_first() =~= names_view(names@).skip(i + 1));
        match field_in(fs, names[i].as_str()) {
            Some(v) => {
                return Some(v);
            },
            None => {},
        }
        i += 1;
    }
    assert(names_view(names@).skip(i as int).len() == 0);
    None
}

/// Whether `key` is among `names`.
pub fn is_one_of(names: &Vec<String>, key: &String) -> (r: bool)
    ensures
        r == names_view(names@).contains(key@),
{
    let mut i: usize = 0;
    while i < names.len()
        invariant
            i <= names.len(),
            forall|j: int| 0 <= j < i ==> names@[j]@ != key@,
        decreases names.len() - i,
    {
        if names[i] == *key {
            assert(names_view(names@)[i as int] == key@);
            return true;
        }
        i += 1;
    }
    assert forall|j: int| 0 <= j < names_view(names@).len() implies names_view(names@)[j] != key@ by {
        assert(names_view(names@)[j] == names@[j]@);
    }
    false
}

/// A copy of the fields whose names are not among `excluded`.
pub fn copy_fields_except(fs: &Vec<(String, JsonValue)>, excluded: &Vec<String>) -> (r: Vec<(String, JsonValue)>)
    ensures
        fields_view(r@) == fields_except(object_fields(fs@), names_view(excluded@)),
{
    let ghost fields = object_fields(fs@);
    let ghost ex = names_view(excluded@);
    let ghost pred = |f: (Seq<char>, Json)| !ex.contains(f.0);
    let mut out: Vec<(String, JsonValue)> = Vec::new();
    let mut i: usize = 0;
    assert(fields.take(0).filter(pred) =~= Seq::<(Seq<char>, Json)>::empty()) by {
        reveal(Seq::filter);
    }
    while i < fs.len()
        invariant
            i <= fs.len(),
            fields == object_fields(fs@),
            ex == names_view(excluded@),
            pred == (|f: (Seq<char>, Json)| !ex.contains(f.0)),
            fields_view(out@) == fields.take(i as int).filter(pred),
        decreases fs.len() - i,
    {
        assert(fields.take(i + 1) =~= fields.take(i as int).push(fields[i as int]));
        proof {
            fields.take(i as int).lemma_filter_push(fields[i as int], pred);
        }
        if !is_one_of(excluded, &fs[i].0) {
            let ghost before = out@;
            out.push((fs[i].0.clone(), json_clone(&fs[i].1)));
            assert(fields_view(out@) =~= fields_view(before).push(fields[i as int]));
        }
        i += 1;
    }
    assert(fields.take(fs.len() as int) =~= fields);
    out
}

/// A copy of the fields of an object value; none for anything else.
pub fn copy_object_or_empty(v: Option<&JsonValue>) -> (r: Vec<(String, JsonValue)>)
    ensures
        fields_view(r@) == object_or_empty(opt_json(v)),
{
    match v {
        Some(x) => match as_object(x) {
            Some(fs) => {
                let mut out: Vec<(String, JsonValue)> = Vec::new();
                let mut i: usize = 0;
                while i < fs.len()
                    invariant
                        i <= fs.len(),
                        fields_view(out@) == object_fields(fs@).take(i as int),
                    decreases fs.len() - i,
                {
                    let ghost before = out@;
                    out.push((fs[i].0.clone(), json_clone(&fs[i].1)));
                    assert(fields_view(out@) =~= fields_view(before).push((fs@[i as int].0@, fs@[i as int].1@)));
                    assert(fields_view(out@) =~= object_fields(fs@).take(i + 1));
                    i += 1;
                }
                assert(object_fields(fs@).take(fs.len() as int) =~= object_fields(fs@));
                out
            },
            None => Vec::new(),
        },
        None => Vec::new(),
    }
}

/// The elements of an array value as numbers; nothing when there is no array.
pub fn components(v: Option<&JsonValue>) -> (r: Vec<Option<JsonNumber>>)
    ensures
        r@ == components_of(opt_json(v)),
{
    match v {
        Some(x) => match as_array(x) {
            Some(xs) => {
                let mut out: Vec<Option<JsonNumber>> = Vec::new();
                let mut i: usize = 0;
                while i < xs.len()
                    invariant
                        i <= xs.len(),
                        out@ == xs@.take(i as int).map_values(|e: JsonValue| json_as_number(e@)),
                    decreases xs.len() - i,
                {
                    out.push(as_number(&xs[i]));
                    assert(out@ =~= xs@.take(i + 1).map_values(|e: JsonValue| json_as_number(e@)));
                    i += 1;
                }
                assert(out@ =~= components_of(opt_json(v)));
                out
            },
            None => Vec::new(),
        },
        None => Vec::new(),
    }
}

/// The identifier a value gives, in the given form.
pub fn id_text(v: &JsonValue, form: IdForm) -> (r: Option<String>)
    ensures
        match r {
            Some(s) => id_of(v@, form) == Some(s@),
            None => id_of(v@, form) is None,
        },
{
    match as_str(v) {
        Some(s) => Some(s.clone()),
        None => match form {
            IdForm::Text => None,
            IdForm::TextOrUnsigned => match as_u64(v) {
                Some(n) => Some(decimal_string(n)),
                None => None,
            },
            IdForm::TextOrSigned => match as_i64(v) {
                Some(n) => Some(signed_decimal_string(n)),
                None => None,
            },
        },
    }
}

/// The identifier of an optional value, or "unknown".
pub open spec fn id_or_unknown(v: Option<Json>, form: IdForm) -> Seq<char> {
    match v {
        Some(x) => match id_of(x, form) {
            Some(s) => s,
            None => "unknown"@,
        },
        None => "unknown"@,
    }
}

/// The identifier of an optional value, or "unknown".
fn id_text_or_unknown(v: Option<&JsonValue>, form: IdForm) -> (r: String)
    ensures
        r@ == id_or_unknown(opt_json(v), form),
{
    match v {
        Some(x) => match id_text(x, form) {
            Some(s) => s,
            None => "unknown".to_owned(),
        },
        None => "unknown".to_owned(),
    }
}


// ---------------------------------------------------------------------------
// Credentials and request headers
// ---------------------------------------------------------------------------

/// A character of an HTTP token: an ASCII letter or digit, or one of
/// ``!#$%&'*+-.^_`|~``.
pub open spec fn token_char(c: char) -> bool {
    ||| 'a' <= c && c <= 'z'
    ||| 'A' <= c && c <= 'Z'
    ||| '0' <= c && c <= '9'
    ||| c == '!' || c == '#' || c == '$' || c == '%' || c == '&' || c == '\'' || c == '*'
    ||| c == '+' || c == '-' || c == '.' || c == '^' || c == '_' || c == '`' || c == '|' || c == '~'
}

/// Whether reqwest's `HeaderName::from_str` accepts `name` as a header
/// name: 1 to 65535 token characters.
pub open spec fn header_name_accepted(name: Seq<char>) -> bool {
    &&& 1 <= name.len() && name.len() <= 65535
    &&& forall|i: int| 0 <= i < name.len() ==> token_char(#[trigger] name[i])
}

/// Whether reqwest's `HeaderName::from_str` (http's) accepts `name`: its
/// source maps each byte through a table that keeps exactly the token
/// characters and refuses an empty name or one over 65535 bytes; a
/// character outside ASCII has bytes the table refuses.
#[verifier::external_body]
fn header_name_valid(name: &str) -> (r: bool)
    ensures
        r == header_name_accepted(name@),
{
    <reqwest::header::HeaderName as std::str::FromStr>::from_str(name).is_ok()
}

/// Whether each character may stand in a header value: a tab, or any
/// character from the space on except DEL.
pub open spec fn header_value_ok(value: Seq<char>) -> bool {
    forall|i: int| 0 <= i < value.len() ==> ((value[i] as u32 >= 32 && value[i] as u32 != 127) || value[i] == '\t')
}

/// Whether reqwest's `HeaderValue::from_str` accepts `value`; it accepts
/// exactly the texts whose bytes are all tabs or at least 32 and not 127.
#[verifier::external_body]
fn header_value_valid(value: &str) -> (r: bool)
    ensures
        r == header_value_ok(value@),
{
    reqwest::header::HeaderValue::from_str(value).is_ok()
}

/// The character of the standard base64 alphabet for a six-bit value.
pub open spec fn base64_digit(v: int) -> char {
    if v < 26 {
        ('A' as int + v) as char
    } else if v < 52 {
        ('a' as int + (v - 26)) as char
    } else if v < 62 {
        ('0' as int + (v - 52)) as char
    } else if v == 62 {
        '+'
    } else {
        '/'
    }
}

/// The standard base64 encoding of bytes, with `=` padding: each three
/// bytes make four characters of six bits each.
pub open spec fn base64_bytes(b: Seq<u8>) -> Seq<char>
    decreases b.len(),
{
    if b.len() == 0 {
        Seq::empty()
    } else {
        let b0 = b[0] as int;
        let b1 = if b.len() > 1 { b[1] as int } else { 0 };
        let b2 = if b.len() > 2 { b[2] as int } else { 0 };
        let c0 = base64_digit(b0 / 4);
        let c1 = base64_digit((b0 % 4) * 16 + b1 / 16);
        let c2 = base64_digit((b1 % 16) * 4 + b2 / 64);
        let c3 = base64_digit(b2 % 64);
        if b.len() == 1 {
            seq![c0, c1, '=', '=']
        } else if b.len() == 2 {
            seq![c0, c1, c2, '=']
        } else {
            seq![c0, c1, c2, c3] + base64_bytes(b.skip(3))
        }
    }
}

/// The standard base64 encoding (with padding) of the UTF-8 bytes of `text`.
pub open spec fn base64_of_text(text: Seq<char>) -> Seq<char> {
    base64_bytes(vstd::utf8::encode_utf8(text))
}

/// base64's `STANDARD.encode` of the text's bytes: the standard alphabet,
/// padded with `=`, as `base64_bytes` states. It panics only when the
/// encoded length overflows `usize`, which the bound on the length excludes.
#[verifier::external_body]
fn encode_base64(text: &str) -> (r: String)
    requires
        text@.len() <= usize::MAX / 8,
    ensures
        r@ == base64_of_text(text@),
{
    base64::Engine::encode(&base64::engine::general_purpose::STANDARD, text)
}

/// The client a set of credentials is for: each puts an API key in its own
/// header.
#[derive(Debug, Clone, Copy, PartialEq, Eq, Structural)]
pub enum ClientKind {
    Qdrant,
    Milvus,
    Weaviate,
    Pinecone,
    Rtdb,
}

/// The header that carries an API key.
pub open spec fn api_key_header(kind: ClientKind) -> Seq<char> {
    match kind {
        ClientKind::Qdrant => "api-key"@,
        ClientKind::Milvus => "Authorization"@,
        ClientKind::Weaviate => "X-OpenAI-Api-Key"@,
        ClientKind::Pinecone => "Api-Key"@,
        ClientKind::Rtdb => "api-key"@,
    }
}

/// What an API key header holds.
pub open spec fn api_key_value(kind: ClientKind, key: Seq<char>) -> Seq<char> {
    match kind {
        ClientKind::Milvus => "Bearer "@ + key,
        _ => key,
    }
}

/// The header that carries bearer and basic credentials.
pub open spec fn authorization_header(kind: ClientKind) -> Seq<char> {
    match kind {
        ClientKind::Rtdb => "authorization"@,
        _ => "Authorization"@,
    }
}

/// The complaint about an unusable bearer token.
pub open spec fn bearer_error(kind: ClientKind) -> Seq<char> {
    match kind {
        ClientKind::Rtdb => "Invalid bearer token format"@,
        _ => "Invalid token format"@,
    }
}

/// The complaint about unusable basic credentials.
pub open spec fn basic_error(kind: ClientKind) -> Seq<char> {
    match kind {
        ClientKind::Rtdb => "Invalid basic auth format"@,
        _ => "Invalid credentials format"@,
    }
}

/// Header name and value pairs as text.
pub open spec fn pairs_view(hs: Seq<(String, String)>) -> Seq<(Seq<char>, Seq<char>)> {
    hs.map_values(|p: (String, String)| (p.0@, p.1@))
}

/// A single header, if its value is usable.
pub open spec fn one_header(name: Seq<char>, value: Seq<char>, complaint: Seq<char>) -> Result<Seq<(Seq<char>, Seq<char>)>, Seq<char>> {
    if header_value_ok(value) {
        Ok(seq![(name, value)])
    } else {
        Err(complaint)
    }
}

/// Headers given as pairs, checked in order: the first pair with an
/// unusable name or value is the complaint.
pub open spec fn listed_headers(hs: Seq<(Seq<char>, Seq<char>)>) -> Result<Seq<(Seq<char>, Seq<char>)>, Seq<char>>
    decreases hs.len(),
{
    if hs.len() == 0 {
        Ok(Seq::empty())
    } else {
        match listed_headers(hs.drop_last()) {
            Err(e) => Err(e),
            Ok(out) => {
                let (k, v) = hs.last();
                if !header_name_accepted(k) {
                    Err("Invalid header name: "@ + k)
                } else if !header_value_ok(v) {
                    Err("Invalid header value: "@ + v)
                } else {
                    Ok(out.push((k, v)))
                }
            },
        }
    }
}

/// The headers that carry credentials to a client, or the complaint
/// about them.
pub open spec fn auth_headers_for(kind: ClientKind, auth: AuthConfig) -> Result<Seq<(Seq<char>, Seq<char>)>, Seq<char>> {
    match auth {
        AuthConfig::ApiKey(key) => one_header(api_key_header(kind), api_key_value(kind, key@), "Invalid API key format"@),
        AuthConfig::Bearer(token) => one_header(authorization_header(kind), "Bearer "@ + token@, bearer_error(kind)),
        AuthConfig::Basic { username, password } => one_header(
            authorization_header(kind),
            "Basic "@ + base64_of_text(username@ + ":"@ + password@),
            basic_error(kind),
        ),
        AuthConfig::Headers(hs) => listed_headers(pairs_view(hs@)),
    }
}

/// Whether `auth` can be encoded: basic credentials must be short enough
/// for their base64 length to fit in memory.
pub open spec fn auth_encodable(auth: AuthConfig) -> bool {
    match auth {
        AuthConfig::Basic { username, password } => username@.len() + password@.len() + 1 <= usize::MAX / 8,
        _ => true,
    }
}

/// Whether `e` is a configuration error with message `m`.
pub open spec fn config_error(e: RTDBError, m: Seq<char>) -> bool {
    e matches RTDBError::Config(s) && s@ == m
}

/// `prefix` followed by `text`.
fn joined(prefix: &str, text: &str) -> (r: String)
    ensures
        r@ == prefix@ + text@,
{
    let mut s = prefix.to_owned();
    s.append(text);
    s
}

/// A single header, if its value is usable.
fn single_header(name: &str, value: String, complaint: &str) -> (r: Result<Vec<(String, String)>, RTDBError>)
    ensures
        match (r, one_header(name@, value@, complaint@)) {
            (Ok(hs), Ok(v)) => pairs_view(hs@) == v,
            (Err(e), Err(m)) => config_error(e, m),
            _ => false,
        },
{
    if header_value_valid(value.as_str()) {
        let hs = vec![(name.to_owned(), value)];
        assert(pairs_view(hs@) =~= seq![(name@, hs@[0].1@)]);
        Ok(hs)
    } else {
        Err(RTDBError::Config(complaint.to_owned()))
    }
}

/// The headers that carry credentials to a client of `kind`.
pub fn auth_headers(kind: ClientKind, auth: &AuthConfig) -> (r: Result<Vec<(String, String)>, RTDBError>)
    requires
        auth_encodable(*auth),
    ensures
        match (r, auth_headers_for(kind, *auth)) {
            (Ok(hs), Ok(v)) => pairs_view(hs@) == v,
            (Err(e), Err(m)) => config_error(e, m),
            _ => false,
        },
{
    match auth {
        AuthConfig::ApiKey(key) => {
            let name = match kind {
                ClientKind::Qdrant => "api-key",
                ClientKind::Milvus => "Authorization",
                ClientKind::Weaviate => "X-OpenAI-Api-Key",
                ClientKind::Pinecone => "Api-Key",
                ClientKind::Rtdb => "api-key",
            };
            let value = match kind {
                ClientKind::Milvus => joined("Bearer ", key.as_str()),
                _ => key.clone(),
            };
            single_header(name, value, "Invalid API key format")
        },
        AuthConfig::Bearer(token) => {
            let (name, complaint) = match kind {
                ClientKind::Rtdb => ("authorization", "Invalid bearer token format"),
                _ => ("Authorization", "Invalid token format"),
            };
            single_header(name, joined("Bearer ", token.as_str()), complaint)
        },
        AuthConfig::Basic { username, password } => {
            let (name, complaint) = match kind {
                ClientKind::Rtdb => ("authorization", "Invalid basic auth format"),
                _ => ("Authorization", "Invalid credentials format"),
            };
            let mut credentials = username.clone();
            credentials.append(":");
            credentials.append(password.as_str());
            proof {
                reveal_strlit(":");
            }
            assert(credentials@ == username@ + ":"@ + password@);
            let encoded = encode_base64(credentials.as_str());
            single_header(name, joined("Basic ", encoded.as_str()), complaint)
        },
        AuthConfig::Headers(hs) => {
            let ghost pv = pairs_view(hs@);
            let mut out: Vec<(String, String)> = Vec::new();
            let mut i: usize = 0;
            assert(pv.take(0) =~= Seq::<(Seq<char>, Seq<char>)>::empty());
            assert(pairs_view(out@) =~= Seq::<(Seq<char>, Seq<char>)>::empty());
            while i < hs.len()
                invariant
                    i <= hs.len(),
                    pv == pairs_view(hs@),
                    auth_headers_for(kind, *auth) == listed_headers(pv),
                    listed_headers(pv.take(i as int)) == Ok::<Seq<(Seq<char>, Seq<char>)>, Seq<char>>(pairs_view(out@)),
                decreases hs.len() - i,
            {
                let ghost prefix = pv.take(i + 1);
                assert(prefix.drop_last() =~= pv.take(i as int));
                assert(prefix.last() == (hs@[i as int].0@, hs@[i as int].1@));
                if !header_name_valid(hs[i].0.as_str()) {
                    assert(pv =~= pv.take(hs.len() as int));
                    proof { lemma_listed_headers_err(pv, i as int); }
                    return Err(RTDBError::Config(joined("Invalid header name: ", hs[i].0.as_str())));
                }
                if !header_value_valid(hs[i].1.as_str()) {
                    proof { lemma_listed_headers_err(pv, i as int); }
                    return Err(RTDBError::Config(joined("Invalid header value: ", hs[i].1.as_str())));
                }
                let ghost before = out@;
                out.push((hs[i].0.clone(), hs[i].1.clone()));
                assert(pairs_view(out@) =~= pairs_view(before).push(prefix.last()));
                i += 1;
            }
            assert(pv.take(hs.len() as int) =~= pv);
            Ok(out)
        },
    }
}

/// A complaint about a pair ends the check: it is the complaint about the
/// whole list.
proof fn lemma_listed_headers_err(hs: Seq<(Seq<char>, Seq<char>)>, i: int)
    requires
        0 <= i < hs.len(),
        listed_headers(hs.take(i + 1)) is Err,
    ensures
        listed_headers(hs) == listed_headers(hs.take(i + 1)),
{
    lemma_listed_headers_err_upto(hs, i, hs.len() as int);
    assert(hs.take(hs.len() as int) =~= hs);
}

proof fn lemma_listed_headers_err_upto(hs: Seq<(Seq<char>, Seq<char>)>, i: int, j: int)
    requires
        0 <= i < j <= hs.len(),
        listed_headers(hs.take(i + 1)) is Err,
    ensures
        listed_headers(hs.take(j)) == listed_headers(hs.take(i + 1)),
    decreases j - i,
{
    if j > i + 1 {
        lemma_listed_headers_err_upto(hs, i, j - 1);
        assert(hs.take(j).drop_last() =~= hs.take(j - 1));
    }
}


// ---------------------------------------------------------------------------
// Records out of responses
// ---------------------------------------------------------------------------

/// The record an object's fields give: the identifier from the first of
/// `ids` present, the vector from the first of `vectors` present, and every
/// other field as metadata.
pub open spec fn record_from_fields(
    fields: Seq<(Seq<char>, Json)>,
    ids: Seq<Seq<char>>,
    form: IdForm,
    vectors: Seq<Seq<char>>,
) -> RecordView {
    (
        id_or_unknown(first_present(fields, ids), form),
        components_of(first_present(fields, vectors)),
        fields_except(fields, ids + vectors),
    )
}

/// The record an object's fields give (see `record_from_fields`).
pub fn record_from_object(fs: &Vec<(String, JsonValue)>, ids: &Vec<String>, form: IdForm, vectors: &Vec<String>) -> (r: SourceRecord)
    ensures
        source_record_view(r) == record_from_fields(object_fields(fs@), names_view(ids@), form, names_view(vectors@)),
{
    let id = id_text_or_unknown(first_field(fs, ids), form);
    let comps = components(first_field(fs, vectors));
    let mut excluded: Vec<String> = ids.clone();
    let mut i: usize = 0;
    assert(names_view(excluded@) =~= names_view(ids@));
    while i < vectors.len()
        invariant
            i <= vectors.len(),
            names_view(excluded@) == names_view(ids@) + names_view(vectors@).take(i as int),
        decreases vectors.len() - i,
    {
        let ghost before = excluded@;
        excluded.push(vectors[i].clone());
        assert(names_view(excluded@) =~= names_view(before).push(vectors@[i as int]@));
        assert(names_view(excluded@) =~= names_view(ids@) + names_view(vectors@).take(i + 1));
        i += 1;
    }
    assert(names_view(vectors@).take(vectors.len() as int) =~= names_view(vectors@));
    let metadata = copy_fields_except(fs, &excluded);
    SourceRecord { id, components: comps, metadata }
}

/// The strings of a list of names.
fn name_list(names: &[&str]) -> (r: Vec<String>)
    ensures
        names_view(r@) == names@.map_values(|n: &str| n@),
{
    let mut out: Vec<String> = Vec::new();
    let mut i: usize = 0;
    while i < names.len()
        invariant
            i <= names.len(),
            names_view(out@) == names@.take(i as int).map_values(|n: &str| n@),
        decreases names.len() - i,
    {
        let ghost before = out@;
        out.push(names[i].to_owned());
        assert(names_view(out@) =~= names_view(before).push(names@[i as int]@));
        assert(names_view(out@) =~= names@.take(i + 1).map_values(|n: &str| n@));
        i += 1;
    }
    assert(names@.take(names.len() as int) =~= names@);
    out
}

/// Records of the objects among `items`, one per object, in order; other
/// values are passed over.
pub open spec fn collect_objects(items: Seq<Json>, f: spec_fn(Seq<(Seq<char>, Json)>) -> RecordView) -> Seq<RecordView>
    decreases items.len(),
{
    if items.len() == 0 {
        Seq::empty()
    } else {
        let rs = collect_objects(items.drop_last(), f);
        match json_as_object(items.last()) {
            Some(fs) => rs.push(f(fs)),
            None => rs,
        }
    }
}

/// Records of all `items`, or the complaint about the first that gives none.
pub open spec fn collect_all(items: Seq<Json>, f: spec_fn(Json) -> Result<RecordView, Seq<char>>) -> Result<Seq<RecordView>, Seq<char>>
    decreases items.len(),
{
    if items.len() == 0 {
        Ok(Seq::empty())
    } else {
        match collect_all(items.drop_last(), f) {
            Err(e) => Err(e),
            Ok(rs) => match f(items.last()) {
                Err(e) => Err(e),
                Ok(r) => Ok(rs.push(r)),
            },
        }
    }
}

/// A complaint about one item is the complaint about all of them.
proof fn lemma_collect_all_err(items: Seq<Json>, f: spec_fn(Json) -> Result<RecordView, Seq<char>>, i: int, j: int)
    requires
        0 <= i < j <= items.len(),
        collect_all(items.take(i + 1), f) is Err,
    ensures
        collect_all(items.take(j), f) == collect_all(items.take(i + 1), f),
    decreases j - i,
{
    if j > i + 1 {
        lemma_collect_all_err(items, f, i, j - 1);
        assert(items.take(j).drop_last() =~= items.take(j - 1));
    }
}

/// Whether `e` is a serialization error with message `m`.
pub open spec fn serialization_error(e: RTDBError, m: Seq<char>) -> bool {
    e matches RTDBError::Serialization(s) && s@ == m
}

/// The text of an optional string.
pub open spec fn opt_text(s: Option<String>) -> Option<Seq<char>> {
    match s {
        Some(t) => Some(t@),
        None => None,
    }
}

/// Qdrant: a point of a scroll response as a record.
pub open spec fn qdrant_point(p: Json) -> Result<RecordView, Seq<char>> {
    match id_of(json_index(p, "id"@), IdForm::TextOrUnsigned) {
        None => Err("Missing point ID"@),
        Some(id) => match json_as_array(json_index(p, "vector"@)) {
            None => Err("Missing vector data"@),
            Some(xs) => Ok((id, components_of(Some(json_index(p, "vector"@))), object_or_empty(Some(json_index(p, "payload"@))))),
        },
    }
}

/// `qdrant_point` as a function value.
pub open spec fn qdrant_point_fn() -> spec_fn(Json) -> Result<RecordView, Seq<char>> {
    |p: Json| qdrant_point(p)
}

/// Qdrant: the records of a scroll response and the offset of the next
/// page, or the complaint about the response.
pub open spec fn qdrant_scroll(result: Json) -> Result<(Seq<RecordView>, Option<Seq<char>>), Seq<char>> {
    let inner = json_index(result, "result"@);
    match json_as_array(json_index(inner, "points"@)) {
        None => Err("Invalid response format"@),
        Some(ps) => match collect_all(ps, qdrant_point_fn()) {
            Err(e) => Err(e),
            Ok(rs) => Ok((rs, json_as_str(json_index(inner, "next_page_offset"@)))),
        },
    }
}

/// Qdrant: a point of a scroll response as a record.
pub fn qdrant_point_record(p: &JsonValue) -> (r: Result<SourceRecord, RTDBError>)
    ensures
        match (r, qdrant_point(p@)) {
            (Ok(rec), Ok(v)) => source_record_view(rec) == v,
            (Err(e), Err(m)) => serialization_error(e, m),
            _ => false,
        },
{
    let id = match get_field(p, "id") {
        Some(v) => id_text(v, IdForm::TextOrUnsigned),
        None => {
            proof {
                assert(json_index(p@, "id"@) == Json::Null);
            }
            None
        },
    };
    let id = match id {
        Some(id) => id,
        None => return Err(RTDBError::Serialization("Missing point ID".to_owned())),
    };
    let vector = get_field(p, "vector");
    let is_array = match vector {
        Some(v) => as_array(v).is_some(),
        None => false,
    };
    if !is_array {
        return Err(RTDBError::Serialization("Missing vector data".to_owned()));
    }
    let comps = components(vector);
    let metadata = copy_object_or_empty(get_field(p, "payload"));
    Ok(SourceRecord { id, components: comps, metadata })
}



/// Qdrant: the records of a scroll response and the offset of the next
/// page.
pub fn qdrant_scroll_records(result: &JsonValue) -> (r: Result<(Vec<SourceRecord>, Option<String>), RTDBError>)
    ensures
        match (r, qdrant_scroll(result@)) {
            (Ok((rs, next)), Ok((v, n))) => records_view(rs@) == v && opt_text(next) == n,
            (Err(e), Err(m)) => serialization_error(e, m),
            _ => false,
        },
{
    let inner = get_field(result, "result");
    let points = match inner {
        Some(x) => match get_field(x, "points") {
            Some(p) => as_array(p),
            None => None,
        },
        None => None,
    };
    let points = match points {
        Some(ps) => ps,
        None => return Err(RTDBError::Serialization("Invalid response format".to_owned())),
    };
    let ghost items = points@.map_values(|x: JsonValue| x@);
    let mut out: Vec<SourceRecord> = Vec::new();
    let mut i: usize = 0;
    assert(items.take(0) =~= Seq::<Json>::empty());
    assert(records_view(out@) =~= Seq::<RecordView>::empty());
    while i < points.len()
        invariant
            i <= points.len(),
            items == points@.map_values(|x: JsonValue| x@),
            json_as_array(json_index(json_index(result@, "result"@), "points"@)) == Some(items),
            collect_all(items.take(i as int), qdrant_point_fn()) == Ok::<Seq<RecordView>, Seq<char>>(records_view(out@)),
        decreases points.len() - i,
    {
        assert(items.take(i + 1).drop_last() =~= items.take(i as int));
        assert(items.take(i + 1).last() == points@[i as int]@);
        match qdrant_point_record(&points[i]) {
            Ok(rec) => {
                let ghost before = out@;
                out.push(rec);
                assert(records_view(out@) =~= records_view(before).push(source_record_view(rec)));
            },
            Err(e) => {
                proof {
                    lemma_collect_all_err(items, qdrant_point_fn(), i as int, points.len() as int);
                    assert(items.take(points.len() as int) =~= items);
                }
                return Err(e);
            },
        }
        i += 1;
    }
    assert(items.take(points.len() as int) =~= items);
    let next = match inner {
        Some(x) => match get_field(x, "next_page_offset") {
            Some(v) => match as_str(v) {
                Some(t) => Some(t.clone()),
                None => None,
            },
            None => None,
        },
        None => None,
    };
    Ok((out, next))
}

/// Milvus: the names an identifier may go by.
pub open spec fn milvus_ids() -> Seq<Seq<char>> {
    seq!["id"@, "pk"@, "primary_key"@]
}

/// Milvus: the names a vector may go by.
pub open spec fn milvus_vectors() -> Seq<Seq<char>> {
    seq!["vector"@, "embedding"@, "embeddings"@, "vec"@]
}

/// Milvus: an entity of a query response as a record.
pub open spec fn milvus_entity_fn() -> spec_fn(Seq<(Seq<char>, Json)>) -> RecordView {
    |fs: Seq<(Seq<char>, Json)>| record_from_fields(fs, milvus_ids(), IdForm::TextOrSigned, milvus_vectors())
}

/// Milvus: the records of a query response.
pub open spec fn milvus_query(result: Json) -> Seq<RecordView> {
    match json_get(result, "data"@) {
        Some(d) => match json_as_array(d) {
            Some(es) => collect_objects(es, milvus_entity_fn()),
            None => Seq::empty(),
        },
        None => Seq::empty(),
    }
}

/// Pinecone: a match of a query response as a record.
pub open spec fn pinecone_match_fn() -> spec_fn(Seq<(Seq<char>, Json)>) -> RecordView {
    |fs: Seq<(Seq<char>, Json)>| (
        id_or_unknown(field_value(fs, "id"@), IdForm::Text),
        components_of(field_value(fs, "values"@)),
        object_or_empty(field_value(fs, "metadata"@)),
    )
}

/// Pinecone: the records of a query response.
pub open spec fn pinecone_query(result: Json) -> Seq<RecordView> {
    match json_get(result, "matches"@) {
        Some(d) => match json_as_array(d) {
            Some(ms) => collect_objects(ms, pinecone_match_fn()),
            None => Seq::empty(),
        },
        None => Seq::empty(),
    }
}

/// Where a response keeps the objects to read.
#[derive(Debug, Clone, Copy, PartialEq, Eq, Structural)]
pub enum ObjectSource {
    Milvus,
    Pinecone,
}

/// The records of the objects in an array, by a source's recipe.
fn records_of_objects(items: &Vec<JsonValue>, source: ObjectSource) -> (r: Vec<SourceRecord>)
    ensures
        records_view(r@) == collect_objects(
            items@.map_values(|x: JsonValue| x@),
            if source == ObjectSource::Milvus { milvus_entity_fn() } else { pinecone_match_fn() },
        ),
{
    let ghost f = if source == ObjectSource::Milvus { milvus_entity_fn() } else { pinecone_match_fn() };
    let ghost xs = items@.map_values(|x: JsonValue| x@);
    let ids = name_list(&["id", "pk", "primary_key"]);
    let vectors = name_list(&["vector", "embedding", "embeddings", "vec"]);
    assert(names_view(ids@) =~= milvus_ids());
    assert(names_view(vectors@) =~= milvus_vectors());
    let mut out: Vec<SourceRecord> = Vec::new();
    let mut i: usize = 0;
    assert(records_view(out@) =~= collect_objects(xs.take(0), f));
    while i < items.len()
        invariant
            i <= items.len(),
            xs == items@.map_values(|x: JsonValue| x@),
            f == (if source == ObjectSource::Milvus { milvus_entity_fn() } else { pinecone_match_fn() }),
            names_view(ids@) == milvus_ids(),
            names_view(vectors@) == milvus_vectors(),
            records_view(out@) == collect_objects(xs.take(i as int), f),
        decreases items.len() - i,
    {
        assert(xs.take(i + 1).drop_last() =~= xs.take(i as int));
        assert(xs.take(i + 1).last() == items@[i as int]@);
        match as_object(&items[i]) {
            Some(fs) => {
                let rec = match source {
                    ObjectSource::Milvus => record_from_object(fs, &ids, IdForm::TextOrSigned, &vectors),
                    ObjectSource::Pinecone => {
                        let id = id_text_or_unknown(field_in(fs, "id"), IdForm::Text);
                        let comps = components(field_in(fs, "values"));
                        let metadata = copy_object_or_empty(field_in(fs, "metadata"));
                        SourceRecord { id, components: comps, metadata }
                    },
                };
                let ghost before = out@;
                out.push(rec);
                assert(records_view(out@) =~= records_view(before).push(source_record_view(rec)));
            },
            None => {},
        }
        i += 1;
    }
    assert(xs.take(items.len() as int) =~= xs);
    out
}

/// Milvus: the records of a query response.
pub fn milvus_query_records(result: &JsonValue) -> (r: Vec<SourceRecord>)
    ensures
        records_view(r@) == milvus_query(result@),
{
    match get_field(result, "data") {
        Some(d) => match as_array(d) {
            Some(es) => records_of_objects(es, ObjectSource::Milvus),
            None => Vec::new(),
        },
        None => Vec::new(),
    }
}

/// Pinecone: the records of a query response.
pub fn pinecone_query_records(result: &JsonValue) -> (r: Vec<SourceRecord>)
    ensures
        records_view(r@) == pinecone_query(result@),
{
    match get_field(result, "matches") {
        Some(d) => match as_array(d) {
            Some(ms) => records_of_objects(ms, ObjectSource::Pinecone),
            None => Vec::new(),
        },
        None => Vec::new(),
    }
}



/// Weaviate: an object of a `Get` response. `None` where reading it
/// panics (an `_additional` object without `id`, or with a string `id` and
/// no `vector`); `Ok(None)` for an object without `_additional`.
pub open spec fn weaviate_object(obj: Json) -> Option<Result<Option<RecordView>, Seq<char>>> {
    match json_as_object(json_index(obj, "_additional"@)) {
        None => Some(Ok(None)),
        Some(add) => match field_value(add, "id"@) {
            None => None,
            Some(idv) => match json_as_str(idv) {
                None => Some(Err("Missing object ID"@)),
                Some(id) => match field_value(add, "vector"@) {
                    None => None,
                    Some(vv) => match json_as_array(vv) {
                        None => Some(Err("Missing vector data"@)),
                        Some(xs) => Some(Ok(Some((
                            id,
                            components_of(Some(vv)),
                            fields_except(object_or_empty(Some(obj)), seq!["_additional"@]),
                        )))),
                    },
                },
            },
        },
    }
}

/// Weaviate: the records of a list of objects, read in order until a
/// complaint (`None` where reading panics).
pub open spec fn weaviate_objects(objs: Seq<Json>) -> Option<Result<Seq<RecordView>, Seq<char>>>
    decreases objs.len(),
{
    if objs.len() == 0 {
        Some(Ok(Seq::empty()))
    } else {
        match weaviate_objects(objs.drop_last()) {
            None => None,
            Some(Err(e)) => Some(Err(e)),
            Some(Ok(rs)) => match weaviate_object(objs.last()) {
                None => None,
                Some(Err(e)) => Some(Err(e)),
                Some(Ok(None)) => Some(Ok(rs)),
                Some(Ok(Some(r))) => Some(Ok(rs.push(r))),
            },
        }
    }
}

/// Weaviate: the records of a `Get` response for class `class`.
pub open spec fn weaviate_get(result: Json, class: Seq<char>) -> Option<Result<Seq<RecordView>, Seq<char>>> {
    match json_as_array(json_index(json_index(json_index(result, "data"@), "Get"@), class)) {
        Some(objs) => weaviate_objects(objs),
        None => Some(Ok(Seq::empty())),
    }
}

/// Once reading stops, later objects change nothing.
proof fn lemma_weaviate_stops(objs: Seq<Json>, i: int, j: int)
    requires
        0 <= i < j <= objs.len(),
        weaviate_objects(objs.take(i + 1)) matches Some(Err(_)),
    ensures
        weaviate_objects(objs.take(j)) == weaviate_objects(objs.take(i + 1)),
    decreases j - i,
{
    if j > i + 1 {
        lemma_weaviate_stops(objs, i, j - 1);
        assert(objs.take(j).drop_last() =~= objs.take(j - 1));
    }
}

/// A panic while reading comes before any complaint after it.
proof fn lemma_weaviate_panics(objs: Seq<Json>, i: int, j: int)
    requires
        0 <= i < j <= objs.len(),
        weaviate_objects(objs.take(i + 1)) is None,
    ensures
        weaviate_objects(objs.take(j)) is None,
    decreases j - i,
{
    if j > i + 1 {
        lemma_weaviate_panics(objs, i, j - 1);
        assert(objs.take(j).drop_last() =~= objs.take(j - 1));
    }
}

/// Whether reading the records of a Weaviate `Get` response gets through
/// without a panic: every object with `_additional` metadata whose
/// identifier is a string carries an `id`, and a `vector` after it, up to
/// the first complaint.
pub fn weaviate_get_defined(result: &JsonValue, class: &str) -> (r: bool)
    ensures
        r == weaviate_get(result@, class@) is Some,
{
    let objs = match get_field(result, "data") {
        Some(d) => match get_field(d, "Get") {
            Some(g) => match get_field(g, class) {
                Some(c) => as_array(c),
                None => None,
            },
            None => None,
        },
        None => None,
    };
    let objs = match objs {
        Some(os) => os,
        None => return true,
    };
    let ghost items = objs@.map_values(|x: JsonValue| x@);
    assert(items.take(0) =~= Seq::<Json>::empty());
    let mut i: usize = 0;
    while i < objs.len()
        invariant
            i <= objs.len(),
            items == objs@.map_values(|x: JsonValue| x@),
            weaviate_get(result@, class@) == weaviate_objects(items),
            weaviate_objects(items.take(i as int)) matches Some(Ok(_)),
        decreases objs.len() - i,
    {
        assert(items.take(i + 1).drop_last() =~= items.take(i as int));
        assert(items.take(i + 1).last() == objs@[i as int]@);
        let obj = &objs[i];
        let add = match get_field(obj, "_additional") {
            Some(a) => as_object(a),
            None => None,
        };
        match add {
            None => {},
            Some(add) => match field_in(add, "id") {
                None => {
                    proof {
                        if i + 1 < objs.len() {
                            lemma_weaviate_panics(items, i as int, items.len() as int);
                        }
                        assert(items.take(items.len() as int) =~= items);
                    }
                    return false;
                },
                Some(idv) => {
                    if as_str(idv).is_none() {
                        proof {
                            if i + 1 < objs.len() {
                                lemma_weaviate_stops(items, i as int, items.len() as int);
                            }
                            assert(items.take(items.len() as int) =~= items);
                        }
                        return true;
                    }
                    match field_in(add, "vector") {
                        None => {
                            proof {
                                if i + 1 < objs.len() {
                                    lemma_weaviate_panics(items, i as int, items.len() as int);
                                }
                                assert(items.take(items.len() as int) =~= items);
                            }
                            return false;
                        },
                        Some(vv) => {
                            if as_array(vv).is_none() {
                                proof {
                                    if i + 1 < objs.len() {
                                        lemma_weaviate_stops(items, i as int, items.len() as int);
                                    }
                                    assert(items.take(items.len() as int) =~= items);
                                }
                                return true;
                            }
                        },
                    }
                },
            },
        }
        i += 1;
    }
    assert(items.take(objs.len() as int) =~= items);
    true
}

/// Weaviate: the records of a `Get` response for class `class`.
pub fn weaviate_get_records(result: &JsonValue, class: &str) -> (r: Result<Vec<SourceRecord>, RTDBError>)
    requires
        weaviate_get(result@, class@) is Some,
    ensures
        match (r, weaviate_get(result@, class@)) {
            (Ok(rs), Some(Ok(v))) => records_view(rs@) == v,
            (Err(e), Some(Err(m))) => serialization_error(e, m),
            _ => false,
        },
{
    let objs = match get_field(result, "data") {
        Some(d) => match get_field(d, "Get") {
            Some(g) => match get_field(g, class) {
                Some(c) => as_array(c),
                None => None,
            },
            None => None,
        },
        None => None,
    };
    let objs = match objs {
        Some(os) => os,
        None => return Ok(Vec::new()),
    };
    let ghost items = objs@.map_values(|x: JsonValue| x@);
    let excluded = name_list(&["_additional"]);
    assert(names_view(excluded@) =~= seq!["_additional"@]);
    let mut out: Vec<SourceRecord> = Vec::new();
    let mut i: usize = 0;
    assert(items.take(0) =~= Seq::<Json>::empty());
    assert(records_view(out@) =~= Seq::<RecordView>::empty());
    while i < objs.len()
        invariant
            i <= objs.len(),
            items == objs@.map_values(|x: JsonValue| x@),
            weaviate_get(result@, class@) == weaviate_objects(items),
            weaviate_objects(items) is Some,
            names_view(excluded@) == seq!["_additional"@],
            weaviate_objects(items.take(i as int)) == Some(Ok::<Seq<RecordView>, Seq<char>>(records_view(out@))),
        decreases objs.len() - i,
    {
        assert(items.take(i + 1).drop_last() =~= items.take(i as int));
        let obj = &objs[i];
        assert(items.take(i + 1).last() == obj@);
        let additional = match get_field(obj, "_additional") {
            Some(a) => as_object(a),
            None => None,
        };
        match additional {
            None => {},
            Some(add) => {
                let idv = field_in(add, "id");
                if idv.is_none() {
                    proof {
                        lemma_weaviate_panics(items, i as int, objs.len() as int);
                        assert(items.take(objs.len() as int) =~= items);
                    }
                }
                let id = match as_str(idv.unwrap()) {
                    Some(t) => t.clone(),
                    None => {
                        proof {
                            lemma_weaviate_stops(items, i as int, objs.len() as int);
                            assert(items.take(objs.len() as int) =~= items);
                        }
                        return Err(RTDBError::Serialization("Missing object ID".to_owned()));
                    },
                };
                let vv = field_in(add, "vector");
                if vv.is_none() {
                    proof {
                        lemma_weaviate_panics(items, i as int, objs.len() as int);
                        assert(items.take(objs.len() as int) =~= items);
                    }
                }
                if as_array(vv.unwrap()).is_none() {
                    proof {
                        lemma_weaviate_stops(items, i as int, objs.len() as int);
                        assert(items.take(objs.len() as int) =~= items);
                    }
                    return Err(RTDBError::Serialization("Missing vector data".to_owned()));
                }
                let comps = components(vv);
                let metadata = match as_object(obj) {
                    Some(fs) => copy_fields_except(fs, &excluded),
                    None => Vec::new(),
                };
                let rec = SourceRecord { id, components: comps, metadata };
                let ghost before = out@;
                out.push(rec);
                assert(records_view(out@) =~= records_view(before).push(source_record_view(rec)));
            },
        }
        i += 1;
    }
    assert(items.take(objs.len() as int) =~= items);
    Ok(out)
}

/// Qdrant: the number of points a collection holds, where the collection
/// description gives it.
pub open spec fn qdrant_points_count(info: Json) -> Option<u64> {
    json_as_u64(json_index(json_index(info, "result"@), "points_count"@))
}

/// Milvus: the number of rows the statistics give.
pub open spec fn milvus_row_count(stats: Json) -> Option<u64> {
    json_as_u64(json_index(stats, "row_count"@))
}

/// Weaviate: the count an aggregate response gives for class `class`.
pub open spec fn weaviate_count(result: Json, class: Seq<char>) -> Option<u64> {
    json_as_u64(json_index(json_index(json_at(json_index(json_index(json_index(result, "data"@), "Aggregate"@), class), 0), "meta"@), "count"@))
}

/// `v[key]` as a value, `null` standing for a missing one.
fn index_or_null<'a>(v: Option<&'a JsonValue>, key: &str) -> (r: Option<&'a JsonValue>)
    ensures
        match v {
            Some(x) => match r {
                Some(y) => json_index(x@, key@) == y@,
                None => json_index(x@, key@) == Json::Null,
            },
            None => r is None,
        },
{
    match v {
        Some(x) => get_field(x, key),
        None => None,
    }
}

/// The non-negative integer a value holds, `null` standing for a missing one.
fn u64_of(v: Option<&JsonValue>) -> (r: Option<u64>)
    ensures
        r == match v {
            Some(x) => json_as_u64(x@),
            None => None::<u64>,
        },
{
    match v {
        Some(x) => as_u64(x),
        None => None,
    }
}

/// Qdrant: the number of points a collection holds.
pub fn qdrant_total_count(info: &JsonValue) -> (r: Option<u64>)
    ensures
        r == qdrant_points_count(info@),
{
    u64_of(index_or_null(index_or_null(Some(info), "result"), "points_count"))
}

/// Milvus: the number of rows the statistics give.
pub fn milvus_total_count(stats: &JsonValue) -> (r: Option<u64>)
    ensures
        r == milvus_row_count(stats@),
{
    u64_of(index_or_null(Some(stats), "row_count"))
}

/// Weaviate: the count an aggregate response gives for class `class`.
pub fn weaviate_total_count(result: &JsonValue, class: &str) -> (r: Option<u64>)
    ensures
        r == weaviate_count(result@, class@),
{
    let per_class = index_or_null(index_or_null(index_or_null(Some(result), "data"), "Aggregate"), class);
    let first = match per_class {
        Some(c) => match as_array(c) {
            Some(xs) => if xs.len() > 0 {
                Some(&xs[0])
            } else {
                None
            },
            None => None,
        },
        None => None,
    };
    u64_of(index_or_null(index_or_null(first, "meta"), "count"))
}



// ---------------------------------------------------------------------------
// Line-oriented files (JSONL, and LanceDB tables kept as JSONL)
// ---------------------------------------------------------------------------

/// A character of Unicode's White_Space property, which `str::trim`
/// removes.
pub open spec fn is_white_space(c: char) -> bool {
    let u = c as u32;
    ||| 0x9 <= u && u <= 0xd
    ||| u == 0x20 || u == 0x85 || u == 0xa0 || u == 0x1680
    ||| 0x2000 <= u && u <= 0x200a
    ||| u == 0x2028 || u == 0x2029 || u == 0x202f || u == 0x205f || u == 0x3000
}

/// The text without its leading whitespace.
pub open spec fn trim_leading(text: Seq<char>) -> Seq<char>
    decreases text.len(),
{
    if text.len() > 0 && is_white_space(text[0]) { trim_leading(text.drop_first()) } else { text }
}

/// The text without its trailing whitespace.
pub open spec fn trim_trailing(text: Seq<char>) -> Seq<char>
    decreases text.len(),
{
    if text.len() > 0 && is_white_space(text.last()) { trim_trailing(text.drop_last()) } else { text }
}

/// std's `str::trim`: the text without leading and trailing whitespace.
pub open spec fn trimmed(text: Seq<char>) -> Seq<char> {
    trim_trailing(trim_leading(text))
}

/// std's `str::trim`, which its documentation says removes leading and
/// trailing White_Space characters.
#[verifier::external_body]
pub(crate) fn trim_text(text: &str) -> (r: &str)
    ensures
        r@ == trimmed(text@),
{
    text.trim()
}

/// The first line a batch read looks at: `offset`, or the end of the file.
pub open spec fn window_start(n: int, offset: u64) -> int {
    if offset < n { offset as int } else { n }
}

/// One past the last line a batch read looks at: `limit` lines on from
/// the start, or the end of the file.
pub open spec fn window_end(n: int, offset: u64, limit: usize) -> int {
    if window_start(n, offset) + limit < n { window_start(n, offset) + limit } else { n }
}

/// Whether a trimmed line holds anything.
pub open spec fn nonblank() -> spec_fn(Seq<char>) -> bool {
    |t: Seq<char>| t.len() > 0
}

/// The trimmed lines a batch read parses: those of the window that are not
/// blank, in order.
pub open spec fn batch_texts(lines: Seq<Seq<char>>, offset: u64, limit: usize) -> Seq<Seq<char>> {
    lines.subrange(window_start(lines.len() as int, offset), window_end(lines.len() as int, offset, limit))
        .map_values(|l: Seq<char>| trimmed(l))
        .filter(nonblank())
}

/// The trimmed lines a batch read of `limit` lines after skipping `offset`
/// parses; blank lines are passed over.
pub fn batch_lines(lines: &Vec<String>, offset: u64, limit: usize) -> (r: Vec<String>)
    ensures
        names_view(r@) == batch_texts(names_view(lines@), offset, limit),
{
    let n = lines.len();
    let start: usize = if offset < n as u64 { offset as usize } else { n };
    let end: usize = if start < n && limit < n - start { start + limit } else { n };
    let ghost all = names_view(lines@);
    let ghost trimmed_window = all.subrange(start as int, end as int).map_values(|l: Seq<char>| trimmed(l));
    assert(start as int == window_start(all.len() as int, offset));
    assert(end as int == window_end(all.len() as int, offset, limit));
    let mut out: Vec<String> = Vec::new();
    let mut i: usize = start;
    assert(trimmed_window.take(0).filter(nonblank()) =~= Seq::<Seq<char>>::empty()) by {
        reveal(Seq::filter);
    }
    while i < end
        invariant
            start <= i <= end <= lines.len(),
            all == names_view(lines@),
            trimmed_window == all.subrange(start as int, end as int).map_values(|l: Seq<char>| trimmed(l)),
            names_view(out@) == trimmed_window.take(i - start).filter(nonblank()),
        decreases end - i,
    {
        let t = trim_text(lines[i].as_str());
        assert(trimmed_window[i - start] == t@);
        assert(trimmed_window.take(i - start + 1) =~= trimmed_window.take(i - start).push(t@));
        proof {
            trimmed_window.take(i - start).lemma_filter_push(t@, nonblank());
        }
        if !t.is_empty() {
            let ghost before = out@;
            out.push(t.to_owned());
            assert(names_view(out@) =~= names_view(before).push(t@));
        }
        i += 1;
    }
    assert(trimmed_window.take(end - start) =~= trimmed_window);
    out
}



/// Which kind of line-oriented file a batch comes from.
#[derive(Debug, Clone, Copy, PartialEq, Eq, Structural)]
pub enum LineFormat {
    Jsonl,
    LanceDb,
}

/// The names an identifier may go by in a line's object.
pub open spec fn line_ids() -> Seq<Seq<char>> {
    seq!["id"@, "_id"@]
}

/// The names a vector may go by in a line's object.
pub open spec fn line_vectors(fmt: LineFormat) -> Seq<Seq<char>> {
    match fmt {
        LineFormat::Jsonl => seq!["vector"@, "embedding"@, "embeddings"@, "vec"@],
        LineFormat::LanceDb => seq!["vector"@, "embedding"@, "embeddings"@],
    }
}

/// How identifiers may be written in a line's object.
pub open spec fn line_id_form(fmt: LineFormat) -> IdForm {
    match fmt {
        LineFormat::Jsonl => IdForm::TextOrSigned,
        LineFormat::LanceDb => IdForm::Text,
    }
}

/// The complaint about the line that failed to parse, with the parser's
/// message; JSONL complaints number the line (counting parsed lines from
/// the window's start, from one).
pub open spec fn parse_complaint(fmt: LineFormat, line_number: int, message: Seq<char>) -> Seq<char> {
    match fmt {
        LineFormat::Jsonl => "Failed to parse JSON line "@ + decimal(line_number as nat) + ": "@ + message,
        LineFormat::LanceDb => "Failed to parse JSON line: "@ + message,
    }
}

/// The outcome of parsing each line, as values.
pub open spec fn parsed_view(ps: Seq<Result<JsonValue, String>>) -> Seq<Result<Json, Seq<char>>> {
    ps.map_values(|p: Result<JsonValue, String>| match p {
        Ok(v) => Ok(v@),
        Err(m) => Err(m@),
    })
}

/// The records of parsed lines: one per line that is an object, until the
/// first line that failed to parse.
pub open spec fn lines_records(fmt: LineFormat, start: int, ps: Seq<Result<Json, Seq<char>>>) -> Result<Seq<RecordView>, Seq<char>>
    decreases ps.len(),
{
    if ps.len() == 0 {
        Ok(Seq::empty())
    } else {
        match lines_records(fmt, start, ps.drop_last()) {
            Err(e) => Err(e),
            Ok(rs) => match ps.last() {
                Err(m) => Err(parse_complaint(fmt, start + ps.len(), m)),
                Ok(v) => match json_as_object(v) {
                    Some(fs) => Ok(rs.push(record_from_fields(fs, line_ids(), line_id_form(fmt), line_vectors(fmt)))),
                    None => Ok(rs),
                },
            },
        }
    }
}

proof fn lemma_lines_records_stop(fmt: LineFormat, start: int, ps: Seq<Result<Json, Seq<char>>>, i: int, j: int)
    requires
        0 <= i < j <= ps.len(),
        lines_records(fmt, start, ps.take(i + 1)) is Err,
    ensures
        lines_records(fmt, start, ps.take(j)) == lines_records(fmt, start, ps.take(i + 1)),
    decreases j - i,
{
    if j > i + 1 {
        lemma_lines_records_stop(fmt, start, ps, i, j - 1);
        assert(ps.take(j).drop_last() =~= ps.take(j - 1));
    }
}

/// The records of a batch's parsed lines, `start` being the window's first
/// line.
pub fn records_from_lines(fmt: LineFormat, start: u64, parsed: &Vec<Result<JsonValue, String>>) -> (r: Result<Vec<SourceRecord>, RTDBError>)
    requires
        start + parsed@.len() <= u64::MAX,
    ensures
        match (r, lines_records(fmt, start as int, parsed_view(parsed@))) {
            (Ok(rs), Ok(v)) => records_view(rs@) == v,
            (Err(e), Err(m)) => serialization_error(e, m),
            _ => false,
        },
{
    let ghost ps = parsed_view(parsed@);
    let ids = name_list(&["id", "_id"]);
    let vectors = match fmt {
        LineFormat::Jsonl => name_list(&["vector", "embedding", "embeddings", "vec"]),
        LineFormat::LanceDb => name_list(&["vector", "embedding", "embeddings"]),
    };
    let form = match fmt {
        LineFormat::Jsonl => IdForm::TextOrSigned,
        LineFormat::LanceDb => IdForm::Text,
    };
    assert(names_view(ids@) =~= line_ids());
    assert(names_view(vectors@) =~= line_vectors(fmt));
    let mut out: Vec<SourceRecord> = Vec::new();
    let mut i: usize = 0;
    assert(ps.take(0) =~= Seq::<Result<Json, Seq<char>>>::empty());
    assert(records_view(out@) =~= Seq::<RecordView>::empty());
    while i < parsed.len()
        invariant
            i <= parsed.len(),
            start + parsed@.len() <= u64::MAX,
            ps == parsed_view(parsed@),
            names_view(ids@) == line_ids(),
            names_view(vectors@) == line_vectors(fmt),
            form == line_id_form(fmt),
            lines_records(fmt, start as int, ps.take(i as int)) == Ok::<Seq<RecordView>, Seq<char>>(records_view(out@)),
        decreases parsed.len() - i,
    {
        assert(ps.take(i + 1).drop_last() =~= ps.take(i as int));
        assert(ps.take(i + 1).last() == ps[i as int]);
        match &parsed[i] {
            Err(m) => {
                let mut text = match fmt {
                    LineFormat::Jsonl => {
                        let mut t = "Failed to parse JSON line ".to_owned();
                        let number = crate::text::decimal_string(start + i as u64 + 1);
                        t.append(number.as_str());
                        t.append(": ");
                        t
                    },
                    LineFormat::LanceDb => "Failed to parse JSON line: ".to_owned(),
                };
                text.append(m.as_str());
                proof {
                    lemma_lines_records_stop(fmt, start as int, ps, i as int, parsed.len() as int);
                    assert(ps.take(parsed.len() as int) =~= ps);
                }
                return Err(RTDBError::Serialization(text));
            },
            Ok(v) => {
                match as_object(v) {
                    Some(fs) => {
                        let rec = record_from_object(fs, &ids, form, &vectors);
                        let ghost before = out@;
                        out.push(rec);
                        assert(records_view(out@) =~= records_view(before).push(source_record_view(rec)));
                    },
                    None => {},
                }
            },
        }
        i += 1;
    }
    assert(ps.take(parsed.len() as int) =~= ps);
    Ok(out)
}

/// JSONL: the records of a batch read and the offset the next read starts
/// from (the window's start plus the lines parsed).
pub fn jsonl_batch(line_count: usize, offset: u64, parsed: &Vec<Result<JsonValue, String>>) -> (r: Result<(Vec<SourceRecord>, u64), RTDBError>)
    requires
        window_start(line_count as int, offset) + parsed@.len() <= line_count,
    ensures
        match (r, lines_records(LineFormat::Jsonl, window_start(line_count as int, offset), parsed_view(parsed@))) {
            (Ok((rs, next)), Ok(v)) => records_view(rs@) == v && next == window_start(line_count as int, offset) + parsed@.len(),
            (Err(e), Err(m)) => serialization_error(e, m),
            _ => false,
        },
{
    let start: u64 = if offset < line_count as u64 { offset } else { line_count as u64 };
    let records = records_from_lines(LineFormat::Jsonl, start, parsed)?;
    Ok((records, start + parsed.len() as u64))
}

/// LanceDB: the records of a batch read and the offset the next read
/// starts from (the requested offset plus the records read).
pub fn lance_batch(offset: u64, parsed: &Vec<Result<JsonValue, String>>) -> (r: Result<(Vec<SourceRecord>, u64), RTDBError>)
    requires
        offset + parsed@.len() <= u64::MAX,
    ensures
        match (r, lines_records(LineFormat::LanceDb, offset as int, parsed_view(parsed@))) {
            (Ok((rs, next)), Ok(v)) => records_view(rs@) == v && next == offset + v.len(),
            (Err(e), Err(m)) => serialization_error(e, m),
            _ => false,
        },
{
    let records = records_from_lines(LineFormat::LanceDb, offset, parsed)?;
    proof {
        lemma_lines_records_len(LineFormat::LanceDb, offset as int, parsed_view(parsed@));
    }
    let n = records.len() as u64;
    Ok((records, offset + n))
}

/// A batch gives at most one record per parsed line.
proof fn lemma_lines_records_len(fmt: LineFormat, start: int, ps: Seq<Result<Json, Seq<char>>>)
    ensures
        lines_records(fmt, start, ps) matches Ok(rs) ==> rs.len() <= ps.len(),
    decreases ps.len(),
{
    if ps.len() > 0 {
        lemma_lines_records_len(fmt, start, ps.drop_last());
    }
}



// ---------------------------------------------------------------------------
// Choosing and configuring clients
// ---------------------------------------------------------------------------

/// The text without its trailing slashes.
pub open spec fn without_trailing_slashes(s: Seq<char>) -> Seq<char>
    decreases s.len(),
{
    if s.len() > 0 && s.last() == '/' {
        without_trailing_slashes(s.drop_last())
    } else {
        s
    }
}

/// std's `trim_end_matches('/')`: the text without its trailing slashes.
pub fn trim_trailing_slashes(s: &str) -> (r: String)
    ensures
        r@ == without_trailing_slashes(s@),
{
    let chars = crate::text::chars_of(s);
    let mut k: usize = chars.len();
    assert(s@.subrange(0, k as int) =~= s@);
    while k > 0 && chars[k - 1] == '/'
        invariant
            k <= chars.len(),
            chars@ == s@,
            without_trailing_slashes(s@) == without_trailing_slashes(s@.subrange(0, k as int)),
        decreases k,
    {
        assert(s@.subrange(0, k as int).drop_last() =~= s@.subrange(0, k - 1));
        k -= 1;
    }
    s.substring_char(0, k).to_owned()
}

/// The name given, or a default.
pub open spec fn name_or(name: Option<String>, default: Seq<char>) -> Seq<char> {
    match name {
        Some(n) => n@,
        None => default,
    }
}

/// The headers credentials give, none without credentials.
pub open spec fn opt_auth_headers(kind: ClientKind, auth: Option<AuthConfig>) -> Result<Seq<(Seq<char>, Seq<char>)>, Seq<char>> {
    match auth {
        Some(a) => auth_headers_for(kind, a),
        None => Ok(Seq::empty()),
    }
}

/// Whether optional credentials can be encoded.
pub open spec fn opt_auth_encodable(auth: Option<AuthConfig>) -> bool {
    match auth {
        Some(a) => auth_encodable(a),
        None => true,
    }
}

/// The headers credentials give, none without credentials.
pub fn optional_auth_headers(kind: ClientKind, auth: &Option<AuthConfig>) -> (r: Result<Vec<(String, String)>, RTDBError>)
    requires
        opt_auth_encodable(*auth),
    ensures
        match (r, opt_auth_headers(kind, *auth)) {
            (Ok(hs), Ok(v)) => pairs_view(hs@) == v,
            (Err(e), Err(m)) => config_error(e, m),
            _ => false,
        },
{
    match auth {
        Some(a) => auth_headers(kind, a),
        None => {
            let hs: Vec<(String, String)> = Vec::new();
            assert(pairs_view(hs@) =~= Seq::<(Seq<char>, Seq<char>)>::empty());
            Ok(hs)
        },
    }
}

/// How to reach a migration's source.
#[derive(Debug)]
pub enum SourceSettings {
    /// A database served over HTTP, with the headers every request carries.
    Http { kind: ClientKind, base_url: String, collection: String, headers: Vec<(String, String)> },
    /// A LanceDB directory and the table to read.
    LanceDb { path: String, table: String },
    Jsonl { path: String },
    Parquet { path: String },
    Hdf5 { path: String },
    Csv { path: String },
    Binary { path: String },
}

/// The HTTP client kind of a source type, if it is one served over HTTP.
pub open spec fn http_kind(t: SourceType) -> Option<ClientKind> {
    match t {
        SourceType::Qdrant => Some(ClientKind::Qdrant),
        SourceType::Milvus => Some(ClientKind::Milvus),
        SourceType::Weaviate => Some(ClientKind::Weaviate),
        SourceType::Pinecone => Some(ClientKind::Pinecone),
        _ => None,
    }
}

/// The collection (or class, or index) read when none is named.
pub open spec fn default_collection(t: SourceType) -> Seq<char> {
    match t {
        SourceType::Weaviate => "Document"@,
        SourceType::LanceDB => "vectors"@,
        _ => "default"@,
    }
}

/// The base URL requests go to: Pinecone's as given, the others without
/// trailing slashes.
pub open spec fn source_base_url(t: SourceType, url: Seq<char>) -> Seq<char> {
    match t {
        SourceType::Pinecone => url,
        _ => without_trailing_slashes(url),
    }
}

/// How to reach the source a migration reads from: the database's client
/// with its base URL, collection and credential headers, or the file (and
/// for LanceDB the table) to read.
pub fn source_settings(
    source_type: SourceType,
    url: &str,
    collection: &Option<String>,
    auth: &Option<AuthConfig>,
) -> (r: Result<SourceSettings, RTDBError>)
    requires
        opt_auth_encodable(*auth),
    ensures
        match http_kind(source_type) {
            Some(kind) => match (r, opt_auth_headers(kind, *auth)) {
                (Ok(SourceSettings::Http { kind: k, base_url, collection: c, headers }), Ok(hv)) => {
                    &&& k == kind
                    &&& base_url@ == source_base_url(source_type, url@)
                    &&& c@ == name_or(*collection, default_collection(source_type))
                    &&& pairs_view(headers@) == hv
                },
                (Err(e), Err(m)) => config_error(e, m),
                _ => false,
            },
            None => match source_type {
                SourceType::LanceDB => r matches Ok(SourceSettings::LanceDb { path, table })
                    && path@ == url@ && table@ == name_or(*collection, default_collection(source_type)),
                SourceType::Jsonl => r matches Ok(SourceSettings::Jsonl { path }) && path@ == url@,
                SourceType::Parquet => r matches Ok(SourceSettings::Parquet { path }) && path@ == url@,
                SourceType::Hdf5 => r matches Ok(SourceSettings::Hdf5 { path }) && path@ == url@,
                SourceType::Csv => r matches Ok(SourceSettings::Csv { path }) && path@ == url@,
                _ => r matches Ok(SourceSettings::Binary { path }) && path@ == url@,
            },
        },
{
    let kind = match source_type {
        SourceType::Qdrant => ClientKind::Qdrant,
        SourceType::Milvus => ClientKind::Milvus,
        SourceType::Weaviate => ClientKind::Weaviate,
        SourceType::Pinecone => ClientKind::Pinecone,
        SourceType::LanceDB => {
            let table = match collection {
                Some(c) => c.clone(),
                None => "vectors".to_owned(),
            };
            return Ok(SourceSettings::LanceDb { path: url.to_owned(), table });
        },
        SourceType::Jsonl => return Ok(SourceSettings::Jsonl { path: url.to_owned() }),
        SourceType::Parquet => return Ok(SourceSettings::Parquet { path: url.to_owned() }),
        SourceType::Hdf5 => return Ok(SourceSettings::Hdf5 { path: url.to_owned() }),
        SourceType::Csv => return Ok(SourceSettings::Csv { path: url.to_owned() }),
        SourceType::Binary => return Ok(SourceSettings::Binary { path: url.to_owned() }),
    };
    let headers = optional_auth_headers(kind, auth)?;
    let base_url = match source_type {
        SourceType::Pinecone => url.to_owned(),
        _ => trim_trailing_slashes(url),
    };
    let name = match collection {
        Some(c) => c.clone(),
        None => match source_type {
            SourceType::Weaviate => "Document".to_owned(),
            _ => "default".to_owned(),
        },
    };
    Ok(SourceSettings::Http { kind, base_url, collection: name, headers })
}

/// How to reach a migration's target database.
#[derive(Debug)]
pub struct TargetSettings {
    pub base_url: String,
    pub headers: Vec<(String, String)>,
}

/// Whether `s` ends with `suffix`.
pub open spec fn ends_with(s: Seq<char>, suffix: Seq<char>) -> bool {
    suffix.len() <= s.len() && s.subrange(s.len() - suffix.len(), s.len() as int) == suffix
}

/// std's `str::ends_with` for a text suffix.
pub fn text_ends_with(s: &str, suffix: &str) -> (r: bool)
    ensures
        r == ends_with(s@, suffix@),
{
    let a = crate::text::chars_of(s);
    let b = crate::text::chars_of(suffix);
    if b.len() > a.len() {
        return false;
    }
    let off = a.len() - b.len();
    let mut i: usize = 0;
    while i < b.len()
        invariant
            i <= b.len(),
            off + b.len() == a.len(),
            a@ == s@,
            b@ == suffix@,
            forall|j: int| 0 <= j < i ==> a@[off + j] == b@[j],
        decreases b.len() - i,
    {
        if a[off + i] != b[i] {
            assert(s@.subrange(off as int, s@.len() as int)[i as int] != suffix@[i as int]);
            return false;
        }
        i += 1;
    }
    assert(s@.subrange(off as int, s@.len() as int) =~= suffix@);
    true
}

/// The complaint about a Parquet target.
pub open spec fn parquet_target_complaint() -> Seq<char> {
    "Parquet export should use ParquetWriter through formats.rs for optimal performance"@
}

/// How to reach the target a migration writes to: a URL naming a Parquet
/// file is refused; any other is an RTDB server, without trailing slashes,
/// with the credentials' headers.
pub fn target_settings(target_url: &str, auth: &Option<AuthConfig>) -> (r: Result<TargetSettings, RTDBError>)
    requires
        opt_auth_encodable(*auth),
    ensures
        ends_with(target_url@, ".parquet"@) ==> (r matches Err(e) && config_error(e, parquet_target_complaint())),
        !ends_with(target_url@, ".parquet"@) ==> match (r, opt_auth_headers(ClientKind::Rtdb, *auth)) {
            (Ok(t), Ok(hv)) => t.base_url@ == without_trailing_slashes(target_url@) && pairs_view(t.headers@) == hv,
            (Err(e), Err(m)) => config_error(e, m),
            _ => false,
        },
{
    if text_ends_with(target_url, ".parquet") {
        return Err(RTDBError::Config(
            "Parquet export should use ParquetWriter through formats.rs for optimal performance".to_owned(),
        ));
    }
    let headers = optional_auth_headers(ClientKind::Rtdb, auth)?;
    Ok(TargetSettings { base_url: trim_trailing_slashes(target_url), headers })
}

/// What a target reports of a collection: `None` where reading the report
/// panics (a field it indexes is missing), else the dimension, the number
/// of vectors and the distance, or the complaint.
pub open spec fn collection_report(info: Json) -> Option<Result<(u64, u64, Seq<char>), Seq<char>>> {
    match json_as_object(json_index(info, "result"@)) {
        None => Some(Err("Invalid response format"@)),
        Some(res) => match field_value(res, "config"@) {
            None => None,
            Some(c) => match json_as_object(c) {
                None => Some(Err("Missing config in response"@)),
                Some(cf) => match field_value(cf, "params"@) {
                    None => None,
                    Some(params) => match json_as_object(json_index(params, "vectors"@)) {
                        None => Some(Err("Missing vectors config"@)),
                        Some(vc) => match field_value(vc, "size"@) {
                            None => None,
                            Some(sz) => match json_as_u64(sz) {
                                None => Some(Err("Missing vector size"@)),
                                Some(dim) => match field_value(vc, "distance"@) {
                                    None => None,
                                    Some(d) => match field_value(res, "points_count"@) {
                                        None => None,
                                        Some(pc) => Some(Ok((
                                            dim,
                                            match json_as_u64(pc) { Some(n) => n, None => 0 },
                                            match json_as_str(d) { Some(t) => t, None => "Cosine"@ },
                                        ))),
                                    },
                                },
                            },
                        },
                    },
                },
            },
        },
    }
}

/// Whether reading a target's collection description gets through
/// without a panic: the fields read by name (`config`, `params`, `size`,
/// `distance`, `points_count`) are there when reached.
pub fn collection_report_defined(info: &JsonValue) -> (r: bool)
    ensures
        r == collection_report(info@) is Some,
{
    let res = match get_field(info, "result") {
        Some(x) => as_object(x),
        None => None,
    };
    let res = match res {
        Some(fs) => fs,
        None => return true,
    };
    let config = match field_in(res, "config") {
        Some(c) => c,
        None => return false,
    };
    let cf = match as_object(config) {
        Some(cf) => cf,
        None => return true,
    };
    let params = match field_in(cf, "params") {
        Some(p) => p,
        None => return false,
    };
    let vectors = match get_field(params, "vectors") {
        Some(v) => as_object(v),
        None => None,
    };
    let vc = match vectors {
        Some(vc) => vc,
        None => return true,
    };
    let size = match field_in(vc, "size") {
        Some(sz) => sz,
        None => return false,
    };
    if as_u64(size).is_none() {
        return true;
    }
    if field_in(vc, "distance").is_none() {
        return false;
    }
    field_in(res, "points_count").is_some()
}

/// What a target reports of collection `name`, out of its description.
pub fn collection_info(name: &str, info: &JsonValue) -> (r: Result<CollectionInfo, RTDBError>)
    requires
        collection_report(info@) is Some,
    ensures
        match (r, collection_report(info@)) {
            (Ok(ci), Some(Ok((dim, count, distance)))) => {
                &&& ci.name@ == name@
                &&& ci.dimension == dim as usize
                &&& ci.vector_count == count
                &&& ci.distance_metric@ == distance
            },
            (Err(e), Some(Err(m))) => serialization_error(e, m),
            _ => false,
        },
{
    let res = match get_field(info, "result") {
        Some(x) => as_object(x),
        None => None,
    };
    let res = match res {
        Some(fs) => fs,
        None => return Err(RTDBError::Serialization("Invalid response format".to_owned())),
    };
    let config = match as_object(field_in(res, "config").unwrap()) {
        Some(fs) => fs,
        None => return Err(RTDBError::Serialization("Missing config in response".to_owned())),
    };
    let vectors = match get_field(field_in(config, "params").unwrap(), "vectors") {
        Some(v) => as_object(v),
        None => None,
    };
    let vectors = match vectors {
        Some(fs) => fs,
        None => return Err(RTDBError::Serialization("Missing vectors config".to_owned())),
    };
    let dimension = match as_u64(field_in(vectors, "size").unwrap()) {
        Some(n) => n,
        None => return Err(RTDBError::Serialization("Missing vector size".to_owned())),
    };
    let distance_metric = match as_str(field_in(vectors, "distance").unwrap()) {
        Some(t) => t.clone(),
        None => "Cosine".to_owned(),
    };
    let vector_count = match as_u64(field_in(res, "points_count").unwrap()) {
        Some(n) => n,
        None => 0,
    };
    Ok(CollectionInfo {
        name: name.to_owned(),
        dimension: dimension as usize,
        vector_count,
        distance_metric,
    })
}



// ---------------------------------------------------------------------------
// File-based clients
// ---------------------------------------------------------------------------

/// A JSONL file source and the line it reads from next.
#[derive(Debug)]
pub struct JsonlSourceClient {
    pub path: String,
    pub current_offset: u64,
}

impl JsonlSourceClient {
    /// A source reading the file at `path` from its start.
    pub fn new(path: &str) -> (r: Self)
        ensures
            r.path@ == path@,
            r.current_offset == 0,
    {
        JsonlSourceClient { path: path.to_owned(), current_offset: 0 }
    }

    /// Takes a batch read: the records of the lines parsed (see
    /// `jsonl_batch`), moving the offset on past them.
    pub fn take_batch(&mut self, line_count: usize, offset: u64, parsed: &Vec<Result<JsonValue, String>>) -> (r: Result<Vec<SourceRecord>, RTDBError>)
        requires
            window_start(line_count as int, offset) + parsed@.len() <= line_count,
        ensures
            match (r, lines_records(LineFormat::Jsonl, window_start(line_count as int, offset), parsed_view(parsed@))) {
                (Ok(rs), Ok(v)) => records_view(rs@) == v
                    && final(self).current_offset == window_start(line_count as int, offset) + parsed@.len(),
                (Err(e), Err(m)) => serialization_error(e, m) && final(self).current_offset == old(self).current_offset,
                _ => false,
            },
            final(self).path == old(self).path,
    {
        let (records, next) = jsonl_batch(line_count, offset, parsed)?;
        self.current_offset = next;
        Ok(records)
    }
}

/// A LanceDB table kept as JSONL, and the record it reads from next.
#[derive(Debug)]
pub struct LanceDBSourceClient {
    pub path: String,
    pub table_name: String,
    pub current_offset: u64,
}

impl LanceDBSourceClient {
    /// A source reading table `table_name` (or "vectors") of the directory
    /// at `path`.
    pub fn new(path: &str, table_name: &Option<String>) -> (r: Self)
        ensures
            r.path@ == path@,
            r.table_name@ == name_or(*table_name, "vectors"@),
            r.current_offset == 0,
    {
        let table = match table_name {
            Some(t) => t.clone(),
            None => "vectors".to_owned(),
        };
        LanceDBSourceClient { path: path.to_owned(), table_name: table, current_offset: 0 }
    }

    /// The estimated number of records of a table of `table_bytes` bytes,
    /// a kilobyte per record; unknown without the table.
    pub fn estimated_count(table_bytes: Option<u64>) -> (r: Option<u64>)
        ensures
            r == match table_bytes {
                Some(b) => Some((b / 1024) as u64),
                None => None::<u64>,
            },
    {
        match table_bytes {
            Some(b) => Some(b / 1024),
            None => None,
        }
    }

    /// Takes a batch read: the records of the lines parsed (see
    /// `lance_batch`), moving the offset on past them.
    pub fn take_batch(&mut self, offset: u64, parsed: &Vec<Result<JsonValue, String>>) -> (r: Result<Vec<SourceRecord>, RTDBError>)
        requires
            offset + parsed@.len() <= u64::MAX,
        ensures
            match (r, lines_records(LineFormat::LanceDb, offset as int, parsed_view(parsed@))) {
                (Ok(rs), Ok(v)) => records_view(rs@) == v && final(self).current_offset == offset + v.len(),
                (Err(e), Err(m)) => serialization_error(e, m) && final(self).current_offset == old(self).current_offset,
                _ => false,
            },
            final(self).path == old(self).path,
            final(self).table_name == old(self).table_name,
    {
        let (records, next) = lance_batch(offset, parsed)?;
        self.current_offset = next;
        Ok(records)
    }
}

/// A Parquet file source.
#[derive(Debug)]
pub struct ParquetSourceClient {
    pub path: String,
    /// The rows the file's metadata gives.
    pub total_rows: Option<u64>,
    pub current_offset: u64,
}

impl ParquetSourceClient {
    /// A source reading the file at `path` of `total_rows` rows.
    pub fn new(path: &str, total_rows: u64) -> (r: Self)
        ensures
            r.path@ == path@,
            r.total_rows == Some(total_rows),
            r.current_offset == 0,
    {
        ParquetSourceClient { path: path.to_owned(), total_rows: Some(total_rows), current_offset: 0 }
    }

    /// The number of records: the rows of the file.
    pub fn get_total_count(&self) -> (r: Result<Option<u64>, RTDBError>)
        ensures
            r == Ok::<Option<u64>, RTDBError>(self.total_rows),
    {
        Ok(self.total_rows)
    }
}

/// A Parquet file target; the writing itself goes through a stream
/// writer.
#[derive(Debug)]
pub struct ParquetTargetClient {
    pub path: String,
    pub collection_name: String,
}

impl ParquetTargetClient {
    /// A target writing the file at `path`.
    pub fn new(path: &str) -> (r: Self)
        ensures
            r.path@ == path@,
            r.collection_name@ == "default"@,
    {
        ParquetTargetClient { path: path.to_owned(), collection_name: "default".to_owned() }
    }
}

/// A source of records in an HDF5 file; nothing reads them yet.
#[derive(Debug)]
pub struct Hdf5SourceClient {
    pub path: String,
}

impl Hdf5SourceClient {
    /// A source of the file at `path`.
    pub fn new(path: &str) -> (r: Self)
        ensures
            r.path@ == path@,
    {
        Hdf5SourceClient { path: path.to_owned() }
    }

    /// The number of records: unknown.
    pub fn get_total_count(&mut self) -> (r: Result<Option<u64>, RTDBError>)
        ensures
            r matches Ok(None),
            *final(self) == *old(self),
    {
        Ok(None)
    }

    /// A batch: always empty.
    pub fn fetch_batch(&mut self, offset: u64, limit: usize) -> (r: Result<Vec<SourceRecord>, RTDBError>)
        ensures
            r matches Ok(rs) && rs@.len() == 0,
            *final(self) == *old(self),
    {
        Ok(Vec::new())
    }
}

/// A source of records in a CSV file through the client interface; it
/// reads none (the file readers read CSV files).
#[derive(Debug)]
pub struct CsvSourceClient {
    pub path: String,
}

impl CsvSourceClient {
    /// A source of the file at `path`.
    pub fn new(path: &str) -> (r: Self)
        ensures
            r.path@ == path@,
    {
        CsvSourceClient { path: path.to_owned() }
    }

    /// The number of records: unknown.
    pub fn get_total_count(&mut self) -> (r: Result<Option<u64>, RTDBError>)
        ensures
            r matches Ok(None),
            *final(self) == *old(self),
    {
        Ok(None)
    }

    /// A batch: always empty.
    pub fn fetch_batch(&mut self, offset: u64, limit: usize) -> (r: Result<Vec<SourceRecord>, RTDBError>)
        ensures
            r matches Ok(rs) && rs@.len() == 0,
            *final(self) == *old(self),
    {
        Ok(Vec::new())
    }
}

/// A source of records in a binary file through the client interface;
/// it reads none (the file readers read binary files).
#[derive(Debug)]
pub struct BinarySourceClient {
    pub path: String,
}

impl BinarySourceClient {
    /// A source of the file at `path`.
    pub fn new(path: &str) -> (r: Self)
        ensures
            r.path@ == path@,
    {
        BinarySourceClient { path: path.to_owned() }
    }

    /// The number of records: unknown.
    pub fn get_total_count(&mut self) -> (r: Result<Option<u64>, RTDBError>)
        ensures
            r matches Ok(None),
            *final(self) == *old(self),
    {
        Ok(None)
    }

    /// A batch: always empty.
    pub fn fetch_batch(&mut self, offset: u64, limit: usize) -> (r: Result<Vec<SourceRecord>, RTDBError>)
        ensures
            r matches Ok(rs) && rs@.len() == 0,
            *final(self) == *old(self),
    {
        Ok(Vec::new())
    }
}



} // verus!

//! Transformation rules applied to each migrated record.
//!
//! A record's metadata is a list of fields with distinct names; its
//! meaning is the map from names to values. The numeric conversions of a
//! field (text to number, number to text) are floating-point work the
//! caller does; the rule then stores what the caller computed.

use vstd::prelude::*;
use crate::json::{Json, JsonValue, field_value, json_clone};
use crate::types::fields_view;
use crate::migration::model::{VectorRecord, TransformationRule, ConversionType, find_field};
use crate::migration::clients::{trimmed, trim_text, names_view};
use crate::migration::readers::split_commas;

verus! {

/// Whether no two fields share a name.
pub open spec fn distinct_names(fs: Seq<(Seq<char>, Json)>) -> bool {
    forall|i: int, j: int| 0 <= i < j < fs.len() ==> fs[i].0 != fs[j].0
}

/// The metadata as a map from names to values.
pub open spec fn meta_map(fs: Seq<(Seq<char>, Json)>) -> Map<Seq<char>, Json> {
    Map::new(|k: Seq<char>| field_value(fs, k) is Some, |k: Seq<char>| field_value(fs, k)->0)
}

/// `field_value` gives the first field with the name, or nothing.
proof fn lemma_field_value_found(s: Seq<(Seq<char>, Json)>, k: Seq<char>)
    ensures
        match field_value(s, k) {
            Some(v) => exists|j: int| 0 <= j < s.len() && s[j].0 == k && s[j].1 == v
                && forall|m: int| 0 <= m < j ==> s[m].0 != k,
            None => forall|j: int| 0 <= j < s.len() ==> s[j].0 != k,
        },
    decreases s.len(),
{
    if s.len() > 0 {
        lemma_field_value_found(s.drop_first(), k);
        if s[0].0 != k {
            match field_value(s.drop_first(), k) {
                Some(v) => {
                    let j = choose|j: int| 0 <= j < s.drop_first().len() && s.drop_first()[j].0 == k
                        && s.drop_first()[j].1 == v && forall|m: int| 0 <= m < j ==> s.drop_first()[m].0 != k;
                    assert(s[j + 1] == s.drop_first()[j]);
                    assert forall|m: int| 0 <= m < j + 1 implies s[m].0 != k by {
                        if m > 0 {
                            assert(s[m] == s.drop_first()[m - 1]);
                        }
                    }
                },
                None => {
                    assert forall|j: int| 0 <= j < s.len() implies s[j].0 != k by {
                        if j > 0 {
                            assert(s[j] == s.drop_first()[j - 1]);
                        }
                    }
                },
            }
        }
    }
}

/// Replacing the first field named `k` sets `k` and leaves the others.
proof fn lemma_update_field(s: Seq<(Seq<char>, Json)>, i: int, k: Seq<char>, v: Json)
    requires
        0 <= i < s.len(),
        s[i].0 == k,
        forall|m: int| 0 <= m < i ==> s[m].0 != k,
    ensures
        meta_map(s.update(i, (k, v))) == meta_map(s).insert(k, v),
{
    let t = s.update(i, (k, v));
    assert forall|k2: Seq<char>| field_value(t, k2) == (if k2 == k { Some(v) } else { field_value(s, k2) }) by {
        if k2 == k {
            crate::json::lemma_field_value_first(t, k, i);
        } else {
            lemma_field_value_found(s, k2);
            match field_value(s, k2) {
                Some(w) => {
                    let j = choose|j: int| 0 <= j < s.len() && s[j].0 == k2 && s[j].1 == w
                        && forall|m: int| 0 <= m < j ==> s[m].0 != k2;
                    crate::json::lemma_field_value_first(t, k2, j);
                },
                None => {
                    crate::json::lemma_field_value_first(t, k2, t.len() as int);
                },
            }
        }
    }
    assert(meta_map(t) =~= meta_map(s).insert(k, v));
}

/// Adding a field of a new name sets it and leaves the others.
proof fn lemma_push_field(s: Seq<(Seq<char>, Json)>, k: Seq<char>, v: Json)
    requires
        forall|m: int| 0 <= m < s.len() ==> s[m].0 != k,
    ensures
        meta_map(s.push((k, v))) == meta_map(s).insert(k, v),
{
    let t = s.push((k, v));
    assert forall|k2: Seq<char>| field_value(t, k2) == (if k2 == k { Some(v) } else { field_value(s, k2) }) by {
        if k2 == k {
            crate::json::lemma_field_value_first(t, k, s.len() as int);
        } else {
            lemma_field_value_found(s, k2);
            match field_value(s, k2) {
                Some(w) => {
                    let j = choose|j: int| 0 <= j < s.len() && s[j].0 == k2 && s[j].1 == w
                        && forall|m: int| 0 <= m < j ==> s[m].0 != k2;
                    crate::json::lemma_field_value_first(t, k2, j);
                },
                None => {
                    crate::json::lemma_field_value_first(t, k2, t.len() as int);
                },
            }
        }
    }
    assert(meta_map(t) =~= meta_map(s).insert(k, v));
}

/// Removing the field named `k` of distinct names removes `k` alone.
proof fn lemma_remove_field(s: Seq<(Seq<char>, Json)>, i: int, k: Seq<char>)
    requires
        0 <= i < s.len(),
        s[i].0 == k,
        distinct_names(s),
    ensures
        meta_map(s.remove(i)) == meta_map(s).remove(k),
        distinct_names(s.remove(i)),
{
    let t = s.remove(i);
    assert forall|a: int, b: int| 0 <= a < b < t.len() implies t[a].0 != t[b].0 by {
        let a2 = if a < i { a } else { a + 1 };
        let b2 = if b < i { b } else { b + 1 };
        assert(t[a] == s[a2] && t[b] == s[b2]);
    }
    assert forall|k2: Seq<char>| field_value(t, k2) == (if k2 == k { None } else { field_value(s, k2) }) by {
        if k2 == k {
            assert forall|m: int| 0 <= m < t.len() implies t[m].0 != k by {
                if m < i {
                    assert(t[m] == s[m]);
                } else {
                    assert(t[m] == s[m + 1]);
                }
            }
            crate::json::lemma_field_value_first(t, k, t.len() as int);
        } else {
            lemma_field_value_found(s, k2);
            match field_value(s, k2) {
                Some(w) => {
                    let j = choose|j: int| 0 <= j < s.len() && s[j].0 == k2 && s[j].1 == w
                        && forall|m: int| 0 <= m < j ==> s[m].0 != k2;
                    let j2 = if j < i { j } else { j - 1 };
                    assert(j != i);
                    assert(t[j2] == s[j]);
                    assert forall|m: int| 0 <= m < j2 implies t[m].0 != k2 by {
                        if m < i {
                            assert(t[m] == s[m]);
                        } else {
                            assert(t[m] == s[m + 1]);
                        }
                    }
                    crate::json::lemma_field_value_first(t, k2, j2);
                },
                None => {
                    assert forall|m: int| 0 <= m < t.len() implies t[m].0 != k2 by {
                        if m < i {
                            assert(t[m] == s[m]);
                        } else {
                            assert(t[m] == s[m + 1]);
                        }
                    }
                    crate::json::lemma_field_value_first(t, k2, t.len() as int);
                },
            }
        }
    }
    assert(meta_map(t) =~= meta_map(s).remove(k));
}

/// Sets field `name` to `value`, replacing its value or adding it.
pub fn set_field(fields: &mut Vec<(String, JsonValue)>, name: String, value: JsonValue)
    requires
        distinct_names(fields_view(old(fields)@)),
    ensures
        distinct_names(fields_view(final(fields)@)),
        meta_map(fields_view(final(fields)@)) == meta_map(fields_view(old(fields)@)).insert(name@, value@),
{
    let ghost s = fields_view(fields@);
    let ghost entry = (name@, value@);
    match find_field(fields, name.as_str()) {
        Some(i) => {
            fields.remove(i);
            fields.insert(i, (name, value));
            proof {
                assert(fields_view(fields@) =~= s.update(i as int, entry));
                lemma_update_field(s, i as int, entry.0, entry.1);
                assert forall|a: int, b: int| 0 <= a < b < fields_view(fields@).len()
                    implies fields_view(fields@)[a].0 != fields_view(fields@)[b].0 by {
                    assert(s[a].0 != s[b].0);
                }
            }
        },
        None => {
            fields.push((name, value));
            proof {
                assert(fields_view(fields@) =~= s.push(entry));
                lemma_push_field(s, entry.0, entry.1);
            }
        },
    }
}

/// Removes field `name`, giving its value.
pub fn take_field(fields: &mut Vec<(String, JsonValue)>, name: &str) -> (r: Option<JsonValue>)
    requires
        distinct_names(fields_view(old(fields)@)),
    ensures
        distinct_names(fields_view(final(fields)@)),
        meta_map(fields_view(final(fields)@)) == meta_map(fields_view(old(fields)@)).remove(name@),
        match r {
            Some(v) => meta_map(fields_view(old(fields)@)).contains_key(name@)
                && meta_map(fields_view(old(fields)@))[name@] == v@,
            None => !meta_map(fields_view(old(fields)@)).contains_key(name@),
        },
{
    let ghost s = fields_view(fields@);
    match find_field(fields, name) {
        Some(i) => {
            proof {
                crate::json::lemma_field_value_first(s, name@, i as int);
            }
            let (_, value) = fields.remove(i);
            proof {
                assert(fields_view(fields@) =~= s.remove(i as int));
                lemma_remove_field(s, i as int, name@);
            }
            Some(value)
        },
        None => {
            proof {
                crate::json::lemma_field_value_first(s, name@, s.len() as int);
                assert(meta_map(s) =~= meta_map(s).remove(name@));
            }
            None
        },
    }
}

/// The texts joined, `sep` between each two.
pub open spec fn joined(parts: Seq<Seq<char>>, sep: Seq<char>) -> Seq<char>
    decreases parts.len(),
{
    if parts.len() == 0 {
        Seq::empty()
    } else if parts.len() == 1 {
        parts[0]
    } else {
        joined(parts.drop_last(), sep) + sep + parts.last()
    }
}

/// The strings among the values, in order.
pub open spec fn strings_among(xs: Seq<Json>) -> Seq<Seq<char>>
    decreases xs.len(),
{
    if xs.len() == 0 {
        Seq::empty()
    } else {
        let rest = strings_among(xs.drop_last());
        match xs.last() {
            Json::Str(s) => rest.push(s),
            _ => rest,
        }
    }
}

/// What a conversion makes of a value; `numeric` is what the caller's
/// floating-point conversion made of it, for the numeric conversions.
pub open spec fn converted(v: Json, conversion: ConversionType, numeric: Option<Json>) -> Json {
    match conversion {
        ConversionType::ArrayToString => match v {
            Json::Array(xs) => Json::Str(joined(strings_among(xs), ","@)),
            _ => v,
        },
        ConversionType::StringToArray => match v {
            Json::Str(s) => Json::Array(split_commas(s).map_values(|p: Seq<char>| Json::Str(trimmed(p)))),
            _ => v,
        },
        _ => match numeric {
            Some(n) => n,
            None => v,
        },
    }
}

/// The value a lookup table gives for a text (the first entry for it).
pub open spec fn mapped(table: Seq<(Seq<char>, Seq<char>)>, key: Seq<char>) -> Option<Seq<char>>
    decreases table.len(),
{
    if table.len() == 0 {
        None
    } else if table[0].0 == key {
        Some(table[0].1)
    } else {
        mapped(table.drop_first(), key)
    }
}

/// What a rule does to a record's vector and metadata.
pub open spec fn rule_effect(
    vector: Seq<u32>,
    meta: Map<Seq<char>, Json>,
    rule: TransformationRule,
    numeric: Option<Json>,
) -> (Seq<u32>, Map<Seq<char>, Json>) {
    match rule {
        TransformationRule::DimensionReduction { from_dimension, to_dimension, .. } =>
            if vector.len() == from_dimension && to_dimension < from_dimension {
                (vector.take(to_dimension as int), meta)
            } else {
                (vector, meta)
            },
        TransformationRule::FieldRename { field, new_name } =>
            if meta.contains_key(field@) {
                (vector, meta.remove(field@).insert(new_name@, meta[field@]))
            } else {
                (vector, meta)
            },
        TransformationRule::FieldMap { field, mapping } =>
            if meta.contains_key(field@) {
                match meta[field@] {
                    Json::Str(s) => match mapped(mapping@.map_values(|p: (String, String)| (p.0@, p.1@)), s) {
                        Some(t) => (vector, meta.insert(field@, Json::Str(t))),
                        None => (vector, meta),
                    },
                    _ => (vector, meta),
                }
            } else {
                (vector, meta)
            },
        TransformationRule::FieldConvert { field, conversion } =>
            if meta.contains_key(field@) {
                (vector, meta.insert(field@, converted(meta[field@], conversion, numeric)))
            } else {
                (vector, meta)
            },
        _ => (vector, meta),
    }
}

/// The texts joined by commas.
fn join_strings(xs: &Vec<JsonValue>) -> (r: String)
    ensures
        r@ == joined(strings_among(xs@.map_values(|x: JsonValue| x@)), ","@),
{
    let ghost all = xs@.map_values(|x: JsonValue| x@);
    let mut out = String::new();
    let mut any = false;
    let mut i: usize = 0;
    assert(all.take(0) =~= Seq::<Json>::empty());
    while i < xs.len()
        invariant
            i <= xs@.len(),
            all == xs@.map_values(|x: JsonValue| x@),
            out@ == joined(strings_among(all.take(i as int)), ","@),
            any == (strings_among(all.take(i as int)).len() > 0),
        decreases xs@.len() - i,
    {
        assert(all.take(i + 1).drop_last() =~= all.take(i as int));
        assert(all.take(i + 1).last() == xs@[i as int]@);
        match &xs[i] {
            JsonValue::Str(s) => {
                let ghost parts = strings_among(all.take(i as int));
                if any {
                    out.append(",");
                }
                out.append(s.as_str());
                proof {
                    reveal_strlit(",");
                    let np = parts.push(s@);
                    assert(np.drop_last() =~= parts);
                    if parts.len() == 0 {
                        assert(out@ =~= joined(np, ","@));
                    }
                }
                any = true;
            },
            _ => {},
        }
        i += 1;
    }
    assert(all.take(xs@.len() as int) =~= all);
    out
}

/// The pieces of a text between commas, each trimmed, as strings.
fn split_trimmed(s: &str) -> (r: Vec<JsonValue>)
    ensures
        r@.map_values(|x: JsonValue| x@) == split_commas(s@).map_values(|p: Seq<char>| Json::Str(trimmed(p))),
{
    let chars = crate::text::chars_of(s);
    let mut out: Vec<JsonValue> = Vec::new();
    let mut start: usize = 0;
    let mut i: usize = 0;
    assert(s@.subrange(0, s@.len() as int) =~= s@);
    assert(out@.map_values(|x: JsonValue| x@) =~= Seq::<Json>::empty());
    while i < chars.len()
        invariant
            start <= i <= chars.len(),
            chars@ == s@,
            forall|j: int| start <= j < i ==> s@[j] != ',',
            split_commas(s@).map_values(|p: Seq<char>| Json::Str(trimmed(p)))
                == out@.map_values(|x: JsonValue| x@) + split_commas(s@.subrange(start as int, s@.len() as int)).map_values(|p: Seq<char>| Json::Str(trimmed(p))),
        decreases chars.len() - i,
    {
        if chars[i] == ',' {
            let ghost rest = s@.subrange(start as int, s@.len() as int);
            proof {
                crate::migration::readers::lemma_first_index(rest, ',', i - start);
                assert(rest.take(i - start) =~= s@.subrange(start as int, i as int));
                assert(rest.skip(i - start + 1) =~= s@.subrange(i + 1, s@.len() as int));
            }
            let piece = s.substring_char(start, i);
            let t = trim_text(piece);
            let ghost before = out@;
            out.push(JsonValue::Str(t.to_owned()));
            assert(out@.map_values(|x: JsonValue| x@) =~= before.map_values(|x: JsonValue| x@).push(Json::Str(trimmed(s@.subrange(start as int, i as int)))));
            assert(split_commas(rest) =~= seq![s@.subrange(start as int, i as int)] + split_commas(s@.subrange(i + 1, s@.len() as int)));
            assert(split_commas(rest).map_values(|p: Seq<char>| Json::Str(trimmed(p)))
                =~= seq![Json::Str(trimmed(s@.subrange(start as int, i as int)))]
                + split_commas(s@.subrange(i + 1, s@.len() as int)).map_values(|p: Seq<char>| Json::Str(trimmed(p))));
            start = i + 1;
        }
        i += 1;
    }
    let ghost rest = s@.subrange(start as int, s@.len() as int);
    proof {
        crate::migration::readers::lemma_first_index(rest, ',', rest.len() as int);
    }
    let piece = s.substring_char(start, chars.len());
    let t = trim_text(piece);
    let ghost before = out@;
    out.push(JsonValue::Str(t.to_owned()));
    assert(out@.map_values(|x: JsonValue| x@) =~= before.map_values(|x: JsonValue| x@).push(Json::Str(trimmed(rest))));
    assert(split_commas(rest).map_values(|p: Seq<char>| Json::Str(trimmed(p))) =~= seq![Json::Str(trimmed(rest))]);
    out
}

/// The value a lookup table gives for a text.
fn lookup(table: &Vec<(String, String)>, key: &String) -> (r: Option<String>)
    ensures
        match r {
            Some(v) => mapped(table@.map_values(|p: (String, String)| (p.0@, p.1@)), key@) == Some(v@),
            None => mapped(table@.map_values(|p: (String, String)| (p.0@, p.1@)), key@) is None,
        },
{
    let ghost t = table@.map_values(|p: (String, String)| (p.0@, p.1@));
    let mut i: usize = 0;
    assert(t.skip(0) =~= t);
    while i < table.len()
        invariant
            i <= table@.len(),
            t == table@.map_values(|p: (String, String)| (p.0@, p.1@)),
            mapped(t, key@) == mapped(t.skip(i as int), key@),
        decreases table@.len() - i,
    {
        assert(t.skip(i as int).drop_first() =~= t.skip(i + 1));
        assert(t.skip(i as int)[0] == (table@[i as int].0@, table@[i as int].1@));
        if table[i].0 == *key {
            return Some(table[i].1.clone());
        }
        i += 1;
    }
    None
}

/// Applies a rule to a record: a dimension reduction truncates vectors of
/// the stated dimension, a rename moves a field's value to the new name, a
/// map replaces a text value found in the table, and a conversion replaces
/// a field's value by its conversion (`numeric` being what the caller's
/// floating-point conversion made of it, for the numeric conversions);
/// filters act on whole batches and leave the record.
pub fn apply_transformation_rule(record: &mut VectorRecord, rule: &TransformationRule, numeric: Option<JsonValue>)
    requires
        distinct_names(fields_view(old(record).metadata@)),
    ensures
        distinct_names(fields_view(final(record).metadata@)),
        final(record).id == old(record).id,
        (final(record).vector@, meta_map(fields_view(final(record).metadata@))) == rule_effect(
            old(record).vector@,
            meta_map(fields_view(old(record).metadata@)),
            *rule,
            match numeric { Some(n) => Some(n@), None => None::<Json> },
        ),
{
    let ghost m0 = meta_map(fields_view(record.metadata@));
    match rule {
        TransformationRule::DimensionReduction { from_dimension, to_dimension, .. } => {
            if record.vector.len() == *from_dimension && *to_dimension < *from_dimension {
                record.vector.truncate(*to_dimension);
            }
        },
        TransformationRule::FieldRename { field, new_name } => {
            match take_field(&mut record.metadata, field.as_str()) {
                Some(value) => {
                    set_field(&mut record.metadata, new_name.clone(), value);
                },
                None => {},
            }
        },
        TransformationRule::FieldMap { field, mapping } => {
            let idx = find_field(&record.metadata, field.as_str());
            proof {
                lemma_field_value_found(fields_view(record.metadata@), field@);
                match idx {
                    Some(i) => crate::json::lemma_field_value_first(fields_view(record.metadata@), field@, i as int),
                    None => crate::json::lemma_field_value_first(fields_view(record.metadata@), field@, record.metadata@.len() as int),
                }
            }
            match idx {
                Some(i) => {
                    let replacement = match &record.metadata[i].1 {
                        JsonValue::Str(s) => lookup(mapping, s),
                        _ => None,
                    };
                    match replacement {
                        Some(v) => {
                            set_field(&mut record.metadata, field.clone(), JsonValue::Str(v));
                        },
                        None => {},
                    }
                },
                None => {},
            }
        },
        TransformationRule::FieldConvert { field, conversion } => {
            let idx = find_field(&record.metadata, field.as_str());
            proof {
                match idx {
                    Some(i) => crate::json::lemma_field_value_first(fields_view(record.metadata@), field@, i as int),
                    None => crate::json::lemma_field_value_first(fields_view(record.metadata@), field@, record.metadata@.len() as int),
                }
            }
            match idx {
                Some(i) => {
                    let current = &record.metadata[i].1;
                    assert(m0.contains_key(field@) && m0[field@] == current@);
                    let value = match conversion {
                        ConversionType::ArrayToString => match current {
                            JsonValue::Array(xs) => {
                                assert(current@->Array_0 =~= xs@.map_values(|x: JsonValue| x@));
                                JsonValue::Str(join_strings(xs))
                            },
                            _ => json_clone(current),
                        },
                        ConversionType::StringToArray => match current {
                            JsonValue::Str(s) => {
                                let parts = split_trimmed(s.as_str());
                                let v = JsonValue::Array(parts);
                                assert(v@->Array_0 =~= parts@.map_values(|x: JsonValue| x@));
                                v
                            },
                            _ => json_clone(current),
                        },
                        _ => match numeric {
                            Some(n) => n,
                            None => json_clone(current),
                        },
                    };
                    set_field(&mut record.metadata, field.clone(), value);
                },
                None => {},
            }
        },
        _ => {},
    }
}

} // verus!

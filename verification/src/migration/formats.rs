//! File formats of migration data: detection by file name, conversion
//! rules, CSV escaping, and the framing of the binary record format.

use vstd::prelude::*;
use vstd::string::*;
use crate::text::chars_of;
use crate::types::RTDBError;

verus! {

/// The data formats a migration reads and writes.
#[derive(Debug, Clone, Copy, PartialEq, Eq, Structural)]
pub enum DataFormat {
    Jsonl,
    Parquet,
    Hdf5,
    Binary,
    Csv,
}

/// The position of the last `c` in `s`, if any.
pub open spec fn last_index(s: Seq<char>, c: char) -> Option<int>
    decreases s.len(),
{
    if s.len() == 0 {
        None
    } else if s.last() == c {
        Some(s.len() - 1)
    } else {
        last_index(s.drop_last(), c)
    }
}

/// Where `last_index` points holds `c`, and nothing after it does.
pub proof fn lemma_last_index(s: Seq<char>, c: char)
    ensures
        match last_index(s, c) {
            Some(i) => 0 <= i < s.len() && s[i] == c && forall|j: int| i < j < s.len() ==> s[j] != c,
            None => forall|j: int| 0 <= j < s.len() ==> s[j] != c,
        },
    decreases s.len(),
{
    if s.len() > 0 && s.last() != c {
        lemma_last_index(s.drop_last(), c);
        assert forall|j: int| 0 <= j < s.len() - 1 implies s.drop_last()[j] == s[j] by {}
    }
}

/// The final component of a path, as `Path::file_name` gives it: trailing
/// separators and `.` components are skipped, and a final `..` (or no
/// component at all) gives none.
pub open spec fn file_name_of(p: Seq<char>) -> Option<Seq<char>>
    decreases p.len(),
{
    if p.len() == 0 {
        None
    } else if p.last() == '/' {
        file_name_of(p.drop_last())
    } else {
        let comp = match last_index(p, '/') { Some(i) => p.skip(i + 1), None => p };
        if comp == seq!['.'] {
            match last_index(p, '/') {
                Some(i) => {
                    proof {
                        lemma_last_index(p, '/');
                    }
                    file_name_of(p.take(i))
                },
                None => None,
            }
        } else if comp == seq!['.', '.'] {
            None
        } else {
            Some(comp)
        }
    }
}

/// The extension of a file name, as `Path::extension` gives it: the text
/// after the last `.`, unless there is no `.` or only a leading one.
pub open spec fn extension_of(name: Seq<char>) -> Option<Seq<char>> {
    match last_index(name, '.') {
        Some(d) => if d == 0 { None } else { Some(name.skip(d + 1)) },
        None => None,
    }
}

/// The format a file extension names.
pub open spec fn format_of_extension(ext: Seq<char>) -> Option<DataFormat> {
    if ext == "jsonl"@ || ext == "ndjson"@ {
        Some(DataFormat::Jsonl)
    } else if ext == "parquet"@ {
        Some(DataFormat::Parquet)
    } else if ext == "h5"@ || ext == "hdf5"@ {
        Some(DataFormat::Hdf5)
    } else if ext == "bin"@ || ext == "binary"@ {
        Some(DataFormat::Binary)
    } else if ext == "csv"@ {
        Some(DataFormat::Csv)
    } else {
        None
    }
}

/// The format a path's extension names, if any.
pub open spec fn format_of_path(p: Seq<char>) -> Option<DataFormat> {
    match file_name_of(p) {
        Some(name) => match extension_of(name) {
            Some(ext) => format_of_extension(ext),
            None => None,
        },
        None => None,
    }
}

/// The position of the last `c` among the first `end` characters.
fn find_last(chars: &Vec<char>, c: char, end: usize) -> (r: Option<usize>)
    requires
        end <= chars@.len(),
    ensures
        match r {
            Some(i) => last_index(chars@.take(end as int), c) == Some(i as int),
            None => last_index(chars@.take(end as int), c) is None,
        },
{
    let mut k: usize = end;
    while k > 0
        invariant
            k <= end <= chars@.len(),
            last_index(chars@.take(end as int), c) == last_index(chars@.take(k as int), c),
        decreases k,
    {
        assert(chars@.take(k as int).drop_last() =~= chars@.take(k - 1));
        if chars[k - 1] == c {
            return Some(k - 1);
        }
        k -= 1;
    }
    None
}

/// Whether `chars[from..to]` spells `word`.
fn spells(chars: &Vec<char>, from: usize, to: usize, word: &str) -> (r: bool)
    requires
        from <= to <= chars@.len(),
    ensures
        r == (chars@.subrange(from as int, to as int) == word@),
{
    let w = chars_of(word);
    if to - from != w.len() {
        return false;
    }
    let mut i: usize = 0;
    while i < w.len()
        invariant
            from <= to <= chars@.len(),
            to - from == w@.len(),
            w@ == word@,
            i <= w@.len(),
            forall|j: int| 0 <= j < i ==> chars@[from + j] == w@[j],
        decreases w@.len() - i,
    {
        if chars[from + i] != w[i] {
            assert(chars@.subrange(from as int, to as int)[i as int] != word@[i as int]);
            return false;
        }
        i += 1;
    }
    assert(chars@.subrange(from as int, to as int) =~= word@);
    true
}

/// The characters `chars[from..to]` as a string.
fn text_of(chars: &Vec<char>, from: usize, to: usize) -> (r: String)
    requires
        from <= to <= chars@.len(),
    ensures
        r@ == chars@.subrange(from as int, to as int),
{
    let mut s = String::new();
    let mut i: usize = from;
    while i < to
        invariant
            from <= i <= to <= chars@.len(),
            s@ == chars@.subrange(from as int, i as int),
        decreases to - i,
    {
        crate::text::push_char(&mut s, chars[i]);
        assert(chars@.subrange(from as int, i + 1) =~= chars@.subrange(from as int, i as int).push(chars@[i as int]));
        i += 1;
    }
    s
}

/// The final component of a path.
pub fn file_name(path: &str) -> (r: Option<String>)
    ensures
        match r {
            Some(s) => file_name_of(path@) == Some(s@),
            None => file_name_of(path@) is None,
        },
{
    let chars = chars_of(path);
    let mut end: usize = chars.len();
    assert(chars@.take(end as int) =~= path@);
    loop
        invariant
            end <= chars@.len(),
            chars@ == path@,
            file_name_of(path@) == file_name_of(chars@.take(end as int)),
        decreases end,
    {
        if end == 0 {
            return None;
        }
        let ghost p = chars@.take(end as int);
        if chars[end - 1] == '/' {
            assert(p.drop_last() =~= chars@.take(end - 1));
            end -= 1;
        } else {
            let slash = find_last(&chars, '/', end);
            proof {
                lemma_last_index(p, '/');
            }
            let start: usize = match slash {
                Some(i) => i + 1,
                None => 0,
            };
            proof {
                match slash {
                    Some(i) => {
                        assert(p.skip(i + 1) =~= chars@.subrange(i + 1, end as int));
                    },
                    None => {
                        assert(p =~= chars@.subrange(0, end as int));
                    },
                }
            }
            if spells(&chars, start, end, ".") {
                proof {
                    reveal_strlit(".");
                    assert("."@ =~= seq!['.']);
                }
                match slash {
                    Some(i) => {
                        assert(p.take(i as int) =~= chars@.take(i as int));
                        end = i;
                    },
                    None => {
                        return None;
                    },
                }
            } else if spells(&chars, start, end, "..") {
                proof {
                    reveal_strlit("..");
                    assert(".."@ =~= seq!['.', '.']);
                }
                return None;
            } else {
                proof {
                    reveal_strlit(".");
                    reveal_strlit("..");
                    assert("."@ =~= seq!['.']);
                    assert(".."@ =~= seq!['.', '.']);
                }
                return Some(text_of(&chars, start, end));
            }
        }
    }
}

/// The extension of a path's final component.
pub fn extension(path: &str) -> (r: Option<String>)
    ensures
        match r {
            Some(s) => file_name_of(path@) matches Some(name) && extension_of(name) == Some(s@),
            None => file_name_of(path@) matches Some(name) ==> extension_of(name) is None,
        },
{
    match file_name(path) {
        Some(name) => {
            let chars = chars_of(name.as_str());
            assert(chars@.take(chars@.len() as int) =~= chars@);
            proof {
                lemma_last_index(chars@, '.');
            }
            match find_last(&chars, '.', chars.len()) {
                Some(d) => {
                    if d == 0 {
                        None
                    } else {
                        assert(chars@.skip(d + 1) =~= chars@.subrange(d + 1, chars@.len() as int));
                        Some(text_of(&chars, d + 1, chars.len()))
                    }
                },
                None => None,
            }
        },
        None => None,
    }
}

/// Whether `s` is `word`.
fn is_text(s: &String, word: &str) -> (r: bool)
    ensures
        r == (s@ == word@),
{
    *s == word.to_owned()
}

impl DataFormat {
    /// The format named by a path's extension: `jsonl`/`ndjson`,
    /// `parquet`, `h5`/`hdf5`, `bin`/`binary`, `csv`.
    pub fn from_extension(path: &str) -> (r: Option<DataFormat>)
        ensures
            r == format_of_path(path@),
    {
        proof {
            reveal_strlit("jsonl");
            reveal_strlit("ndjson");
            reveal_strlit("parquet");
            reveal_strlit("h5");
            reveal_strlit("hdf5");
            reveal_strlit("bin");
            reveal_strlit("binary");
            reveal_strlit("csv");
        }
        match extension(path) {
            Some(ext) => {
                if is_text(&ext, "jsonl") || is_text(&ext, "ndjson") {
                    Some(DataFormat::Jsonl)
                } else if is_text(&ext, "parquet") {
                    Some(DataFormat::Parquet)
                } else if is_text(&ext, "h5") || is_text(&ext, "hdf5") {
                    Some(DataFormat::Hdf5)
                } else if is_text(&ext, "bin") || is_text(&ext, "binary") {
                    Some(DataFormat::Binary)
                } else if is_text(&ext, "csv") {
                    Some(DataFormat::Csv)
                } else {
                    None
                }
            },
            None => None,
        }
    }
}

/// Conversion between formats.
pub struct FormatConverter;

/// Why a conversion is refused, if it is: CSV carries no vectors, so it
/// cannot become the binary format.
pub open spec fn conversion_problem(input: DataFormat, output: DataFormat) -> Option<Seq<char>> {
    if input == DataFormat::Csv && output == DataFormat::Binary {
        Some("Cannot convert CSV to binary without vector data"@)
    } else {
        None
    }
}

impl FormatConverter {
    /// Whether data in `input_format` can be written as `output_format`.
    pub fn validate_conversion(input_format: &DataFormat, output_format: &DataFormat) -> (r: Result<(), RTDBError>)
        ensures
            match conversion_problem(*input_format, *output_format) {
                None => r is Ok,
                Some(m) => r matches Err(RTDBError::Config(s)) && s@ == m,
            },
    {
        match (input_format, output_format) {
            (DataFormat::Csv, DataFormat::Binary) =>
                Err(RTDBError::Config("Cannot convert CSV to binary without vector data".to_owned())),
            _ => Ok(()),
        }
    }
}

/// `s` with every `"` doubled.
pub open spec fn double_quotes(s: Seq<char>) -> Seq<char>
    decreases s.len(),
{
    if s.len() == 0 {
        Seq::empty()
    } else {
        double_quotes(s.drop_last()) + if s.last() == '"' { seq!['"', '"'] } else { seq![s.last()] }
    }
}

/// A CSV field: quoted, with quotes doubled, when it holds a comma or a
/// quote; as is otherwise.
pub open spec fn csv_field(s: Seq<char>) -> Seq<char> {
    if s.contains(',') || s.contains('"') {
        seq!['"'] + double_quotes(s) + seq!['"']
    } else {
        s
    }
}

/// Whether a character is a double quote.
pub open spec fn is_quote(c: char) -> bool {
    c == '"'
}

/// Doubling the quotes keeps every other character, in order, and makes
/// two quotes of each.
proof fn lemma_double_quotes_content(s: Seq<char>)
    ensures
        double_quotes(s).filter(|c: char| !is_quote(c)) == s.filter(|c: char| !is_quote(c)),
        double_quotes(s).filter(|c: char| is_quote(c)).len() == 2 * s.filter(|c: char| is_quote(c)).len(),
    decreases s.len(),
{
    reveal(Seq::filter);
    if s.len() > 0 {
        let t = s.drop_last();
        let c = s.last();
        lemma_double_quotes_content(t);
        let piece: Seq<char> = if c == '"' { seq!['"', '"'] } else { seq![c] };
        Seq::filter_distributes_over_add(double_quotes(t), piece, |c: char| !is_quote(c));
        Seq::filter_distributes_over_add(double_quotes(t), piece, |c: char| is_quote(c));
        reveal_with_fuel(Seq::filter, 3);
        if c == '"' {
            assert(piece.drop_last() =~= seq!['"']);
            assert(seq!['"'].drop_last() =~= Seq::<char>::empty());
            assert(Seq::<char>::empty().filter(|c: char| !is_quote(c)) =~= Seq::<char>::empty());
            assert(seq!['"'].filter(|c: char| !is_quote(c)) =~= Seq::<char>::empty());
            assert(piece.filter(|c: char| !is_quote(c)) =~= Seq::<char>::empty());
            assert(piece.filter(|c: char| is_quote(c)) =~= seq!['"', '"']);
        } else {
            assert(piece.drop_last() =~= Seq::<char>::empty());
            assert(Seq::<char>::empty().filter(|c: char| is_quote(c)) =~= Seq::<char>::empty());
            assert(piece.filter(|c: char| !is_quote(c)) =~= seq![c]);
            assert(piece.filter(|c: char| is_quote(c)) =~= Seq::<char>::empty());
        }
    }
}

/// A value holding a comma or a double quote is written as one quoted
/// field: it begins and ends with a double quote, and between them are the
/// value's other characters in order and two quotes for each of its
/// quotes; any other value is written as it is.
pub proof fn lemma_csv_field_quoted(s: Seq<char>)
    ensures
        (s.contains(',') || s.contains('"')) ==> {
            let f = csv_field(s);
            let inner = f.subrange(1, f.len() - 1);
            &&& f.len() >= 2
            &&& f[0] == '"'
            &&& f.last() == '"'
            &&& inner.filter(|c: char| !is_quote(c)) == s.filter(|c: char| !is_quote(c))
            &&& inner.filter(|c: char| is_quote(c)).len() == 2 * s.filter(|c: char| is_quote(c)).len()
        },
        !(s.contains(',') || s.contains('"')) ==> csv_field(s) == s,
{
    if s.contains(',') || s.contains('"') {
        let f = csv_field(s);
        assert(f.subrange(1, f.len() - 1) =~= double_quotes(s));
        lemma_double_quotes_content(s);
    }
}

/// Escapes a value for a CSV line.
pub fn csv_escape(value: &str) -> (r: String)
    ensures
        r@ == csv_field(value@),
{
    let chars = chars_of(value);
    let mut needs_quotes = false;
    let mut body = String::new();
    let mut i: usize = 0;
    while i < chars.len()
        invariant
            i <= chars@.len(),
            chars@ == value@,
            body@ == double_quotes(chars@.take(i as int)),
            needs_quotes == (chars@.take(i as int).contains(',') || chars@.take(i as int).contains('"')),
        decreases chars@.len() - i,
    {
        let c = chars[i];
        let ghost t = chars@.take(i + 1);
        assert(t.drop_last() =~= chars@.take(i as int));
        assert(t.last() == c);
        if c == '"' {
            crate::text::push_char(&mut body, '"');
            crate::text::push_char(&mut body, '"');
            assert(body@ =~= double_quotes(t));
        } else {
            crate::text::push_char(&mut body, c);
            assert(body@ =~= double_quotes(t));
        }
        proof {
            assert forall|x: char| t.contains(x) <==> (chars@.take(i as int).contains(x) || x == c) by {
                if t.contains(x) {
                    let j = choose|j: int| 0 <= j < t.len() && t[j] == x;
                    if j < i {
                        assert(chars@.take(i as int)[j] == x);
                    }
                }
                if chars@.take(i as int).contains(x) {
                    let j = choose|j: int| 0 <= j < i && chars@.take(i as int)[j] == x;
                    assert(t[j] == x);
                }
                if x == c {
                    assert(t[i as int] == x);
                }
            }
        }
        if c == ',' || c == '"' {
            needs_quotes = true;
        }
        i += 1;
    }
    assert(chars@.take(chars@.len() as int) =~= value@);
    if needs_quotes {
        let mut r = String::new();
        crate::text::push_char(&mut r, '"');
        r.append(body.as_str());
        crate::text::push_char(&mut r, '"');
        assert(r@ =~= seq!['"'] + double_quotes(value@) + seq!['"']);
        r
    } else {
        proof {
            lemma_no_quotes(value@);
        }
        body
    }
}

proof fn lemma_no_quotes(s: Seq<char>)
    requires
        !s.contains('"'),
    ensures
        double_quotes(s) == s,
    decreases s.len(),
{
    if s.len() > 0 {
        assert(!s.drop_last().contains('"')) by {
            if s.drop_last().contains('"') {
                let j = choose|j: int| 0 <= j < s.drop_last().len() && s.drop_last()[j] == '"';
                assert(s[j] == '"');
            }
        }
        lemma_no_quotes(s.drop_last());
        assert(s[s.len() - 1] != '"');
        assert(double_quotes(s) =~= s);
    }
}

} // verus!

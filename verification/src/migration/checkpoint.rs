//! Checkpoints of resumable migrations: what a checkpoint holds, where its
//! file lives, which files are checkpoints, and what a listing of them
//! amounts to. Reading and writing the files is the caller's part.

use vstd::prelude::*;
use crate::json::{Json, JsonValue};
use crate::types::RTDBError;
use crate::migration::formats::{last_index, extension_of, file_name_of};
use crate::migration::clients::config_error;

verus! {

/// A checkpoint of a migration.
#[derive(Debug, Clone)]
pub struct Checkpoint {
    pub migration_id: u128,
    /// When it was taken, in milliseconds since the Unix epoch.
    pub timestamp: i64,
    /// The offset reached in the source.
    pub offset: u64,
    pub batch_id: u64,
    pub processed_records: u64,
    pub failed_records: u64,
    pub source_state: JsonValue,
    pub target_state: JsonValue,
    /// The hash of the migration's configuration when it was taken.
    pub config_hash: String,
    pub metadata: Vec<(String, JsonValue)>,
}

impl Checkpoint {
    /// A checkpoint with the given state and no metadata.
    pub fn new(
        migration_id: u128,
        timestamp: i64,
        offset: u64,
        batch_id: u64,
        processed_records: u64,
        failed_records: u64,
        source_state: JsonValue,
        target_state: JsonValue,
        config_hash: String,
    ) -> (r: Self)
        ensures
            r.migration_id == migration_id,
            r.timestamp == timestamp,
            r.offset == offset,
            r.batch_id == batch_id,
            r.processed_records == processed_records,
            r.failed_records == failed_records,
            r.source_state@ == source_state@,
            r.target_state@ == target_state@,
            r.config_hash@ == config_hash@,
            r.metadata@.len() == 0,
    {
        Checkpoint {
            migration_id,
            timestamp,
            offset,
            batch_id,
            processed_records,
            failed_records,
            source_state,
            target_state,
            config_hash,
            metadata: Vec::new(),
        }
    }
}

/// The lowercase hexadecimal digit for `d` (below sixteen).
pub open spec fn hex_digit(d: nat) -> char {
    if d < 10 { (48 + d) as char } else { (87 + d) as char }
}

/// The last `count` hexadecimal digits of `n`, most significant first.
pub open spec fn hex_digits(n: nat, count: nat) -> Seq<char>
    decreases count,
{
    if count == 0 {
        Seq::empty()
    } else {
        hex_digits(n / 16, (count - 1) as nat).push(hex_digit(n % 16))
    }
}

/// The hyphenated text of a UUID: its 32 lowercase hexadecimal digits,
/// most significant first, in groups of 8, 4, 4, 4 and 12.
pub open spec fn uuid_text(id: u128) -> Seq<char> {
    let h = hex_digits(id as nat, 32);
    h.subrange(0, 8) + seq!['-'] + h.subrange(8, 12) + seq!['-'] + h.subrange(12, 16) + seq!['-']
        + h.subrange(16, 20) + seq!['-'] + h.subrange(20, 32)
}

/// uuid's `Uuid::from_u128(id)` displayed: the hyphenated text.
#[verifier::external_body]
fn uuid_string(id: u128) -> (r: String)
    ensures
        r@ == uuid_text(id),
{
    uuid::Uuid::from_u128(id).to_string()
}

/// The UUID that uuid's `Uuid::parse_str` reads from `text`, if it reads one.
pub uninterp spec fn uuid_parsed(text: Seq<char>) -> Option<u128>;

/// uuid's `Uuid::parse_str`, as a 128-bit value. It reads back the
/// hyphenated text of any UUID, as its documentation promises for every
/// format the crate writes.
#[verifier::external_body]
fn parse_uuid(text: &str) -> (r: Option<u128>)
    ensures
        r == uuid_parsed(text@),
        forall|id: u128| text@ == uuid_text(id) ==> r == Some(id),
{
    match uuid::Uuid::parse_str(text) {
        Ok(u) => Some(u.as_u128()),
        Err(_) => None,
    }
}

/// `dir` joined with a file name, as a path: a separator goes between
/// them unless `dir` is empty or ends in one.
pub open spec fn join_path(dir: Seq<char>, name: Seq<char>) -> Seq<char> {
    if dir.len() == 0 {
        name
    } else if dir.last() == '/' {
        dir + name
    } else {
        dir + seq!['/'] + name
    }
}

/// The name of the checkpoint file of a migration.
pub open spec fn checkpoint_file_name(id: u128) -> Seq<char> {
    uuid_text(id) + ".json"@
}

/// The part of a file name before its extension.
pub open spec fn file_stem_of(name: Seq<char>) -> Seq<char> {
    match last_index(name, '.') {
        Some(d) => if d == 0 { name } else { name.take(d) },
        None => name,
    }
}

/// The extension of a path's final component.
pub open spec fn path_extension(p: Seq<char>) -> Option<Seq<char>> {
    match file_name_of(p) {
        Some(f) => extension_of(f),
        None => None,
    }
}

/// The migration a directory entry is the checkpoint of: a `.json` file
/// whose stem reads as a UUID.
pub open spec fn checkpoint_of_file(name: Seq<char>) -> Option<u128> {
    if path_extension(name) == Some("json"@) {
        match file_name_of(name) {
            Some(f) => uuid_parsed(file_stem_of(f)),
            None => None,
        }
    } else {
        None
    }
}

/// The migrations whose checkpoint files are among `names`, in order.
pub open spec fn checkpoints_among(names: Seq<Seq<char>>) -> Seq<u128>
    decreases names.len(),
{
    if names.len() == 0 {
        Seq::empty()
    } else {
        let rest = checkpoints_among(names.drop_last());
        match checkpoint_of_file(names.last()) {
            Some(id) => rest.push(id),
            None => rest,
        }
    }
}

/// The sum of the sizes of the checkpoint files whose metadata was read.
pub open spec fn total_size(files: Seq<Option<(u64, Option<i64>)>>) -> int
    decreases files.len(),
{
    if files.len() == 0 {
        0
    } else {
        total_size(files.drop_last()) + match files.last() {
            Some((size, _)) => size as int,
            None => 0,
        }
    }
}

/// The least (`oldest`) or greatest modification time among the files
/// whose time was read.
pub open spec fn extreme_time(files: Seq<Option<(u64, Option<i64>)>>, oldest: bool) -> Option<i64>
    decreases files.len(),
{
    if files.len() == 0 {
        None
    } else {
        let rest = extreme_time(files.drop_last(), oldest);
        match files.last() {
            Some((_, Some(t))) => match rest {
                None => Some(t),
                Some(x) => if (oldest && t < x) || (!oldest && t > x) { Some(t) } else { Some(x) },
            },
            _ => rest,
        }
    }
}

/// Whether a directory entry (a file name and its modification time) is a
/// checkpoint file modified before `cutoff`.
pub open spec fn expired(entry: (String, Option<i64>), cutoff: i64) -> bool {
    &&& path_extension(entry.0@) == Some("json"@)
    &&& entry.1 matches Some(t) && t < cutoff
}

/// What a listing of checkpoints amounts to.
#[derive(Debug, Clone)]
pub struct CheckpointStats {
    pub count: usize,
    pub total_size_bytes: u64,
    /// The earliest modification time, in milliseconds since the Unix epoch.
    pub oldest_timestamp: Option<i64>,
    /// The latest modification time, in milliseconds since the Unix epoch.
    pub newest_timestamp: Option<i64>,
}

/// Where a migration's checkpoints are kept.
#[derive(Debug, Clone)]
pub struct CheckpointManager {
    checkpoint_dir: String,
}

impl CheckpointManager {
    /// The directory the checkpoints are kept in.
    pub closed spec fn dir(&self) -> Seq<char> {
        self.checkpoint_dir@
    }

    /// A manager of the checkpoints in `checkpoint_dir`.
    pub fn new(checkpoint_dir: String) -> (r: Result<Self, RTDBError>)
        ensures
            r matches Ok(m) && m.dir() == checkpoint_dir@,
    {
        Ok(CheckpointManager { checkpoint_dir })
    }

    /// The directory the checkpoints are kept in.
    pub fn directory(&self) -> (r: &str)
        ensures
            r@ == self.dir(),
    {
        self.checkpoint_dir.as_str()
    }

    /// A checkpoint fits the current configuration only if it was taken
    /// under a configuration with the same hash.
    pub fn validate_checkpoint(&self, checkpoint: &Checkpoint, current_config_hash: &str) -> (r: Result<(), RTDBError>)
        ensures
            r is Ok <==> checkpoint.config_hash@ == current_config_hash@,
            r matches Err(e) ==> config_error(e, "Checkpoint configuration hash mismatch - migration config has changed"@),
    {
        if checkpoint.config_hash != current_config_hash.to_owned() {
            return Err(RTDBError::Config(
                "Checkpoint configuration hash mismatch - migration config has changed".to_owned(),
            ));
        }
        Ok(())
    }

    /// `name` in the checkpoint directory.
    fn in_dir(&self, name: String) -> (r: String)
        ensures
            r@ == join_path(self.dir(), name@),
    {
        let dir = self.checkpoint_dir.as_str();
        let n = dir.unicode_len();
        if n == 0 {
            return name;
        }
        let mut path = dir.to_owned();
        if dir.get_char(n - 1) != '/' {
            path.append("/");
            proof {
                reveal_strlit("/");
            }
        }
        path.append(name.as_str());
        proof {
            assert(path@ =~= join_path(self.dir(), name@));
        }
        path
    }

    /// The path of a migration's checkpoint file.
    pub fn checkpoint_path(&self, migration_id: u128) -> (r: String)
        ensures
            r@ == join_path(self.dir(), checkpoint_file_name(migration_id)),
    {
        let mut name = uuid_string(migration_id);
        name.append(".json");
        self.in_dir(name)
    }

    /// The path a checkpoint is written to before it replaces the file.
    pub fn temporary_path(&self, migration_id: u128) -> (r: String)
        ensures
            r@ == join_path(self.dir(), uuid_text(migration_id) + ".tmp"@),
    {
        let mut name = uuid_string(migration_id);
        name.append(".tmp");
        self.in_dir(name)
    }

    /// The migrations whose checkpoint files are among the file names of
    /// the directory: the `.json` files named by a UUID. A migration whose
    /// checkpoint file is there is among them.
    pub fn checkpoint_ids(file_names: &Vec<String>) -> (r: Vec<u128>)
        ensures
            r@ == checkpoints_among(file_names@.map_values(|s: String| s@)),
            forall|id: u128| file_names@.map_values(|s: String| s@).contains(checkpoint_file_name(id)) ==> r@.contains(id),
    {
        let ghost names = file_names@.map_values(|s: String| s@);
        let mut out: Vec<u128> = Vec::new();
        let mut i: usize = 0;
        assert(names.take(0) =~= Seq::<Seq<char>>::empty());
        while i < file_names.len()
            invariant
                i <= file_names.len(),
                names == file_names@.map_values(|s: String| s@),
                out@ == checkpoints_among(names.take(i as int)),
                forall|id: u128, j: int| 0 <= j < i && names[j] == checkpoint_file_name(id) ==> out@.contains(id),
            decreases file_names.len() - i,
        {
            assert(names.take(i + 1).drop_last() =~= names.take(i as int));
            let name = file_names[i].as_str();
            assert(names.take(i + 1).last() == name@);
            let found = match crate::migration::formats::extension(name) {
                Some(ext) => if ext == "json".to_owned() {
                    match crate::migration::formats::file_name(name) {
                        Some(f) => {
                            let stem = file_stem(f.as_str());
                            parse_uuid(stem.as_str())
                        },
                        None => None,
                    }
                } else {
                    None
                },
                None => None,
            };
            proof {
                lemma_checkpoint_name(name@);
            }
            let ghost before = out@;
            match found {
                Some(id) => {
                    out.push(id);
                    assert(out@ == before.push(id));
                    assert forall|x: u128, j: int| 0 <= j < i + 1 && names[j] == checkpoint_file_name(x) implies out@.contains(x) by {
                        if j < i {
                            assert(before.contains(x));
                            let k = choose|k: int| 0 <= k < before.len() && before[k] == x;
                            assert(out@[k] == x);
                        } else {
                            assert(out@[before.len() as int] == id);
                        }
                    }
                },
                None => {},
            }
            i += 1;
        }
        assert(names.take(file_names.len() as int) =~= names);
        out
    }

    /// Which files a cleanup removes: the `.json` files whose modification
    /// time is known and earlier than `cutoff`. Entries are file names
    /// with their modification times in milliseconds since the Unix epoch.
    pub fn expired_checkpoints(entries: &Vec<(String, Option<i64>)>, cutoff: i64) -> (r: Vec<usize>)
        ensures
            forall|k: int| 0 <= k < r@.len() ==> r@[k] < entries@.len(),
            forall|k: int, l: int| 0 <= k < l < r@.len() ==> r@[k] < r@[l],
            forall|j: int| 0 <= j < entries@.len() ==> (r@.contains(j as usize) <==> expired(entries@[j], cutoff)),
    {
        let mut out: Vec<usize> = Vec::new();
        let mut i: usize = 0;
        while i < entries.len()
            invariant
                i <= entries.len(),
                forall|k: int| 0 <= k < out@.len() ==> out@[k] < i,
                forall|k: int, l: int| 0 <= k < l < out@.len() ==> out@[k] < out@[l],
                forall|j: int| 0 <= j < i ==> (out@.contains(j as usize) <==> expired(entries@[j], cutoff)),
            decreases entries.len() - i,
        {
            let is_json = match crate::migration::formats::extension(entries[i].0.as_str()) {
                Some(ext) => ext == "json".to_owned(),
                None => false,
            };
            let old_enough = match entries[i].1 {
                Some(t) => t < cutoff,
                None => false,
            };
            let ghost before = out@;
            if is_json && old_enough {
                out.push(i);
                assert(out@[before.len() as int] == i);
            }
            assert forall|j: int| 0 <= j < i + 1 implies (out@.contains(j as usize) <==> expired(entries@[j], cutoff)) by {
                if j < i {
                    if before.contains(j as usize) {
                        let k = choose|k: int| 0 <= k < before.len() && before[k] == j as usize;
                        assert(out@[k] == j as usize);
                    }
                    if out@.contains(j as usize) {
                        let k = choose|k: int| 0 <= k < out@.len() && out@[k] == j as usize;
                        assert(k < before.len());
                        assert(before[k] == j as usize);
                    }
                } else if out@.contains(j as usize) && !(is_json && old_enough) {
                    let k = choose|k: int| 0 <= k < out@.len() && out@[k] == j as usize;
                    assert(before[k] < i);
                }
            }
            i += 1;
        }
        out
    }

    /// What a listing amounts to: `count` checkpoints; for each the size
    /// and modification time of its file (`None` where the file's metadata
    /// could not be read, and no time where the time could not).
    pub fn checkpoint_stats(count: usize, files: &Vec<Option<(u64, Option<i64>)>>) -> (r: CheckpointStats)
        requires
            total_size(files@) <= u64::MAX,
        ensures
            r.count == count,
            r.total_size_bytes == total_size(files@),
            r.oldest_timestamp == extreme_time(files@, true),
            r.newest_timestamp == extreme_time(files@, false),
    {
        let mut total: u64 = 0;
        let mut oldest: Option<i64> = None;
        let mut newest: Option<i64> = None;
        let mut i: usize = 0;
        while i < files.len()
            invariant
                i <= files.len(),
                total_size(files@) <= u64::MAX,
                total == total_size(files@.take(i as int)),
                oldest == extreme_time(files@.take(i as int), true),
                newest == extreme_time(files@.take(i as int), false),
            decreases files.len() - i,
        {
            assert(files@.take(i + 1).drop_last() =~= files@.take(i as int));
            proof {
                lemma_total_size_prefix(files@, i + 1);
            }
            match files[i] {
                Some((size, modified)) => {
                    total = total + size;
                    match modified {
                        Some(t) => {
                            oldest = match oldest {
                                None => Some(t),
                                Some(x) => if t < x { Some(t) } else { Some(x) },
                            };
                            newest = match newest {
                                None => Some(t),
                                Some(x) => if t > x { Some(t) } else { Some(x) },
                            };
                        },
                        None => {},
                    }
                },
                None => {},
            }
            i += 1;
        }
        assert(files@.take(files.len() as int) =~= files@);
        CheckpointStats { count, total_size_bytes: total, oldest_timestamp: oldest, newest_timestamp: newest }
    }
}

/// Sizes only add up: a prefix's total is at most the whole's.
proof fn lemma_total_size_prefix(files: Seq<Option<(u64, Option<i64>)>>, i: int)
    requires
        0 <= i <= files.len(),
    ensures
        total_size(files.take(i)) <= total_size(files),
    decreases files.len() - i,
{
    if i < files.len() {
        lemma_total_size_prefix(files, i + 1);
        assert(files.take(i + 1).drop_last() =~= files.take(i));
    } else {
        assert(files.take(i) =~= files);
    }
}

/// The part of a file name before its extension.
fn file_stem(name: &str) -> (r: String)
    ensures
        r@ == file_stem_of(name@),
{
    let chars = crate::text::chars_of(name);
    let mut k: usize = chars.len();
    assert(name@.take(k as int) =~= name@);
    while k > 0 && chars[k - 1] != '.'
        invariant
            k <= chars.len(),
            chars@ == name@,
            last_index(name@, '.') == last_index(name@.take(k as int), '.'),
        decreases k,
    {
        assert(name@.take(k as int).drop_last() =~= name@.take(k - 1));
        k -= 1;
    }
    if k <= 1 {
        proof {
            if k == 1 {
                assert(last_index(name@.take(1), '.') == Some(0int));
            } else {
                assert(name@.take(0) =~= Seq::<char>::empty());
            }
        }
        return name.to_owned();
    }
    proof {
        assert(last_index(name@.take(k as int), '.') == Some(k - 1));
    }
    name.substring_char(0, k - 1).to_owned()
}

/// A character that does not occur in `s` has no last position in it.
proof fn lemma_last_index_absent(s: Seq<char>, c: char)
    requires
        forall|i: int| 0 <= i < s.len() ==> s[i] != c,
    ensures
        last_index(s, c) is None,
    decreases s.len(),
{
    if s.len() > 0 {
        lemma_last_index_absent(s.drop_last(), c);
    }
}

/// Characters other than `c` after `a` do not move its last position.
proof fn lemma_last_index_suffix(a: Seq<char>, b: Seq<char>, c: char)
    requires
        forall|i: int| 0 <= i < b.len() ==> b[i] != c,
    ensures
        last_index(a + b, c) == last_index(a, c),
    decreases b.len(),
{
    if b.len() > 0 {
        assert((a + b).drop_last() =~= a + b.drop_last());
        lemma_last_index_suffix(a, b.drop_last(), c);
    } else {
        assert(a + b =~= a);
    }
}

/// A checkpoint's file name is its own final component, with extension
/// `json` and the hyphenated UUID as its stem.
proof fn lemma_checkpoint_name(name: Seq<char>)
    ensures
        forall|id: u128| name == checkpoint_file_name(id) ==> path_extension(name) == Some("json"@)
            && file_name_of(name) == Some(name) && file_stem_of(name) == uuid_text(id),
{
    assert forall|id: u128| name == checkpoint_file_name(id) implies path_extension(name) == Some("json"@)
        && file_name_of(name) == Some(name) && file_stem_of(name) == uuid_text(id) by {
        reveal_strlit(".json");
        reveal_strlit("json");
        lemma_uuid_text_digits(id);
        let u = uuid_text(id);
        assert(name.len() == 41);
        lemma_last_index_absent(name, '/');
        assert(name != seq!['.']);
        assert(name != seq!['.', '.']);
        assert(file_name_of(name) == Some(name));
        let dotted = u + seq!['.'];
        assert(name =~= dotted + "json"@);
        lemma_last_index_suffix(dotted, "json"@, '.');
        assert(last_index(dotted, '.') == Some(36int));
        assert(name.skip(37) =~= "json"@);
        assert(name.take(36) =~= u);
    }
}

/// The digits of a UUID are hexadecimal digits: none is a dot or a slash.
proof fn lemma_hex_digits(n: nat, count: nat)
    ensures
        hex_digits(n, count).len() == count,
        forall|i: int| 0 <= i < count ==> hex_digits(n, count)[i] != '.' && hex_digits(n, count)[i] != '/',
    decreases count,
{
    if count > 0 {
        lemma_hex_digits(n / 16, (count - 1) as nat);
        let d = n % 16;
        assert(hex_digit(d) != '.' && hex_digit(d) != '/');
    }
}

proof fn lemma_uuid_text_digits(id: u128)
    ensures
        uuid_text(id).len() == 36,
        forall|i: int| 0 <= i < 36 ==> uuid_text(id)[i] != '.' && uuid_text(id)[i] != '/',
{
    lemma_hex_digits(id as nat, 32);
}

} // verus!

//! Test data: numbered keys and accounts for the workloads.

use vstd::prelude::*;
use rand::rngs::StdRng;
use crate::random::{entropy_rng, seeded_rng, random_index, random_i64_in};
use crate::text::{decimal, push_decimal};
use crate::json::{Json, JsonNumber, JsonValue};

verus! {

/// An ASCII letter or digit.
pub open spec fn is_alphanumeric(c: char) -> bool {
    ('a' <= c <= 'z') || ('A' <= c <= 'Z') || ('0' <= c <= '9')
}

/// The `i`-th character of the charset: lower-case letters, then
/// upper-case letters, then digits.
fn charset_char(i: usize) -> (c: char)
    requires
        i < 62,
    ensures
        is_alphanumeric(c),
{
    if i < 26 {
        ((97 + i) as u8) as char
    } else if i < 52 {
        ((65 + (i - 26)) as u8) as char
    } else {
        ((48 + (i - 52)) as u8) as char
    }
}

/// A source of random test data. What it draws depends on the generator's
/// state, so the contracts say what holds of every draw.
pub struct DataGenerator {
    rng: StdRng,
}

impl DataGenerator {
    /// A generator seeded from the operating system.
    pub fn new() -> Self {
        DataGenerator { rng: entropy_rng() }
    }

    /// A generator determined by `seed`.
    pub fn with_seed(seed: u64) -> Self {
        DataGenerator { rng: seeded_rng(seed) }
    }

    /// A string of `length` random ASCII letters and digits.
    pub fn random_string(&mut self, length: usize) -> (r: String)
        ensures
            r@.len() == length,
            forall|i: int| 0 <= i < r@.len() ==> is_alphanumeric(#[trigger] r@[i]),
    {
        let mut s = String::new();
        let mut i: usize = 0;
        while i < length
            invariant
                i <= length,
                s@.len() == i,
                forall|j: int| 0 <= j < s@.len() ==> is_alphanumeric(#[trigger] s@[j]),
            decreases length - i,
        {
            let idx = random_index(&mut self.rng, 62);
            let c = charset_char(idx);
            crate::text::push_char(&mut s, c);
            i += 1;
        }
        s
    }

    /// One of `keys`, drawn at random (the keys must not be empty).
    pub fn random_key(&mut self, keys: &Vec<String>) -> (r: String)
        requires
            keys@.len() > 0,
        ensures
            exists|i: int| 0 <= i < keys@.len() && keys@[i]@ == r@,
    {
        let i = random_index(&mut self.rng, keys.len());
        keys[i].clone()
    }

    /// An integer drawn from `min..=max`.
    pub fn random_int(&mut self, min: i64, max: i64) -> (r: i64)
        requires
            min <= max,
        ensures
            min <= r <= max,
    {
        random_i64_in(&mut self.rng, min, max)
    }
}

/// `"<prefix>-<i>"`.
pub open spec fn numbered(prefix: Seq<char>, i: nat) -> Seq<char> {
    prefix + "-"@ + decimal(i)
}

/// `"<prefix>-<i>"` for `i` in `0..count`.
pub open spec fn numbered_keys(prefix: Seq<char>, count: nat) -> Seq<Seq<char>> {
    Seq::new(count, |i: int| numbered(prefix, i as nat))
}

/// `"<prefix>-<i>"`.
pub fn numbered_key(prefix: &str, i: usize) -> (r: String)
    ensures
        r@ == numbered(prefix@, i as nat),
{
    let mut s = prefix.to_owned();
    s.append("-");
    proof {
        reveal_strlit("-");
    }
    push_decimal(&mut s, i as u64);
    s
}

/// The keys `"<prefix>-0"`, ..., `"<prefix>-<count - 1>"`.
pub fn generate_keys(prefix: &str, count: usize) -> (r: Vec<String>)
    ensures
        r@.map_values(|k: String| k@) == numbered_keys(prefix@, count as nat),
{
    let mut keys: Vec<String> = Vec::new();
    let mut i: usize = 0;
    while i < count
        invariant
            i <= count,
            keys@.len() == i,
            forall|j: int| 0 <= j < i ==> #[trigger] keys@[j]@ == numbered(prefix@, j as nat),
        decreases count - i,
    {
        keys.push(numbered_key(prefix, i));
        i += 1;
    }
    assert(keys@.map_values(|k: String| k@) =~= numbered_keys(prefix@, count as nat));
    keys
}

/// Accounts `"account-<i>"` for `i` in `0..count`, each with
/// `initial_balance`.
pub fn generate_accounts(count: usize, initial_balance: u64) -> (r: Vec<(String, u64)>)
    ensures
        r@.len() == count,
        forall|i: int| 0 <= i < count ==> #[trigger] r@[i].0@ == numbered("account"@, i as nat)
            && r@[i].1 == initial_balance,
{
    let mut accounts: Vec<(String, u64)> = Vec::new();
    let mut i: usize = 0;
    while i < count
        invariant
            i <= count,
            accounts@.len() == i,
            forall|j: int| 0 <= j < i ==> #[trigger] accounts@[j].0@ == numbered("account"@, j as nat)
                && accounts@[j].1 == initial_balance,
        decreases count - i,
    {
        accounts.push((numbered_key("account", i), initial_balance));
        i += 1;
    }
    accounts
}

/// Register keys `"register-<i>"`.
pub fn register_data(num_keys: usize) -> (r: Vec<String>)
    ensures
        r@.map_values(|k: String| k@) == numbered_keys("register"@, num_keys as nat),
{
    generate_keys("register", num_keys)
}

/// The numbers `0..count` as JSON values.
pub fn number_values(count: usize) -> (r: Vec<JsonValue>)
    ensures
        r@.len() == count,
        forall|i: int| 0 <= i < count ==> (#[trigger] r@[i])@ == Json::Number(JsonNumber::PosInt(i as u64)),
{
    let mut values: Vec<JsonValue> = Vec::new();
    let mut i: usize = 0;
    while i < count
        invariant
            i <= count,
            values@.len() == i,
            forall|j: int| 0 <= j < i ==> (#[trigger] values@[j])@ == Json::Number(JsonNumber::PosInt(j as u64)),
        decreases count - i,
    {
        values.push(JsonValue::Number(JsonNumber::PosInt(i as u64)));
        i += 1;
    }
    values
}

/// Set keys `"set-<i>"` and the elements `0..elements_per_set`.
pub fn set_data(num_sets: usize, elements_per_set: usize) -> (r: (Vec<String>, Vec<JsonValue>))
    ensures
        r.0@.map_values(|k: String| k@) == numbered_keys("set"@, num_sets as nat),
        r.1@.len() == elements_per_set,
        forall|i: int| 0 <= i < elements_per_set ==> (#[trigger] r.1@[i])@ == Json::Number(JsonNumber::PosInt(i as u64)),
{
    (generate_keys("set", num_sets), number_values(elements_per_set))
}

/// Bank accounts `"account-<i>"` with the initial balance.
pub fn bank_data(num_accounts: usize, initial_balance: u64) -> (r: Vec<(String, u64)>)
    ensures
        r@.len() == num_accounts,
        forall|i: int| 0 <= i < num_accounts ==> #[trigger] r@[i].0@ == numbered("account"@, i as nat)
            && r@[i].1 == initial_balance,
{
    generate_accounts(num_accounts, initial_balance)
}

/// Counter keys `"counter-<i>"`.
pub fn counter_data(num_counters: usize) -> (r: Vec<String>)
    ensures
        r@.map_values(|k: String| k@) == numbered_keys("counter"@, num_counters as nat),
{
    generate_keys("counter", num_counters)
}

/// List keys `"list-<i>"`.
pub fn list_data(num_lists: usize) -> (r: Vec<String>)
    ensures
        r@.map_values(|k: String| k@) == numbered_keys("list"@, num_lists as nat),
{
    generate_keys("list", num_lists)
}


/// Nanoseconds in a millisecond, the step of a burst schedule.
pub const MILLISECOND_NANOS: u64 = 1_000_000;

/// When a bursty load runs at its burst rate: every call advances a
/// clock by a millisecond; a burst starts once `burst_interval` has passed
/// since the last one began, and lasts `burst_duration`. Times are in
/// nanoseconds.
pub struct BurstSchedule {
    burst_duration: u64,
    burst_interval: u64,
    current_time: u64,
    last_burst: u64,
}

impl BurstSchedule {
    /// The last burst began no later than now.
    pub closed spec fn well_formed(&self) -> bool {
        self.last_burst <= self.current_time
    }

    /// The schedule's clock.
    pub closed spec fn now(&self) -> u64 {
        self.current_time
    }

    /// When the last burst began.
    pub closed spec fn burst_start(&self) -> u64 {
        self.last_burst
    }

    /// How long a burst lasts.
    pub closed spec fn duration(&self) -> u64 {
        self.burst_duration
    }

    /// How long after a burst begins the next may begin.
    pub closed spec fn interval(&self) -> u64 {
        self.burst_interval
    }

    /// A schedule at time zero, with a burst beginning then.
    pub fn new(burst_duration: u64, burst_interval: u64) -> (r: Self)
        ensures
            r.well_formed(),
            r.now() == 0,
            r.burst_start() == 0,
            r.duration() == burst_duration,
            r.interval() == burst_interval,
    {
        BurstSchedule { burst_duration, burst_interval, current_time: 0, last_burst: 0 }
    }

    /// Advances the clock by a millisecond and tells whether the next
    /// request goes at the burst rate: during a burst, or when a new one is
    /// due (which then begins now, unless the last is still running).
    pub fn next_is_burst(&mut self) -> (r: bool)
        requires
            old(self).well_formed(),
            old(self).now() + MILLISECOND_NANOS <= u64::MAX,
        ensures
            final(self).well_formed(),
            final(self).now() == old(self).now() + MILLISECOND_NANOS,
            final(self).duration() == old(self).duration(),
            final(self).interval() == old(self).interval(),
            ({
                let since = final(self).now() - old(self).burst_start();
                let in_burst = since < old(self).duration();
                let due = since >= old(self).interval();
                &&& r == (in_burst || due)
                &&& final(self).burst_start() == if due && !in_burst { final(self).now() } else { old(self).burst_start() }
            }),
    {
        self.current_time = self.current_time + MILLISECOND_NANOS;
        let since = self.current_time - self.last_burst;
        let in_burst = since < self.burst_duration;
        let should_burst = since >= self.burst_interval;
        if should_burst && !in_burst {
            self.last_burst = self.current_time;
        }
        in_burst || should_burst
    }
}

} // verus!

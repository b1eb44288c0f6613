//! Workloads whose draws need no floating point: bank transfers, counter
//! increments and set additions. A workload's operations are random; the
//! contracts say what every generated operation looks like.

use vstd::prelude::*;
use rand::rngs::StdRng;
use crate::text::{decimal, push_decimal};
use crate::json::{json_clone, Json, JsonNumber, JsonValue, json_get, json_as_u64, get_field, as_u64};
use crate::random::{random_index, random_u64_in, random_i64_in, random_ratio};
use super::model::{ConsistencyModel, OperationType, TransactionOp};
use super::generators::{generate_keys, number_values, numbered, numbered_keys};

verus! {

/// Transfers between accounts, and balance reads.
pub struct BankWorkload {
    accounts: Vec<String>,
    max_transfer: u64,
}

/// The transaction moving `amount` from `from` to `to`: read both, then
/// write `"subtract-<amount>"` to the first and `"add-<amount>"` to the
/// second.
pub open spec fn is_transfer(ops: Seq<TransactionOp>, from: Seq<char>, to: Seq<char>, amount: u64) -> bool {
    &&& ops.len() == 4
    &&& ops[0] matches TransactionOp::Read { key } && key@ == from
    &&& ops[1] matches TransactionOp::Read { key } && key@ == to
    &&& ops[2] matches TransactionOp::Write { key, value } && key@ == from
        && value@ == Json::Str("subtract-"@ + decimal(amount as nat))
    &&& ops[3] matches TransactionOp::Write { key, value } && key@ == to
        && value@ == Json::Str("add-"@ + decimal(amount as nat))
}

/// What a bank operation can be: a read of an account, or a transfer of
/// `1..=max` between two different accounts.
pub open spec fn is_bank_operation(accounts: Seq<Seq<char>>, max: u64, op: OperationType) -> bool {
    ||| (op matches OperationType::Read { key } && accounts.contains(key@))
    ||| (op matches OperationType::Transaction { ops } && exists|f: int, t: int, amount: u64|
            0 <= f < accounts.len() && 0 <= t < accounts.len() && f != t && 1 <= amount <= max
            && #[trigger] is_transfer(ops@, accounts[f], accounts[t], amount))
}

/// `"<prefix><amount>"` as a JSON string.
fn amount_text(prefix: &str, amount: u64) -> (r: JsonValue)
    ensures
        r@ == Json::Str(prefix@ + decimal(amount as nat)),
{
    let mut s = prefix.to_owned();
    push_decimal(&mut s, amount);
    JsonValue::Str(s)
}

impl BankWorkload {
    /// The account names.
    pub closed spec fn accounts(&self) -> Seq<Seq<char>> {
        self.accounts@.map_values(|a: String| a@)
    }

    /// The largest amount one transfer moves.
    pub closed spec fn max_transfer(&self) -> u64 {
        self.max_transfer
    }

    /// Accounts `"account-<i>"` for `i` in `0..num_accounts`.
    pub fn new(num_accounts: usize, max_transfer: u64) -> (r: Self)
        ensures
            r.accounts() == numbered_keys("account"@, num_accounts as nat),
            r.max_transfer() == max_transfer,
    {
        BankWorkload { accounts: generate_keys("account", num_accounts), max_transfer }
    }

    /// A balance read (with probability 3/10) or a transfer between two
    /// different accounts, each pair and amount equally likely. There must
    /// be two accounts and a positive maximum.
    pub fn generate_operation(&self, rng: &mut StdRng) -> (r: OperationType)
        requires
            self.accounts().len() >= 2,
            self.max_transfer() >= 1,
        ensures
            is_bank_operation(self.accounts(), self.max_transfer(), r),
    {
        let n = self.accounts.len();
        let ghost accts = self.accounts();
        if random_ratio(rng, 3, 10) {
            let i = random_index(rng, n);
            let key = self.accounts[i].clone();
            assert(accts[i as int] == key@);
            let r = OperationType::Read { key };
            assert(is_bank_operation(accts, self.max_transfer, r));
            r
        } else {
            let from = random_index(rng, n);
            let other = random_index(rng, n - 1);
            let to = if other >= from { other + 1 } else { other };
            let amount = random_u64_in(rng, 1, self.max_transfer);
            let from_account = self.accounts[from].clone();
            let to_account = self.accounts[to].clone();
            let ops = vec![
                TransactionOp::Read { key: from_account.clone() },
                TransactionOp::Read { key: to_account.clone() },
                TransactionOp::Write { key: from_account, value: amount_text("subtract-", amount) },
                TransactionOp::Write { key: to_account, value: amount_text("add-", amount) },
            ];
            proof {
                reveal_strlit("subtract-");
                reveal_strlit("add-");
                assert(accts[from as int] == self.accounts@[from as int]@);
                assert(accts[to as int] == self.accounts@[to as int]@);
                assert(is_transfer(ops@, accts[from as int], accts[to as int], amount));
            }
            let ghost fi = from as int;
            let ghost ti = to as int;
            assert(0 <= fi < accts.len() && 0 <= ti < accts.len() && fi != ti && 1 <= amount <= self.max_transfer);
            assert(exists|f: int, t: int, a: u64|
                0 <= f < accts.len() && 0 <= t < accts.len() && f != t && 1 <= a <= self.max_transfer
                && #[trigger] is_transfer(ops@, accts[f], accts[t], a));
            let ghost ops_v = ops@;
            let r = OperationType::Transaction { ops };
            assert(r->ops@ == ops_v);
            assert(is_bank_operation(accts, self.max_transfer, r));
            r
        }
    }

    /// `"bank"`.
    pub fn name(&self) -> (r: &'static str)
        ensures
            r@ == "bank"@,
    {
        "bank"
    }

    /// Transfers are checked for strict serializability.
    pub fn consistency_model(&self) -> (r: ConsistencyModel)
        ensures
            r == ConsistencyModel::StrictSerializability,
    {
        ConsistencyModel::StrictSerializability
    }
}

/// Increments of counters, and counter reads.
pub struct CounterWorkload {
    counters: Vec<String>,
    max_increment: i64,
}

/// What a counter operation can be: a read of a counter, or an increment of
/// one by `1..=max`.
pub open spec fn is_counter_operation(counters: Seq<Seq<char>>, max: i64, op: OperationType) -> bool {
    ||| (op matches OperationType::Read { key } && counters.contains(key@))
    ||| (op matches OperationType::Increment { key, delta } && counters.contains(key@) && 1 <= delta <= max)
}

impl CounterWorkload {
    /// The counter names.
    pub closed spec fn counters(&self) -> Seq<Seq<char>> {
        self.counters@.map_values(|c: String| c@)
    }

    /// The largest increment.
    pub closed spec fn max_increment(&self) -> i64 {
        self.max_increment
    }

    /// Counters `"counter-<i>"` for `i` in `0..num_counters`.
    pub fn new(num_counters: usize, max_increment: i64) -> (r: Self)
        ensures
            r.counters() == numbered_keys("counter"@, num_counters as nat),
            r.max_increment() == max_increment,
    {
        CounterWorkload { counters: generate_keys("counter", num_counters), max_increment }
    }

    /// A read of a random counter (with probability 2/10) or an increment
    /// of it by a random amount in `1..=max`. There must be a counter and
    /// a positive maximum.
    pub fn generate_operation(&self, rng: &mut StdRng) -> (r: OperationType)
        requires
            self.counters().len() >= 1,
            self.max_increment() >= 1,
        ensures
            is_counter_operation(self.counters(), self.max_increment(), r),
    {
        let i = random_index(rng, self.counters.len());
        let key = self.counters[i].clone();
        assert(self.counters()[i as int] == key@);
        if random_ratio(rng, 2, 10) {
            OperationType::Read { key }
        } else {
            let delta = random_i64_in(rng, 1, self.max_increment);
            OperationType::Increment { key, delta }
        }
    }

    /// `"counter"`.
    pub fn name(&self) -> (r: &'static str)
        ensures
            r@ == "counter"@,
    {
        "counter"
    }

    /// Counters are checked for linearizability.
    pub fn consistency_model(&self) -> (r: ConsistencyModel)
        ensures
            r == ConsistencyModel::Linearizability,
    {
        ConsistencyModel::Linearizability
    }
}

/// Additions of elements to sets.
pub struct SetWorkload {
    keys: Vec<String>,
    elements: Vec<JsonValue>,
}

impl SetWorkload {
    /// The set names.
    pub closed spec fn keys(&self) -> Seq<Seq<char>> {
        self.keys@.map_values(|k: String| k@)
    }

    /// The elements added.
    pub closed spec fn elements(&self) -> Seq<Json> {
        self.elements@.map_values(|e: JsonValue| e@)
    }

    /// Sets `"set-<i>"` for `i` in `0..num_keys`, elements `0..num_elements`.
    pub fn new(num_keys: usize, num_elements: usize) -> (r: Self)
        ensures
            r.keys() == numbered_keys("set"@, num_keys as nat),
            r.elements() == Seq::new(num_elements as nat, |i: int| Json::Number(JsonNumber::PosInt(i as u64))),
    {
        let r = SetWorkload { keys: generate_keys("set", num_keys), elements: number_values(num_elements) };
        assert(r.elements() =~= Seq::new(num_elements as nat, |i: int| Json::Number(JsonNumber::PosInt(i as u64))));
        r
    }

    /// Adds a random element to a random set. There must be a set and an
    /// element.
    pub fn generate_operation(&self, rng: &mut StdRng) -> (r: OperationType)
        requires
            self.keys().len() >= 1,
            self.elements().len() >= 1,
        ensures
            r matches OperationType::SetAdd { key, element } && self.keys().contains(key@)
                && self.elements().contains(element@),
    {
        let i = random_index(rng, self.keys.len());
        let key = self.keys[i].clone();
        let j = random_index(rng, self.elements.len());
        let element = json_clone(&self.elements[j]);
        assert(self.keys()[i as int] == key@);
        assert(self.elements()[j as int] == element@);
        OperationType::SetAdd { key, element }
    }

    /// `"set"`.
    pub fn name(&self) -> (r: &'static str)
        ensures
            r@ == "set"@,
    {
        "set"
    }

    /// Sets are checked for serializability.
    pub fn consistency_model(&self) -> (r: ConsistencyModel)
        ensures
            r == ConsistencyModel::Serializability,
    {
        ConsistencyModel::Serializability
    }
}


/// A numeric workload parameter: the field `name` of the parameters when it
/// is a non-negative integer, else `default`.
pub open spec fn param_value(params: Json, name: Seq<char>, default: u64) -> u64 {
    match json_get(params, name) {
        Some(v) => match json_as_u64(v) {
            Some(n) => n,
            None => default,
        },
        None => default,
    }
}

/// A numeric workload parameter: the field `name` of the parameters when it
/// is a non-negative integer, else `default`.
pub fn param_u64(params: &JsonValue, name: &str, default: u64) -> (r: u64)
    ensures
        r == param_value(params@, name@, default),
{
    match get_field(params, name) {
        Some(v) => match as_u64(v) {
            Some(n) => n,
            None => default,
        },
        None => default,
    }
}

/// A set workload from custom parameters: `num_keys` sets (default 3) of
/// `num_elements` elements (default 10).
pub fn custom_set_workload(params: &JsonValue) -> (r: SetWorkload)
    ensures
        r.keys() == numbered_keys("set"@, param_value(params@, "num_keys"@, 3) as usize as nat),
        r.elements() == Seq::new(param_value(params@, "num_elements"@, 10) as usize as nat, |i: int| Json::Number(JsonNumber::PosInt(i as u64))),
{
    let num_keys = param_u64(params, "num_keys", 3) as usize;
    let num_elements = param_u64(params, "num_elements", 10) as usize;
    SetWorkload::new(num_keys, num_elements)
}

/// A bank workload from custom parameters: `num_accounts` accounts
/// (default 5) and transfers of up to `max_transfer` (default 100).
pub fn custom_bank_workload(params: &JsonValue) -> (r: BankWorkload)
    ensures
        r.accounts() == numbered_keys("account"@, param_value(params@, "num_accounts"@, 5) as usize as nat),
        r.max_transfer() == param_value(params@, "max_transfer"@, 100),
{
    let num_accounts = param_u64(params, "num_accounts", 5) as usize;
    let max_transfer = param_u64(params, "max_transfer", 100);
    BankWorkload::new(num_accounts, max_transfer)
}

} // verus!

use vstd::prelude::*;

use crate::prefixed::{spec_full_key, spec_prefix_impl, calculate_prefix_impl, PrefixedStorage};
use crate::storage::{bytes_eq, concat_bytes, MemoryStorage};
use vstd::string::StringSliceAdditionalSpecFns;
use vstd::string::StringExecFns;

verus! {

/// The errors of the token contract.
#[derive(Debug, Clone, PartialEq, Eq)]
pub enum ContractError {
    /// An amount is not a decimal number that fits 128 bits.
    ParseError,
    NameWrongFormat,
    TickerWrongSymbolFormat,
    DecimalsExceeded,
    InsufficientAllowance { allowance: u128, required: u128 },
    InsufficientFunds { balance: u128, required: u128 },
    CorruptedDataFound,
}

impl ContractError {
    /// The message the contract reports for the error, without the amounts it carries.
    pub fn message(&self) -> (r: &'static str)
        ensures
            r@ == match *self {
                ContractError::ParseError => "Error while parsing decimal string to u128"@,
                ContractError::NameWrongFormat => "Name is not in the expected format (3-30 UTF-8 bytes)"@,
                ContractError::TickerWrongSymbolFormat => "Ticker symbol is not in expected format [A-Z]{3,6}"@,
                ContractError::DecimalsExceeded => "Decimals must not exceed 18"@,
                ContractError::InsufficientAllowance { .. } => "Insufficient allowance"@,
                ContractError::InsufficientFunds { .. } => "Insufficient funds"@,
                ContractError::CorruptedDataFound => "Corrupted data found. 16 byte expected."@,
            },
    {
        match self {
            ContractError::ParseError => "Error while parsing decimal string to u128",
            ContractError::NameWrongFormat => "Name is not in the expected format (3-30 UTF-8 bytes)",
            ContractError::TickerWrongSymbolFormat => "Ticker symbol is not in expected format [A-Z]{3,6}",
            ContractError::DecimalsExceeded => "Decimals must not exceed 18",
            ContractError::InsufficientAllowance { .. } => "Insufficient allowance",
            ContractError::InsufficientFunds { .. } => "Insufficient funds",
            ContractError::CorruptedDataFound => "Corrupted data found. 16 byte expected.",
        }
    }
}

/// The token's name, ticker symbol and number of decimals.
#[derive(Debug, Clone, PartialEq, Eq)]
pub struct Constants {
    pub name: String,
    pub symbol: String,
    pub decimals: u8,
}

/// A balance that the token starts with; the address is canonical.
#[derive(Debug, Clone, PartialEq, Eq)]
pub struct InitialBalance {
    pub address: Vec<u8>,
    pub amount: String,
}

/// The message that creates the token.
#[derive(Debug, Clone, PartialEq, Eq)]
pub struct InitMsg {
    pub name: String,
    pub symbol: String,
    pub decimals: u8,
    pub initial_balances: Vec<InitialBalance>,
}

/// An address's balance, in decimal.
#[derive(Debug, Clone, PartialEq, Eq)]
pub struct BalanceResponse {
    pub balance: String,
}

/// What a spender may still move from an owner's balance, in decimal.
#[derive(Debug, Clone, PartialEq, Eq)]
pub struct AllowanceResponse {
    pub allowance: String,
}

/// The stored state of the token: its constants and its storage of balances, allowances and
/// total supply.
pub struct Erc20 {
    pub constants: Constants,
    pub store: MemoryStorage,
}

// ---------------------------------------------------------------------------------------------
// Numbers as bytes and decimal text
// ---------------------------------------------------------------------------------------------

/// The number that big-endian bytes denote.
pub open spec fn be_value(s: Seq<u8>) -> nat
    decreases s.len(),
{
    if s.len() == 0 {
        0
    } else {
        be_value(s.drop_last()) * 256 + s.last() as nat
    }
}

/// The lowest `n` bytes of a number, big-endian.
pub open spec fn be_bytes(x: nat, n: nat) -> Seq<u8>
    decreases n,
{
    if n == 0 {
        Seq::empty()
    } else {
        be_bytes(x / 256, (n - 1) as nat).push((x % 256) as u8)
    }
}

/// 256 to the power `n`.
pub open spec fn pow256(n: nat) -> nat
    decreases n,
{
    if n == 0 {
        1
    } else {
        256 * pow256((n - 1) as nat)
    }
}

proof fn lemma_pow256_pos(n: nat)
    ensures
        pow256(n) > 0,
    decreases n,
{
    if n > 0 {
        lemma_pow256_pos((n - 1) as nat);
    }
}

proof fn lemma_be_bytes(x: nat, n: nat)
    ensures
        be_bytes(x, n).len() == n,
        be_value(be_bytes(x, n)) == x % pow256(n),
    decreases n,
{
    if n > 0 {
        lemma_be_bytes(x / 256, (n - 1) as nat);
        lemma_pow256_pos((n - 1) as nat);
        let p = pow256((n - 1) as nat);
        let s = be_bytes(x, n);
        assert(s.drop_last() =~= be_bytes(x / 256, (n - 1) as nat));
        vstd::arithmetic::div_mod::lemma_breakdown(x as int, 256, p as int);
        assert(((x / 256) % p) * 256 == 256 * ((x / 256) % p)) by (nonlinear_arith);
    } else {
        assert(x % 1 == 0);
    }
}

proof fn lemma_be_value_bound(s: Seq<u8>)
    ensures
        be_value(s) < pow256(s.len()),
    decreases s.len(),
{
    if s.len() > 0 {
        lemma_be_value_bound(s.drop_last());
        let v = be_value(s.drop_last());
        let p = pow256(s.drop_last().len());
        assert(v * 256 + s.last() < 256 * p) by (nonlinear_arith)
            requires
                v < p,
                s.last() < 256,
        ;
    }
}

proof fn lemma_pow256_16()
    ensures
        pow256(16) == 0x1_0000_0000_0000_0000_0000_0000_0000_0000,
{
    reveal_with_fuel(pow256, 17);
}

/// Decoding the 16 big-endian bytes of a `u128` gives the number back.
pub proof fn lemma_u128_bytes_roundtrip(x: u128)
    ensures
        be_bytes(x as nat, 16).len() == 16,
        be_value(be_bytes(x as nat, 16)) == x,
        be_value(be_bytes(x as nat, 16).take(16)) == x,
{
    lemma_be_bytes(x as nat, 16);
    lemma_pow256_16();
    assert(be_bytes(x as nat, 16).take(16) =~= be_bytes(x as nat, 16));
}

fn be_bytes_exec(x: u128, n: usize) -> (r: Vec<u8>)
    ensures
        r@ == be_bytes(x as nat, n as nat),
    decreases n,
{
    if n == 0 {
        Vec::new()
    } else {
        let mut v = be_bytes_exec(x / 256, n - 1);
        v.push((x % 256) as u8);
        v
    }
}

/// The 16 big-endian bytes of a number.
pub fn u128_to_be_bytes(x: u128) -> (r: Vec<u8>)
    ensures
        r@ == be_bytes(x as nat, 16),
        r@.len() == 16,
        be_value(r@) == x,
{
    proof {
        lemma_u128_bytes_roundtrip(x);
    }
    be_bytes_exec(x, 16)
}

/// Converts 16 big-endian bytes into a number; data of any other length is corrupted.
pub fn bytes_to_u128(data: &[u8]) -> (r: Result<u128, ContractError>)
    ensures
        data@.len() != 16 ==> r == Err::<u128, ContractError>(ContractError::CorruptedDataFound),
        data@.len() == 16 ==> r == Ok::<u128, ContractError>(be_value(data@) as u128),
        data@.len() == 16 ==> be_value(data@) <= u128::MAX,
{
    if data.len() != 16 {
        return Err(ContractError::CorruptedDataFound);
    }
    let mut acc: u128 = 0;
    let mut i: usize = 0;
    proof {
        lemma_be_value_bound(data@.take(16));
        lemma_pow256_16();
    }
    while i < 16
        invariant
            i <= 16,
            data@.len() >= 16,
            acc == be_value(data@.take(i as int)),
        decreases 16 - i,
    {
        proof {
            assert(data@.take(i + 1).drop_last() =~= data@.take(i as int));
            lemma_be_value_bound(data@.take(i as int));
            lemma_pow256_16();
            let v = acc as int;
            let p = pow256(i as nat);
            assert(pow256(i as nat) * 256 <= pow256(16)) by {
                lemma_pow_mono(i as nat, 15);
            }
            assert(v * 256 + 255 < 0x1_0000_0000_0000_0000_0000_0000_0000_0000) by (nonlinear_arith)
                requires
                    v < p,
                    p * 256 <= 0x1_0000_0000_0000_0000_0000_0000_0000_0000,
            ;
        }
        acc = acc * 256 + data[i] as u128;
        i = i + 1;
    }
    assert(data@.take(16) =~= data@);
    Ok(acc)
}

proof fn lemma_pow_mono(i: nat, j: nat)
    requires
        i <= j,
    ensures
        pow256(i) <= pow256(j),
    decreases j,
{
    if i < j {
        lemma_pow_mono(i, (j - 1) as nat);
        lemma_pow256_pos((j - 1) as nat);
    }
}

/// The byte is an ASCII decimal digit.
pub open spec fn is_digit(b: u8) -> bool {
    48 <= b <= 57
}

/// The number that ASCII decimal digits denote.
pub open spec fn digits_value(s: Seq<u8>) -> nat
    decreases s.len(),
{
    if s.len() == 0 {
        0
    } else {
        digits_value(s.drop_last()) * 10 + (s.last() - 48) as nat
    }
}

/// The digits of a decimal text: the text without one leading plus sign.
pub open spec fn decimal_digits(s: Seq<u8>) -> Seq<u8> {
    if s.len() > 0 && s[0] == 43 {
        s.drop_first()
    } else {
        s
    }
}

/// The text is a decimal number, optionally with a plus sign, that fits 128 bits.
pub open spec fn parses_as_u128(s: Seq<u8>) -> bool {
    let d = decimal_digits(s);
    &&& d.len() > 0
    &&& forall|i: int| 0 <= i < d.len() ==> is_digit(#[trigger] d[i])
    &&& digits_value(d) <= u128::MAX
}

proof fn lemma_digits_prefix(s: Seq<u8>, i: int)
    requires
        0 <= i <= s.len(),
        forall|k: int| 0 <= k < s.len() ==> is_digit(#[trigger] s[k]),
    ensures
        digits_value(s.take(i)) <= digits_value(s),
    decreases s.len(),
{
    if i < s.len() {
        let t = s.drop_last();
        lemma_digits_prefix(t, i);
        assert(t.take(i) =~= s.take(i));
    } else {
        assert(s.take(i) =~= s);
    }
}

/// Parses a decimal number, as `str::parse::<u128>` does.
pub fn parse_u128(source: &str) -> (r: Result<u128, ContractError>)
    ensures
        parses_as_u128(source.spec_bytes()) ==> r == Ok::<u128, ContractError>(
            digits_value(decimal_digits(source.spec_bytes())) as u128,
        ),
        !parses_as_u128(source.spec_bytes()) ==> r == Err::<u128, ContractError>(
            ContractError::ParseError,
        ),
{
    let bytes = source.as_bytes();
    let ghost d = decimal_digits(bytes@);
    let start: usize = if bytes.len() > 0 && bytes[0] == 43u8 {
        1
    } else {
        0
    };
    assert(d =~= bytes@.subrange(start as int, bytes@.len() as int));
    if start >= bytes.len() {
        return Err(ContractError::ParseError);
    }
    let mut acc: u128 = 0;
    let mut i: usize = start;
    while i < bytes.len()
        invariant
            start <= i <= bytes@.len(),
            bytes@ == source.spec_bytes(),
            d == decimal_digits(bytes@),
            d == bytes@.subrange(start as int, bytes@.len() as int),
            forall|k: int| 0 <= k < i - start ==> is_digit(#[trigger] d[k]),
            acc == digits_value(d.take(i - start)),
        decreases bytes@.len() - i,
    {
        let b = bytes[i];
        proof {
            assert(d[i - start] == b);
            assert(d.take(i - start + 1).drop_last() =~= d.take(i - start));
        }
        if b < 48 || b > 57 {
            assert(!is_digit(d[i - start]));
            return Err(ContractError::ParseError);
        }
        let next = match acc.checked_mul(10) {
            Some(m) => m.checked_add((b - 48) as u128),
            None => None,
        };
        match next {
            Some(v) => {
                acc = v;
            },
            None => {
                proof {
                    let k = i - start + 1;
                    assert(digits_value(d.take(k)) > u128::MAX);
                    if forall|q: int| 0 <= q < d.len() ==> is_digit(#[trigger] d[q]) {
                        lemma_digits_prefix(d, k);
                        assert(digits_value(d) > u128::MAX);
                    }
                    assert(!parses_as_u128(bytes@));
                }
                return Err(ContractError::ParseError);
            },
        }
        i = i + 1;
    }
    proof {
        assert(d.take(d.len() as int) =~= d);
    }
    Ok(acc)
}

/// The decimal digit character for a number below ten.
pub open spec fn digit_char(d: nat) -> char {
    (48 + d) as char
}

/// The decimal text of a number, without sign or leading zeros.
pub open spec fn decimal_chars(x: nat) -> Seq<char>
    decreases x,
{
    if x < 10 {
        seq![digit_char(x)]
    } else {
        decimal_chars(x / 10).push(digit_char(x % 10))
    }
}

/// The text of one decimal digit.
fn digit_text(d: u128) -> (r: &'static str)
    requires
        d < 10,
    ensures
        r@ == seq![digit_char(d as nat)],
{
    proof {
        reveal_strlit("0");
        reveal_strlit("1");
        reveal_strlit("2");
        reveal_strlit("3");
        reveal_strlit("4");
        reveal_strlit("5");
        reveal_strlit("6");
        reveal_strlit("7");
        reveal_strlit("8");
        reveal_strlit("9");
    }
    if d == 0 {
        "0"
    } else if d == 1 {
        "1"
    } else if d == 2 {
        "2"
    } else if d == 3 {
        "3"
    } else if d == 4 {
        "4"
    } else if d == 5 {
        "5"
    } else if d == 6 {
        "6"
    } else if d == 7 {
        "7"
    } else if d == 8 {
        "8"
    } else {
        "9"
    }
}

/// Formats a number in decimal, without sign or leading zeros.
fn u128_to_string(x: u128) -> (r: String)
    ensures
        r@ == decimal_chars(x as nat),
    decreases x,
{
    if x < 10 {
        String::from_str(digit_text(x))
    } else {
        let mut s = u128_to_string(x / 10);
        s.append(digit_text(x % 10));
        s
    }
}

// ---------------------------------------------------------------------------------------------
// Name and symbol rules
// ---------------------------------------------------------------------------------------------

/// A name has 3 to 30 bytes.
pub open spec fn valid_name(bytes: Seq<u8>) -> bool {
    3 <= bytes.len() <= 30
}

/// A ticker symbol has 3 to 6 bytes, all upper-case ASCII letters.
pub open spec fn valid_symbol(bytes: Seq<u8>) -> bool {
    &&& 3 <= bytes.len() <= 6
    &&& forall|i: int| 0 <= i < bytes.len() ==> 65 <= #[trigger] bytes[i] <= 90
}

/// Whether the name has 3 to 30 bytes.
pub fn is_valid_name(name: &str) -> (r: bool)
    ensures
        r == valid_name(name.spec_bytes()),
{
    let bytes = name.as_bytes();
    if bytes.len() < 3 || bytes.len() > 30 {
        return false;
    }
    true
}

/// Whether the symbol has 3 to 6 bytes, all upper-case ASCII letters.
pub fn is_valid_symbol(symbol: &str) -> (r: bool)
    ensures
        r == valid_symbol(symbol.spec_bytes()),
{
    let bytes = symbol.as_bytes();
    if bytes.len() < 3 || bytes.len() > 6 {
        return false;
    }
    let mut i: usize = 0;
    while i < bytes.len()
        invariant
            i <= bytes@.len(),
            bytes@ == symbol.spec_bytes(),
            forall|k: int| 0 <= k < i ==> 65 <= #[trigger] bytes@[k] <= 90,
        decreases bytes@.len() - i,
    {
        if bytes[i] < 65 || bytes[i] > 90 {
            assert(!(65 <= bytes@[i as int] <= 90));
            return false;
        }
        i = i + 1;
    }
    true
}

// ---------------------------------------------------------------------------------------------
// Storage layout
// ---------------------------------------------------------------------------------------------

/// The namespace of balances: `balances`.
pub open spec fn balances_ns() -> Seq<u8> {
    seq![98u8, 97u8, 108u8, 97u8, 110u8, 99u8, 101u8, 115u8]
}

/// The namespace of allowances: `allowances`.
pub open spec fn allowances_ns() -> Seq<u8> {
    seq![97u8, 108u8, 108u8, 111u8, 119u8, 97u8, 110u8, 99u8, 101u8, 115u8]
}

/// The namespace of the configuration: `config`.
pub open spec fn config_ns() -> Seq<u8> {
    seq![99u8, 111u8, 110u8, 102u8, 105u8, 103u8]
}

/// The key of the total supply in the configuration: `total_supply`.
pub open spec fn total_supply_key() -> Seq<u8> {
    seq![116u8, 111u8, 116u8, 97u8, 108u8, 95u8, 115u8, 117u8, 112u8, 112u8, 108u8, 121u8]
}

fn balances_prefix() -> (r: Vec<u8>)
    ensures
        r@ == balances_ns(),
{
    let v = vec![98u8, 97u8, 108u8, 97u8, 110u8, 99u8, 101u8, 115u8];
    assert(v@ =~= balances_ns());
    v
}

fn allowances_prefix() -> (r: Vec<u8>)
    ensures
        r@ == allowances_ns(),
{
    let v = vec![97u8, 108u8, 108u8, 111u8, 119u8, 97u8, 110u8, 99u8, 101u8, 115u8];
    assert(v@ =~= allowances_ns());
    v
}

fn config_prefix() -> (r: Vec<u8>)
    ensures
        r@ == config_ns(),
{
    let v = vec![99u8, 111u8, 110u8, 102u8, 105u8, 103u8];
    assert(v@ =~= config_ns());
    v
}

fn total_supply_key_exec() -> (r: Vec<u8>)
    ensures
        r@ == total_supply_key(),
{
    let v = vec![116u8, 111u8, 116u8, 97u8, 108u8, 95u8, 115u8, 117u8, 112u8, 112u8, 108u8, 121u8];
    assert(v@ =~= total_supply_key());
    v
}

/// The number stored under a key, zero if nothing is.
pub open spec fn stored_u128(m: Map<Seq<u8>, Seq<u8>>, key: Seq<u8>) -> nat {
    if m.contains_key(key) {
        be_value(m[key].take(16))
    } else {
        0
    }
}

/// The store with a number written under a key.
pub open spec fn with_u128(m: Map<Seq<u8>, Seq<u8>>, key: Seq<u8>, v: u128) -> Map<Seq<u8>, Seq<u8>> {
    m.insert(key, be_bytes(v as nat, 16))
}

/// Every stored value is a 16-byte number.
pub open spec fn values_are_u128(m: Map<Seq<u8>, Seq<u8>>) -> bool {
    forall|k: Seq<u8>| #[trigger] m.contains_key(k) ==> m[k].len() == 16
}

/// The key of an address's balance.
pub open spec fn balance_key(addr: Seq<u8>) -> Seq<u8> {
    spec_full_key(balances_ns(), addr)
}

/// The key of what a spender may move from an owner's balance.
pub open spec fn allowance_key(owner: Seq<u8>, spender: Seq<u8>) -> Seq<u8> {
    spec_full_key(allowances_ns(), spec_prefix_impl(owner) + spender)
}

/// The key of the total supply.
pub open spec fn supply_key() -> Seq<u8> {
    spec_full_key(config_ns(), total_supply_key())
}

impl Erc20 {
    /// The token's invariant: a well-formed store of 16-byte numbers.
    pub open spec fn wf(&self) -> bool {
        &&& self.store.wf()
        &&& values_are_u128(self.store@)
    }

    /// The balance of an address.
    pub open spec fn balance(&self, addr: Seq<u8>) -> nat {
        stored_u128(self.store@, balance_key(addr))
    }

    /// What a spender may move from an owner's balance.
    pub open spec fn allowance(&self, owner: Seq<u8>, spender: Seq<u8>) -> nat {
        stored_u128(self.store@, allowance_key(owner, spender))
    }

    /// The total supply.
    pub open spec fn total_supply(&self) -> nat {
        stored_u128(self.store@, supply_key())
    }
}

/// Writing a number under a key is read back under that key and changes no other key's number.
pub proof fn lemma_stored_after_write(m: Map<Seq<u8>, Seq<u8>>, key: Seq<u8>, v: u128, other: Seq<u8>)
    ensures
        stored_u128(with_u128(m, key, v), key) == v,
        other != key ==> stored_u128(with_u128(m, key, v), other) == stored_u128(m, other),
        values_are_u128(m) ==> values_are_u128(with_u128(m, key, v)),
{
    lemma_u128_bytes_roundtrip(v);
}

/// Every number in a store of 16-byte numbers fits 128 bits.
pub proof fn lemma_stored_bound(m: Map<Seq<u8>, Seq<u8>>, key: Seq<u8>)
    requires
        values_are_u128(m),
    ensures
        stored_u128(m, key) <= u128::MAX,
{
    if m.contains_key(key) {
        lemma_be_value_bound(m[key].take(16));
        lemma_pow256_16();
    }
}

/// Balances, allowances and the total supply live under distinct keys, and distinct addresses
/// have distinct balance keys.
pub proof fn lemma_keys_distinct(a: Seq<u8>, b: Seq<u8>, owner: Seq<u8>, spender: Seq<u8>)
    requires
        owner.len() <= 0xFF,
    ensures
        a != b ==> balance_key(a) != balance_key(b),
        balance_key(a) != allowance_key(owner, spender),
        balance_key(a) != supply_key(),
        allowance_key(owner, spender) != supply_key(),
{
    if a != b && balance_key(a) == balance_key(b) {
        crate::prefixed::lemma_full_key_injective(balances_ns(), a, balances_ns(), b);
    }
    if balance_key(a) == allowance_key(owner, spender) {
        crate::prefixed::lemma_full_key_injective(
            balances_ns(),
            a,
            allowances_ns(),
            spec_prefix_impl(owner) + spender,
        );
        assert(balances_ns().len() != allowances_ns().len());
    }
    if balance_key(a) == supply_key() {
        crate::prefixed::lemma_full_key_injective(balances_ns(), a, config_ns(), total_supply_key());
        assert(balances_ns()[0] != config_ns()[0]);
    }
    if allowance_key(owner, spender) == supply_key() {
        crate::prefixed::lemma_full_key_injective(
            allowances_ns(),
            spec_prefix_impl(owner) + spender,
            config_ns(),
            total_supply_key(),
        );
        assert(allowances_ns().len() != config_ns().len());
    }
}

/// What reading a number under a key gives: zero when nothing is stored, the number when 16
/// bytes are, and an error for stored data of any other length.
pub open spec fn read_result(m: Map<Seq<u8>, Seq<u8>>, key: Seq<u8>) -> Result<u128, ContractError> {
    if !m.contains_key(key) {
        Ok(0u128)
    } else if m[key].len() == 16 {
        Ok(be_value(m[key]) as u128)
    } else {
        Err(ContractError::CorruptedDataFound)
    }
}

/// Reads a 16-byte number stored under `key` in the given namespace; zero if nothing is stored,
/// and an error if the stored data is not 16 bytes.
pub fn read_u128(ns: &PrefixedStorage, store: &MemoryStorage, key: &[u8]) -> (r: Result<
    u128,
    ContractError,
>)
    requires
        ns.wf(),
        store.wf(),
    ensures
        r == read_result(store@, ns.full_key(key@)),
        values_are_u128(store@) ==> r == Ok::<u128, ContractError>(
            stored_u128(store@, ns.full_key(key@)) as u128,
        ) && stored_u128(store@, ns.full_key(key@)) <= u128::MAX,
{
    proof {
        let k = ns.full_key(key@);
        if store@.contains_key(k) && store@[k].len() == 16 {
            assert(store@[k].take(16) =~= store@[k]);
        }
    }
    match ns.get(store, key) {
        Some(data) => bytes_to_u128(data.as_slice()),
        None => Ok(0u128),
    }
}

fn balances_store() -> (r: PrefixedStorage)
    ensures
        r.wf(),
        r.prefix() == balances_ns(),
{
    let p = balances_prefix();
    PrefixedStorage::new(p.as_slice())
}

fn allowances_store() -> (r: PrefixedStorage)
    ensures
        r.wf(),
        r.prefix() == allowances_ns(),
{
    let p = allowances_prefix();
    PrefixedStorage::new(p.as_slice())
}

/// The balance of an address.
pub fn read_balance(store: &MemoryStorage, owner: &[u8]) -> (r: Result<u128, ContractError>)
    requires
        store.wf(),
    ensures
        r == read_result(store@, balance_key(owner@)),
        values_are_u128(store@) ==> r == Ok::<u128, ContractError>(
            stored_u128(store@, balance_key(owner@)) as u128,
        ) && stored_u128(store@, balance_key(owner@)) <= u128::MAX,
{
    let ns = balances_store();
    read_u128(&ns, store, owner)
}

/// What the spender may still move from the owner's balance.
pub fn read_allowance(store: &MemoryStorage, owner: &[u8], spender: &[u8]) -> (r: Result<
    u128,
    ContractError,
>)
    requires
        store.wf(),
        owner@.len() <= 0xFF,
    ensures
        r == read_result(store@, allowance_key(owner@, spender@)),
        values_are_u128(store@) ==> r == Ok::<u128, ContractError>(
            stored_u128(store@, allowance_key(owner@, spender@)) as u128,
        ) && stored_u128(store@, allowance_key(owner@, spender@)) <= u128::MAX,
{
    let ns = allowances_store();
    let owner_prefix = calculate_prefix_impl(owner);
    let key = concat_bytes(owner_prefix.as_slice(), spender);
    read_u128(&ns, store, key.as_slice())
}

/// Sets what the spender may move from the owner's balance.
pub fn write_allowance(store: &mut MemoryStorage, owner: &[u8], spender: &[u8], amount: u128)
    requires
        old(store).wf(),
        owner@.len() <= 0xFF,
    ensures
        final(store).wf(),
        final(store)@ == with_u128(old(store)@, allowance_key(owner@, spender@), amount),
{
    let ns = allowances_store();
    let owner_prefix = calculate_prefix_impl(owner);
    let key = concat_bytes(owner_prefix.as_slice(), spender);
    let bytes = u128_to_be_bytes(amount);
    ns.set(store, key.as_slice(), bytes.as_slice());
}

fn write_balance(store: &mut MemoryStorage, owner: &[u8], amount: u128)
    requires
        old(store).wf(),
    ensures
        final(store).wf(),
        final(store)@ == with_u128(old(store)@, balance_key(owner@), amount),
{
    let ns = balances_store();
    let bytes = u128_to_be_bytes(amount);
    ns.set(store, owner, bytes.as_slice());
}

/// The store after moving `amount` from one balance to another.
pub open spec fn transferred(m: Map<Seq<u8>, Seq<u8>>, from: Seq<u8>, to: Seq<u8>, amount: u128) -> Map<Seq<u8>, Seq<u8>> {
    let m1 = with_u128(m, balance_key(from), (stored_u128(m, balance_key(from)) - amount) as u128);
    with_u128(m1, balance_key(to), (stored_u128(m1, balance_key(to)) + amount) as u128)
}

/// The transfer stays within `u128`: when the sender can pay and is not the recipient, the
/// recipient's balance can take the amount.
pub open spec fn transfer_in_range(m: Map<Seq<u8>, Seq<u8>>, from: Seq<u8>, to: Seq<u8>, amount: u128) -> bool {
    stored_u128(m, balance_key(from)) >= amount && from != to ==> stored_u128(m, balance_key(to))
        + amount <= u128::MAX
}

/// Moves `amount` from one balance to another; refused when the sender's balance is too small.
pub fn perform_transfer(store: &mut MemoryStorage, from: &[u8], to: &[u8], amount: u128) -> (r:
    Result<(), ContractError>)
    requires
        old(store).wf(),
        values_are_u128(old(store)@),
        transfer_in_range(old(store)@, from@, to@, amount),
    ensures
        final(store).wf(),
        values_are_u128(final(store)@),
        stored_u128(old(store)@, balance_key(from@)) < amount ==> r == Err::<(), ContractError>(
            ContractError::InsufficientFunds {
                balance: stored_u128(old(store)@, balance_key(from@)) as u128,
                required: amount,
            },
        ) && final(store)@ == old(store)@,
        stored_u128(old(store)@, balance_key(from@)) >= amount ==> r == Ok::<(), ContractError>(())
            && final(store)@ == transferred(old(store)@, from@, to@, amount),
{
    let from_balance = read_balance(store, from)?;
    if from_balance < amount {
        return Err(ContractError::InsufficientFunds { balance: from_balance, required: amount });
    }
    let ghost m0 = store@;
    write_balance(store, from, from_balance - amount);
    proof {
        lemma_stored_after_write(m0, balance_key(from@), (from_balance - amount) as u128, balance_key(to@));
        if from@ != to@ {
            lemma_keys_distinct(from@, to@, Seq::empty(), Seq::empty());
        }
    }
    let ghost m1 = store@;
    let to_balance = read_balance(store, to)?;
    write_balance(store, to, to_balance + amount);
    proof {
        lemma_stored_after_write(m1, balance_key(to@), (to_balance + amount) as u128, balance_key(to@));
    }
    Ok(())
}

/// A transfer takes the amount from the sender's balance and gives it to the recipient's, and
/// changes no other balance, allowance or the total supply.
pub proof fn lemma_transfer_balances(
    m: Map<Seq<u8>, Seq<u8>>,
    from: Seq<u8>,
    to: Seq<u8>,
    amount: u128,
    other: Seq<u8>,
    owner: Seq<u8>,
    spender: Seq<u8>,
)
    requires
        values_are_u128(m),
        stored_u128(m, balance_key(from)) >= amount,
        transfer_in_range(m, from, to, amount),
        owner.len() <= 0xFF,
    ensures
        from != to ==> stored_u128(transferred(m, from, to, amount), balance_key(from))
            == stored_u128(m, balance_key(from)) - amount,
        from != to ==> stored_u128(transferred(m, from, to, amount), balance_key(to))
            == stored_u128(m, balance_key(to)) + amount,
        from == to ==> stored_u128(transferred(m, from, to, amount), balance_key(from))
            == stored_u128(m, balance_key(from)),
        other != from && other != to ==> stored_u128(transferred(m, from, to, amount), balance_key(other))
            == stored_u128(m, balance_key(other)),
        stored_u128(transferred(m, from, to, amount), allowance_key(owner, spender)) == stored_u128(
            m,
            allowance_key(owner, spender),
        ),
        stored_u128(transferred(m, from, to, amount), supply_key()) == stored_u128(m, supply_key()),
{
    let fb = stored_u128(m, balance_key(from));
    lemma_stored_bound(m, balance_key(from));
    let m1 = with_u128(m, balance_key(from), (fb - amount) as u128);
    lemma_u128_bytes_roundtrip((fb - amount) as u128);
    lemma_keys_distinct(from, to, owner, spender);
    lemma_keys_distinct(to, other, owner, spender);
    lemma_keys_distinct(from, other, owner, spender);
    lemma_stored_after_write(m, balance_key(from), (fb - amount) as u128, balance_key(to));
    lemma_stored_after_write(m, balance_key(from), (fb - amount) as u128, balance_key(other));
    lemma_stored_after_write(m, balance_key(from), (fb - amount) as u128, allowance_key(owner, spender));
    lemma_stored_after_write(m, balance_key(from), (fb - amount) as u128, supply_key());
    let tb = stored_u128(m1, balance_key(to));
    if from != to {
        assert(tb == stored_u128(m, balance_key(to)));
        assert(tb + amount <= u128::MAX);
    } else {
        assert(tb == fb - amount);
    }
    lemma_stored_after_write(m1, balance_key(to), (tb + amount) as u128, balance_key(from));
    lemma_stored_after_write(m1, balance_key(to), (tb + amount) as u128, balance_key(other));
    lemma_stored_after_write(m1, balance_key(to), (tb + amount) as u128, allowance_key(owner, spender));
    lemma_stored_after_write(m1, balance_key(to), (tb + amount) as u128, supply_key());
}

/// The sum of the balances of the listed addresses.
pub open spec fn balances_sum(m: Map<Seq<u8>, Seq<u8>>, addrs: Seq<Seq<u8>>) -> int
    decreases addrs.len(),
{
    if addrs.len() == 0 {
        0
    } else {
        balances_sum(m, addrs.drop_last()) + stored_u128(m, balance_key(addrs.last()))
    }
}

proof fn lemma_balances_sum_frame(m: Map<Seq<u8>, Seq<u8>>, key: Seq<u8>, v: u128, addrs: Seq<Seq<u8>>)
    requires
        forall|i: int| 0 <= i < addrs.len() ==> balance_key(#[trigger] addrs[i]) != key,
    ensures
        balances_sum(with_u128(m, key, v), addrs) == balances_sum(m, addrs),
    decreases addrs.len(),
{
    if addrs.len() > 0 {
        let t = addrs.drop_last();
        assert forall|i: int| 0 <= i < t.len() implies balance_key(#[trigger] t[i]) != key by {
            assert(t[i] == addrs[i]);
        }
        lemma_balances_sum_frame(m, key, v, t);
        assert(addrs.last() == addrs[addrs.len() - 1]);
        lemma_stored_after_write(m, key, v, balance_key(addrs.last()));
    }
}

proof fn lemma_balances_sum_write(m: Map<Seq<u8>, Seq<u8>>, x: Seq<u8>, v: u128, addrs: Seq<Seq<u8>>)
    requires
        addrs.no_duplicates(),
        addrs.contains(x),
    ensures
        balances_sum(with_u128(m, balance_key(x), v), addrs) == balances_sum(m, addrs) - stored_u128(
            m,
            balance_key(x),
        ) + v,
    decreases addrs.len(),
{
    let t = addrs.drop_last();
    let n = addrs.len() - 1;
    assert(addrs.last() == addrs[n]);
    lemma_stored_after_write(m, balance_key(x), v, balance_key(addrs[n]));
    if addrs[n] == x {
        assert forall|i: int| 0 <= i < t.len() implies balance_key(#[trigger] t[i]) != balance_key(x) by {
            assert(t[i] == addrs[i]);
            lemma_keys_distinct(t[i], x, Seq::empty(), Seq::empty());
        }
        lemma_balances_sum_frame(m, balance_key(x), v, t);
    } else {
        let i = choose|i: int| 0 <= i < addrs.len() && addrs[i] == x;
        assert(t[i] == x);
        assert(t.no_duplicates()) by {
            assert forall|a: int, b: int| 0 <= a < t.len() && 0 <= b < t.len() && a != b implies t[a]
                != t[b] by {
                assert(t[a] == addrs[a] && t[b] == addrs[b]);
            }
        }
        lemma_keys_distinct(addrs[n], x, Seq::empty(), Seq::empty());
        lemma_balances_sum_write(m, x, v, t);
    }
}

/// A transfer neither creates nor destroys tokens: over any list of distinct addresses that
/// includes the sender and the recipient, the balances add up to the same sum before and after.
pub proof fn lemma_transfer_conserves_balances(
    m: Map<Seq<u8>, Seq<u8>>,
    from: Seq<u8>,
    to: Seq<u8>,
    amount: u128,
    holders: Seq<Seq<u8>>,
)
    requires
        values_are_u128(m),
        stored_u128(m, balance_key(from)) >= amount,
        transfer_in_range(m, from, to, amount),
        holders.no_duplicates(),
        holders.contains(from),
        holders.contains(to),
    ensures
        balances_sum(transferred(m, from, to, amount), holders) == balances_sum(m, holders),
{
    let fb = stored_u128(m, balance_key(from));
    lemma_stored_bound(m, balance_key(from));
    let m1 = with_u128(m, balance_key(from), (fb - amount) as u128);
    lemma_balances_sum_write(m, from, (fb - amount) as u128, holders);
    lemma_stored_after_write(m, balance_key(from), (fb - amount) as u128, balance_key(to));
    if from != to {
        lemma_keys_distinct(from, to, Seq::empty(), Seq::empty());
    }
    let tb = stored_u128(m1, balance_key(to));
    lemma_balances_sum_write(m1, to, (tb + amount) as u128, holders);
}

/// Setting an allowance changes no balance: over any list of addresses the balances add up to
/// the same sum before and after.
pub proof fn lemma_allowance_keeps_balances(
    m: Map<Seq<u8>, Seq<u8>>,
    owner: Seq<u8>,
    spender: Seq<u8>,
    v: u128,
    holders: Seq<Seq<u8>>,
)
    requires
        owner.len() <= 0xFF,
    ensures
        balances_sum(with_u128(m, allowance_key(owner, spender), v), holders) == balances_sum(m, holders),
{
    assert forall|i: int| 0 <= i < holders.len() implies balance_key(#[trigger] holders[i])
        != allowance_key(owner, spender) by {
        lemma_keys_distinct(holders[i], holders[i], owner, spender);
    }
    lemma_balances_sum_frame(m, allowance_key(owner, spender), v, holders);
}

/// What sending the decimal `amount` from `sender` to `recipient` does: the token `s0` becomes
/// `s1` and the result is `r`.
pub open spec fn transfer_outcome(
    s0: Erc20,
    s1: Erc20,
    sender: Seq<u8>,
    recipient: Seq<u8>,
    amount: Seq<char>,
    r: Result<     (),     ContractError, >,
) -> bool {
    &&& (s1.wf())
    &&& (s1.constants == s0.constants)
    &&& (r is Err ==> s1.store@ == s0.store@)
    &&& (!parses_as_u128(text_bytes(amount)) ==> r == Err::<(), ContractError>(
            ContractError::ParseError,
        ))
    &&& (parses_as_u128(text_bytes(amount)) ==> {
            let a = digits_value(decimal_digits(text_bytes(amount))) as u128;
            let bal = s0.balance(sender);
            &&& bal < a ==> r == Err::<(), ContractError>(
                ContractError::InsufficientFunds { balance: bal as u128, required: a },
            )
            &&& bal >= a ==> r == Ok::<(), ContractError>(()) && s1.store@ == transferred(
                s0.store@,
                sender,
                recipient,
                a,
            )
        })
}

/// Sends tokens from the sender to the recipient; addresses are canonical.
pub fn try_transfer(s: &mut Erc20, sender: &[u8], recipient: &[u8], amount: &str) -> (r: Result<
    (),
    ContractError,
>)
    requires
        old(s).wf(),
        parses_as_u128(amount.spec_bytes()) ==> transfer_in_range(
            old(s).store@,
            sender@,
            recipient@,
            digits_value(decimal_digits(amount.spec_bytes())) as u128,
        ),
    ensures
        transfer_outcome(*old(s), *final(s), sender@, recipient@, amount@, r),
{
    let amount_raw = parse_u128(amount)?;
    perform_transfer(&mut s.store, sender, recipient, amount_raw)
}

/// What sending the decimal `amount` from `owner` to `recipient` on the spender's behalf does:
/// the token `s0` becomes `s1` and the result is `r`.
pub open spec fn transfer_from_outcome(
    s0: Erc20,
    s1: Erc20,
    spender: Seq<u8>,
    owner: Seq<u8>,
    recipient: Seq<u8>,
    amount: Seq<char>,
    r: Result<(), ContractError>,
) -> bool {
    &&& (s1.wf())
    &&& (s1.constants == s0.constants)
    &&& (r is Err ==> s1.store@ == s0.store@)
    &&& (!parses_as_u128(text_bytes(amount)) ==> r == Err::<(), ContractError>(
            ContractError::ParseError,
        ))
    &&& (parses_as_u128(text_bytes(amount)) ==> {
            let a = digits_value(decimal_digits(text_bytes(amount))) as u128;
            let allowance = s0.allowance(owner, spender);
            let bal = s0.balance(owner);
            &&& allowance < a ==> r == Err::<(), ContractError>(
                ContractError::InsufficientAllowance { allowance: allowance as u128, required: a },
            )
            &&& allowance >= a && bal < a ==> r == Err::<(), ContractError>(
                ContractError::InsufficientFunds { balance: bal as u128, required: a },
            )
            &&& allowance >= a && bal >= a ==> r == Ok::<(), ContractError>(()) && s1.store@
                == transferred(
                with_u128(
                    s0.store@,
                    allowance_key(owner, spender),
                    (allowance - a) as u128,
                ),
                owner,
                recipient,
                a,
            )
        })
}

/// Sends tokens from the owner to the recipient on the spender's behalf, using up allowance;
/// addresses are canonical.
pub fn try_transfer_from(
    s: &mut Erc20,
    spender: &[u8],
    owner: &[u8],
    recipient: &[u8],
    amount: &str,
) -> (r: Result<(), ContractError>)
    requires
        old(s).wf(),
        owner@.len() <= 0xFF,
        parses_as_u128(amount.spec_bytes()) ==> transfer_in_range(
            old(s).store@,
            owner@,
            recipient@,
            digits_value(decimal_digits(amount.spec_bytes())) as u128,
        ),
    ensures
        transfer_from_outcome(*old(s), *final(s), spender@, owner@, recipient@, amount@, r),
{
    let amount_raw = parse_u128(amount)?;
    let allowance = read_allowance(&s.store, owner, spender)?;
    if allowance < amount_raw {
        return Err(ContractError::InsufficientAllowance { allowance, required: amount_raw });
    }
    let ghost m0 = s.store@;
    proof {
        lemma_keys_distinct(owner@, recipient@, owner@, spender@);
        lemma_keys_distinct(recipient@, owner@, owner@, spender@);
        lemma_stored_after_write(m0, allowance_key(owner@, spender@), (allowance - amount_raw) as u128, balance_key(owner@));
        lemma_stored_after_write(m0, allowance_key(owner@, spender@), (allowance - amount_raw) as u128, balance_key(recipient@));
    }
    let bal = read_balance(&s.store, owner)?;
    if bal < amount_raw {
        return Err(ContractError::InsufficientFunds { balance: bal, required: amount_raw });
    }
    write_allowance(&mut s.store, owner, spender, allowance - amount_raw);
    perform_transfer(&mut s.store, owner, recipient, amount_raw)
}

/// What letting `spender` move the decimal `amount` from `owner`'s balance does: the token
/// `s0` becomes `s1` and the result is `r`.
pub open spec fn approve_outcome(
    s0: Erc20,
    s1: Erc20,
    owner: Seq<u8>,
    spender: Seq<u8>,
    amount: Seq<char>,
    r: Result<     (),     ContractError, >,
) -> bool {
    &&& (s1.wf())
    &&& (s1.constants == s0.constants)
    &&& (!parses_as_u128(text_bytes(amount)) ==> r == Err::<(), ContractError>(
            ContractError::ParseError,
        ) && s1.store@ == s0.store@)
    &&& (parses_as_u128(text_bytes(amount)) ==> r == Ok::<(), ContractError>(()) && s1.store@
            == with_u128(
            s0.store@,
            allowance_key(owner, spender),
            digits_value(decimal_digits(text_bytes(amount))) as u128,
        ))
}

/// Sets what the spender may move from the owner's balance; addresses are canonical.
pub fn try_approve(s: &mut Erc20, owner: &[u8], spender: &[u8], amount: &str) -> (r: Result<
    (),
    ContractError,
>)
    requires
        old(s).wf(),
        owner@.len() <= 0xFF,
    ensures
        approve_outcome(*old(s), *final(s), owner@, spender@, amount@, r),
{
    let amount_raw = parse_u128(amount)?;
    write_allowance(&mut s.store, owner, spender, amount_raw);
    proof {
        lemma_stored_after_write(old(s).store@, allowance_key(owner@, spender@), amount_raw, Seq::empty());
    }
    Ok(())
}

/// An approval is what the allowance query reads back.
pub proof fn lemma_approve_then_allowance(s: Erc20, t: Erc20, owner: Seq<u8>, spender: Seq<u8>, amount: u128)
    requires
        t.store@ == with_u128(s.store@, allowance_key(owner, spender), amount),
    ensures
        t.allowance(owner, spender) == amount,
{
    lemma_stored_after_write(s.store@, allowance_key(owner, spender), amount, Seq::empty());
}

/// The UTF-8 bytes of a text.
pub open spec fn text_bytes(s: Seq<char>) -> Seq<u8> {
    vstd::utf8::encode_utf8(s)
}

/// The amount of an initial balance, zero when it does not parse.
pub open spec fn row_amount(row: InitialBalance) -> nat {
    if parses_as_u128(text_bytes(row.amount@)) {
        digits_value(decimal_digits(text_bytes(row.amount@)))
    } else {
        0
    }
}

/// The sum of the initial balances.
pub open spec fn rows_total(rows: Seq<InitialBalance>) -> nat
    decreases rows.len(),
{
    if rows.len() == 0 {
        0
    } else {
        rows_total(rows.drop_last()) + row_amount(rows.last())
    }
}

/// Every initial amount parses.
pub open spec fn rows_parse(rows: Seq<InitialBalance>) -> bool {
    forall|i: int| 0 <= i < rows.len() ==> parses_as_u128(text_bytes((#[trigger] rows[i]).amount@))
}

/// The store holding the initial balances, in order, a later row for an address overriding an
/// earlier one.
pub open spec fn initial_store(rows: Seq<InitialBalance>) -> Map<Seq<u8>, Seq<u8>>
    decreases rows.len(),
{
    if rows.len() == 0 {
        Map::empty()
    } else {
        with_u128(
            initial_store(rows.drop_last()),
            balance_key(rows.last().address@),
            row_amount(rows.last()) as u128,
        )
    }
}

/// The store of a token created with the given initial balances: the balances and their sum as
/// the total supply.
pub open spec fn created_store(rows: Seq<InitialBalance>) -> Map<Seq<u8>, Seq<u8>> {
    with_u128(initial_store(rows), supply_key(), rows_total(rows) as u128)
}

/// The addresses of the initial balances.
pub open spec fn row_addresses(rows: Seq<InitialBalance>) -> Seq<Seq<u8>> {
    rows.map_values(|r: InitialBalance| r.address@)
}

proof fn lemma_initial_store_sum(rows: Seq<InitialBalance>)
    requires
        rows_total(rows) <= u128::MAX,
        row_addresses(rows).no_duplicates(),
    ensures
        values_are_u128(initial_store(rows)),
        balances_sum(initial_store(rows), row_addresses(rows)) == rows_total(rows),
        forall|a: Seq<u8>| !row_addresses(rows).contains(a) ==> #[trigger] stored_u128(
            initial_store(rows),
            balance_key(a),
        ) == 0,
    decreases rows.len(),
{
    if rows.len() > 0 {
        let t = rows.drop_last();
        let x = rows.last().address@;
        let addrs = row_addresses(rows);
        assert(row_addresses(t) =~= addrs.drop_last());
        assert(addrs.no_duplicates() ==> row_addresses(t).no_duplicates()) by {
            assert forall|i: int, j: int| 0 <= i < row_addresses(t).len() && 0 <= j < row_addresses(t).len()
                && i != j implies row_addresses(t)[i] != row_addresses(t)[j] by {
                assert(row_addresses(t)[i] == addrs[i] && row_addresses(t)[j] == addrs[j]);
            }
        }
        lemma_initial_store_sum(t);
        let m = initial_store(t);
        let v = row_amount(rows.last()) as u128;
        assert(addrs[addrs.len() - 1] == x);
        assert(!row_addresses(t).contains(x)) by {
            if row_addresses(t).contains(x) {
                let i = choose|i: int| 0 <= i < row_addresses(t).len() && row_addresses(t)[i] == x;
                assert(addrs[i] == x);
            }
        }
        assert forall|i: int| 0 <= i < row_addresses(t).len() implies balance_key(
            #[trigger] row_addresses(t)[i],
        ) != balance_key(x) by {
            lemma_keys_distinct(row_addresses(t)[i], x, Seq::empty(), Seq::empty());
        }
        lemma_balances_sum_frame(m, balance_key(x), v, row_addresses(t));
        lemma_stored_after_write(m, balance_key(x), v, balance_key(x));
        assert(addrs.drop_last() == row_addresses(t));
        assert forall|a: Seq<u8>| !addrs.contains(a) implies #[trigger] stored_u128(
            initial_store(rows),
            balance_key(a),
        ) == 0 by {
            assert(addrs[addrs.len() - 1] == x);
            if a != x {
                lemma_keys_distinct(a, x, Seq::empty(), Seq::empty());
                lemma_stored_after_write(m, balance_key(x), v, balance_key(a));
                if row_addresses(t).contains(a) {
                    let i = choose|i: int| 0 <= i < row_addresses(t).len() && row_addresses(t)[i] == a;
                    assert(addrs[i] == a);
                }
            }
        }
    }
}

/// A token created with distinct initial addresses starts with a total supply equal to the sum
/// of its balances: each listed address holds its initial amount and every other address holds
/// none.
pub proof fn lemma_created_supply_is_sum_of_balances(rows: Seq<InitialBalance>)
    requires
        rows_total(rows) <= u128::MAX,
        row_addresses(rows).no_duplicates(),
    ensures
        stored_u128(created_store(rows), supply_key()) == balances_sum(created_store(rows), row_addresses(rows)),
        forall|a: Seq<u8>| !row_addresses(rows).contains(a) ==> #[trigger] stored_u128(
            created_store(rows),
            balance_key(a),
        ) == 0,
{
    let m = initial_store(rows);
    lemma_initial_store_sum(rows);
    lemma_stored_after_write(m, supply_key(), rows_total(rows) as u128, supply_key());
    assert forall|i: int| 0 <= i < row_addresses(rows).len() implies balance_key(
        #[trigger] row_addresses(rows)[i],
    ) != supply_key() by {
        lemma_keys_distinct(row_addresses(rows)[i], row_addresses(rows)[i], Seq::empty(), Seq::empty());
    }
    lemma_balances_sum_frame(m, supply_key(), rows_total(rows) as u128, row_addresses(rows));
    assert forall|a: Seq<u8>| !row_addresses(rows).contains(a) implies #[trigger] stored_u128(
        created_store(rows),
        balance_key(a),
    ) == 0 by {
        lemma_keys_distinct(a, a, Seq::empty(), Seq::empty());
        lemma_stored_after_write(m, supply_key(), rows_total(rows) as u128, balance_key(a));
    }
}

proof fn lemma_rows_total_prefix(rows: Seq<InitialBalance>, i: int)
    requires
        0 <= i <= rows.len(),
    ensures
        rows_total(rows.take(i)) <= rows_total(rows),
    decreases rows.len(),
{
    if i < rows.len() {
        lemma_rows_total_prefix(rows.drop_last(), i);
        assert(rows.drop_last().take(i) =~= rows.take(i));
    } else {
        assert(rows.take(i) =~= rows);
    }
}

/// Whether the initial balances, added up, fit `u128`, so that the token may be created with
/// them.
pub fn init_fits(msg: &InitMsg) -> (r: bool)
    ensures
        r == (rows_total(msg.initial_balances@) <= u128::MAX),
{
    let rows = &msg.initial_balances;
    let mut total: u128 = 0;
    let mut i: usize = 0;
    while i < rows.len()
        invariant
            i <= rows@.len(),
            rows@ == msg.initial_balances@,
            total == rows_total(rows@.take(i as int)),
        decreases rows@.len() - i,
    {
        proof {
            assert(rows@.take(i + 1).drop_last() =~= rows@.take(i as int));
        }
        let amount = match parse_u128(rows[i].amount.as_str()) {
            Ok(a) => a,
            Err(_) => 0,
        };
        if total > u128::MAX - amount {
            proof {
                lemma_rows_total_prefix(rows@, i + 1);
            }
            return false;
        }
        total = total + amount;
        i = i + 1;
    }
    proof {
        assert(rows@.take(rows@.len() as int) =~= rows@);
    }
    true
}

/// Creates the token with its initial balances; the total supply is their sum. The name must
/// have 3 to 30 bytes, the symbol 3 to 6 upper-case letters, and the decimals be at most 18.
pub fn init(msg: InitMsg) -> (r: Result<Erc20, ContractError>)
    requires
        rows_total(msg.initial_balances@) <= u128::MAX,
    ensures
        !rows_parse(msg.initial_balances@) ==> r == Err::<Erc20, ContractError>(
            ContractError::ParseError,
        ),
        rows_parse(msg.initial_balances@) ==> {
            &&& !valid_name(text_bytes(msg.name@)) ==> r == Err::<Erc20, ContractError>(
                ContractError::NameWrongFormat,
            )
            &&& valid_name(text_bytes(msg.name@)) && !valid_symbol(text_bytes(msg.symbol@)) ==> r
                == Err::<Erc20, ContractError>(ContractError::TickerWrongSymbolFormat)
            &&& valid_name(text_bytes(msg.name@)) && valid_symbol(text_bytes(msg.symbol@))
                && msg.decimals > 18 ==> r == Err::<Erc20, ContractError>(
                ContractError::DecimalsExceeded,
            )
            &&& valid_name(text_bytes(msg.name@)) && valid_symbol(text_bytes(msg.symbol@))
                && msg.decimals <= 18 ==> {
                &&& r is Ok
                &&& r->Ok_0.wf()
                &&& r->Ok_0.constants == Constants {
                    name: msg.name,
                    symbol: msg.symbol,
                    decimals: msg.decimals,
                }
                &&& r->Ok_0.store@ == created_store(msg.initial_balances@)
            }
        },
{
    let mut store = MemoryStorage::new();
    let mut total_supply: u128 = 0;
    let rows = &msg.initial_balances;
    let mut i: usize = 0;
    while i < rows.len()
        invariant
            i <= rows@.len(),
            rows@ == msg.initial_balances@,
            rows_total(rows@) <= u128::MAX,
            store.wf(),
            values_are_u128(store@),
            store@ == initial_store(rows@.take(i as int)),
            total_supply == rows_total(rows@.take(i as int)),
            rows_parse(rows@.take(i as int)),
        decreases rows@.len() - i,
    {
        let row = &rows[i];
        proof {
            assert(rows@.take(i + 1).drop_last() =~= rows@.take(i as int));
            lemma_rows_total_prefix(rows@, i + 1);
        }
        let amount_raw = match parse_u128(row.amount.as_str()) {
            Ok(a) => a,
            Err(e) => {
                proof {
                    assert(!parses_as_u128(text_bytes(rows@[i as int].amount@)));
                }
                return Err(e);
            },
        };
        let ghost m0 = store@;
        write_balance(&mut store, row.address.as_slice(), amount_raw);
        proof {
            lemma_stored_after_write(m0, balance_key(row.address@), amount_raw, Seq::empty());
            assert forall|k: int| 0 <= k < i + 1 implies parses_as_u128(
                text_bytes((#[trigger] rows@.take(i + 1)[k]).amount@),
            ) by {
                if k < i {
                    assert(rows@.take(i + 1)[k] == rows@.take(i as int)[k]);
                }
            }
        }
        total_supply = total_supply + amount_raw;
        i = i + 1;
    }
    proof {
        assert(rows@.take(rows@.len() as int) =~= rows@);
    }
    if !is_valid_name(msg.name.as_str()) {
        return Err(ContractError::NameWrongFormat);
    }
    if !is_valid_symbol(msg.symbol.as_str()) {
        return Err(ContractError::TickerWrongSymbolFormat);
    }
    if msg.decimals > 18 {
        return Err(ContractError::DecimalsExceeded);
    }
    let config = PrefixedStorage::new(config_prefix().as_slice());
    let key = total_supply_key_exec();
    let bytes = u128_to_be_bytes(total_supply);
    let ghost m0 = store@;
    config.set(&mut store, key.as_slice(), bytes.as_slice());
    proof {
        lemma_stored_after_write(m0, supply_key(), total_supply, Seq::empty());
    }
    Ok(Erc20 {
        constants: Constants { name: msg.name, symbol: msg.symbol, decimals: msg.decimals },
        store,
    })
}

/// The balance of an address, in decimal.
pub fn query_balance(s: &Erc20, address: &[u8]) -> (r: BalanceResponse)
    requires
        s.wf(),
    ensures
        r.balance@ == decimal_chars(s.balance(address@)),
{
    let balance = match read_balance(&s.store, address) {
        Ok(b) => b,
        Err(_) => 0,
    };
    BalanceResponse { balance: u128_to_string(balance) }
}

/// What the spender may still move from the owner's balance, in decimal.
pub fn query_allowance(s: &Erc20, owner: &[u8], spender: &[u8]) -> (r: AllowanceResponse)
    requires
        s.wf(),
        owner@.len() <= 0xFF,
    ensures
        r.allowance@ == decimal_chars(s.allowance(owner@, spender@)),
{
    let allowance = match read_allowance(&s.store, owner, spender) {
        Ok(a) => a,
        Err(_) => 0,
    };
    AllowanceResponse { allowance: u128_to_string(allowance) }
}

/// The messages the token handles; addresses are canonical.
#[derive(Debug, Clone, PartialEq, Eq)]
pub enum HandleMsg {
    Approve { spender: Vec<u8>, amount: String },
    Transfer { recipient: Vec<u8>, amount: String },
    TransferFrom { owner: Vec<u8>, recipient: Vec<u8>, amount: String },
}

/// What a handled message did.
#[derive(Debug, Clone, Copy, PartialEq, Eq)]
pub enum HandleOutcome {
    Approved,
    Transferred,
    TransferredFrom,
}

impl HandleOutcome {
    /// The log line the contract reports.
    pub fn log(&self) -> (r: &'static str)
        ensures
            r@ == match *self {
                HandleOutcome::Approved => "approve successful"@,
                HandleOutcome::Transferred => "transfer successful"@,
                HandleOutcome::TransferredFrom => "transfer from successful"@,
            },
    {
        match self {
            HandleOutcome::Approved => "approve successful",
            HandleOutcome::Transferred => "transfer successful",
            HandleOutcome::TransferredFrom => "transfer from successful",
        }
    }
}

/// The inputs on which handling the message stays within the machine's integers and the
/// supported address lengths.
pub open spec fn handle_in_range(s: Erc20, sender: Seq<u8>, msg: HandleMsg) -> bool {
    match msg {
        HandleMsg::Approve { .. } => sender.len() <= 0xFF,
        HandleMsg::Transfer { recipient, amount } => parses_as_u128(text_bytes(amount@))
            ==> transfer_in_range(
            s.store@,
            sender,
            recipient@,
            digits_value(decimal_digits(text_bytes(amount@))) as u128,
        ),
        HandleMsg::TransferFrom { owner, recipient, amount } => {
            &&& owner@.len() <= 0xFF
            &&& parses_as_u128(text_bytes(amount@)) ==> transfer_in_range(
                s.store@,
                owner@,
                recipient@,
                digits_value(decimal_digits(text_bytes(amount@))) as u128,
            )
        },
    }
}

fn transfer_fits(s: &Erc20, from: &[u8], to: &[u8], amount: &str) -> (r: bool)
    requires
        s.wf(),
    ensures
        r == (parses_as_u128(amount.spec_bytes()) ==> transfer_in_range(
            s.store@,
            from@,
            to@,
            digits_value(decimal_digits(amount.spec_bytes())) as u128,
        )),
{
    let a = match parse_u128(amount) {
        Ok(a) => a,
        Err(_) => {
            return true;
        },
    };
    let from_balance = match read_balance(&s.store, from) {
        Ok(b) => b,
        Err(_) => 0,
    };
    if from_balance >= a && !bytes_eq(from, to) {
        let to_balance = match read_balance(&s.store, to) {
            Ok(b) => b,
            Err(_) => 0,
        };
        to_balance <= u128::MAX - a
    } else {
        true
    }
}

/// Whether handling the message stays within the machine's integers and the supported address
/// lengths, so that `handle` may be called with it.
pub fn handle_fits(s: &Erc20, sender: &[u8], msg: &HandleMsg) -> (r: bool)
    requires
        s.wf(),
    ensures
        r == handle_in_range(*s, sender@, *msg),
{
    match msg {
        HandleMsg::Approve { .. } => sender.len() <= 0xFF,
        HandleMsg::Transfer { recipient, amount } => transfer_fits(
            s,
            sender,
            recipient.as_slice(),
            amount.as_str(),
        ),
        HandleMsg::TransferFrom { owner, recipient, amount } => owner.len() <= 0xFF && transfer_fits(
            s,
            owner.as_slice(),
            recipient.as_slice(),
            amount.as_str(),
        ),
    }
}

/// What handling `msg` from `sender` does: the token `s0` becomes `s1` and the result is `r`.
pub open spec fn handle_outcome(
    s0: Erc20,
    s1: Erc20,
    sender: Seq<u8>,
    msg: HandleMsg,
    r: Result<HandleOutcome, ContractError>,
) -> bool {
    match msg {
        HandleMsg::Approve { spender, amount } => {
            &&& approve_outcome(
                s0,
                s1,
                sender,
                spender@,
                amount@,
                match r {
                    Ok(_) => Ok(()),
                    Err(e) => Err(e),
                },
            )
            &&& r is Ok ==> r->Ok_0 == HandleOutcome::Approved
        },
        HandleMsg::Transfer { recipient, amount } => {
            &&& transfer_outcome(
                s0,
                s1,
                sender,
                recipient@,
                amount@,
                match r {
                    Ok(_) => Ok(()),
                    Err(e) => Err(e),
                },
            )
            &&& r is Ok ==> r->Ok_0 == HandleOutcome::Transferred
        },
        HandleMsg::TransferFrom { owner, recipient, amount } => {
            &&& transfer_from_outcome(
                s0,
                s1,
                sender,
                owner@,
                recipient@,
                amount@,
                match r {
                    Ok(_) => Ok(()),
                    Err(e) => Err(e),
                },
            )
            &&& r is Ok ==> r->Ok_0 == HandleOutcome::TransferredFrom
        },
    }
}

/// The addresses whose balances a message can touch: the sender's, and the owner's and the
/// recipient's where the message names them.
pub open spec fn parties_listed(holders: Seq<Seq<u8>>, sender: Seq<u8>, msg: HandleMsg) -> bool {
    &&& holders.contains(sender)
    &&& match msg {
        HandleMsg::Approve { .. } => true,
        HandleMsg::Transfer { recipient, .. } => holders.contains(recipient@),
        HandleMsg::TransferFrom { owner, recipient, .. } => holders.contains(owner@)
            && holders.contains(recipient@),
    }
}

/// Handling a message neither creates nor destroys tokens: the total supply stays as it is, and
/// over any list of distinct addresses that includes the parties of the message the balances add
/// up to the same sum before and after.
pub proof fn lemma_handle_conserves_tokens(
    s0: Erc20,
    s1: Erc20,
    sender: Seq<u8>,
    msg: HandleMsg,
    r: Result<HandleOutcome, ContractError>,
    holders: Seq<Seq<u8>>,
)
    requires
        s0.wf(),
        handle_in_range(s0, sender, msg),
        handle_outcome(s0, s1, sender, msg, r),
        holders.no_duplicates(),
        parties_listed(holders, sender, msg),
    ensures
        s1.total_supply() == s0.total_supply(),
        balances_sum(s1.store@, holders) == balances_sum(s0.store@, holders),
{
    let m = s0.store@;
    match msg {
        HandleMsg::Approve { spender, amount } => {
            if parses_as_u128(text_bytes(amount@)) {
                let v = digits_value(decimal_digits(text_bytes(amount@))) as u128;
                lemma_allowance_keeps_balances(m, sender, spender@, v, holders);
                lemma_keys_distinct(sender, sender, sender, spender@);
                lemma_stored_after_write(m, allowance_key(sender, spender@), v, supply_key());
            }
        },
        HandleMsg::Transfer { recipient, amount } => {
            if r is Ok {
                let a = digits_value(decimal_digits(text_bytes(amount@))) as u128;
                lemma_transfer_conserves_balances(m, sender, recipient@, a, holders);
                lemma_transfer_balances(m, sender, recipient@, a, sender, Seq::empty(), Seq::empty());
            }
        },
        HandleMsg::TransferFrom { owner, recipient, amount } => {
            if r is Ok {
                let a = digits_value(decimal_digits(text_bytes(amount@))) as u128;
                let allowance = s0.allowance(owner@, sender);
                let m1 = with_u128(m, allowance_key(owner@, sender), (allowance - a) as u128);
                lemma_allowance_keeps_balances(m, owner@, sender, (allowance - a) as u128, holders);
                lemma_keys_distinct(owner@, recipient@, owner@, sender);
                lemma_keys_distinct(recipient@, owner@, owner@, sender);
                lemma_stored_after_write(m, allowance_key(owner@, sender), (allowance - a) as u128, balance_key(owner@));
                lemma_stored_after_write(m, allowance_key(owner@, sender), (allowance - a) as u128, balance_key(recipient@));
                lemma_stored_after_write(m, allowance_key(owner@, sender), (allowance - a) as u128, supply_key());
                lemma_transfer_conserves_balances(m1, owner@, recipient@, a, holders);
                lemma_transfer_balances(m1, owner@, recipient@, a, owner@, Seq::empty(), Seq::empty());
            }
        },
    }
}

/// Handles a message of the token sent by `sender`.
pub fn handle(s: &mut Erc20, sender: &[u8], msg: HandleMsg) -> (r: Result<HandleOutcome, ContractError>)
    requires
        old(s).wf(),
        handle_in_range(*old(s), sender@, msg),
    ensures
        handle_outcome(*old(s), *final(s), sender@, msg, r),
{
    match msg {
        HandleMsg::Approve { spender, amount } => {
            try_approve(s, sender, spender.as_slice(), amount.as_str())?;
            Ok(HandleOutcome::Approved)
        },
        HandleMsg::Transfer { recipient, amount } => {
            try_transfer(s, sender, recipient.as_slice(), amount.as_str())?;
            Ok(HandleOutcome::Transferred)
        },
        HandleMsg::TransferFrom { owner, recipient, amount } => {
            try_transfer_from(s, sender, owner.as_slice(), recipient.as_slice(), amount.as_str())?;
            Ok(HandleOutcome::TransferredFrom)
        },
    }
}

/// The queries the token answers; addresses are canonical.
#[derive(Debug, Clone, PartialEq, Eq)]
pub enum QueryMsg {
    Balance { address: Vec<u8> },
    Allowance { owner: Vec<u8>, spender: Vec<u8> },
}

/// The answer to a query.
#[derive(Debug, Clone, PartialEq, Eq)]
pub enum QueryResponse {
    Balance(BalanceResponse),
    Allowance(AllowanceResponse),
}

/// Answers a query of the token.
pub fn query(s: &Erc20, msg: &QueryMsg) -> (r: QueryResponse)
    requires
        s.wf(),
        msg matches QueryMsg::Allowance { owner, .. } ==> owner@.len() <= 0xFF,
    ensures
        match *msg {
            QueryMsg::Balance { address } => r matches QueryResponse::Balance(b) && b.balance@
                == decimal_chars(s.balance(address@)),
            QueryMsg::Allowance { owner, spender } => r matches QueryResponse::Allowance(a)
                && a.allowance@ == decimal_chars(s.allowance(owner@, spender@)),
        },
{
    match msg {
        QueryMsg::Balance { address } => QueryResponse::Balance(query_balance(s, address.as_slice())),
        QueryMsg::Allowance { owner, spender } => QueryResponse::Allowance(
            query_allowance(s, owner.as_slice(), spender.as_slice()),
        ),
    }
}

} // verus!

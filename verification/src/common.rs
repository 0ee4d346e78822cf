use vstd::prelude::*;

verus! {

/// The number of bytes in the UTF-8 encoding of the characters.
pub open spec fn utf8_len(s: Seq<char>) -> nat {
    vstd::utf8::encode_utf8(s).len()
}

/// An amount of one native token.
#[derive(Debug, Clone, PartialEq, Eq)]
pub struct Coin {
    pub denom: String,
    pub amount: u128,
}

/// The block that a message is executed in.
#[derive(Debug, Clone, Copy, PartialEq, Eq)]
pub struct BlockInfo {
    pub height: u64,
    /// Nanoseconds since the epoch.
    pub time: u64,
}

/// A bank transfer that a contract asks the chain to make.
#[derive(Debug, Clone, PartialEq, Eq)]
pub struct BankSend {
    pub to_address: String,
    pub amount: Vec<Coin>,
}

/// When something expires: at a block height, at a time (nanoseconds), or never.
#[derive(Debug, Clone, Copy, PartialEq, Eq)]
pub enum Expiration {
    AtHeight(u64),
    AtTime(u64),
    Never,
}

/// The expiration is reached in the given block.
pub open spec fn spec_is_expired(e: Expiration, block: BlockInfo) -> bool {
    match e {
        Expiration::AtHeight(h) => block.height >= h,
        Expiration::AtTime(t) => block.time >= t,
        Expiration::Never => false,
    }
}

impl Expiration {
    /// Whether the expiration is reached in the given block.
    pub fn is_expired(&self, block: &BlockInfo) -> (r: bool)
        ensures
            r == spec_is_expired(*self, *block),
    {
        match self {
            Expiration::AtHeight(h) => block.height >= *h,
            Expiration::AtTime(t) => block.time >= *t,
            Expiration::Never => false,
        }
    }
}

/// Copies a coin.
pub fn copy_coin(c: &Coin) -> (r: Coin)
    ensures
        r == *c,
{
    Coin { denom: c.denom.clone(), amount: c.amount }
}

/// Copies a list of coins.
pub fn copy_coins(cs: &Vec<Coin>) -> (r: Vec<Coin>)
    ensures
        r@ == cs@,
{
    let mut out: Vec<Coin> = Vec::new();
    let mut i: usize = 0;
    while i < cs.len()
        invariant
            i <= cs@.len(),
            out@ == cs@.subrange(0, i as int),
        decreases cs@.len() - i,
    {
        out.push(copy_coin(&cs[i]));
        i = i + 1;
        assert(out@ =~= cs@.subrange(0, i as int));
    }
    assert(cs@.subrange(0, cs@.len() as int) =~= cs@);
    out
}

/// A coin as plain values: its denomination's characters and its amount.
pub open spec fn coin_view(c: Coin) -> (Seq<char>, u128) {
    (c.denom@, c.amount)
}

/// A list of coins as plain values.
pub open spec fn coins_view(cs: Seq<Coin>) -> Seq<(Seq<char>, u128)> {
    cs.map_values(|c: Coin| coin_view(c))
}

/// Whether two lists of coins are equal, coin by coin.
pub fn coins_eq(a: &Vec<Coin>, b: &Vec<Coin>) -> (r: bool)
    ensures
        r == (coins_view(a@) == coins_view(b@)),
{
    if a.len() != b.len() {
        assert(coins_view(a@).len() != coins_view(b@).len());
        return false;
    }
    let mut i: usize = 0;
    while i < a.len()
        invariant
            a@.len() == b@.len(),
            i <= a@.len(),
            forall|j: int| 0 <= j < i ==> coin_view(a@[j]) == coin_view(b@[j]),
        decreases a@.len() - i,
    {
        if a[i].amount != b[i].amount || a[i].denom != b[i].denom {
            assert(coins_view(a@)[i as int] != coins_view(b@)[i as int]);
            return false;
        }
        i = i + 1;
    }
    assert(coins_view(a@) =~= coins_view(b@));
    true
}

/// A key and value that a handled message reports.
#[derive(Debug, Clone, PartialEq, Eq)]
pub struct Attribute {
    pub key: String,
    pub value: String,
}

/// The attribute has the given key and value.
pub open spec fn attr_is(a: Attribute, key: Seq<char>, value: Seq<char>) -> bool {
    a.key@ == key && a.value@ == value
}

/// Makes an attribute.
pub fn attr(key: &str, value: &str) -> (a: Attribute)
    ensures
        attr_is(a, key@, value@),
{
    Attribute { key: key.to_owned(), value: value.to_owned() }
}

/// Some string of the list has the given characters.
pub open spec fn contains_str(v: Seq<String>, s: Seq<char>) -> bool {
    exists|j: int| 0 <= j < v.len() && (#[trigger] v[j])@ == s
}

/// Whether a list of strings holds the given string.
pub fn contains_string(v: &Vec<String>, s: &String) -> (r: bool)
    ensures
        r == contains_str(v@, s@),
{
    let mut i: usize = 0;
    while i < v.len()
        invariant
            i <= v@.len(),
            forall|j: int| 0 <= j < i ==> (#[trigger] v@[j])@ != s@,
        decreases v@.len() - i,
    {
        if v[i] == *s {
            assert(v@[i as int]@ == s@);
            return true;
        }
        i = i + 1;
    }
    false
}

} // verus!

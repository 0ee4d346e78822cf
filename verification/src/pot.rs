use vstd::prelude::*;

use std::collections::HashMap;

verus! {

broadcast use vstd::std_specs::hash::group_hash_axioms;

/// The errors of saving a pot.
#[derive(Debug, Clone, Copy, PartialEq, Eq)]
pub enum PotError {
    /// The next pot id does not fit 64 bits.
    Overflow,
}

/// A pot: the address that receives it, the amount at which it pays out, and how much has
/// been collected for it.
#[derive(Debug, Clone, PartialEq, Eq)]
pub struct Pot {
    pub target_addr: String,
    pub threshold: u128,
    pub collected: u128,
}

/// The stored pots, by id, and the last id handed out.
pub struct PotStore {
    pub pot_seq: Option<u64>,
    pub pots: HashMap<u64, Pot>,
}

impl PotStore {
    /// A store with the sequence set up and no pots.
    pub fn new() -> (s: PotStore)
        ensures
            s.pot_seq == Some(0u64),
            s.pots@ == Map::<u64, Pot>::empty(),
    {
        PotStore { pot_seq: Some(0), pots: HashMap::new() }
    }
}

/// The id the next pot is saved under: one past the last id handed out, or 1 for the first pot.
pub open spec fn next_pot_id(seq: Option<u64>) -> int {
    match seq {
        Some(n) => n + 1,
        None => 1,
    }
}

/// Saves a pot under the next id, which becomes the last id handed out; the first pot gets id 1.
pub fn save_pot(store: &mut PotStore, pot: Pot) -> (r: Result<u64, PotError>)
    ensures
        next_pot_id(old(store).pot_seq) > u64::MAX ==> r == Err::<u64, PotError>(PotError::Overflow)
            && final(store).pot_seq == old(store).pot_seq && final(store).pots@ == old(store).pots@,
        next_pot_id(old(store).pot_seq) <= u64::MAX ==> {
            let id = next_pot_id(old(store).pot_seq) as u64;
            &&& r == Ok::<u64, PotError>(id)
            &&& final(store).pot_seq == Some(id)
            &&& final(store).pots@ == old(store).pots@.insert(id, pot)
        },
{
    let id = match store.pot_seq {
        Some(n) => match n.checked_add(1) {
            Some(id) => id,
            None => {
                return Err(PotError::Overflow);
            },
        },
        None => 1,
    };
    store.pot_seq = Some(id);
    store.pots.insert(id, pot);
    Ok(id)
}

} // verus!

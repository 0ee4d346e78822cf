use cw_examples::pot::{save_pot, Pot, PotError, PotStore};
use std::collections::HashMap;

fn pot(target: &str) -> Pot {
    Pot { target_addr: target.to_string(), threshold: 100, collected: 0 }
}

#[test]
fn pots_get_consecutive_ids() {
    let mut store = PotStore::new();
    assert_eq!(save_pot(&mut store, pot("a")), Ok(1));
    assert_eq!(save_pot(&mut store, pot("b")), Ok(2));
    assert_eq!(store.pot_seq, Some(2));
    assert_eq!(store.pots.get(&1), Some(&pot("a")));
    assert_eq!(store.pots.get(&2), Some(&pot("b")));
}

#[test]
fn first_pot_gets_id_one_and_ids_do_not_overflow() {
    let mut store = PotStore { pot_seq: None, pots: HashMap::new() };
    assert_eq!(save_pot(&mut store, pot("a")), Ok(1));
    assert_eq!(store.pot_seq, Some(1));
    assert_eq!(store.pots.get(&1), Some(&pot("a")));

    let mut store = PotStore { pot_seq: Some(u64::MAX), pots: HashMap::new() };
    assert_eq!(save_pot(&mut store, pot("a")), Err(PotError::Overflow));
    assert_eq!(store.pot_seq, Some(u64::MAX));
    assert!(store.pots.is_empty());
}

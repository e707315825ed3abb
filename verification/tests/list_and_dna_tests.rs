use parity_scale_codec::Encode;

use kitties::combine_dna;
use kitties::pallet::Kitties;

fn seed(n: u8) -> [u8; 32] {
    [n; 32]
}

fn rich() -> Kitties {
    let mut k = Kitties::new();
    k.set_balance(1, 1_000);
    k.set_balance(2, 1_000);
    k
}

#[test]
fn combine_dna_picks_bits_by_selector() {
    assert_eq!(combine_dna(0b1010_1010, 0b0101_0101, 0b1111_1111), 0b1010_1010);
    assert_eq!(combine_dna(0b1010_1010, 0b0101_0101, 0b0000_0000), 0b0101_0101);
    assert_eq!(combine_dna(0b1111_0000, 0b0000_1111, 0b1100_1100), 0b1100_0011);
    assert_eq!(combine_dna(0xab, 0xab, 0x5c), 0xab);
}

#[test]
fn owned_list_keeps_insertion_order() {
    let mut kitties = rich();
    for i in 0..3u32 {
        let _ = kitties.create(1, &seed(i as u8), i);
    }
    assert_eq!(kitties.owned_kitties(1), vec![0, 1, 2]);
    assert!(kitties.transfer(1, 2, 1).is_ok());
    assert_eq!(kitties.owned_kitties(1), vec![0, 2]);
    assert_eq!(kitties.owned_kitties(2), vec![1]);
    assert!(kitties.transfer(2, 1, 1).is_ok());
    assert_eq!(kitties.owned_kitties(1), vec![0, 2, 1]);
    assert_eq!(kitties.owned_kitties(2), Vec::<u32>::new());
}

#[test]
fn owned_list_handles_first_middle_and_last_removal() {
    let mut kitties = rich();
    for i in 0..5u32 {
        let _ = kitties.create(1, &seed(i as u8), i);
    }
    assert!(kitties.transfer(1, 2, 0).is_ok());
    assert_eq!(kitties.owned_kitties(1), vec![1, 2, 3, 4]);
    assert!(kitties.transfer(1, 2, 4).is_ok());
    assert_eq!(kitties.owned_kitties(1), vec![1, 2, 3]);
    assert!(kitties.transfer(1, 2, 2).is_ok());
    assert_eq!(kitties.owned_kitties(1), vec![1, 3]);
    assert_eq!(kitties.owned_kitties(2), vec![0, 4, 2]);
    for id in [0u32, 2, 4] {
        assert!(kitties.owns(2, id));
        assert!(!kitties.owns(1, id));
    }
}

#[test]
fn membership_agrees_with_enumeration_on_larger_bucket() {
    let mut kitties = rich();
    for i in 0..40u32 {
        let _ = kitties.create(1, &seed(i as u8), i);
    }
    let owned = kitties.owned_kitties(1);
    assert_eq!(owned.len(), 40);
    for id in 0..40u32 {
        assert_eq!(owned.contains(&id), kitties.owns(1, id));
    }
    assert!(!kitties.owns(1, 40));
}

#[test]
fn create_derives_dna_from_seed_caller_and_index() {
    let mut kitties = rich();
    let s = seed(9);
    assert_eq!(kitties.create(1, &s, 4), Ok(0));
    let expected = sp_io::hashing::blake2_128(&(s, 1u64, 4u32).encode());
    assert_eq!(kitties.kitties(0).unwrap().dna, expected);
}

#[test]
fn breeding_combines_parent_dna_by_selector() {
    let mut kitties = rich();
    let _ = kitties.create(1, &seed(1), 0);
    let _ = kitties.create(1, &seed(2), 1);
    let d1 = kitties.kitties(0).unwrap().dna;
    let d2 = kitties.kitties(1).unwrap().dna;
    let s = seed(7);
    assert_eq!(kitties.breed(1, 0, 1, &s, 2), Ok(2));
    let selector = sp_io::hashing::blake2_128(&(s, 1u64, 2u32).encode());
    let child = kitties.kitties(2).unwrap().dna;
    for i in 0..16 {
        assert_eq!(child[i], (selector[i] & d1[i]) | (!selector[i] & d2[i]));
    }
}

#[test]
fn breeding_is_deterministic_in_the_seed() {
    let mut a = rich();
    let mut b = rich();
    for k in [&mut a, &mut b] {
        let _ = k.create(1, &seed(1), 0);
        let _ = k.create(1, &seed(2), 1);
        assert_eq!(k.breed(1, 0, 1, &seed(7), 2), Ok(2));
    }
    assert_eq!(a.kitties(2).unwrap().dna, b.kitties(2).unwrap().dna);
    let mut c = rich();
    let _ = c.create(1, &seed(1), 0);
    let _ = c.create(1, &seed(2), 1);
    assert_eq!(c.breed(1, 0, 1, &seed(8), 2), Ok(2));
    assert_ne!(a.kitties(2).unwrap().dna, c.kitties(2).unwrap().dna);
}

#[test]
fn random_value_is_blake2_of_the_scale_payload() {
    let s = seed(3);
    let r = Kitties::random_value(&s, 5u64, 11u32);
    assert_eq!(r, sp_io::hashing::blake2_128(&(s, 5u64, 11u32).encode()));
}

#[test]
fn gen_lock_id_is_twox64_of_the_scale_pair() {
    let r = Kitties::gen_lock_id(5u64, 11u32);
    assert_eq!(r, sp_io::hashing::twox_64(&(5u64, 11u32).encode()));
}

use poseidon_hash::dh::{FiniteField, PlutoBaseField, FFDH};

#[test]
fn dh() {
    let mut alice = FFDH::<PlutoBaseField>::new();
    let mut bob = FFDH::<PlutoBaseField>::new();

    alice.generate_shared_key(bob.public_key);
    bob.generate_shared_key(alice.public_key);

    assert_eq!(alice.shared_key(), bob.shared_key());
}

#[test]
fn shared_key_stays_reduced() {
    let mut alice = FFDH::<PlutoBaseField>::new();
    let bob = FFDH::<PlutoBaseField>::new();
    alice.generate_shared_key(bob.public_key);
    assert!(alice.shared_key().val < 101);
    assert!(alice.public_key.val < 101);
}

#[test]
fn field_constructor_reduces() {
    let a = PlutoBaseField::new(205);
    assert_eq!(a.val, 3);
    let b = PlutoBaseField::new(100);
    assert_eq!(b.val, 100);
}

#[test]
fn field_multiplication_reduces() {
    let a = PlutoBaseField::new(7);
    let b = PlutoBaseField::new(20);
    // 7 * 20 = 140 = 39 mod 101
    assert_eq!(a.mul(b).val, 39);
}

use lambdaworks_math::unsigned_integer::element::UnsignedInteger;

#[test]
fn it_works() {
    let result = poseidon_hash::ec::add(2, 2);
    assert_eq!(result, 4);
}

#[test]
fn test_public_key() {
    let private_key: UnsignedInteger<1> = UnsignedInteger::from_u64(0x6C616D6264617370);
    let public_key = poseidon_hash::ec::public_key(private_key);
    println!("public_key: {:?}", public_key.x_hex());
}

use tracker_core::secp160r1::{
    coeff_a, coeff_b, field_prime, fp_add, fp_inv, fp_mul, fp_sqr, fp_sub, gen_x, gen_y,
    generator_affine, group_order, scalar_mul_generator, ProjectivePoint, U160, U192,
};

#[test]
fn test_u160_from_be_hex() {
    let v = U160::from_be_hex("0000000000000000000000000000000000000001");
    assert_eq!(v, U160::one());
    let v = U160::from_be_hex("FFFFFFFFFFFFFFFFFFFFFFFFFFFFFFFF7FFFFFFF");
    assert_eq!(v, field_prime());
}

#[test]
fn test_u160_be_bytes_roundtrip() {
    let bytes = gen_x().to_be_bytes();
    let reconstructed = U160::from_be_bytes(&bytes);
    assert_eq!(reconstructed, gen_x());
}

#[test]
fn test_generator_on_curve() {
    let x = gen_x();
    let y = gen_y();
    let y2 = fp_sqr(&y);
    let x2 = fp_sqr(&x);
    let x3 = fp_mul(&x2, &x);
    let ax = fp_mul(&coeff_a(), &x);
    let rhs = fp_add(&fp_add(&x3, &ax), &coeff_b());
    assert_eq!(y2, rhs, "Generator G must be on the curve");
}

#[test]
fn test_scalar_mul_1g() {
    let scalar = U192 { limbs: [1, 0, 0, 0, 0, 0] };
    let result = scalar_mul_generator(&scalar);
    let affine = result.to_affine().unwrap();
    assert_eq!(affine.x, gen_x());
    assert_eq!(affine.y, gen_y());
}

#[test]
fn test_scalar_mul_2g() {
    let scalar = U192 { limbs: [2, 0, 0, 0, 0, 0] };
    let result = scalar_mul_generator(&scalar);
    let affine = result.to_affine().unwrap();
    let expected_x = U160::from_be_hex("02F997F33C5ED04C55D3EDF8675D3E92E8F46686");
    let expected_y = U160::from_be_hex("F083A323482993E9440E817E21CFB7737DF8797B");
    assert_eq!(affine.x, expected_x, "2*G x-coordinate mismatch");
    assert_eq!(affine.y, expected_y, "2*G y-coordinate mismatch");
}

#[test]
fn test_scalar_mul_3g() {
    let scalar = U192 { limbs: [3, 0, 0, 0, 0, 0] };
    let result = scalar_mul_generator(&scalar);
    let affine = result.to_affine().unwrap();
    let expected_x = U160::from_be_hex("7B76FF541EF363F2DF13DE1650BD48DAA958BC59");
    let expected_y = U160::from_be_hex("C915CA790D8C8877B55BE0079D12854FFE9F6F5A");
    assert_eq!(affine.x, expected_x, "3*G x-coordinate mismatch");
    assert_eq!(affine.y, expected_y, "3*G y-coordinate mismatch");
}

#[test]
fn test_scalar_mul_7g() {
    let scalar = U192 { limbs: [7, 0, 0, 0, 0, 0] };
    let result = scalar_mul_generator(&scalar);
    let affine = result.to_affine().unwrap();
    let expected_x = U160::from_be_hex("7A7F99D56472F619577C4E8C9B3A35E961472188");
    let expected_y = U160::from_be_hex("8955C17A4AA7B3CA673C6D55EE00FAE62552E356");
    assert_eq!(affine.x, expected_x, "7*G x-coordinate mismatch");
    assert_eq!(affine.y, expected_y, "7*G y-coordinate mismatch");
}

#[test]
fn test_scalar_mul_n_minus_1() {
    let n = group_order();
    let n_minus_1 = U192 {
        limbs: [
            n.limbs[0].wrapping_sub(1),
            n.limbs[1],
            n.limbs[2],
            n.limbs[3],
            n.limbs[4],
            n.limbs[5],
        ],
    };
    let result = scalar_mul_generator(&n_minus_1);
    let affine = result.to_affine().unwrap();
    assert_eq!(affine.x, gen_x(), "(n-1)*G x should equal Gx");
    let expected_y = U160::from_be_hex("DC59D7AACE976B82A62336EDFBDCAEC8053A04CD");
    assert_eq!(affine.y, expected_y, "(n-1)*G y should equal p - Gy");
    assert_eq!(fp_add(&affine.y, &gen_y()), U160::zero());
}

#[test]
fn test_scalar_mul_large() {
    let scalar = U192 { limbs: [0xAA55AA55, 0xAA55AA55, 0x0000AA55, 0, 0, 0] };
    let result = scalar_mul_generator(&scalar);
    let affine = result.to_affine().unwrap();
    let expected_x = U160::from_be_hex("4A186ECC7AD21B80FAEEDD30E2C8B8840BCD0F04");
    let expected_y = U160::from_be_hex("398321CA04D2C106ACAE698477661F8FE54F312A");
    assert_eq!(affine.x, expected_x, "large scalar x mismatch");
    assert_eq!(affine.y, expected_y, "large scalar y mismatch");
}

#[test]
fn test_scalar_mul_ng_is_identity() {
    let result = scalar_mul_generator(&group_order());
    assert!(result.is_identity(), "n*G must be the point at infinity");
}

#[test]
fn scalar_mul_zero_is_identity() {
    let result = scalar_mul_generator(&U192 { limbs: [0; 6] });
    assert!(result.is_identity());
    assert!(result.to_affine().is_none());
}

#[test]
fn test_point_double_equals_add() {
    let g_proj = ProjectivePoint::generator();
    let doubled = g_proj.double();
    let added = g_proj.add_affine(&generator_affine());
    let d_affine = doubled.to_affine().unwrap();
    let a_affine = added.to_affine().unwrap();
    assert_eq!(d_affine.x, a_affine.x, "double vs add: x mismatch");
    assert_eq!(d_affine.y, a_affine.y, "double vs add: y mismatch");
}

#[test]
fn test_fp_add_sub_inverse() {
    let a = gen_x();
    let b = gen_y();
    let sum = fp_add(&a, &b);
    let diff = fp_sub(&sum, &b);
    assert_eq!(diff, a, "a + b - b should equal a");
}

#[test]
fn fp_sub_wraps_below_zero() {
    let one = U160::one();
    let r = fp_sub(&U160::zero(), &one);
    assert_eq!(r, U160::from_be_hex("FFFFFFFFFFFFFFFFFFFFFFFFFFFFFFFF7FFFFFFE"));
}

#[test]
fn test_fp_mul_identity() {
    let result = fp_mul(&gen_x(), &U160::one());
    assert_eq!(result, gen_x(), "x * 1 should equal x");
}

#[test]
fn test_fp_inv() {
    let inv = fp_inv(&gen_x());
    let product = fp_mul(&gen_x(), &inv);
    assert_eq!(product, U160::one(), "x * x^(-1) should equal 1");
}

#[test]
fn test_reduce_256_mod_n() {
    let mut bytes = [0u8; 32];
    bytes[11] = 0x01;
    bytes[20] = 0x00;
    bytes[21] = 0x01;
    bytes[22] = 0xF4;
    bytes[23] = 0xC8;
    bytes[24] = 0xF9;
    bytes[25] = 0x27;
    bytes[26] = 0xAE;
    bytes[27] = 0xD3;
    bytes[28] = 0xCA;
    bytes[29] = 0x75;
    bytes[30] = 0x22;
    bytes[31] = 0x57;
    let result = U192::from_be_bytes_32(&bytes);
    assert!(result.is_zero(), "n mod n should be 0");
}

#[test]
fn test_reduce_256_small_value() {
    let mut bytes = [0u8; 32];
    bytes[31] = 42;
    let result = U192::from_be_bytes_32(&bytes);
    assert_eq!(result.limbs[0], 42);
    assert_eq!(result.limbs[1], 0);
}

#[test]
fn reduce_all_ones() {
    // 2^256 - 1 mod n, checked by the reduction being below n and stable
    let r = U192::from_be_bytes_32(&[0xFF; 32]);
    assert!(!r.gte(&group_order()));
    let mut bytes = [0u8; 32];
    let be = {
        let mut b = [0u8; 24];
        r.to_be_bytes_padded(&mut b);
        b
    };
    bytes[8..].copy_from_slice(&be);
    assert_eq!(U192::from_be_bytes_32(&bytes), r);
}

#[test]
fn u192_hex_and_bits() {
    let n = U192::from_be_hex("0100000000000000000001F4C8F927AED3CA752257");
    assert_eq!(n, group_order());
    assert_eq!(n.bit_length(), Some(160));
    assert!(n.bit(0));
    assert!(!n.bit(3));
    assert!(n.bit(160));
    assert!(!n.bit(500));
    assert_eq!(U192 { limbs: [0; 6] }.bit_length(), None);
    let mut buf = [0xAAu8; 26];
    n.to_be_bytes_padded(&mut buf);
    assert_eq!(&buf[..5], &[0, 0, 0, 0, 0]);
    assert_eq!(buf[5], 1);
    assert_eq!(&buf[22..], &[0xCA, 0x75, 0x22, 0x57]);
}

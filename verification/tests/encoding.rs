use threshold_sharing::group::Point;
use threshold_sharing::karatsuba::{karatsuba_mul, parallel_karatsuba_mul};
use threshold_sharing::polynomial::{naive_mul, poly_evaluate, poly_mul};
use threshold_sharing::scalar::{random_scalar, Scalar};
use threshold_sharing::serialization::{
    decode_share, encode_share, hex_decode, hex_encode, to_array, DecodeError, SerRistrettoPoint,
    SerScalar,
};
use threshold_sharing::sharing::generate_key_shares;
use threshold_sharing::vss::verify_share_validity;

fn numbers(from: u64, count: usize) -> Vec<Scalar> {
    (0..count as u64).map(|i| Scalar::from_u64(from + 3 * i + i * i)).collect()
}

#[test]
fn hex_text() {
    assert_eq!(hex_encode(&[0x00, 0x0f, 0xa5, 0xff]), b"000fa5ff".to_vec());
    assert_eq!(hex_encode(&[]), b"".to_vec());
    assert_eq!(hex_decode(b"000fa5ff"), Some(vec![0x00, 0x0f, 0xa5, 0xff]));
    assert_eq!(hex_decode(b"000FA5Ff"), Some(vec![0x00, 0x0f, 0xa5, 0xff]));
    assert_eq!(hex_decode(b""), Some(vec![]));
    assert_eq!(hex_decode(b"abc"), None);
    assert_eq!(hex_decode(b"0g"), None);
    assert_eq!(hex_decode(b"g0"), None);
    assert_eq!(hex_decode(b" 0"), None);
    let all: Vec<u8> = (0..=255u8).collect();
    assert_eq!(hex_decode(&hex_encode(&all)), Some(all));
}

#[test]
fn array_of_32() {
    assert_eq!(to_array(&vec![7u8; 32]), Some([7u8; 32]));
    assert_eq!(to_array(&vec![7u8; 31]), None);
    assert_eq!(to_array(&vec![7u8; 33]), None);
}

#[test]
fn scalar_text_round_trip() {
    let text = SerScalar(Scalar::from_u64(0x0102)).serialize();
    assert_eq!(
        text,
        b"0201000000000000000000000000000000000000000000000000000000000000".to_vec()
    );
    assert_eq!(SerScalar::deserialize(&text), Ok(SerScalar(Scalar::from_u64(0x0102))));
    for _ in 0..20 {
        let x = random_scalar();
        assert_eq!(SerScalar::deserialize(&SerScalar(x).serialize()), Ok(SerScalar(x)));
    }
}

#[test]
fn scalar_text_errors() {
    assert_eq!(SerScalar::deserialize(b"zz"), Err(DecodeError::InvalidHex));
    assert_eq!(SerScalar::deserialize(b"012"), Err(DecodeError::InvalidHex));
    assert_eq!(SerScalar::deserialize(b"0102"), Err(DecodeError::InvalidLength));
    assert_eq!(SerScalar::deserialize(b""), Err(DecodeError::InvalidLength));
    // the group order is not a canonical scalar
    let order = b"edd3f55c1a631258d69cf7a2def9de1400000000000000000000000000000010";
    assert_eq!(SerScalar::deserialize(order), Err(DecodeError::NonCanonicalScalar));
    let below = b"ecd3f55c1a631258d69cf7a2def9de1400000000000000000000000000000010";
    assert_eq!(SerScalar::deserialize(below), Ok(SerScalar(Scalar::one().neg())));
    let high = b"00000000000000000000000000000000000000000000000000000000000000ff";
    assert_eq!(SerScalar::deserialize(high), Err(DecodeError::NonCanonicalScalar));
}

#[test]
fn point_text_round_trip() {
    let g = Point::generator();
    let text = SerRistrettoPoint(g).serialize();
    assert_eq!(
        text,
        b"e2f2ae0a6abc4e71a884a961c500515f58e30b6aa582dd8db6a65945e08d2d76".to_vec()
    );
    assert_eq!(SerRistrettoPoint::deserialize(&text), Ok(SerRistrettoPoint(g)));
    let p = g.mul(&random_scalar());
    assert_eq!(
        SerRistrettoPoint::deserialize(&SerRistrettoPoint(p).serialize()),
        Ok(SerRistrettoPoint(p))
    );
}

#[test]
fn identity_point_is_rejected() {
    let zeros = b"0000000000000000000000000000000000000000000000000000000000000000";
    assert_eq!(SerRistrettoPoint::deserialize(zeros), Err(DecodeError::IdentityPoint));
    let identity = Point::generator().mul(&Scalar::zero());
    let text = SerRistrettoPoint(identity).serialize();
    assert_eq!(text, zeros.to_vec());
    assert_eq!(SerRistrettoPoint::deserialize(&text), Err(DecodeError::IdentityPoint));
}

#[test]
fn point_text_errors() {
    assert_eq!(SerRistrettoPoint::deserialize(b"xy"), Err(DecodeError::InvalidHex));
    assert_eq!(SerRistrettoPoint::deserialize(b"00"), Err(DecodeError::InvalidLength));
    let ones = b"ffffffffffffffffffffffffffffffffffffffffffffffffffffffffffffffff";
    assert_eq!(SerRistrettoPoint::deserialize(ones), Err(DecodeError::InvalidPoint));
    let odd = b"0100000000000000000000000000000000000000000000000000000000000000";
    assert_eq!(SerRistrettoPoint::deserialize(odd), Err(DecodeError::InvalidPoint));
}

#[test]
fn record_text_round_trip() {
    let shares = generate_key_shares(Scalar::from_u64(42), 3, 5);
    for record in shares.iter() {
        let text = encode_share(record);
        assert_eq!(text.index, record.index);
        assert_eq!(text.share.len(), 64);
        let back = decode_share(&text).unwrap();
        assert_eq!(back, *record);
        assert!(verify_share_validity(&[back]));
    }
}

#[test]
fn tampered_record_text() {
    let record = generate_key_shares(Scalar::from_u64(42), 3, 5)[0].clone();
    let text = encode_share(&record);
    let mut bad = text.clone();
    bad.share[0] = b'x';
    assert_eq!(decode_share(&bad), Err(DecodeError::InvalidHex));
    let mut bad = text.clone();
    bad.random.pop();
    assert_eq!(decode_share(&bad), Err(DecodeError::InvalidHex));
    let mut bad = text.clone();
    bad.proof_z_s.truncate(62);
    assert_eq!(decode_share(&bad), Err(DecodeError::InvalidLength));
    let mut bad = text.clone();
    bad.proof_z_r = vec![b'f'; 64];
    assert_eq!(decode_share(&bad), Err(DecodeError::NonCanonicalScalar));
    let mut bad = text.clone();
    bad.commitment = vec![b'0'; 64];
    assert_eq!(decode_share(&bad), Err(DecodeError::IdentityPoint));
    let mut bad = text.clone();
    bad.proof_t = vec![b'f'; 64];
    assert_eq!(decode_share(&bad), Err(DecodeError::InvalidPoint));
    // a changed digit that still decodes gives a record that does not verify
    let mut bent = text.clone();
    bent.proof_z_s[0] = if bent.proof_z_s[0] == b'0' { b'1' } else { b'0' };
    let back = decode_share(&bent).unwrap();
    assert_ne!(back, record);
    assert!(!verify_share_validity(&[back]));
    // the first faulty field decides
    let mut two = text.clone();
    two.share = vec![b'f'; 64];
    two.commitment = vec![b'0'; 64];
    assert_eq!(decode_share(&two), Err(DecodeError::NonCanonicalScalar));
}

#[test]
fn karatsuba_agrees_with_schoolbook() {
    for (la, lb) in [(33usize, 33usize), (40, 10), (70, 1), (65, 64), (100, 37), (0, 40), (41, 0)] {
        let a = numbers(5, la);
        let b = numbers(11, lb);
        let expected = naive_mul(&a, &b);
        assert_eq!(karatsuba_mul(&a, &b), expected);
        assert_eq!(poly_mul(&a, &b), expected);
        assert_eq!(parallel_karatsuba_mul(&a, &b), expected);
    }
    let none: Vec<Scalar> = vec![];
    assert_eq!(karatsuba_mul(&none, &none), none);
}

#[test]
fn karatsuba_with_random_coefficients() {
    let a: Vec<Scalar> = (0..90).map(|_| random_scalar()).collect();
    let b: Vec<Scalar> = (0..75).map(|_| random_scalar()).collect();
    let product = karatsuba_mul(&a, &b);
    assert_eq!(product.len(), 164);
    assert_eq!(product, naive_mul(&a, &b));
    let x = random_scalar();
    assert_eq!(poly_evaluate(&product, x), poly_evaluate(&a, x).mul(&poly_evaluate(&b, x)));
}

#[test]
fn large_product_uses_the_split_above_1024() {
    let a = numbers(1, 1030);
    let b = numbers(2, 3);
    assert_eq!(parallel_karatsuba_mul(&a, &b), naive_mul(&a, &b));
    assert_eq!(poly_mul(&a, &b), naive_mul(&a, &b));
}

#[test]
fn hex_text_is_the_usual_one() {
    let all: Vec<u8> = (0..=255u8).collect();
    assert_eq!(hex_encode(&all), hex::encode(&all).into_bytes());
    for text in ["", "00", "0a", "0A", "fF", "abc", "zz", "0x", "12 4", "deadBEEF", "é0"] {
        assert_eq!(hex_decode(text.as_bytes()), hex::decode(text).ok());
    }
}

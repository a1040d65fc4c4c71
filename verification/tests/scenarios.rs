use threshold_sharing::lagrange_fft::{
    compute_lagrange_coefficients, recover_secret_fft, recover_secrets_batch, LagrangeError,
};
use threshold_sharing::mpc::mpc_generate_key_shares;
use threshold_sharing::scalar::Scalar;
use threshold_sharing::schnorr::{generate_proof, verify_proof};
use threshold_sharing::group::Point;
use threshold_sharing::sharing::{
    adjust_threshold, generate_key_shares, update_shares, ShareData,
};
use threshold_sharing::vss::verify_share_validity;

fn pick(shares: &[ShareData], indices: &[usize]) -> Vec<ShareData> {
    indices.iter().map(|i| shares[*i - 1].clone()).collect()
}

#[test]
fn basic_three_of_five_reconstructs_from_any_three() {
    let secret = Scalar::from_u64(42);
    let shares = generate_key_shares(secret, 3, 5);
    assert_eq!(shares.len(), 5);
    for (i, share) in shares.iter().enumerate() {
        assert_eq!(share.index, i + 1);
    }
    assert_eq!(recover_secret_fft(&pick(&shares, &[1, 2, 3])), Ok(secret));
    assert_eq!(recover_secret_fft(&pick(&shares, &[2, 4, 5])), Ok(secret));
    assert_eq!(recover_secret_fft(&pick(&shares, &[1, 3, 5])), Ok(secret));
}

#[test]
fn two_of_three_needed_shares_do_not_reconstruct() {
    let secret = Scalar::from_u64(42);
    let shares = generate_key_shares(secret, 3, 5);
    assert_ne!(recover_secret_fft(&pick(&shares, &[1, 2])), Ok(secret));
    assert_ne!(recover_secret_fft(&pick(&shares, &[4, 5])), Ok(secret));
}

#[test]
fn threshold_one_gives_the_secret_in_every_share() {
    let secret = Scalar::from_u64(7);
    let shares = generate_key_shares(secret, 1, 3);
    for share in shares.iter() {
        assert_eq!(share.share, secret);
        assert_eq!(recover_secret_fft(&[share.clone()]), Ok(secret));
    }
}

#[test]
fn duplicate_shares_are_rejected() {
    let shares = generate_key_shares(Scalar::from_u64(42), 3, 5);
    let twice = vec![shares[0].clone(), shares[0].clone()];
    assert_eq!(recover_secret_fft(&twice), Err(LagrangeError::ZeroDerivative { index: 1 }));
}

#[test]
fn index_zero_is_rejected() {
    let shares = generate_key_shares(Scalar::from_u64(42), 2, 3);
    let mut bad = shares[0].clone();
    bad.index = 0;
    assert_eq!(
        recover_secret_fft(&[shares[1].clone(), bad]),
        Err(LagrangeError::InvalidShareIndex { index: 0 })
    );
}

#[test]
fn fresh_shares_verify() {
    let shares = generate_key_shares(Scalar::from_u64(99), 3, 6);
    assert!(verify_share_validity(&shares));
    let none: Vec<ShareData> = vec![];
    assert!(verify_share_validity(&none));
}

#[test]
fn tampered_share_commitment_does_not_verify() {
    let shares = generate_key_shares(Scalar::from_u64(42), 3, 5);
    let record = shares[1].clone();
    // the proof binds the commitment: a commitment to share + 1 is refused
    let moved = record.share.add(&Scalar::one());
    let mut forged = record.clone();
    forged.share = moved;
    forged.commitment = Point::commit(&moved, &record.random);
    assert!(!verify_share_validity(&[forged]));
    // the responses are bound too
    let mut bent = record.clone();
    bent.proof.z_s = bent.proof.z_s.add(&Scalar::one());
    assert!(!verify_share_validity(&[bent.clone()]));
    let mut blinded = record.clone();
    blinded.proof.z_r = blinded.proof.z_r.add(&Scalar::one());
    assert!(!verify_share_validity(&[blinded]));
    // and so is the index
    let mut renumbered = record.clone();
    renumbered.index = 4;
    assert!(!verify_share_validity(&[renumbered]));
    assert!(!verify_share_validity(&[shares[0].clone(), bent, shares[2].clone()]));
}

#[test]
fn proof_with_identity_first_message_is_refused() {
    let share = Scalar::from_u64(5);
    let random = Scalar::from_u64(6);
    let commitment = Point::commit(&share, &random);
    let mut proof = generate_proof(share, random, 1, commitment);
    assert!(verify_proof(&proof, commitment, 1));
    proof.t = Point::from_bytes([0u8; 32]).unwrap();
    assert!(!verify_proof(&proof, commitment, 1));
}

#[test]
fn refresh_keeps_the_secret_and_forbids_mixing() {
    let secret = Scalar::from_u64(123);
    let shares = generate_key_shares(secret, 5, 10);
    let refreshed = update_shares(&shares, 5);
    assert_eq!(refreshed.len(), 10);
    assert!(verify_share_validity(&refreshed));
    for (old, new) in shares.iter().zip(refreshed.iter()) {
        assert_eq!(old.index, new.index);
    }
    assert_eq!(recover_secret_fft(&pick(&refreshed, &[1, 2, 3, 4, 5])), Ok(secret));
    assert_eq!(recover_secret_fft(&pick(&refreshed, &[2, 4, 6, 8, 10])), Ok(secret));
    let mixed = vec![
        shares[0].clone(),
        shares[1].clone(),
        shares[2].clone(),
        refreshed[3].clone(),
        refreshed[4].clone(),
    ];
    assert_ne!(recover_secret_fft(&mixed), Ok(secret));
}

#[test]
fn reshare_three_of_five_to_four_of_eight() {
    let secret = Scalar::from_u64(77);
    let shares = generate_key_shares(secret, 3, 5);
    let fresh = adjust_threshold(&shares[..3], 3, 4, 8).unwrap();
    assert_eq!(fresh.len(), 8);
    assert!(verify_share_validity(&fresh));
    assert_eq!(recover_secret_fft(&pick(&fresh, &[1, 2, 3, 4])), Ok(secret));
    assert_eq!(recover_secret_fft(&pick(&fresh, &[2, 5, 7, 8])), Ok(secret));
    assert_ne!(recover_secret_fft(&pick(&fresh, &[1, 2, 3])), Ok(secret));
}

#[test]
fn reshare_errors() {
    let shares = generate_key_shares(Scalar::from_u64(77), 3, 5);
    assert_eq!(
        adjust_threshold(&shares[..2], 3, 4, 8),
        Err(LagrangeError::InsufficientShares { needed: 3, provided: 2 })
    );
    let mut zero = shares[1].clone();
    zero.index = 0;
    assert_eq!(
        adjust_threshold(&[shares[0].clone(), zero, shares[2].clone()], 3, 4, 8),
        Err(LagrangeError::InvalidShareIndex { index: 0 })
    );
    assert_eq!(
        adjust_threshold(&[shares[0].clone(), shares[2].clone(), shares[2].clone()], 3, 4, 8),
        Err(LagrangeError::DuplicateShareIndex { index: 3 })
    );
    let none: Vec<ShareData> = vec![];
    assert_eq!(
        adjust_threshold(&none, 0, 2, 3),
        Err(LagrangeError::InsufficientShares { needed: 1, provided: 0 })
    );
}

#[test]
fn mpc_generation_with_four_parties() {
    let (secret, shares) = mpc_generate_key_shares(4, 3, 6);
    assert_eq!(shares.len(), 6);
    assert!(verify_share_validity(&shares));
    assert_eq!(recover_secret_fft(&pick(&shares, &[1, 2, 3])), Ok(secret));
    assert_eq!(recover_secret_fft(&pick(&shares, &[2, 4, 6])), Ok(secret));
    assert_eq!(recover_secret_fft(&pick(&shares, &[1, 5, 6])), Ok(secret));
}

#[test]
fn mpc_generation_without_parties_shares_zero() {
    let (secret, shares) = mpc_generate_key_shares(0, 2, 3);
    assert_eq!(secret, Scalar::zero());
    for share in shares.iter() {
        assert_eq!(share.share, Scalar::zero());
    }
}

#[test]
fn batch_recovery_is_recovery_of_each() {
    let a = generate_key_shares(Scalar::from_u64(1), 2, 3);
    let b = generate_key_shares(Scalar::from_u64(2), 3, 3);
    let empty: Vec<ShareData> = vec![];
    let results = recover_secrets_batch(&[a, b, empty]);
    assert_eq!(results.len(), 3);
    assert_eq!(results[0], Ok(Scalar::from_u64(1)));
    assert_eq!(results[1], Ok(Scalar::from_u64(2)));
    assert_eq!(results[2], Err(LagrangeError::InsufficientShares { needed: 1, provided: 0 }));
}

#[test]
fn lagrange_coefficients_for_one_two_three() {
    // for the points 1, 2, 3 the coefficients at zero are 3, -3, 1
    let xs = vec![Scalar::from_u64(1), Scalar::from_u64(2), Scalar::from_u64(3)];
    let lambda = compute_lagrange_coefficients(&xs).unwrap();
    assert_eq!(lambda, vec![Scalar::from_u64(3), Scalar::from_u64(3).neg(), Scalar::from_u64(1)]);
    // the polynomial 5 + 2x + x^2 has the values 8, 13, 20
    let values = [8u64, 13, 20];
    let mut at_zero = Scalar::zero();
    for (l, v) in lambda.iter().zip(values.iter()) {
        at_zero = at_zero.add(&l.mul(&Scalar::from_u64(*v)));
    }
    assert_eq!(at_zero, Scalar::from_u64(5));
}

#[test]
fn lagrange_coefficient_errors() {
    let none: Vec<Scalar> = vec![];
    assert_eq!(
        compute_lagrange_coefficients(&none),
        Err(LagrangeError::InsufficientShares { needed: 1, provided: 0 })
    );
    let xs = vec![Scalar::from_u64(4), Scalar::from_u64(9), Scalar::from_u64(4)];
    assert_eq!(
        compute_lagrange_coefficients(&xs),
        Err(LagrangeError::DuplicateShareIndex { index: 1 })
    );
    let one = vec![Scalar::from_u64(4)];
    assert_eq!(compute_lagrange_coefficients(&one), Ok(vec![Scalar::one()]));
}

#[test]
fn more_shares_than_the_threshold_reconstruct() {
    let secret = Scalar::from_u64(4242);
    let shares = generate_key_shares(secret, 3, 6);
    assert_eq!(recover_secret_fft(&shares), Ok(secret));
    assert_eq!(recover_secret_fft(&pick(&shares, &[6, 2, 4, 1])), Ok(secret));
    let refreshed = update_shares(&shares, 3);
    assert_eq!(recover_secret_fft(&refreshed), Ok(secret));
    let fresh = adjust_threshold(&shares, 3, 2, 4).unwrap();
    assert_eq!(recover_secret_fft(&fresh), Ok(secret));
    assert_eq!(recover_secret_fft(&pick(&fresh, &[4, 2])), Ok(secret));
}

#[test]
fn coefficients_weight_the_shares_to_the_secret() {
    let secret = Scalar::from_u64(31337);
    let shares = generate_key_shares(secret, 3, 7);
    let chosen = pick(&shares, &[2, 5, 7]);
    let points: Vec<Scalar> = chosen.iter().map(|s| Scalar::from_u64(s.index as u64)).collect();
    let lambda = compute_lagrange_coefficients(&points).unwrap();
    let mut sum = Scalar::zero();
    for (share, l) in chosen.iter().zip(lambda.iter()) {
        sum = sum.add(&share.share.mul(l));
    }
    assert_eq!(sum, secret);
    assert_eq!(recover_secret_fft(&chosen), Ok(sum));
}

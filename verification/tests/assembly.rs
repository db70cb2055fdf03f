use digest::Digest;
use groupy::{CurveAffine, CurveProjective, EncodedPoint};
use paired::bls12_381::{FrRepr, G1Affine, G2Affine};
use sha2::Sha256;
use taupipp::point::{G1Point, G2Point};
use taupipp::powers::{
    create_ipp_srs, create_ipp_srs_with_key, required_powers, AssemblyError, GenericSRS,
    TauParams, TauPowers,
};

fn g1(tau: u64, i: usize) -> G1Point {
    let point = G1Affine::one().mul(FrRepr::from(tau.pow(i as u32))).into_affine();
    G1Point::decode(point.into_compressed().as_ref(), true).expect("a power of tau in G1")
}

fn g2(tau: u64, i: usize) -> G2Point {
    let point = G2Affine::one().mul(FrRepr::from(tau.pow(i as u32))).into_affine();
    G2Point::decode(point.into_compressed().as_ref(), true).expect("a power of tau in G2")
}

/// The first `take` powers of `tau` in both groups.
fn powers(tau: u64, take: usize) -> TauPowers {
    TauPowers {
        tau_g1: (0..take).map(|i| g1(tau, i)).collect(),
        tau_g2: (0..take).map(|i| g2(tau, i)).collect(),
    }
}

fn hex(bytes: &[u8]) -> String {
    bytes.iter().map(|b| format!("{:02x}", b)).collect()
}

#[test]
fn params_hold_twice_the_powers_in_g1() {
    let params = TauParams::new(1 << 21, (1 << 20) + 1, true);
    assert_eq!(params.g2_length, 1 << 21);
    assert_eq!(params.g1_length, (1 << 22) - 1);
    assert_eq!(params.take, (1 << 20) + 1);
    assert!(params.compressed);
    let least = TauParams::new(1, 0, false);
    assert_eq!(least.g1_length, 1);
    assert_eq!(least.g2_length, 1);
    assert_eq!(least.take, 0);
    assert!(!least.compressed);
}

#[test]
fn powers_needed_are_twice_the_proofs_and_one() {
    assert_eq!(required_powers(0), Some(1));
    assert_eq!(required_powers(3), Some(7));
    assert_eq!(required_powers(1 << 19), Some((1 << 20) + 1));
    assert_eq!(required_powers((usize::MAX - 1) / 2), Some(usize::MAX));
    assert_eq!(required_powers((usize::MAX - 1) / 2 + 1), None);
    assert_eq!(required_powers(usize::MAX), None);
}

#[test]
fn end_to_end_two_transcripts_of_eight_powers() {
    let first = powers(3, 8);
    let second = powers(5, 8);
    let srs = create_ipp_srs(&first, &second, 3).expect("eight powers are enough for three proofs");
    assert_eq!(srs.g_alpha_powers.len(), 7);
    assert_eq!(srs.g_beta_powers.len(), 7);
    assert_eq!(srs.h_alpha_powers.len(), 7);
    assert_eq!(srs.h_beta_powers.len(), 7);
    assert_eq!(srs.g_alpha_powers[0], first.tau_g1[0]);
    assert_eq!(srs.g_alpha_powers[..], first.tau_g1[..7]);
    assert_eq!(srs.g_beta_powers[..], second.tau_g1[..7]);
    assert_eq!(srs.h_alpha_powers[..], first.tau_g2[..7]);
    assert_eq!(srs.h_beta_powers[..], second.tau_g2[..7]);
    // the transcripts are left as they were
    assert_eq!(first.tau_g1.len(), 8);
    assert_eq!(first.hash(), powers(3, 8).hash());
}

#[test]
fn assembly_takes_all_the_powers_when_they_just_suffice() {
    let first = powers(3, 7);
    let second = powers(5, 7);
    let srs = create_ipp_srs(&first, &second, 3).expect("seven powers for three proofs");
    assert_eq!(srs.g_alpha_powers, first.tau_g1);
    assert_eq!(srs.h_beta_powers, second.tau_g2);
    let least = create_ipp_srs(&first, &second, 0).expect("one power for no proof");
    assert_eq!(least.g_alpha_powers.len(), 1);
    assert_eq!(least.g_beta_powers[0], first.tau_g1[0]);
}

#[test]
fn swapping_the_transcripts_swaps_alpha_and_beta() {
    let first = powers(3, 8);
    let second = powers(5, 8);
    let a = create_ipp_srs(&first, &second, 3).expect("one way round");
    let b = create_ipp_srs(&second, &first, 3).expect("the other way round");
    assert_eq!(a.g_alpha_powers, b.g_beta_powers);
    assert_eq!(a.g_beta_powers, b.g_alpha_powers);
    assert_eq!(a.h_alpha_powers, b.h_beta_powers);
    assert_eq!(a.h_beta_powers, b.h_alpha_powers);
    assert_ne!(a.g_alpha_powers, b.g_alpha_powers);
    assert_eq!(b.g_alpha_powers.len(), 7);
    assert_eq!(b.h_alpha_powers.len(), 7);
    assert_ne!(a.hash(), b.hash());
}

#[test]
fn basis_mismatch_is_detected() {
    let first = powers(3, 8);
    // the second transcript starts from tau itself, not from the generator
    let mut second = powers(5, 8);
    second.tau_g1[0] = g1(5, 1);
    assert_eq!(create_ipp_srs(&first, &second, 3).err(), Some(AssemblyError::BasisMismatch));
    assert_eq!(create_ipp_srs(&second, &first, 3).err(), Some(AssemblyError::BasisMismatch));
    let mut third = powers(5, 8);
    third.tau_g2[0] = g2(5, 2);
    assert_eq!(create_ipp_srs(&first, &third, 3).err(), Some(AssemblyError::BasisMismatch));
    // a mismatch is reported before a lack of powers
    assert_eq!(create_ipp_srs(&first, &third, 4).err(), Some(AssemblyError::BasisMismatch));
    assert_eq!(
        create_ipp_srs_with_key(&first, &second, 3).err(),
        Some(AssemblyError::BasisMismatch)
    );
}

#[test]
fn insufficient_capacity_is_detected() {
    let first = powers(3, 8);
    let second = powers(5, 8);
    assert_eq!(create_ipp_srs(&first, &second, 4).err(), Some(AssemblyError::InsufficientCapacity));
    assert_eq!(
        create_ipp_srs(&first, &second, usize::MAX).err(),
        Some(AssemblyError::InsufficientCapacity)
    );
    assert_eq!(
        create_ipp_srs(&first, &second, usize::MAX / 2).err(),
        Some(AssemblyError::InsufficientCapacity)
    );
    let none = powers(3, 0);
    assert_eq!(
        create_ipp_srs(&none, &powers(5, 0), 0).err(),
        Some(AssemblyError::InsufficientCapacity)
    );
}

#[test]
fn verification_key_holds_generators_first_and_last_powers() {
    let first = powers(3, 8);
    let second = powers(5, 8);
    let (srs, key) = create_ipp_srs_with_key(&first, &second, 3).expect("eight powers");
    assert_eq!(srs.g_alpha_powers.len(), 7);
    assert_eq!(key.g, first.tau_g1[0]);
    assert_eq!(key.g, second.tau_g1[0]);
    assert_eq!(key.h, first.tau_g2[0]);
    assert_eq!(key.g_alpha, first.tau_g1[1]);
    assert_eq!(key.g_beta, second.tau_g1[1]);
    assert_eq!(key.h_alpha, first.tau_g2[1]);
    assert_eq!(key.h_beta, second.tau_g2[1]);
    assert_eq!(key.g_alpha_last, first.tau_g1[6]);
    assert_eq!(key.g_beta_last, second.tau_g1[6]);
    assert_eq!(key.h_alpha_last, first.tau_g2[6]);
    assert_eq!(key.h_beta_last, second.tau_g2[6]);
}

#[test]
fn verification_key_needs_a_first_power() {
    let one = powers(3, 1);
    let other = powers(5, 1);
    assert!(create_ipp_srs(&one, &other, 0).is_ok());
    assert_eq!(
        create_ipp_srs_with_key(&one, &other, 0).err(),
        Some(AssemblyError::InsufficientCapacity)
    );
    let (srs, key) = create_ipp_srs_with_key(&powers(3, 2), &powers(5, 2), 0).expect("two powers");
    assert_eq!(srs.g_alpha_powers.len(), 1);
    assert_eq!(key.g_alpha, g1(3, 1));
    assert_eq!(key.g_alpha_last, g1(3, 0));
    assert_eq!(
        create_ipp_srs_with_key(&powers(3, 8), &powers(5, 8), 4).err(),
        Some(AssemblyError::InsufficientCapacity)
    );
}

#[test]
fn hash_of_no_powers_is_the_digest_of_nothing() {
    let none = TauPowers { tau_g1: Vec::new(), tau_g2: Vec::new() };
    assert_eq!(
        hex(&none.hash()),
        "e3b0c44298fc1c149afbf4c8996fb92427ae41e4649b934ca495991b7852b855"
    );
    let srs = GenericSRS {
        g_alpha_powers: Vec::new(),
        g_beta_powers: Vec::new(),
        h_alpha_powers: Vec::new(),
        h_beta_powers: Vec::new(),
    };
    assert_eq!(
        hex(&srs.hash()),
        "e3b0c44298fc1c149afbf4c8996fb92427ae41e4649b934ca495991b7852b855"
    );
}

#[test]
fn hash_is_the_digest_of_the_encodings_g1_first() {
    let p = powers(3, 4);
    let mut input = Vec::new();
    for point in &p.tau_g1 {
        input.extend_from_slice(&point.to_bytes());
    }
    for point in &p.tau_g2 {
        input.extend_from_slice(&point.to_bytes());
    }
    assert_eq!(input.len(), 4 * 48 + 4 * 96);
    assert_eq!(p.hash(), Sha256::digest(&input).to_vec());
    assert_eq!(p.hash().len(), 32);
    assert_ne!(p.hash(), input);
}

#[test]
fn hash_is_the_same_each_time() {
    let p = powers(3, 5);
    let first = p.hash();
    assert_eq!(first, p.hash());
    assert_eq!(first, powers(3, 5).hash());
}

#[test]
fn hash_depends_on_the_order_of_the_powers() {
    let p = powers(3, 5);
    let mut swapped = powers(3, 5);
    swapped.tau_g1.swap(1, 3);
    assert_ne!(p.hash(), swapped.hash());
    let mut swapped = powers(3, 5);
    swapped.tau_g2.swap(0, 4);
    assert_ne!(p.hash(), swapped.hash());
    assert_ne!(p.hash(), powers(5, 5).hash());
    assert_ne!(p.hash(), powers(3, 4).hash());
}

#[test]
fn srs_hash_is_the_digest_of_its_four_sequences() {
    let first = powers(3, 3);
    let second = powers(5, 3);
    let srs = create_ipp_srs(&first, &second, 1).expect("three powers for one proof");
    let mut input = Vec::new();
    for point in first.tau_g1.iter().chain(second.tau_g1.iter()) {
        input.extend_from_slice(&point.to_bytes());
    }
    for point in first.tau_g2.iter().chain(second.tau_g2.iter()) {
        input.extend_from_slice(&point.to_bytes());
    }
    assert_eq!(srs.hash(), Sha256::digest(&input).to_vec());
    assert_eq!(srs.hash(), srs.hash());
}

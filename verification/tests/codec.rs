use groupy::{CurveAffine, CurveProjective, EncodedPoint, GroupDecodingError};
use paired::bls12_381::{FrRepr, G1Affine, G2Affine};
use taupipp::fetch::{DeserializationError, Fault, URI};
use taupipp::hashing::append_bytes;
use taupipp::point::{
    same_bytes, G1Point, G2Point, RawG1, RawG2, G1_COMPRESSED_SIZE, G1_UNCOMPRESSED_SIZE,
    G2_COMPRESSED_SIZE, G2_UNCOMPRESSED_SIZE,
};

fn unhex(text: &str) -> Vec<u8> {
    (0..text.len() / 2)
        .map(|i| u8::from_str_radix(&text[2 * i..2 * i + 2], 16).expect("two hex digits"))
        .collect()
}

const G1_GENERATOR: &str = "97f1d3a73197d7942695638c4fa9ac0fc3688c4f9774b905a14e3a3f171bac58\
6c55e83ff97a1aeffb3af00adb22c6bb";

const G2_GENERATOR: &str = "93e02b6052719f607dacd3a088274f65596bd0d09920b61ab5da61bbdc7f5049\
334cf11213945d57e5ac7d055d042b7e024aa2b2f08f0a91260805272dc51051\
c6e47ad4fa403b02b4510b647ae3d1770bac0326a805bbefd48056c8c121bdb8";

#[test]
fn sizes_are_those_of_the_curve() {
    assert_eq!(G1_COMPRESSED_SIZE, 48);
    assert_eq!(G1_UNCOMPRESSED_SIZE, 96);
    assert_eq!(G2_COMPRESSED_SIZE, 96);
    assert_eq!(G2_UNCOMPRESSED_SIZE, 192);
}

#[test]
fn generator_of_g1_decodes_to_its_known_encoding() {
    let bytes = unhex(G1_GENERATOR);
    assert_eq!(bytes.len(), 48);
    let point = G1Point::decode(&bytes, true).expect("the generator");
    assert_eq!(point.to_bytes().to_vec(), bytes);
    let wide = G1Affine::one().into_uncompressed();
    let same = G1Point::decode(wide.as_ref(), false).expect("the generator, uncompressed");
    assert_eq!(same, point);
    assert_eq!(same.to_bytes().to_vec(), bytes);
}

#[test]
fn generator_of_g2_decodes_to_its_known_encoding() {
    let bytes = unhex(G2_GENERATOR);
    assert_eq!(bytes.len(), 96);
    let point = G2Point::decode(&bytes, true).expect("the generator");
    assert_eq!(point.to_bytes().to_vec(), bytes);
    let wide = G2Affine::one().into_uncompressed();
    let same = G2Point::decode(wide.as_ref(), false).expect("the generator, uncompressed");
    assert_eq!(same, point);
}

#[test]
fn decoded_point_is_held_in_compressed_form() {
    let point = G1Affine::one().mul(FrRepr::from(11u64)).into_affine();
    let wide = point.into_uncompressed();
    let decoded = G1Point::decode(wide.as_ref(), false).expect("a point of G1");
    // the wire form was 96 bytes, the point is held in 48
    assert_eq!(decoded.to_bytes().to_vec(), point.into_compressed().as_ref().to_vec());
    assert_ne!(decoded.to_bytes().to_vec(), wide.as_ref()[..48].to_vec());
    let point = G2Affine::one().mul(FrRepr::from(11u64)).into_affine();
    let wide = point.into_uncompressed();
    let decoded = G2Point::decode(wide.as_ref(), false).expect("a point of G2");
    assert_eq!(decoded.to_bytes().to_vec(), point.into_compressed().as_ref().to_vec());
    assert_ne!(decoded.to_bytes().to_vec(), wide.as_ref()[..96].to_vec());
}

#[test]
fn encodings_are_what_a_serializer_writes_for_the_points() {
    let point = G1Affine::one().mul(FrRepr::from(11u64)).into_affine();
    let written = bincode::serialize(&point).expect("a point is serialized");
    let decoded = G1Point::decode(point.into_uncompressed().as_ref(), false).expect("in G1");
    assert_eq!(decoded.to_bytes().to_vec(), written);
    let point = G2Affine::one().mul(FrRepr::from(11u64)).into_affine();
    let written = bincode::serialize(&point).expect("a point is serialized");
    let decoded = G2Point::decode(point.into_uncompressed().as_ref(), false).expect("in G2");
    assert_eq!(decoded.to_bytes().to_vec(), written);
}

#[test]
fn points_are_equal_by_their_encodings() {
    let a = G1Point::decode(&unhex(G1_GENERATOR), true).expect("the generator");
    let b = G1Point::decode(&unhex(G1_GENERATOR), true).expect("the generator");
    let double = G1Affine::one().mul(FrRepr::from(2u64)).into_affine();
    let c = G1Point::decode(double.into_compressed().as_ref(), true).expect("its double");
    assert!(a == b);
    assert!(a != c);
    let a = G2Point::decode(&unhex(G2_GENERATOR), true).expect("the generator");
    let double = G2Affine::one().mul(FrRepr::from(2u64)).into_affine();
    let c = G2Point::decode(double.into_compressed().as_ref(), true).expect("its double");
    assert!(a == a);
    assert!(a != c);
}

#[test]
fn identity_is_refused_in_every_form() {
    let err = G1Point::decode(G1Affine::zero().into_compressed().as_ref(), true).unwrap_err();
    assert!(matches!(err, DeserializationError::PointAtInfinity));
    let err = G1Point::decode(G1Affine::zero().into_uncompressed().as_ref(), false).unwrap_err();
    assert!(matches!(err, DeserializationError::PointAtInfinity));
    let err = G2Point::decode(G2Affine::zero().into_compressed().as_ref(), true).unwrap_err();
    assert!(matches!(err, DeserializationError::PointAtInfinity));
    let err = G2Point::decode(G2Affine::zero().into_uncompressed().as_ref(), false).unwrap_err();
    assert!(matches!(err, DeserializationError::PointAtInfinity));
}

#[test]
fn malformed_blocks_are_decoding_errors() {
    // compressed form expected, the marking bit is missing
    let err = G1Point::decode(&[0u8; 48], true).unwrap_err();
    assert!(matches!(
        err,
        DeserializationError::DecodingError(GroupDecodingError::UnexpectedCompressionMode)
    ));
    // uncompressed form expected, the marking bit is set
    let mut block = [0u8; 96];
    block[0] = 0x80;
    let err = G1Point::decode(&block, false).unwrap_err();
    assert!(matches!(
        err,
        DeserializationError::DecodingError(GroupDecodingError::UnexpectedCompressionMode)
    ));
    // the identity with a stray bit
    let mut block = [0u8; 96];
    block[0] = 0xc0;
    block[95] = 1;
    let err = G2Point::decode(&block, true).unwrap_err();
    assert!(matches!(
        err,
        DeserializationError::DecodingError(GroupDecodingError::UnexpectedInformation)
    ));
    // x = 0 and y = 0 is not on the curve
    let err = G2Point::decode(&[0u8; 192], false).unwrap_err();
    assert!(matches!(
        err,
        DeserializationError::DecodingError(GroupDecodingError::NotOnCurve)
    ));
    // a coordinate that is no less than the modulus
    let mut block = [0xffu8; 48];
    block[0] = 0x9f;
    let err = G1Point::decode(&block, true).unwrap_err();
    assert!(matches!(
        err,
        DeserializationError::DecodingError(GroupDecodingError::CoordinateDecodingError(_, _))
    ));
}

#[test]
fn from_raw_keeps_what_is_no_identity() {
    let encoding = [7u8; 48];
    let point = G1Point::from_raw(Ok(RawG1 { encoding, infinity: false })).expect("kept");
    assert_eq!(point.to_bytes(), encoding);
    let err = G1Point::from_raw(Ok(RawG1 { encoding, infinity: true })).unwrap_err();
    assert!(matches!(err, DeserializationError::PointAtInfinity));
    let err = G1Point::from_raw(Err(GroupDecodingError::NotInSubgroup)).unwrap_err();
    assert!(matches!(
        err,
        DeserializationError::DecodingError(GroupDecodingError::NotInSubgroup)
    ));
    let encoding = [9u8; 96];
    let point = G2Point::from_raw(Ok(RawG2 { encoding, infinity: false })).expect("kept");
    assert_eq!(point.to_bytes(), encoding);
    let err = G2Point::from_raw(Ok(RawG2 { encoding, infinity: true })).unwrap_err();
    assert!(matches!(err, DeserializationError::PointAtInfinity));
    let err = G2Point::from_raw(Err(GroupDecodingError::NotOnCurve)).unwrap_err();
    assert!(matches!(
        err,
        DeserializationError::DecodingError(GroupDecodingError::NotOnCurve)
    ));
}

#[test]
fn errors_say_what_went_wrong() {
    assert_eq!(DeserializationError::IoError.describe(), "Disk IO error");
    assert_eq!(
        DeserializationError::DecodingError(GroupDecodingError::NotOnCurve).describe(),
        "Decoding error"
    );
    assert_eq!(DeserializationError::PointAtInfinity.describe(), "Point at infinity found");
    assert_eq!(DeserializationError::IoError.kind(), Fault::Io);
    assert_eq!(
        DeserializationError::DecodingError(GroupDecodingError::NotInSubgroup).kind(),
        Fault::Decoding
    );
    assert_eq!(DeserializationError::PointAtInfinity.kind(), Fault::PointAtInfinity);
}

#[test]
fn uri_is_the_file_where_it_is_present() {
    let uri = URI::try_from_file("zcash_powers", "https://example.org/challenge", true);
    assert!(matches!(&uri, URI::File(fname) if fname == "zcash_powers"));
    assert_eq!(uri.describe(), "file uri: zcash_powers");
    let uri = URI::try_from_file("zcash_powers", "https://example.org/challenge", false);
    assert!(matches!(&uri, URI::HTTP(endpoint) if endpoint == "https://example.org/challenge"));
    assert_eq!(uri.describe(), "HTTP endpoint uri: https://example.org/challenge");
}

#[test]
fn bytes_are_compared_and_appended() {
    assert!(same_bytes(&[], &[]));
    assert!(same_bytes(&[1, 2, 3], &[1, 2, 3]));
    assert!(!same_bytes(&[1, 2, 3], &[1, 2, 4]));
    assert!(!same_bytes(&[1, 2, 3], &[1, 2]));
    let mut buf = vec![1u8, 2];
    append_bytes(&mut buf, &[3, 4, 5]);
    append_bytes(&mut buf, &[]);
    assert_eq!(buf, vec![1, 2, 3, 4, 5]);
}

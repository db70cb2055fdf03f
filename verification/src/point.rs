use crate::fetch::{DeserializationError, Fault};
use groupy::{CurveAffine, EncodedPoint, GroupDecodingError};
use paired::bls12_381::{G1Compressed, G1Uncompressed, G2Compressed, G2Uncompressed};
use vstd::prelude::*;

verus! {

/// Width in bytes of a compressed point of G1 on the wire.
pub const G1_COMPRESSED_SIZE: usize = 48;

/// Width in bytes of an uncompressed point of G1 on the wire.
pub const G1_UNCOMPRESSED_SIZE: usize = 96;

/// Width in bytes of a compressed point of G2 on the wire.
pub const G2_COMPRESSED_SIZE: usize = 96;

/// Width in bytes of an uncompressed point of G2 on the wire.
pub const G2_UNCOMPRESSED_SIZE: usize = 192;

/// What a block decodes to, as plain values: the canonical (compressed)
/// encoding of the point, and whether the point is the identity.
pub struct RawPoint {
    pub encoding: Seq<u8>,
    pub infinity: bool,
}

/// A decoded point of G1 that has not been checked against the identity.
#[derive(Clone, Copy, Debug)]
pub struct RawG1 {
    pub encoding: [u8; 48],
    pub infinity: bool,
}

/// A decoded point of G2 that has not been checked against the identity.
#[derive(Clone, Copy, Debug)]
pub struct RawG2 {
    pub encoding: [u8; 96],
    pub infinity: bool,
}

impl View for RawG1 {
    type V = RawPoint;

    open spec fn view(&self) -> RawPoint {
        RawPoint { encoding: self.encoding@, infinity: self.infinity }
    }
}

impl View for RawG2 {
    type V = RawPoint;

    open spec fn view(&self) -> RawPoint {
        RawPoint { encoding: self.encoding@, infinity: self.infinity }
    }
}

/// The point that paired decodes from a compressed block of G1, or `None`
/// where it rejects the block.
pub uninterp spec fn g1_compressed_decoding(block: Seq<u8>) -> Option<RawPoint>;

/// The point that paired decodes from an uncompressed block of G1, or `None`
/// where it rejects the block.
pub uninterp spec fn g1_uncompressed_decoding(block: Seq<u8>) -> Option<RawPoint>;

/// The point that paired decodes from a compressed block of G2, or `None`
/// where it rejects the block.
pub uninterp spec fn g2_compressed_decoding(block: Seq<u8>) -> Option<RawPoint>;

/// The point that paired decodes from an uncompressed block of G2, or `None`
/// where it rejects the block.
pub uninterp spec fn g2_uncompressed_decoding(block: Seq<u8>) -> Option<RawPoint>;

/// Calls `G1Compressed::into_affine` of paired on the 48 bytes of `block`,
/// and hands the point on as plain values: its `into_compressed` bytes and
/// its `is_zero`. Trusted: the call succeeds exactly where
/// `g1_compressed_decoding` is `Some`, and what is handed on is that value;
/// so the same block always gives the same result.
#[verifier::external_body]
fn g1_from_compressed(block: &[u8]) -> (r: Result<RawG1, GroupDecodingError>)
    requires
        block@.len() == 48,
    ensures
        r matches Ok(raw) ==> g1_compressed_decoding(block@) == Some(raw@),
        r is Err ==> g1_compressed_decoding(block@) is None,
{
    let mut wire = G1Compressed::empty();
    wire.as_mut().copy_from_slice(block);
    match wire.into_affine() {
        Ok(point) => {
            let mut encoding = [0u8; 48];
            encoding.copy_from_slice(point.into_compressed().as_ref());
            Ok(RawG1 { encoding, infinity: point.is_zero() })
        },
        Err(e) => Err(e),
    }
}

/// Calls `G1Uncompressed::into_affine` of paired on the 96 bytes of `block`,
/// and hands the point on as plain values: its `into_compressed` bytes and
/// its `is_zero`. Trusted: the call succeeds exactly where
/// `g1_uncompressed_decoding` is `Some`, and what is handed on is that
/// value; so the same block always gives the same result.
#[verifier::external_body]
fn g1_from_uncompressed(block: &[u8]) -> (r: Result<RawG1, GroupDecodingError>)
    requires
        block@.len() == 96,
    ensures
        r matches Ok(raw) ==> g1_uncompressed_decoding(block@) == Some(raw@),
        r is Err ==> g1_uncompressed_decoding(block@) is None,
{
    let mut wire = G1Uncompressed::empty();
    wire.as_mut().copy_from_slice(block);
    match wire.into_affine() {
        Ok(point) => {
            let mut encoding = [0u8; 48];
            encoding.copy_from_slice(point.into_compressed().as_ref());
            Ok(RawG1 { encoding, infinity: point.is_zero() })
        },
        Err(e) => Err(e),
    }
}

/// Calls `G2Compressed::into_affine` of paired on the 96 bytes of `block`,
/// and hands the point on as plain values: its `into_compressed` bytes and
/// its `is_zero`. Trusted: the call succeeds exactly where
/// `g2_compressed_decoding` is `Some`, and what is handed on is that value;
/// so the same block always gives the same result.
#[verifier::external_body]
fn g2_from_compressed(block: &[u8]) -> (r: Result<RawG2, GroupDecodingError>)
    requires
        block@.len() == 96,
    ensures
        r matches Ok(raw) ==> g2_compressed_decoding(block@) == Some(raw@),
        r is Err ==> g2_compressed_decoding(block@) is None,
{
    let mut wire = G2Compressed::empty();
    wire.as_mut().copy_from_slice(block);
    match wire.into_affine() {
        Ok(point) => {
            let mut encoding = [0u8; 96];
            encoding.copy_from_slice(point.into_compressed().as_ref());
            Ok(RawG2 { encoding, infinity: point.is_zero() })
        },
        Err(e) => Err(e),
    }
}

/// Calls `G2Uncompressed::into_affine` of paired on the 192 bytes of
/// `block`, and hands the point on as plain values: its `into_compressed`
/// bytes and its `is_zero`. Trusted: the call succeeds exactly where
/// `g2_uncompressed_decoding` is `Some`, and what is handed on is that
/// value; so the same block always gives the same result.
#[verifier::external_body]
fn g2_from_uncompressed(block: &[u8]) -> (r: Result<RawG2, GroupDecodingError>)
    requires
        block@.len() == 192,
    ensures
        r matches Ok(raw) ==> g2_uncompressed_decoding(block@) == Some(raw@),
        r is Err ==> g2_uncompressed_decoding(block@) is None,
{
    let mut wire = G2Uncompressed::empty();
    wire.as_mut().copy_from_slice(block);
    match wire.into_affine() {
        Ok(point) => {
            let mut encoding = [0u8; 96];
            encoding.copy_from_slice(point.into_compressed().as_ref());
            Ok(RawG2 { encoding, infinity: point.is_zero() })
        },
        Err(e) => Err(e),
    }
}

/// The two groups of the curve.
#[derive(Clone, Copy, Debug, PartialEq, Eq, Structural)]
pub enum Group {
    G1,
    G2,
}

impl Group {
    /// Width in bytes of one point of the group on the wire.
    pub open spec fn width(self, compressed: bool) -> nat {
        match self {
            Group::G1 => if compressed {
                G1_COMPRESSED_SIZE as nat
            } else {
                G1_UNCOMPRESSED_SIZE as nat
            },
            Group::G2 => if compressed {
                G2_COMPRESSED_SIZE as nat
            } else {
                G2_UNCOMPRESSED_SIZE as nat
            },
        }
    }

    /// What paired makes of a block of the group in the given form.
    pub open spec fn decoding(self, block: Seq<u8>, compressed: bool) -> Option<RawPoint> {
        match self {
            Group::G1 => if compressed {
                g1_compressed_decoding(block)
            } else {
                g1_uncompressed_decoding(block)
            },
            Group::G2 => if compressed {
                g2_compressed_decoding(block)
            } else {
                g2_uncompressed_decoding(block)
            },
        }
    }

    /// The point a block stands for, by its canonical encoding, or why the
    /// block is refused: it does not decode, or it decodes to the identity.
    pub open spec fn point(self, block: Seq<u8>, compressed: bool) -> Result<Seq<u8>, Fault> {
        accepted(self.decoding(block, compressed))
    }
}

/// Width in bytes of one point of G1 on the wire.
pub fn g1_width(compressed: bool) -> (w: usize)
    ensures
        w == Group::G1.width(compressed),
{
    if compressed {
        G1_COMPRESSED_SIZE
    } else {
        G1_UNCOMPRESSED_SIZE
    }
}

/// Width in bytes of one point of G2 on the wire.
pub fn g2_width(compressed: bool) -> (w: usize)
    ensures
        w == Group::G2.width(compressed),
{
    if compressed {
        G2_COMPRESSED_SIZE
    } else {
        G2_UNCOMPRESSED_SIZE
    }
}

/// A decoded point is kept unless it is the identity.
pub open spec fn accepted(decoded: Option<RawPoint>) -> Result<Seq<u8>, Fault> {
    match decoded {
        None => Err(Fault::Decoding),
        Some(raw) => if raw.infinity {
            Err(Fault::PointAtInfinity)
        } else {
            Ok(raw.encoding)
        },
    }
}

/// Whether a result of this library stands for the outcome `expected`: the
/// same value by its view, or an error of the same kind.
pub open spec fn stands_for<T: View>(
    r: Result<T, DeserializationError>,
    expected: Result<T::V, Fault>,
) -> bool {
    match r {
        Ok(value) => expected == Ok::<T::V, Fault>(value@),
        Err(e) => expected == Err::<T::V, Fault>(e.fault()),
    }
}

/// A point of G1 other than the identity, held by its compressed encoding.
#[derive(Clone, Copy, Debug)]
pub struct G1Point {
    encoding: [u8; 48],
}

/// A point of G2 other than the identity, held by its compressed encoding.
#[derive(Clone, Copy, Debug)]
pub struct G2Point {
    encoding: [u8; 96],
}

impl View for G1Point {
    type V = Seq<u8>;

    closed spec fn view(&self) -> Seq<u8> {
        self.encoding@
    }
}

impl View for G2Point {
    type V = Seq<u8>;

    closed spec fn view(&self) -> Seq<u8> {
        self.encoding@
    }
}

/// Whether two byte strings are the same.
pub fn same_bytes(a: &[u8], b: &[u8]) -> (r: bool)
    ensures
        r == (a@ == b@),
{
    if a.len() != b.len() {
        return false;
    }
    let mut i: usize = 0;
    while i < a.len()
        invariant
            i <= a@.len(),
            a@.len() == b@.len(),
            forall|j: int| 0 <= j < i ==> a@[j] == b@[j],
        decreases a@.len() - i,
    {
        if a[i] != b[i] {
            return false;
        }
        i += 1;
    }
    assert(a@ =~= b@);
    true
}

impl G1Point {
    /// Keeps what the decoder returned unless it failed or returned the
    /// identity.
    pub fn from_raw(decoded: Result<RawG1, GroupDecodingError>) -> (r: Result<
        G1Point,
        DeserializationError,
    >)
        ensures
            match decoded {
                Ok(raw) => if raw.infinity {
                    r matches Err(DeserializationError::PointAtInfinity)
                } else {
                    r matches Ok(p) && p@ == raw.encoding@
                },
                Err(e) => r == Err::<G1Point, DeserializationError>(
                    DeserializationError::DecodingError(e),
                ),
            },
    {
        match decoded {
            Ok(raw) => if raw.infinity {
                Err(DeserializationError::PointAtInfinity)
            } else {
                Ok(G1Point { encoding: raw.encoding })
            },
            Err(e) => Err(DeserializationError::DecodingError(e)),
        }
    }

    /// Decodes one block of the wire into a point of G1.
    pub fn decode(block: &[u8], compressed: bool) -> (r: Result<G1Point, DeserializationError>)
        requires
            block@.len() == Group::G1.width(compressed),
        ensures
            stands_for(r, Group::G1.point(block@, compressed)),
    {
        if compressed {
            G1Point::from_raw(g1_from_compressed(block))
        } else {
            G1Point::from_raw(g1_from_uncompressed(block))
        }
    }

    /// The compressed encoding of the point.
    pub fn to_bytes(&self) -> (bytes: [u8; 48])
        ensures
            bytes@ == self@,
    {
        self.encoding
    }

    /// Every point of G1 is held in 48 bytes.
    pub proof fn lemma_len(self)
        ensures
            self@.len() == 48,
    {
    }

    /// A point is its encoding: points with the same encoding are the same.
    pub proof fn lemma_same_encoding(self, other: G1Point)
        requires
            self@ == other@,
        ensures
            self == other,
    {
        assert(self.encoding =~= other.encoding);
    }
}

impl G2Point {
    /// Keeps what the decoder returned unless it failed or returned the
    /// identity.
    pub fn from_raw(decoded: Result<RawG2, GroupDecodingError>) -> (r: Result<
        G2Point,
        DeserializationError,
    >)
        ensures
            match decoded {
                Ok(raw) => if raw.infinity {
                    r matches Err(DeserializationError::PointAtInfinity)
                } else {
                    r matches Ok(p) && p@ == raw.encoding@
                },
                Err(e) => r == Err::<G2Point, DeserializationError>(
                    DeserializationError::DecodingError(e),
                ),
            },
    {
        match decoded {
            Ok(raw) => if raw.infinity {
                Err(DeserializationError::PointAtInfinity)
            } else {
                Ok(G2Point { encoding: raw.encoding })
            },
            Err(e) => Err(DeserializationError::DecodingError(e)),
        }
    }

    /// Decodes one block of the wire into a point of G2.
    pub fn decode(block: &[u8], compressed: bool) -> (r: Result<G2Point, DeserializationError>)
        requires
            block@.len() == Group::G2.width(compressed),
        ensures
            stands_for(r, Group::G2.point(block@, compressed)),
    {
        if compressed {
            G2Point::from_raw(g2_from_compressed(block))
        } else {
            G2Point::from_raw(g2_from_uncompressed(block))
        }
    }

    /// The compressed encoding of the point.
    pub fn to_bytes(&self) -> (bytes: [u8; 96])
        ensures
            bytes@ == self@,
    {
        self.encoding
    }

    /// Every point of G2 is held in 96 bytes.
    pub proof fn lemma_len(self)
        ensures
            self@.len() == 96,
    {
    }

    /// A point is its encoding: points with the same encoding are the same.
    pub proof fn lemma_same_encoding(self, other: G2Point)
        requires
            self@ == other@,
        ensures
            self == other,
    {
        assert(self.encoding =~= other.encoding);
    }
}

impl PartialEq for G1Point {
    fn eq(&self, other: &G1Point) -> (r: bool) {
        same_bytes(self.encoding.as_slice(), other.encoding.as_slice())
    }
}

impl Eq for G1Point {

}

impl vstd::std_specs::cmp::PartialEqSpecImpl for G1Point {
    open spec fn obeys_eq_spec() -> bool {
        true
    }

    open spec fn eq_spec(&self, other: &G1Point) -> bool {
        self@ == other@
    }
}

impl PartialEq for G2Point {
    fn eq(&self, other: &G2Point) -> (r: bool) {
        same_bytes(self.encoding.as_slice(), other.encoding.as_slice())
    }
}

impl Eq for G2Point {

}

impl vstd::std_specs::cmp::PartialEqSpecImpl for G2Point {
    open spec fn obeys_eq_spec() -> bool {
        true
    }

    open spec fn eq_spec(&self, other: &G2Point) -> bool {
        self@ == other@
    }
}

} // verus!

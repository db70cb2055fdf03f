use crate::hashing::{
    append_bytes, concat, lemma_concat_block, lemma_concat_len, lemma_concat_push, sha256,
    sha256_digest,
};
use crate::point::{G1Point, G2Point};
use vstd::prelude::*;

verus! {

/// The shape of one transcript: how many powers of tau each section of the
/// stream holds, how many of them are decoded, and how they are encoded.
#[derive(Clone, Copy, Debug, PartialEq, Eq, Structural)]
pub struct TauParams {
    /// Number of powers in the G1 section.
    pub g1_length: usize,
    /// Number of powers in the G2 section.
    pub g2_length: usize,
    /// Number of leading powers that are decoded from each section.
    pub take: usize,
    /// Whether the points are in compressed form.
    pub compressed: bool,
}

impl TauParams {
    /// The G1 section holds the powers up to `tau^(2m - 2)` for a G2 section
    /// of `m` powers, and no more powers are taken than the G2 section has.
    pub open spec fn wf(&self) -> bool {
        &&& self.g2_length >= 1
        &&& self.g1_length == 2 * self.g2_length - 1
        &&& self.take <= self.g2_length
    }

    /// Parameters for a ceremony whose G2 section holds `tau_length` powers.
    pub fn new(tau_length: usize, take: usize, compressed: bool) -> (params: TauParams)
        requires
            take <= tau_length,
            1 <= tau_length,
            2 * tau_length - 1 <= usize::MAX,
        ensures
            params.wf(),
            params.g2_length == tau_length,
            params.g1_length == 2 * tau_length - 1,
            params.take == take,
            params.compressed == compressed,
    {
        // more powers are needed in G1: the largest is tau^(2m - 2)
        TauParams {
            compressed,
            g2_length: tau_length,
            g1_length: tau_length + (tau_length - 1),
            take,
        }
    }
}

/// The powers of tau read from one transcript, in ascending order of the
/// power: index `i` holds `tau^i`, so index 0 holds the generator.
#[derive(Debug)]
pub struct TauPowers {
    /// The powers in G1.
    pub tau_g1: Vec<G1Point>,
    /// The powers in G2.
    pub tau_g2: Vec<G2Point>,
}

/// The encodings of a sequence of points of G1.
pub open spec fn g1_encodings(points: Seq<G1Point>) -> Seq<Seq<u8>> {
    points.map_values(|p: G1Point| p@)
}

/// The encodings of a sequence of points of G2.
pub open spec fn g2_encodings(points: Seq<G2Point>) -> Seq<Seq<u8>> {
    points.map_values(|p: G2Point| p@)
}

/// The powers of a transcript, by their encodings.
pub struct TranscriptPoints {
    pub tau_g1: Seq<Seq<u8>>,
    pub tau_g2: Seq<Seq<u8>>,
}

impl View for TauPowers {
    type V = TranscriptPoints;

    open spec fn view(&self) -> TranscriptPoints {
        TranscriptPoints {
            tau_g1: g1_encodings(self.tau_g1@),
            tau_g2: g2_encodings(self.tau_g2@),
        }
    }
}

/// Appends the encodings of `points` to `buf`, in order.
fn append_g1(buf: &mut Vec<u8>, points: &Vec<G1Point>)
    ensures
        final(buf)@ == old(buf)@ + concat(g1_encodings(points@)),
{
    let mut i: usize = 0;
    while i < points.len()
        invariant
            i <= points@.len(),
            buf@ == old(buf)@ + concat(g1_encodings(points@.take(i as int))),
        decreases points@.len() - i,
    {
        let bytes = points[i].to_bytes();
        append_bytes(buf, bytes.as_slice());
        proof {
            let before = g1_encodings(points@.take(i as int));
            assert(g1_encodings(points@.take(i + 1)) =~= before.push(points@[i as int]@));
            lemma_concat_push(before, points@[i as int]@);
        }
        i += 1;
    }
    assert(points@.take(i as int) =~= points@);
}

/// Appends the encodings of `points` to `buf`, in order.
fn append_g2(buf: &mut Vec<u8>, points: &Vec<G2Point>)
    ensures
        final(buf)@ == old(buf)@ + concat(g2_encodings(points@)),
{
    let mut i: usize = 0;
    while i < points.len()
        invariant
            i <= points@.len(),
            buf@ == old(buf)@ + concat(g2_encodings(points@.take(i as int))),
        decreases points@.len() - i,
    {
        let bytes = points[i].to_bytes();
        append_bytes(buf, bytes.as_slice());
        proof {
            let before = g2_encodings(points@.take(i as int));
            assert(g2_encodings(points@.take(i + 1)) =~= before.push(points@[i as int]@));
            lemma_concat_push(before, points@[i as int]@);
        }
        i += 1;
    }
    assert(points@.take(i as int) =~= points@);
}

impl TauPowers {
    /// As many powers are held in G1 as in G2.
    pub open spec fn wf(&self) -> bool {
        self.tau_g1@.len() == self.tau_g2@.len()
    }

    /// What is hashed: the encodings of the powers in G1, in order, then
    /// those of the powers in G2.
    pub open spec fn hash_input(&self) -> Seq<u8> {
        concat(g1_encodings(self.tau_g1@)) + concat(g2_encodings(self.tau_g2@))
    }

    /// The fingerprint of the powers: the SHA-256 digest of `hash_input`.
    pub open spec fn spec_hash(&self) -> Seq<u8> {
        sha256_digest(self.hash_input())
    }

    /// The fingerprint of the powers.
    pub fn hash(&self) -> (h: Vec<u8>)
        ensures
            h@ == self.spec_hash(),
            h@.len() == 32,
    {
        let mut hash_input: Vec<u8> = Vec::new();
        append_g1(&mut hash_input, &self.tau_g1);
        append_g2(&mut hash_input, &self.tau_g2);
        assert(hash_input@ =~= self.hash_input());
        sha256(hash_input.as_slice())
    }
}

/// Why two transcripts could not be combined.
#[derive(Clone, Copy, Debug, PartialEq, Eq, Structural)]
pub enum AssemblyError {
    /// The two transcripts do not start from the same generators.
    BasisMismatch,
    /// The transcripts hold fewer powers than the reference string needs.
    InsufficientCapacity,
}

/// The reference string for aggregating proofs: the leading powers of the
/// first transcript (alpha) and of the second (beta), in G1 (g) and G2 (h).
#[derive(Debug)]
pub struct GenericSRS {
    pub g_alpha_powers: Vec<G1Point>,
    pub g_beta_powers: Vec<G1Point>,
    pub h_alpha_powers: Vec<G2Point>,
    pub h_beta_powers: Vec<G2Point>,
}

/// The four sequences of a reference string.
pub struct SrsPowers {
    pub g_alpha: Seq<G1Point>,
    pub g_beta: Seq<G1Point>,
    pub h_alpha: Seq<G2Point>,
    pub h_beta: Seq<G2Point>,
}

impl View for GenericSRS {
    type V = SrsPowers;

    open spec fn view(&self) -> SrsPowers {
        SrsPowers {
            g_alpha: self.g_alpha_powers@,
            g_beta: self.g_beta_powers@,
            h_alpha: self.h_alpha_powers@,
            h_beta: self.h_beta_powers@,
        }
    }
}

/// The key with which aggregated proofs are checked without the whole
/// reference string: the generators, the first powers, and the last power
/// of each sequence of the reference string.
#[derive(Clone, Copy, Debug)]
pub struct VerificationKey {
    pub g: G1Point,
    pub h: G2Point,
    pub g_alpha: G1Point,
    pub g_beta: G1Point,
    pub h_alpha: G2Point,
    pub h_beta: G2Point,
    pub g_alpha_last: G1Point,
    pub g_beta_last: G1Point,
    pub h_alpha_last: G2Point,
    pub h_beta_last: G2Point,
}

/// Both transcripts hold the same number of powers, in both groups.
pub open spec fn consistent(alpha: &TauPowers, beta: &TauPowers) -> bool {
    &&& alpha.wf()
    &&& beta.wf()
    &&& alpha.tau_g1@.len() == beta.tau_g1@.len()
}

/// Both transcripts have the same generator in G1 and the same in G2.
pub open spec fn same_basis(alpha: &TauPowers, beta: &TauPowers) -> bool {
    &&& alpha.tau_g1@[0]@ == beta.tau_g1@[0]@
    &&& alpha.tau_g2@[0]@ == beta.tau_g2@[0]@
}

/// Number of powers that each sequence of a reference string for up to `n`
/// proofs holds: the powers 0 to `2n`.
pub open spec fn powers_needed(n: nat) -> nat {
    2 * n + 1
}

/// Number of powers that each sequence of a reference string for up to `n`
/// proofs holds, where a `usize` can hold that number.
pub fn required_powers(n: usize) -> (m: Option<usize>)
    ensures
        m is Some <==> powers_needed(n as nat) <= usize::MAX,
        m matches Some(needed) ==> needed == powers_needed(n as nat),
{
    if n > (usize::MAX - 1) / 2 {
        None
    } else {
        Some(2 * n + 1)
    }
}

/// The reference string for up to `n` proofs: the first `2n + 1` powers of
/// each transcript. Transcripts with different generators are refused
/// first, then transcripts that are too short.
pub open spec fn ipp_srs(alpha: &TauPowers, beta: &TauPowers, n: nat) -> Result<
    SrsPowers,
    AssemblyError,
> {
    let m = powers_needed(n);
    if alpha.tau_g1@.len() > 0 && !same_basis(alpha, beta) {
        Err(AssemblyError::BasisMismatch)
    } else if alpha.tau_g1@.len() < m {
        Err(AssemblyError::InsufficientCapacity)
    } else {
        Ok(
            SrsPowers {
                g_alpha: alpha.tau_g1@.take(m as int),
                g_beta: beta.tau_g1@.take(m as int),
                h_alpha: alpha.tau_g2@.take(m as int),
                h_beta: beta.tau_g2@.take(m as int),
            },
        )
    }
}

/// The key that goes with a reference string made from `alpha` and `beta`.
pub open spec fn verification_key(
    alpha: &TauPowers,
    beta: &TauPowers,
    srs: SrsPowers,
) -> VerificationKey {
    VerificationKey {
        g: alpha.tau_g1@[0],
        h: alpha.tau_g2@[0],
        g_alpha: alpha.tau_g1@[1],
        g_beta: beta.tau_g1@[1],
        h_alpha: alpha.tau_g2@[1],
        h_beta: beta.tau_g2@[1],
        g_alpha_last: srs.g_alpha.last(),
        g_beta_last: srs.g_beta.last(),
        h_alpha_last: srs.h_alpha.last(),
        h_beta_last: srs.h_beta.last(),
    }
}

/// The reference string for up to `n` proofs together with its key. The
/// key holds first powers, so transcripts of fewer than two powers are too
/// short for it whatever `n` is.
pub open spec fn ipp_srs_with_key(alpha: &TauPowers, beta: &TauPowers, n: nat) -> Result<
    (SrsPowers, VerificationKey),
    AssemblyError,
> {
    match ipp_srs(alpha, beta, n) {
        Err(e) => Err(e),
        Ok(srs) => if alpha.tau_g1@.len() < 2 {
            Err(AssemblyError::InsufficientCapacity)
        } else {
            Ok((srs, verification_key(alpha, beta, srs)))
        },
    }
}

/// The first `m` items of `v`.
fn prefix<T: Copy>(v: &Vec<T>, m: usize) -> (out: Vec<T>)
    requires
        m <= v@.len(),
    ensures
        out@ == v@.take(m as int),
{
    let mut out: Vec<T> = Vec::new();
    let mut i: usize = 0;
    while i < m
        invariant
            i <= m <= v@.len(),
            out@ == v@.take(i as int),
        decreases m - i,
    {
        out.push(v[i]);
        assert(v@.take(i + 1) =~= v@.take(i as int).push(v@[i as int]));
        i += 1;
    }
    out
}

/// Combines the powers of two ceremonies into the reference string for
/// aggregating up to `n` proofs. The first transcript gives the alpha
/// powers, the second the beta powers.
pub fn create_ipp_srs(alpha: &TauPowers, beta: &TauPowers, n: usize) -> (r: Result<
    GenericSRS,
    AssemblyError,
>)
    requires
        consistent(alpha, beta),
    ensures
        match r {
            Ok(srs) => ipp_srs(alpha, beta, n as nat) == Ok::<SrsPowers, AssemblyError>(srs@),
            Err(e) => ipp_srs(alpha, beta, n as nat) == Err::<SrsPowers, AssemblyError>(e),
        },
        r == Err::<GenericSRS, AssemblyError>(AssemblyError::BasisMismatch) <==> {
            &&& alpha.tau_g1@.len() > 0
            &&& !same_basis(alpha, beta)
        },
        r == Err::<GenericSRS, AssemblyError>(AssemblyError::InsufficientCapacity) <==> {
            &&& alpha.tau_g1@.len() == 0 || same_basis(alpha, beta)
            &&& alpha.tau_g1@.len() < 2 * n + 1
        },
        r matches Ok(srs) ==> {
            &&& srs.wf()
            &&& srs.g_alpha_powers@.len() == 2 * n + 1
            &&& srs.g_beta_powers@.len() == 2 * n + 1
            &&& srs.h_alpha_powers@.len() == 2 * n + 1
            &&& srs.h_beta_powers@.len() == 2 * n + 1
        },
{
    let len = alpha.tau_g1.len();
    if len > 0 {
        // both ceremonies must have started from the same generators
        let b1 = alpha.tau_g1[0] == beta.tau_g1[0];
        let b2 = alpha.tau_g2[0] == beta.tau_g2[0];
        if !b1 || !b2 {
            return Err(AssemblyError::BasisMismatch);
        }
    }
    // size of the reference string: no transcript holds more powers than
    // a usize can count
    let tn = match required_powers(n) {
        Some(tn) => tn,
        None => { return Err(AssemblyError::InsufficientCapacity); },
    };
    if len < tn {
        return Err(AssemblyError::InsufficientCapacity);
    }
    Ok(
        GenericSRS {
            g_alpha_powers: prefix(&alpha.tau_g1, tn),
            g_beta_powers: prefix(&beta.tau_g1, tn),
            h_alpha_powers: prefix(&alpha.tau_g2, tn),
            h_beta_powers: prefix(&beta.tau_g2, tn),
        },
    )
}

/// Combines the powers of two ceremonies as `create_ipp_srs` does, and
/// derives the verification key of the reference string.
pub fn create_ipp_srs_with_key(alpha: &TauPowers, beta: &TauPowers, n: usize) -> (r: Result<
    (GenericSRS, VerificationKey),
    AssemblyError,
>)
    requires
        consistent(alpha, beta),
    ensures
        match r {
            Ok((srs, key)) => ipp_srs_with_key(alpha, beta, n as nat) == Ok::<
                (SrsPowers, VerificationKey),
                AssemblyError,
            >((srs@, key)),
            Err(e) => ipp_srs_with_key(alpha, beta, n as nat) == Err::<
                (SrsPowers, VerificationKey),
                AssemblyError,
            >(e),
        },
        r matches Ok((srs, key)) ==> {
            &&& srs.wf()
            &&& key.g@ == beta.tau_g1@[0]@
            &&& key.h@ == beta.tau_g2@[0]@
        },
{
    let srs = match create_ipp_srs(alpha, beta, n) {
        Ok(srs) => srs,
        Err(e) => { return Err(e); },
    };
    if alpha.tau_g1.len() < 2 {
        return Err(AssemblyError::InsufficientCapacity);
    }
    let last = srs.g_alpha_powers.len() - 1;
    let key = VerificationKey {
        g: alpha.tau_g1[0],
        h: alpha.tau_g2[0],
        g_alpha: alpha.tau_g1[1],
        g_beta: beta.tau_g1[1],
        h_alpha: alpha.tau_g2[1],
        h_beta: beta.tau_g2[1],
        g_alpha_last: srs.g_alpha_powers[last],
        g_beta_last: srs.g_beta_powers[last],
        h_alpha_last: srs.h_alpha_powers[last],
        h_beta_last: srs.h_beta_powers[last],
    };
    Ok((srs, key))
}

impl GenericSRS {
    /// The four sequences hold the same number of powers, an odd number:
    /// the powers 0 to `2n` for some `n`.
    pub open spec fn wf(&self) -> bool {
        &&& self.g_alpha_powers@.len() % 2 == 1
        &&& self.g_beta_powers@.len() == self.g_alpha_powers@.len()
        &&& self.h_alpha_powers@.len() == self.g_alpha_powers@.len()
        &&& self.h_beta_powers@.len() == self.g_alpha_powers@.len()
    }

    /// What is hashed: the encodings of the alpha powers and of the beta
    /// powers in G1, then of those in G2.
    pub open spec fn hash_input(&self) -> Seq<u8> {
        concat(g1_encodings(self.g_alpha_powers@)) + concat(g1_encodings(self.g_beta_powers@))
            + concat(g2_encodings(self.h_alpha_powers@)) + concat(
            g2_encodings(self.h_beta_powers@),
        )
    }

    /// The fingerprint of the reference string: the SHA-256 digest of
    /// `hash_input`.
    pub open spec fn spec_hash(&self) -> Seq<u8> {
        sha256_digest(self.hash_input())
    }

    /// The fingerprint of the reference string.
    pub fn hash(&self) -> (h: Vec<u8>)
        ensures
            h@ == self.spec_hash(),
            h@.len() == 32,
    {
        let mut hash_input: Vec<u8> = Vec::new();
        append_g1(&mut hash_input, &self.g_alpha_powers);
        append_g1(&mut hash_input, &self.g_beta_powers);
        append_g2(&mut hash_input, &self.h_alpha_powers);
        append_g2(&mut hash_input, &self.h_beta_powers);
        assert(hash_input@ =~= self.hash_input());
        sha256(hash_input.as_slice())
    }
}

/// The fingerprint depends on the encodings of the powers alone: transcripts
/// that hold the same powers in the same order have the same fingerprint.
pub proof fn lemma_hash_deterministic(a: &TauPowers, b: &TauPowers)
    requires
        g1_encodings(a.tau_g1@) == g1_encodings(b.tau_g1@),
        g2_encodings(a.tau_g2@) == g2_encodings(b.tau_g2@),
    ensures
        a.hash_input() == b.hash_input(),
        a.spec_hash() == b.spec_hash(),
{
}

/// What is hashed tells the powers and their order: two transcripts of the
/// same shape with the same hash input hold the same powers at every index.
/// So moving a power to the place of a different one changes what is hashed.
pub proof fn lemma_hash_input_injective(a: &TauPowers, b: &TauPowers)
    requires
        a.tau_g1@.len() == b.tau_g1@.len(),
        a.tau_g2@.len() == b.tau_g2@.len(),
        a.hash_input() == b.hash_input(),
    ensures
        g1_encodings(a.tau_g1@) == g1_encodings(b.tau_g1@),
        g2_encodings(a.tau_g2@) == g2_encodings(b.tau_g2@),
{
    let a1 = g1_encodings(a.tau_g1@);
    let b1 = g1_encodings(b.tau_g1@);
    let a2 = g2_encodings(a.tau_g2@);
    let b2 = g2_encodings(b.tau_g2@);
    assert forall|i: int| 0 <= i < a1.len() implies (#[trigger] a1[i]).len() == 48 by {
        a.tau_g1@[i].lemma_len();
    }
    assert forall|i: int| 0 <= i < b1.len() implies (#[trigger] b1[i]).len() == 48 by {
        b.tau_g1@[i].lemma_len();
    }
    assert forall|i: int| 0 <= i < a2.len() implies (#[trigger] a2[i]).len() == 96 by {
        a.tau_g2@[i].lemma_len();
    }
    assert forall|i: int| 0 <= i < b2.len() implies (#[trigger] b2[i]).len() == 96 by {
        b.tau_g2@[i].lemma_len();
    }
    lemma_concat_len(a1, 48);
    lemma_concat_len(b1, 48);
    lemma_concat_len(a2, 96);
    lemma_concat_len(b2, 96);
    let cut = concat(a1).len() as int;
    assert(concat(a1) =~= a.hash_input().take(cut));
    assert(concat(b1) =~= b.hash_input().take(cut));
    assert(concat(a2) =~= a.hash_input().skip(cut));
    assert(concat(b2) =~= b.hash_input().skip(cut));
    assert forall|i: int| 0 <= i < a1.len() implies a1[i] == b1[i] by {
        lemma_concat_block(a1, 48, i);
        lemma_concat_block(b1, 48, i);
    }
    assert forall|i: int| 0 <= i < a2.len() implies a2[i] == b2[i] by {
        lemma_concat_block(a2, 96, i);
        lemma_concat_block(b2, 96, i);
    }
    assert(a1 =~= b1);
    assert(a2 =~= b2);
}

/// Exchanging the two transcripts exchanges the alpha and the beta powers
/// of the reference string and nothing else: it is made, or refused for the
/// same reason, either way round, and each of its four sequences holds
/// `2n + 1` powers.
pub proof fn lemma_swap_roles(alpha: &TauPowers, beta: &TauPowers, n: nat)
    requires
        consistent(alpha, beta),
    ensures
        match ipp_srs(alpha, beta, n) {
            Ok(srs) => {
                &&& ipp_srs(beta, alpha, n) == Ok::<SrsPowers, AssemblyError>(
                    SrsPowers {
                        g_alpha: srs.g_beta,
                        g_beta: srs.g_alpha,
                        h_alpha: srs.h_beta,
                        h_beta: srs.h_alpha,
                    },
                )
                &&& srs.g_alpha.len() == 2 * n + 1
                &&& srs.g_beta.len() == 2 * n + 1
                &&& srs.h_alpha.len() == 2 * n + 1
                &&& srs.h_beta.len() == 2 * n + 1
            },
            Err(e) => ipp_srs(beta, alpha, n) == Err::<SrsPowers, AssemblyError>(e),
        },
{
}

} // verus!

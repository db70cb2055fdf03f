use crate::fetch::{DeserializationError, Fault};
use crate::point::{g1_width, g2_width, G1Point, G2Point, Group};
use crate::powers::{
    g1_encodings, g2_encodings, lemma_hash_deterministic, TauParams, TauPowers, TranscriptPoints,
};
use vstd::prelude::*;

verus! {

/// Width in bytes of the digest of the previous contribution, with which a
/// transcript starts. It is passed over unread.
pub const HASH_SIZE: usize = 64;

/// Where the reader of a transcript stands.
#[derive(Clone, Copy, Debug, PartialEq, Eq, Structural)]
pub enum Stage {
    /// Before the digest of the previous contribution.
    Header,
    /// In the section of the powers in G1.
    G1,
    /// In the section of the powers in G2.
    G2,
    /// Behind the last power in G2.
    Done,
}

/// What the reader needs from the stream next.
#[derive(Clone, Copy, Debug, PartialEq, Eq, Structural)]
pub enum Step {
    /// The next `len` bytes, to be handed to `supply`.
    Read { len: usize },
    /// The next `count` blocks of `len` bytes each are of no use: they are
    /// to be consumed and dropped, and `skipped` called.
    Skip { count: usize, len: usize },
    /// Nothing: the transcript has been read.
    Done,
}

impl TauParams {
    /// Number of blocks in the section of a group.
    pub open spec fn length(&self, group: Group) -> nat {
        match group {
            Group::G1 => self.g1_length as nat,
            Group::G2 => self.g2_length as nat,
        }
    }

    /// Width in bytes of a block in the section of a group.
    pub open spec fn width(&self, group: Group) -> nat {
        group.width(self.compressed)
    }

    /// Offset of the first byte of the section of a group.
    pub open spec fn section_start(&self, group: Group) -> int {
        match group {
            Group::G1 => HASH_SIZE as int,
            Group::G2 => HASH_SIZE + self.g1_length * self.width(Group::G1),
        }
    }

    /// Offset of the first byte behind the section of a group.
    pub open spec fn section_end(&self, group: Group) -> int {
        self.section_start(group) + self.length(group) * self.width(group)
    }

    /// Offset of the first byte of block `i` in the section of a group.
    pub open spec fn block_start(&self, group: Group, i: int) -> int {
        self.section_start(group) + i * self.width(group)
    }

    /// Number of bytes of a whole transcript: the digest, and every block of
    /// both sections.
    pub open spec fn transcript_len(&self) -> int {
        self.section_end(Group::G2)
    }

    /// Block `i` of the section of a group in the transcript `data`.
    pub open spec fn block(&self, group: Group, data: Seq<u8>, i: int) -> Seq<u8> {
        data.subrange(self.block_start(group, i), self.block_start(group, i + 1))
    }

    /// Why block `i` of a section cannot be taken, if it cannot: the
    /// transcript ends before the end of the block, or the block is refused.
    pub open spec fn block_fault(&self, group: Group, data: Seq<u8>, i: int) -> Option<Fault> {
        if data.len() < self.block_start(group, i + 1) {
            Some(Fault::Io)
        } else {
            match group.point(self.block(group, data, i), self.compressed) {
                Ok(_) => None,
                Err(fault) => Some(fault),
            }
        }
    }

    /// The first fault among the blocks `from..take` of a section.
    pub open spec fn first_fault(&self, group: Group, data: Seq<u8>, from: nat) -> Option<Fault>
        decreases self.take - from,
    {
        if from >= self.take {
            None
        } else if self.block_fault(group, data, from as int) is Some {
            self.block_fault(group, data, from as int)
        } else {
            self.first_fault(group, data, from + 1)
        }
    }

    /// Why a section cannot be read, if it cannot: the first fault among
    /// the blocks that are taken, else a transcript that ends before the
    /// end of the section.
    pub open spec fn section_fault(&self, group: Group, data: Seq<u8>) -> Option<Fault> {
        if self.first_fault(group, data, 0) is Some {
            self.first_fault(group, data, 0)
        } else if data.len() < self.section_end(group) {
            Some(Fault::Io)
        } else {
            None
        }
    }

    /// Offset at which going through the blocks `from..take` of a section
    /// ends: before the first block that the stream does not hold whole,
    /// behind the first block that is refused, else behind the last block
    /// that is taken.
    pub open spec fn stop(&self, group: Group, data: Seq<u8>, from: nat) -> int
        decreases self.take - from,
    {
        if from >= self.take {
            self.block_start(group, self.take as int)
        } else {
            match self.block_fault(group, data, from as int) {
                Some(Fault::Io) => self.block_start(group, from as int),
                Some(_) => self.block_start(group, from as int + 1),
                None => self.stop(group, data, from + 1),
            }
        }
    }

    /// The points of the blocks that are taken from a section, by their
    /// encodings, in the order of the blocks.
    pub open spec fn section_points(&self, group: Group, data: Seq<u8>) -> Seq<Seq<u8>> {
        Seq::new(
            self.take as nat,
            |i: int| group.point(self.block(group, data, i), self.compressed)->Ok_0,
        )
    }
}

/// What reading the transcript `data` gives: the leading `take` powers of
/// each section, or the first fault met on the way through the stream.
pub open spec fn read_outcome(params: TauParams, data: Seq<u8>) -> Result<TranscriptPoints, Fault> {
    if params.section_fault(Group::G1, data) is Some {
        Err(params.section_fault(Group::G1, data)->Some_0)
    } else if params.section_fault(Group::G2, data) is Some {
        Err(params.section_fault(Group::G2, data)->Some_0)
    } else {
        Ok(
            TranscriptPoints {
                tau_g1: params.section_points(Group::G1, data),
                tau_g2: params.section_points(Group::G2, data),
            },
        )
    }
}

/// Number of bytes of the stream `data` that a read goes through: the whole
/// transcript where it is read, else the bytes up to the fault. A block
/// that is refused lies behind the read, a block that the stream does not
/// hold whole lies before it.
pub open spec fn read_extent(params: TauParams, data: Seq<u8>) -> int {
    if data.len() < HASH_SIZE {
        0
    } else if params.section_fault(Group::G1, data) is Some {
        params.stop(Group::G1, data, 0)
    } else if params.section_fault(Group::G2, data) is Some {
        params.stop(Group::G2, data, 0)
    } else {
        params.transcript_len()
    }
}

/// The state of a reader: where it stands and what it has decoded.
pub struct ReaderState {
    pub params: TauParams,
    pub stage: Stage,
    /// Number of blocks of the section at hand that lie behind the reader.
    pub index: nat,
    pub tau_g1: Seq<Seq<u8>>,
    pub tau_g2: Seq<Seq<u8>>,
}

impl ReaderState {
    /// The state before anything is read.
    pub open spec fn start(params: TauParams) -> ReaderState {
        ReaderState {
            params,
            stage: Stage::Header,
            index: 0,
            tau_g1: Seq::empty(),
            tau_g2: Seq::empty(),
        }
    }

    /// In a section the reader stands before a block of it, and never
    /// behind a block that is dropped; it holds one point for each block
    /// that it took.
    pub open spec fn wf(self) -> bool {
        &&& self.params.wf()
        &&& match self.stage {
            Stage::Header => self.index == 0 && self.tau_g1.len() == 0 && self.tau_g2.len() == 0,
            Stage::G1 => {
                &&& self.index <= self.params.take
                &&& self.index < self.params.g1_length
                &&& self.tau_g1.len() == self.index
                &&& self.tau_g2.len() == 0
            },
            Stage::G2 => {
                &&& self.index <= self.params.take
                &&& self.index < self.params.g2_length
                &&& self.tau_g1.len() == self.params.take
                &&& self.tau_g2.len() == self.index
            },
            Stage::Done => {
                &&& self.index == 0
                &&& self.tau_g1.len() == self.params.take
                &&& self.tau_g2.len() == self.params.take
            },
        }
    }

    /// The group of the section at hand.
    pub open spec fn group(self) -> Group {
        if self.stage == Stage::G2 {
            Group::G2
        } else {
            Group::G1
        }
    }

    /// What the reader needs next.
    pub open spec fn step(self) -> Step {
        match self.stage {
            Stage::Header => Step::Skip { count: 1, len: HASH_SIZE },
            Stage::G1 | Stage::G2 => {
                let group = self.group();
                if self.index < self.params.take {
                    Step::Read { len: self.params.width(group) as usize }
                } else {
                    Step::Skip {
                        count: (self.params.length(group) - self.index) as usize,
                        len: self.params.width(group) as usize,
                    }
                }
            },
            Stage::Done => Step::Done,
        }
    }

    /// Number of bytes of the stream that lie behind the reader.
    pub open spec fn position(self) -> int {
        match self.stage {
            Stage::Header => 0,
            Stage::G1 | Stage::G2 => self.params.block_start(self.group(), self.index as int),
            Stage::Done => self.params.transcript_len(),
        }
    }

    /// The state behind the blocks that `step` asked to drop.
    pub open spec fn after_skip(self) -> ReaderState {
        match self.stage {
            Stage::Header => ReaderState { stage: Stage::G1, index: 0, ..self },
            Stage::G1 => ReaderState { stage: Stage::G2, index: 0, ..self },
            _ => ReaderState { stage: Stage::Done, index: 0, ..self },
        }
    }

    /// The state behind a block that was taken and has the given point.
    pub open spec fn after_block(self, encoding: Seq<u8>) -> ReaderState {
        let last = self.index + 1 == self.params.length(self.group());
        if self.stage == Stage::G2 {
            ReaderState {
                stage: if last { Stage::Done } else { Stage::G2 },
                index: if last { 0 } else { self.index + 1 },
                tau_g2: self.tau_g2.push(encoding),
                ..self
            }
        } else {
            ReaderState {
                stage: if last { Stage::G2 } else { Stage::G1 },
                index: if last { 0 } else { self.index + 1 },
                tau_g1: self.tau_g1.push(encoding),
                ..self
            }
        }
    }
}

/// Reads one transcript block by block: it says what it needs from the
/// stream, and takes what the stream gave. The caller does the reading.
#[derive(Debug)]
pub struct TranscriptReader {
    params: TauParams,
    stage: Stage,
    index: usize,
    tau_g1: Vec<G1Point>,
    tau_g2: Vec<G2Point>,
}

impl View for TranscriptReader {
    type V = ReaderState;

    closed spec fn view(&self) -> ReaderState {
        ReaderState {
            params: self.params,
            stage: self.stage,
            index: self.index as nat,
            tau_g1: g1_encodings(self.tau_g1@),
            tau_g2: g2_encodings(self.tau_g2@),
        }
    }
}

impl TranscriptReader {
    /// A reader at the start of a transcript of the given shape.
    pub fn new(params: &TauParams) -> (reader: TranscriptReader)
        requires
            params.wf(),
        ensures
            reader@ == ReaderState::start(*params),
            reader@.wf(),
    {
        let reader = TranscriptReader {
            params: *params,
            stage: Stage::Header,
            index: 0,
            tau_g1: Vec::new(),
            tau_g2: Vec::new(),
        };
        assert(reader@.tau_g1 =~= Seq::empty());
        assert(reader@.tau_g2 =~= Seq::empty());
        reader
    }

    /// What the reader needs from the stream next.
    pub fn step(&self) -> (step: Step)
        requires
            self@.wf(),
        ensures
            step == self@.step(),
    {
        match self.stage {
            Stage::Header => Step::Skip { count: 1, len: HASH_SIZE },
            Stage::G1 => {
                if self.index < self.params.take {
                    Step::Read { len: g1_width(self.params.compressed) }
                } else {
                    Step::Skip {
                        count: self.params.g1_length - self.index,
                        len: g1_width(self.params.compressed),
                    }
                }
            },
            Stage::G2 => {
                if self.index < self.params.take {
                    Step::Read { len: g2_width(self.params.compressed) }
                } else {
                    Step::Skip {
                        count: self.params.g2_length - self.index,
                        len: g2_width(self.params.compressed),
                    }
                }
            },
            Stage::Done => Step::Done,
        }
    }

    /// Takes the block that `step` asked for. The block is decoded at once:
    /// where it is refused the reader stays as it was, and the read is over.
    pub fn supply(&mut self, block: &[u8]) -> (r: Result<(), DeserializationError>)
        requires
            old(self)@.wf(),
            old(self)@.step() is Read,
            old(self)@.step()->Read_len == block@.len(),
        ensures
            match old(self)@.group().point(block@, old(self)@.params.compressed) {
                Ok(encoding) => r is Ok && final(self)@ == old(self)@.after_block(encoding),
                Err(fault) => r matches Err(e) && e.fault() == fault && final(self)@ == old(self)@,
            },
            final(self)@.wf(),
            r is Ok ==> final(self)@.position() == old(self)@.position() + block@.len(),
    {
        match self.stage {
            Stage::G1 => {
                let point = match G1Point::decode(block, self.params.compressed) {
                    Ok(point) => point,
                    Err(e) => { return Err(e); },
                };
                proof {
                    assert(g1_encodings(self.tau_g1@.push(point)) =~= g1_encodings(
                        self.tau_g1@,
                    ).push(point@));
                    lemma_block_start_step(self.params, Group::G1, self.index as int);
                }
                self.tau_g1.push(point);
                if self.index + 1 == self.params.g1_length {
                    self.stage = Stage::G2;
                    self.index = 0;
                } else {
                    self.index = self.index + 1;
                }
                Ok(())
            },
            _ => {
                let point = match G2Point::decode(block, self.params.compressed) {
                    Ok(point) => point,
                    Err(e) => { return Err(e); },
                };
                proof {
                    assert(g2_encodings(self.tau_g2@.push(point)) =~= g2_encodings(
                        self.tau_g2@,
                    ).push(point@));
                    lemma_block_start_step(self.params, Group::G2, self.index as int);
                }
                self.tau_g2.push(point);
                if self.index + 1 == self.params.g2_length {
                    self.stage = Stage::Done;
                    self.index = 0;
                } else {
                    self.index = self.index + 1;
                }
                Ok(())
            },
        }
    }

    /// Moves behind the blocks that `step` asked to drop.
    pub fn skipped(&mut self)
        requires
            old(self)@.wf(),
            old(self)@.step() is Skip,
        ensures
            final(self)@ == old(self)@.after_skip(),
            final(self)@.wf(),
            final(self)@.position() == old(self)@.position() + old(self)@.step()->count * old(
                self,
            )@.step()->Skip_len,
    {
        proof {
            lemma_block_start_tail(self.params, self@.group(), self.index as int);
        }
        match self.stage {
            Stage::Header => {
                self.stage = Stage::G1;
            },
            Stage::G1 => {
                self.stage = Stage::G2;
            },
            _ => {
                self.stage = Stage::Done;
            },
        }
        self.index = 0;
    }

    /// The powers that were read, once `step` has answered `Done`.
    pub fn finish(self) -> (powers: TauPowers)
        requires
            self@.wf(),
            self@.stage == Stage::Done,
        ensures
            powers.wf(),
            powers@.tau_g1 == self@.tau_g1,
            powers@.tau_g2 == self@.tau_g2,
            powers.tau_g1@.len() == self@.params.take,
            powers.tau_g2@.len() == self@.params.take,
    {
        TauPowers { tau_g1: self.tau_g1, tau_g2: self.tau_g2 }
    }
}

/// A block ends where the next one starts, one width on.
pub proof fn lemma_block_start_step(params: TauParams, group: Group, i: int)
    ensures
        params.block_start(group, i + 1) == params.block_start(group, i) + params.width(group),
{
    assert((i + 1) * params.width(group) == i * params.width(group) + params.width(group))
        by (nonlinear_arith);
}

/// From block `i` of a section its end is as many widths on as it has
/// blocks from there.
pub proof fn lemma_block_start_tail(params: TauParams, group: Group, i: int)
    ensures
        params.section_end(group) == params.block_start(group, i) + (params.length(group) - i)
            * params.width(group),
{
    assert(params.length(group) * params.width(group) == i * params.width(group) + (params.length(
        group,
    ) - i) * params.width(group)) by (nonlinear_arith);
}

/// Among the blocks `from..take` of a section none has a fault exactly
/// where `first_fault` finds none.
pub proof fn lemma_first_fault_none(params: TauParams, group: Group, data: Seq<u8>, from: nat)
    ensures
        params.first_fault(group, data, from) is None <==> forall|i: int|
            from <= i < params.take ==> (#[trigger] params.block_fault(group, data, i)) is None,
    decreases params.take - from,
{
    if from < params.take {
        lemma_first_fault_none(params, group, data, from + 1);
        if params.first_fault(group, data, from) is None {
            assert forall|i: int| from <= i < params.take implies (#[trigger] params.block_fault(
                group,
                data,
                i,
            )) is None by {
                if i > from {
                    assert(from + 1 <= i);
                }
            }
        }
    }
}

/// The fault of a section is that of the first of its blocks that has one.
pub proof fn lemma_first_fault_at(
    params: TauParams,
    group: Group,
    data: Seq<u8>,
    from: nat,
    at: int,
)
    requires
        from <= at < params.take,
        forall|i: int| from <= i < at ==> (#[trigger] params.block_fault(group, data, i)) is None,
        params.block_fault(group, data, at) is Some,
    ensures
        params.first_fault(group, data, from) == params.block_fault(group, data, at),
    decreases at - from,
{
    if from < at {
        assert(params.block_fault(group, data, from as int) is None);
        lemma_first_fault_at(params, group, data, from + 1, at);
    }
}

/// Whether `data` holds a whole transcript whose blocks to be taken are all
/// points other than the identity: every block of both sections is there,
/// and each of the first `take` blocks of each section is accepted.
pub open spec fn readable(params: TauParams, data: Seq<u8>) -> bool {
    &&& params.transcript_len() <= data.len()
    &&& forall|i: int|
        0 <= i < params.take ==> (#[trigger] Group::G1.point(
            params.block(Group::G1, data, i),
            params.compressed,
        )) is Ok
    &&& forall|i: int|
        0 <= i < params.take ==> (#[trigger] Group::G2.point(
            params.block(Group::G2, data, i),
            params.compressed,
        )) is Ok
}

/// A transcript is read exactly when it is readable. What is read is then
/// `take` points for each group, in the order of the stream: the point at
/// index `i` is that of block `i` of the section.
pub proof fn lemma_read_succeeds(params: TauParams, data: Seq<u8>)
    requires
        params.wf(),
    ensures
        read_outcome(params, data) is Ok <==> readable(params, data),
        read_outcome(params, data) matches Ok(points) ==> {
            &&& points.tau_g1.len() == params.take
            &&& points.tau_g2.len() == params.take
            &&& forall|i: int|
                0 <= i < params.take ==> Group::G1.point(
                    params.block(Group::G1, data, i),
                    params.compressed,
                ) == Ok::<Seq<u8>, Fault>(#[trigger] points.tau_g1[i])
            &&& forall|i: int|
                0 <= i < params.take ==> Group::G2.point(
                    params.block(Group::G2, data, i),
                    params.compressed,
                ) == Ok::<Seq<u8>, Fault>(#[trigger] points.tau_g2[i])
        },
{
    lemma_first_fault_none(params, Group::G1, data, 0);
    lemma_first_fault_none(params, Group::G2, data, 0);
    assert(params.section_end(Group::G1) <= params.transcript_len()) by {
        assert(0 <= params.g2_length * params.width(Group::G2)) by (nonlinear_arith);
    }
    if readable(params, data) {
        assert forall|i: int| 0 <= i < params.take implies (#[trigger] params.block_fault(
            Group::G1,
            data,
            i,
        )) is None by {
            lemma_block_start_tail(params, Group::G1, i + 1);
            assert(0 <= (params.g1_length - (i + 1)) * params.width(Group::G1))
                by (nonlinear_arith)
                requires
                    i + 1 <= params.g1_length,
            ;
            assert(Group::G1.point(params.block(Group::G1, data, i), params.compressed) is Ok);
        }
        assert forall|i: int| 0 <= i < params.take implies (#[trigger] params.block_fault(
            Group::G2,
            data,
            i,
        )) is None by {
            lemma_block_start_tail(params, Group::G2, i + 1);
            assert(0 <= (params.g2_length - (i + 1)) * params.width(Group::G2))
                by (nonlinear_arith)
                requires
                    i + 1 <= params.g2_length,
            ;
            assert(Group::G2.point(params.block(Group::G2, data, i), params.compressed) is Ok);
        }
    }
    if read_outcome(params, data) is Ok {
        assert forall|i: int| 0 <= i < params.take implies (#[trigger] Group::G1.point(
            params.block(Group::G1, data, i),
            params.compressed,
        )) is Ok by {
            assert(params.block_fault(Group::G1, data, i) is None);
        }
        assert forall|i: int| 0 <= i < params.take implies (#[trigger] Group::G2.point(
            params.block(Group::G2, data, i),
            params.compressed,
        )) is Ok by {
            assert(params.block_fault(Group::G2, data, i) is None);
        }
    }
}

/// The first fault on the way through the stream decides: where a block
/// among those taken has a fault, and no block before it in its section has
/// one, and the section before, if there is one, has none, the read fails
/// with that fault.
pub proof fn lemma_first_fault_decides(params: TauParams, group: Group, data: Seq<u8>, at: int)
    requires
        0 <= at < params.take,
        forall|i: int| 0 <= i < at ==> (#[trigger] params.block_fault(group, data, i)) is None,
        params.block_fault(group, data, at) is Some,
        group == Group::G2 ==> params.section_fault(Group::G1, data) is None,
    ensures
        read_outcome(params, data) == Err::<TranscriptPoints, Fault>(
            params.block_fault(group, data, at)->Some_0,
        ),
{
    lemma_first_fault_at(params, group, data, 0, at);
}

/// A stream that ends before the end of a section, the blocks to be taken
/// from it being there and accepted, and the section before, if there is
/// one, read without fault, holds no whole transcript: the read fails for
/// want of bytes.
pub proof fn lemma_missing_tail_decides(params: TauParams, group: Group, data: Seq<u8>)
    requires
        forall|i: int|
            0 <= i < params.take ==> (#[trigger] params.block_fault(group, data, i)) is None,
        data.len() < params.section_end(group),
        group == Group::G2 ==> params.section_fault(Group::G1, data) is None,
    ensures
        read_outcome(params, data) == Err::<TranscriptPoints, Fault>(Fault::Io),
{
    lemma_first_fault_none(params, group, data, 0);
}

/// A transcript with a block among those taken that decodes to the
/// identity is never read: the read fails, whatever the other blocks hold.
/// It fails with `PointAtInfinity` where that block is the first with a
/// fault on the way through the stream.
pub proof fn lemma_identity_rejected(params: TauParams, group: Group, data: Seq<u8>, at: int)
    requires
        params.wf(),
        0 <= at < params.take,
        params.block_start(group, at + 1) <= data.len(),
        group.point(params.block(group, data, at), params.compressed) == Err::<Seq<u8>, Fault>(
            Fault::PointAtInfinity,
        ),
    ensures
        read_outcome(params, data) is Err,
        (forall|i: int| 0 <= i < at ==> (#[trigger] params.block_fault(group, data, i)) is None)
            && (group == Group::G2 ==> params.section_fault(Group::G1, data) is None)
            ==> read_outcome(params, data) == Err::<TranscriptPoints, Fault>(
            Fault::PointAtInfinity,
        ),
{
    lemma_first_fault_none(params, group, data, 0);
    assert(params.block_fault(group, data, at) == Some(Fault::PointAtInfinity));
    if forall|i: int| 0 <= i < at ==> (#[trigger] params.block_fault(group, data, i)) is None {
        lemma_first_fault_at(params, group, data, 0, at);
    }
}

/// The same bytes give the same fingerprint: whatever two reads of one
/// transcript return, the powers that they hold hash to the same digest.
pub proof fn lemma_same_bytes_same_hash(
    params: TauParams,
    data: Seq<u8>,
    once: &TauPowers,
    again: &TauPowers,
)
    requires
        read_outcome(params, data) == Ok::<TranscriptPoints, Fault>(once@),
        read_outcome(params, data) == Ok::<TranscriptPoints, Fault>(again@),
    ensures
        once.spec_hash() == again.spec_hash(),
{
    lemma_hash_deterministic(once, again);
}

/// Every step of a reader takes it forward by the bytes that it asked for,
/// from the start of the stream to the end of the transcript: behind the
/// last step lie the digest and every block of both sections, no more and
/// no less.
pub proof fn lemma_reader_progress(state: ReaderState, encoding: Seq<u8>)
    requires
        state.wf(),
    ensures
        ReaderState::start(state.params).wf(),
        ReaderState::start(state.params).position() == 0,
        0 <= state.position() <= state.params.transcript_len(),
        match state.step() {
            Step::Read { len } => {
                &&& len > 0
                &&& state.after_block(encoding).wf()
                &&& state.after_block(encoding).position() == state.position() + len
            },
            Step::Skip { count, len } => {
                &&& count > 0
                &&& len > 0
                &&& state.after_skip().wf()
                &&& state.after_skip().position() == state.position() + count * len
            },
            Step::Done => state.position() == state.params.transcript_len(),
        },
        state.params.transcript_len() == HASH_SIZE + state.params.g1_length
            * state.params.width(Group::G1) + state.params.g2_length * state.params.width(
            Group::G2,
        ),
{
    let params = state.params;
    let group = state.group();
    lemma_block_start_step(params, group, state.index as int);
    lemma_block_start_tail(params, group, state.index as int);
    assert(0 <= params.g1_length * params.width(Group::G1)) by (nonlinear_arith);
    assert(0 <= params.g2_length * params.width(Group::G2)) by (nonlinear_arith);
    assert(0 <= state.index * params.width(group)) by (nonlinear_arith);
    assert(0 <= (params.length(group) - state.index) * params.width(group)) by (nonlinear_arith)
        requires
            state.index <= params.length(group),
    ;
}

/// Whether a reader that was given the first bytes of the stream `data`, in
/// order, stands where a read of `data` stands that has met no fault so
/// far, and holds the points of the blocks behind it. A reader at the start
/// is on track, and one that is on track at the end holds what the read of
/// `data` gives.
pub open spec fn on_track(state: ReaderState, data: Seq<u8>) -> bool {
    let params = state.params;
    &&& state.position() <= data.len()
    &&& match state.stage {
        Stage::Header => true,
        Stage::G1 => {
            &&& params.first_fault(Group::G1, data, 0) == params.first_fault(
                Group::G1,
                data,
                state.index,
            )
            &&& params.stop(Group::G1, data, 0) == params.stop(Group::G1, data, state.index)
            &&& state.tau_g1 == params.section_points(Group::G1, data).take(state.index as int)
        },
        Stage::G2 => {
            &&& params.section_fault(Group::G1, data) is None
            &&& state.tau_g1 == params.section_points(Group::G1, data)
            &&& params.first_fault(Group::G2, data, 0) == params.first_fault(
                Group::G2,
                data,
                state.index,
            )
            &&& params.stop(Group::G2, data, 0) == params.stop(Group::G2, data, state.index)
            &&& state.tau_g2 == params.section_points(Group::G2, data).take(state.index as int)
        },
        Stage::Done => read_outcome(params, data) == Ok::<TranscriptPoints, Fault>(
            TranscriptPoints { tau_g1: state.tau_g1, tau_g2: state.tau_g2 },
        ),
    }
}

/// A fault at the block before which a reader on track stands is the fault
/// of the whole read: the end of the stream within the block, or a block
/// that is refused.
pub proof fn lemma_fault_here(state: ReaderState, data: Seq<u8>, fault: Fault)
    requires
        state.wf(),
        on_track(state, data),
        state.step() is Read,
        state.params.block_fault(state.group(), data, state.index as int) == Some(fault),
    ensures
        read_outcome(state.params, data) == Err::<TranscriptPoints, Fault>(fault),
        read_extent(state.params, data) == if fault == Fault::Io {
            state.position()
        } else {
            state.position() + state.params.width(state.group())
        },
{
    lemma_block_start_step(state.params, state.group(), state.index as int);
    lemma_block_start_step(state.params, state.group(), 0);
}

/// A stream that ends within the blocks that a reader on track is to drop
/// holds no whole transcript: the read fails for want of bytes.
pub proof fn lemma_short(state: ReaderState, data: Seq<u8>)
    requires
        state.wf(),
        on_track(state, data),
        state.step() is Skip,
        data.len() < state.position() + state.step()->count * state.step()->Skip_len,
    ensures
        read_outcome(state.params, data) == Err::<TranscriptPoints, Fault>(Fault::Io),
        read_extent(state.params, data) == state.position(),
{
    let params = state.params;
    lemma_block_start_step(params, state.group(), 0);
    assert(0 <= state.index * params.width(state.group())) by (nonlinear_arith);
    if state.stage == Stage::Header {
        assert(0 <= params.g1_length * params.width(Group::G1)) by (nonlinear_arith);
        lemma_block_start_step(params, Group::G1, 0);
    } else {
        lemma_block_start_tail(params, state.group(), state.index as int);
    }
}

/// A reader on track that takes the next block of the stream is on track
/// behind it.
pub proof fn lemma_taken(state: ReaderState, data: Seq<u8>, encoding: Seq<u8>)
    requires
        state.wf(),
        on_track(state, data),
        state.step() is Read,
        state.params.block_start(state.group(), state.index as int + 1) <= data.len(),
        state.group().point(
            state.params.block(state.group(), data, state.index as int),
            state.params.compressed,
        ) == Ok::<Seq<u8>, Fault>(encoding),
    ensures
        on_track(state.after_block(encoding), data),
{
    let params = state.params;
    let group = state.group();
    let next = state.after_block(encoding);
    let points = params.section_points(group, data);
    assert(points.take(state.index as int).push(encoding) =~= points.take(
        state.index as int + 1,
    ));
    assert(points.take(params.take as int) =~= points);
    lemma_block_start_tail(params, group, state.index as int + 1);
    if state.index + 1 == params.length(group) {
        assert(params.first_fault(group, data, (state.index + 1) as nat) is None);
        assert(params.section_fault(group, data) is None);
        if group == Group::G1 {
            assert(next.tau_g2 =~= params.section_points(Group::G2, data).take(0));
            assert(next.position() == params.section_start(Group::G2));
        } else {
            assert(next.position() == params.transcript_len());
        }
    }
}

/// A reader on track that drops the blocks it has no use for is on track
/// behind them, where the stream holds them all.
pub proof fn lemma_dropped(state: ReaderState, data: Seq<u8>)
    requires
        state.wf(),
        on_track(state, data),
        state.step() is Skip,
        state.position() + state.step()->count * state.step()->Skip_len <= data.len(),
    ensures
        on_track(state.after_skip(), data),
{
    let params = state.params;
    let next = state.after_skip();
    if state.stage == Stage::Header {
        assert(next.tau_g1 =~= params.section_points(Group::G1, data).take(0));
    } else {
        let group = state.group();
        let points = params.section_points(group, data);
        lemma_block_start_tail(params, group, state.index as int);
        assert(points.take(params.take as int) =~= points);
        if group == Group::G1 {
            assert(next.tau_g2 =~= params.section_points(Group::G2, data).take(0));
        }
    }
}

} // verus!

use crate::point::stands_for;
use crate::powers::{TauParams, TauPowers};
use crate::reader::{
    lemma_block_start_step, lemma_dropped, lemma_fault_here, lemma_read_succeeds, lemma_short,
    lemma_taken, on_track, read_extent, read_outcome, readable, Step, TranscriptReader,
};
use groupy::GroupDecodingError;
use vstd::prelude::*;

verus! {

/// The error with which groupy reports a block that is no valid encoding of
/// a point. A value of it is carried through unread: no contract says which
/// of its variants it is.
#[verifier::external_type_specification]
#[verifier::external_body]
pub struct ExGroupDecodingError(GroupDecodingError);

/// Why a transcript could not be read.
#[derive(Debug)]
pub enum DeserializationError {
    /// The source ended, or failed, before the bytes asked of it were had.
    IoError,
    /// A block is no valid encoding of a point of its group.
    DecodingError(GroupDecodingError),
    /// A block decodes to the identity of its group, which no power of a
    /// nonzero tau can be.
    PointAtInfinity,
}

/// The three ways in which reading fails, without what the decoder reported.
#[derive(Clone, Copy, Debug, PartialEq, Eq, Structural)]
pub enum Fault {
    Io,
    Decoding,
    PointAtInfinity,
}

impl DeserializationError {
    /// Which of the three ways this error is.
    pub open spec fn fault(&self) -> Fault {
        match self {
            DeserializationError::IoError => Fault::Io,
            DeserializationError::DecodingError(_) => Fault::Decoding,
            DeserializationError::PointAtInfinity => Fault::PointAtInfinity,
        }
    }

    /// Which of the three ways this error is.
    pub fn kind(&self) -> (k: Fault)
        ensures
            k == self.fault(),
    {
        match self {
            DeserializationError::IoError => Fault::Io,
            DeserializationError::DecodingError(_) => Fault::Decoding,
            DeserializationError::PointAtInfinity => Fault::PointAtInfinity,
        }
    }

    /// The error in words.
    pub fn describe(&self) -> (text: String)
        ensures
            text@ == match self {
                DeserializationError::IoError => "Disk IO error"@,
                DeserializationError::DecodingError(_) => "Decoding error"@,
                DeserializationError::PointAtInfinity => "Point at infinity found"@,
            },
    {
        match self {
            DeserializationError::IoError => String::from_str("Disk IO error"),
            DeserializationError::DecodingError(_) => String::from_str("Decoding error"),
            DeserializationError::PointAtInfinity => String::from_str("Point at infinity found"),
        }
    }
}

/// Where the transcript of a ceremony is fetched from.
#[derive(Debug)]
pub enum URI {
    /// A path in the local file system.
    File(String),
    /// An HTTP endpoint that answers with the transcript in its body.
    HTTP(String),
}

/// A `URI` by the characters of its path or endpoint.
pub enum Location {
    File(Seq<char>),
    HTTP(Seq<char>),
}

impl View for URI {
    type V = Location;

    open spec fn view(&self) -> Location {
        match self {
            URI::File(fname) => Location::File(fname@),
            URI::HTTP(endpoint) => Location::HTTP(endpoint@),
        }
    }
}

impl Clone for URI {
    fn clone(&self) -> (uri: URI)
        ensures
            uri@ == self@,
    {
        match self {
            URI::File(fname) => URI::File(fname.clone()),
            URI::HTTP(endpoint) => URI::HTTP(endpoint.clone()),
        }
    }
}

impl URI {
    /// The file where it is present, else the endpoint. Whether the file is
    /// present is for the caller to find out.
    pub fn try_from_file(fname: &str, http: &str, present: bool) -> (uri: URI)
        ensures
            present ==> uri@ == Location::File(fname@),
            !present ==> uri@ == Location::HTTP(http@),
    {
        if present {
            URI::File(String::from_str(fname))
        } else {
            URI::HTTP(String::from_str(http))
        }
    }

    /// The location in words.
    pub fn describe(&self) -> (text: String)
        ensures
            text@ == match self@ {
                Location::File(fname) => "file uri: "@ + fname,
                Location::HTTP(endpoint) => "HTTP endpoint uri: "@ + endpoint,
            },
    {
        match self {
            URI::File(fname) => String::from_str("file uri: ").concat(fname.as_str()),
            URI::HTTP(endpoint) => String::from_str("HTTP endpoint uri: ").concat(
                endpoint.as_str(),
            ),
        }
    }
}

/// A transcript that lies in memory, and how far it has been read.
#[derive(Debug)]
pub struct SliceReader<'a> {
    data: &'a [u8],
    pos: usize,
}

impl<'a> SliceReader<'a> {
    #[verifier::type_invariant]
    spec fn inv(&self) -> bool {
        self.pos <= self.data@.len()
    }

    /// All the bytes, read or not.
    pub closed spec fn data(&self) -> Seq<u8> {
        self.data@
    }

    /// Number of bytes that have been read.
    pub closed spec fn spec_position(&self) -> nat {
        self.pos as nat
    }

    /// The bytes that have not been read.
    pub open spec fn remaining(&self) -> Seq<u8> {
        self.data().skip(self.spec_position() as int)
    }

    /// A reader at the start of `data`.
    pub fn new(data: &'a [u8]) -> (reader: SliceReader<'a>)
        ensures
            reader.data() == data@,
            reader.spec_position() == 0,
    {
        SliceReader { data, pos: 0 }
    }

    /// Number of bytes that have been read.
    pub fn position(&self) -> (pos: usize)
        ensures
            pos == self.spec_position(),
            pos <= self.data().len(),
    {
        proof {
            use_type_invariant(self);
        }
        self.pos
    }

    /// The next `len` bytes, where that many are left. Where fewer are left
    /// nothing is read.
    pub fn read_exact(&mut self, len: usize) -> (block: Option<&'a [u8]>)
        ensures
            final(self).data() == old(self).data(),
            match block {
                Some(bytes) => {
                    &&& old(self).spec_position() + len <= old(self).data().len()
                    &&& bytes@ == old(self).data().subrange(
                        old(self).spec_position() as int,
                        old(self).spec_position() + len,
                    )
                    &&& final(self).spec_position() == old(self).spec_position() + len
                },
                None => {
                    &&& old(self).spec_position() + len > old(self).data().len()
                    &&& final(self).spec_position() == old(self).spec_position()
                },
            },
    {
        proof {
            use_type_invariant(&*self);
        }
        if len > self.data.len() - self.pos {
            return None;
        }
        let bytes = vstd::slice::slice_subrange(self.data, self.pos, self.pos + len);
        self.pos = self.pos + len;
        Some(bytes)
    }

    /// Passes over the next `count` blocks of `len` bytes each, where that
    /// many bytes are left, and says whether they were. Where fewer are
    /// left nothing is read.
    pub fn skip(&mut self, count: usize, len: usize) -> (done: bool)
        ensures
            final(self).data() == old(self).data(),
            done <==> old(self).spec_position() + count * len <= old(self).data().len(),
            final(self).spec_position() == if done {
                old(self).spec_position() + count * len
            } else {
                old(self).spec_position() as int
            },
    {
        proof {
            use_type_invariant(&*self);
        }
        let left = self.data.len() - self.pos;
        if len == 0 || count == 0 {
            assert(count * len == 0) by (nonlinear_arith)
                requires
                    len == 0 || count == 0,
            ;
            return true;
        }
        if count > left / len {
            assert(count * len > left) by (nonlinear_arith)
                requires
                    count > left / len,
                    len > 0,
            ;
            return false;
        }
        assert(count * len <= left) by (nonlinear_arith)
            requires
                count <= left / len,
                len > 0,
        ;
        self.pos = self.pos + count * len;
        true
    }
}

/// Reads the powers of tau of one transcript from `source`: passes over the
/// digest of the previous contribution, takes the first `take` powers of
/// each section, each decoded as it is read, and passes over the rest of
/// the section. The first fault ends the read.
pub fn read_powers(params: &TauParams, source: &mut SliceReader) -> (r: Result<
    TauPowers,
    DeserializationError,
>)
    requires
        params.wf(),
    ensures
        stands_for(r, read_outcome(*params, old(source).remaining())),
        r is Ok <==> readable(*params, old(source).remaining()),
        final(source).data() == old(source).data(),
        final(source).spec_position() == old(source).spec_position() + read_extent(
            *params,
            old(source).remaining(),
        ),
        old(source).spec_position() <= final(source).spec_position() <= old(source).data().len(),
        r matches Ok(powers) ==> {
            &&& powers.wf()
            &&& powers.tau_g1@.len() == params.take
            &&& powers.tau_g2@.len() == params.take
            &&& final(source).spec_position() == old(source).spec_position()
                + params.transcript_len()
        },
{
    let ghost data = source.remaining();
    proof {
        lemma_read_succeeds(*params, data);
    }
    let start = source.position();
    let mut reader = TranscriptReader::new(params);
    loop
        invariant
            reader@.wf(),
            reader@.params == *params,
            on_track(reader@, data),
            read_outcome(*params, data) is Ok <==> readable(*params, data),
            source.data() == old(source).data(),
            data == old(source).remaining(),
            start == old(source).spec_position(),
            start <= old(source).data().len(),
            source.spec_position() == start + reader@.position(),
        decreases data.len() - reader@.position(),
    {
        let ghost state = reader@;
        match reader.step() {
            Step::Read { len } => {
                proof {
                    lemma_block_start_step(*params, state.group(), state.index as int);
                }
                let block = match source.read_exact(len) {
                    Some(block) => block,
                    None => {
                        proof {
                            lemma_fault_here(state, data, Fault::Io);
                        }
                        return Err(DeserializationError::IoError);
                    },
                };
                assert(block@ =~= params.block(state.group(), data, state.index as int));
                match reader.supply(block) {
                    Ok(()) => {
                        proof {
                            let encoding = state.group().point(block@, params.compressed)->Ok_0;
                            lemma_taken(state, data, encoding);
                        }
                    },
                    Err(e) => {
                        proof {
                            lemma_fault_here(state, data, e.fault());
                        }
                        return Err(e);
                    },
                }
            },
            Step::Skip { count, len } => {
                if !source.skip(count, len) {
                    proof {
                        lemma_short(state, data);
                    }
                    return Err(DeserializationError::IoError);
                }
                proof {
                    lemma_dropped(state, data);
                    assert(count * len > 0) by (nonlinear_arith)
                        requires
                            count >= 1,
                            len >= 1,
                    ;
                }
                reader.skipped();
            },
            Step::Done => {
                return Ok(reader.finish());
            },
        }
    }
}

/// Reads the powers of tau of the transcript that `data` holds. Bytes
/// behind the transcript are left alone.
pub fn read_powers_from(params: &TauParams, data: &[u8]) -> (r: Result<
    TauPowers,
    DeserializationError,
>)
    requires
        params.wf(),
    ensures
        stands_for(r, read_outcome(*params, data@)),
        r is Ok <==> readable(*params, data@),
        r matches Ok(powers) ==> {
            &&& powers.wf()
            &&& powers.tau_g1@.len() == params.take
            &&& powers.tau_g2@.len() == params.take
            &&& params.transcript_len() <= data@.len()
        },
{
    let mut reader = SliceReader::new(data);
    assert(reader.remaining() =~= data@);
    read_powers(params, &mut reader)
}

} // verus!

use digest::Digest;
use sha2::Sha256;
use vstd::prelude::*;

verus! {

/// The SHA-256 digest of a byte string.
pub uninterp spec fn sha256_digest(data: Seq<u8>) -> Seq<u8>;

/// Calls `Sha256::digest` of sha2. Trusted: the result is the digest of
/// `data`, a function of the bytes alone, and is 32 bytes long.
#[verifier::external_body]
pub(crate) fn sha256(data: &[u8]) -> (out: Vec<u8>)
    ensures
        out@ == sha256_digest(data@),
        out@.len() == 32,
{
    Sha256::digest(data).to_vec()
}

/// Blocks of bytes laid end to end, in order.
pub open spec fn concat(blocks: Seq<Seq<u8>>) -> Seq<u8>
    decreases blocks.len(),
{
    if blocks.len() == 0 {
        Seq::empty()
    } else {
        concat(blocks.drop_last()) + blocks.last()
    }
}

/// Appends `bytes` to `buf`.
pub fn append_bytes(buf: &mut Vec<u8>, bytes: &[u8])
    ensures
        final(buf)@ == old(buf)@ + bytes@,
{
    let mut i: usize = 0;
    while i < bytes.len()
        invariant
            i <= bytes@.len(),
            buf@ == old(buf)@ + bytes@.take(i as int),
        decreases bytes@.len() - i,
    {
        buf.push(bytes[i]);
        assert(bytes@.take(i + 1) =~= bytes@.take(i as int).push(bytes@[i as int]));
        i += 1;
    }
    assert(bytes@.take(i as int) =~= bytes@);
}

/// Laying out one block more appends it.
pub proof fn lemma_concat_push(blocks: Seq<Seq<u8>>, block: Seq<u8>)
    ensures
        concat(blocks.push(block)) == concat(blocks) + block,
{
    assert(blocks.push(block).drop_last() =~= blocks);
}

/// Blocks of one width take that width each.
pub proof fn lemma_concat_len(blocks: Seq<Seq<u8>>, width: nat)
    requires
        forall|i: int| 0 <= i < blocks.len() ==> (#[trigger] blocks[i]).len() == width,
    ensures
        concat(blocks).len() == blocks.len() * width,
    decreases blocks.len(),
{
    if blocks.len() > 0 {
        lemma_concat_len(blocks.drop_last(), width);
        assert(blocks.len() * width == (blocks.len() - 1) * width + width) by (nonlinear_arith);
    }
}

/// In a layout of blocks of one width, block `i` is the bytes from
/// `i * width` on.
pub proof fn lemma_concat_block(blocks: Seq<Seq<u8>>, width: nat, i: int)
    requires
        forall|j: int| 0 <= j < blocks.len() ==> (#[trigger] blocks[j]).len() == width,
        0 <= i < blocks.len(),
    ensures
        (i + 1) * width <= concat(blocks).len(),
        concat(blocks).subrange(i * width, (i + 1) * width) == blocks[i],
    decreases blocks.len(),
{
    let init = blocks.drop_last();
    lemma_concat_len(init, width);
    lemma_concat_len(blocks, width);
    assert(init.len() * width + width == blocks.len() * width) by (nonlinear_arith)
        requires
            init.len() + 1 == blocks.len(),
    ;
    if i == blocks.len() - 1 {
        assert(concat(blocks).subrange(i * width, (i + 1) * width) =~= blocks[i]);
    } else {
        lemma_concat_block(init, width, i);
        assert((i + 1) * width <= init.len() * width) by (nonlinear_arith)
            requires
                i + 1 <= init.len(),
        ;
        assert(0 <= i * width) by (nonlinear_arith)
            requires
                0 <= i,
        ;
        assert(i * width <= (i + 1) * width) by (nonlinear_arith)
            requires
                0 <= i,
        ;
        assert(concat(blocks).subrange(i * width, (i + 1) * width) =~= concat(init).subrange(
            i * width,
            (i + 1) * width,
        ));
    }
}

} // verus!

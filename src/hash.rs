//! The hash primitive and the byte stream expanded from a seed by hashing
//! the seed with a block counter.
use sha2::Digest;
use vstd::prelude::*;

verus! {

/// The SHA-512 digest of a byte string.
pub uninterp spec fn sha512_of(data: Seq<u8>) -> Seq<u8>;

/// Relies on sha2::Sha512::digest: the SHA-512 digest of the input, which is
/// 64 bytes long.
#[verifier::external_body]
pub(crate) fn sha512(data: &[u8]) -> (r: Vec<u8>)
    ensures
        r@ == sha512_of(data@),
        r@.len() == 64,
{
    sha2::Sha512::digest(data).to_vec()
}

/// A counter as four bytes, most significant first.
pub open spec fn be32(c: nat) -> Seq<u8> {
    seq![
        ((c / 0x100_0000) % 256) as u8,
        ((c / 0x1_0000) % 256) as u8,
        ((c / 256) % 256) as u8,
        (c % 256) as u8,
    ]
}

/// Byte j of the stream of a seed: byte j % 64 of the digest of the seed
/// followed by the block counter j / 64.
pub open spec fn stream_byte(seed: Seq<u8>, j: int) -> u8 {
    sha512_of(seed + be32((j / 64) as nat))[j % 64]
}

/// The first len bytes of the stream of a seed.
pub open spec fn expand_spec(seed: Seq<u8>, len: nat) -> Seq<u8> {
    Seq::new(len, |j: int| stream_byte(seed, j))
}

/// Appends the bytes of s.
pub fn append(out: &mut Vec<u8>, s: &[u8])
    ensures
        final(out)@ == old(out)@ + s@,
{
    let ghost start = old(out)@;
    let mut i: usize = 0;
    while i < s.len()
        invariant
            0 <= i <= s.len(),
            out@ == start + s@.take(i as int),
        decreases s.len() - i,
    {
        out.push(s[i]);
        i = i + 1;
        assert(out@ =~= start + s@.take(i as int));
    }
    assert(s@.take(s.len() as int) =~= s@);
}

/// Appends a counter as four bytes, most significant first.
pub fn append_be32(out: &mut Vec<u8>, c: u32)
    ensures
        final(out)@ == old(out)@ + be32(c as nat),
{
    out.push(((c / 0x100_0000) % 256) as u8);
    out.push(((c / 0x1_0000) % 256) as u8);
    out.push(((c / 256) % 256) as u8);
    out.push((c % 256) as u8);
    assert(final(out)@ =~= old(out)@ + be32(c as nat));
}

/// The first len bytes of the stream of a seed.
pub fn expand(seed: &[u8], len: usize) -> (r: Vec<u8>)
    requires
        len <= 0x100_0000,
    ensures
        r@ == expand_spec(seed@, len as nat),
{
    let mut out: Vec<u8> = Vec::with_capacity(len);
    let mut block: Vec<u8> = Vec::new();
    let mut j: usize = 0;
    while j < len
        invariant
            len <= 0x100_0000,
            0 <= j <= len,
            out.len() == j,
            forall|k: int| 0 <= k < j ==> #[trigger] out@[k] == stream_byte(seed@, k),
            j % 64 != 0 ==> block@ == sha512_of(seed@ + be32((j / 64) as nat)) && block.len()
                == 64,
        decreases len - j,
    {
        if j % 64 == 0 {
            let mut input: Vec<u8> = Vec::new();
            append(&mut input, seed);
            append_be32(&mut input, (j / 64) as u32);
            block = sha512(input.as_slice());
        }
        out.push(block[j % 64]);
        j = j + 1;
    }
    assert(out@ =~= expand_spec(seed@, len as nat));
    out
}

} // verus!

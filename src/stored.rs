use vstd::prelude::*;
use crate::bytes::{be32, push_be32, push_range};
use crate::checksum::{adler32, adler32_of};

verus! {

/// The largest payload of one stored block: its length field has 16 bits.
pub const CHUNK_SIZE: usize = 0xffff;

/// The zlib stream header: deflate, 32 KiB window, no dictionary, and a check
/// value that makes the pair a multiple of 31.
pub open spec fn zlib_header() -> Seq<u8> {
    seq![0x78u8, 0x01u8]
}

/// The five header bytes of a stored block: the BFINAL bit with BTYPE 00,
/// then LEN and NLEN (its one's complement), both little-endian.
pub open spec fn block_header(last: bool, len: nat) -> Seq<u8> {
    seq![
        if last { 1u8 } else { 0u8 },
        (len % 256) as u8,
        (len / 256) as u8,
        (255 - len % 256) as u8,
        (255 - len / 256) as u8,
    ]
}

/// The payload cut into stored blocks: full blocks of `CHUNK_SIZE` bytes,
/// then one final block with what remains, empty where nothing does.
pub open spec fn stored_blocks(d: Seq<u8>) -> Seq<u8>
    decreases d.len(),
{
    if d.len() < CHUNK_SIZE {
        block_header(true, d.len()) + d
    } else {
        block_header(false, CHUNK_SIZE as nat) + d.subrange(0, CHUNK_SIZE as int)
            + stored_blocks(d.subrange(CHUNK_SIZE as int, d.len() as int))
    }
}

/// The zlib stream that carries `d` in stored blocks.
pub open spec fn zlib_stored(d: Seq<u8>) -> Seq<u8> {
    zlib_header() + stored_blocks(d) + be32(adler32_of(d))
}

/// The length of the zlib stream for a payload of `n` bytes.
pub open spec fn stream_size(n: nat) -> nat {
    2 + 5 * (n / CHUNK_SIZE as nat) + 5 + n + 4
}

/// The stored blocks of `d` take five header bytes per full block, five for
/// the final block, and the payload itself.
pub proof fn lemma_stored_blocks_len(d: Seq<u8>)
    ensures
        stored_blocks(d).len() == 5 * (d.len() / CHUNK_SIZE as nat) + 5 + d.len(),
    decreases d.len(),
{
    if d.len() >= CHUNK_SIZE {
        let rest = d.subrange(CHUNK_SIZE as int, d.len() as int);
        lemma_stored_blocks_len(rest);
        assert(rest.len() / 65535 == d.len() / 65535 - 1) by (nonlinear_arith)
            requires rest.len() == d.len() - 65535, d.len() >= 65535;
    }
}

/// The zlib stream of `d` has the length that `stream_size` predicts.
pub proof fn lemma_zlib_stored_len(d: Seq<u8>)
    ensures
        zlib_stored(d).len() == stream_size(d.len()),
{
    lemma_stored_blocks_len(d);
}

fn push_block_header(out: &mut Vec<u8>, last: bool, len: usize)
    requires
        len <= CHUNK_SIZE,
    ensures
        final(out)@ == old(out)@ + block_header(last, len as nat),
{
    let lo: u8 = (len % 256) as u8;
    let hi: u8 = (len / 256) as u8;
    out.push(if last { 1u8 } else { 0u8 });
    out.push(lo);
    out.push(hi);
    out.push(255 - lo);
    out.push(255 - hi);
    assert(final(out)@ =~= old(out)@ + block_header(last, len as nat));
}

/// The exact length of the zlib stream that `deflate` makes of `x` bytes.
pub fn deflate_size(x: usize) -> (r: usize)
    requires
        stream_size(x as nat) <= usize::MAX,
    ensures
        r == stream_size(x as nat),
{
    2 + 5 * (x / CHUNK_SIZE) + 5 + x + 4
}

/// Wraps `data` in a zlib stream of stored (uncompressed) deflate blocks,
/// followed by the Adler-32 checksum of `data`, big-endian.
pub fn deflate(data: &[u8]) -> (out: Vec<u8>)
    requires
        stream_size(data@.len()) <= usize::MAX,
    ensures
        out@ == zlib_stored(data@),
        out@.len() == stream_size(data@.len()),
{
    let n = data.len();
    let mut out: Vec<u8> = Vec::with_capacity(deflate_size(n));
    out.push(0x78u8);
    out.push(0x01u8);
    let mut pos: usize = 0;
    assert(data@.subrange(0, n as int) =~= data@);
    while n - pos >= CHUNK_SIZE
        invariant
            n == data@.len(),
            pos <= n,
            out@ + stored_blocks(data@.subrange(pos as int, n as int))
                == zlib_header() + stored_blocks(data@),
        decreases n - pos,
    {
        let ghost rest = data@.subrange(pos as int, n as int);
        let ghost prev = out@;
        push_block_header(&mut out, false, CHUNK_SIZE);
        push_range(&mut out, data, pos, pos + CHUNK_SIZE);
        pos = pos + CHUNK_SIZE;
        assert(rest.subrange(0, CHUNK_SIZE as int) =~= data@.subrange(
            pos - CHUNK_SIZE,
            pos as int,
        ));
        assert(rest.subrange(CHUNK_SIZE as int, rest.len() as int) =~= data@.subrange(
            pos as int,
            n as int,
        ));
        assert(out@ + stored_blocks(data@.subrange(pos as int, n as int)) =~= prev
            + stored_blocks(rest));
    }
    let ghost rest = data@.subrange(pos as int, n as int);
    let ghost prev = out@;
    push_block_header(&mut out, true, n - pos);
    push_range(&mut out, data, pos, n);
    assert(out@ =~= prev + stored_blocks(rest));
    let sum = adler32(data);
    push_be32(&mut out, sum);
    proof {
        assert(out@ =~= zlib_stored(data@));
        lemma_zlib_stored_len(data@);
    }
    out
}

/// Reads deflate blocks as a decoder does, accepting stored blocks only:
/// BTYPE 00, NLEN the complement of LEN, LEN bytes of payload; it stops after
/// the block whose BFINAL bit is set. Gives the payload and the number of
/// bytes read, or `None` where the input is not such a block sequence.
pub open spec fn inflate_stored(s: Seq<u8>) -> Option<(Seq<u8>, nat)>
    decreases s.len(),
{
    if s.len() < 5 {
        None
    } else {
        let len = s[1] as nat + 256 * s[2] as nat;
        let nlen = s[3] as nat + 256 * s[4] as nat;
        if (s[0] / 2) % 4 != 0 || len + nlen != 65535 || s.len() < 5 + len {
            None
        } else if s[0] % 2 == 1 {
            Some((s.subrange(5, 5 + len as int), 5 + len))
        } else {
            match inflate_stored(s.subrange(5 + len as int, s.len() as int)) {
                Some((p, used)) => Some((s.subrange(5, 5 + len as int) + p, 5 + len + used)),
                None => None,
            }
        }
    }
}

/// Whether two bytes form a zlib header that a decoder accepts for a deflate
/// stream: method 8, a window of at most 32 KiB, a check value that makes the
/// pair a multiple of 31, and no preset dictionary.
pub open spec fn zlib_header_ok(cmf: u8, flg: u8) -> bool {
    &&& cmf % 16 == 8
    &&& cmf / 16 <= 7
    &&& (cmf as nat * 256 + flg as nat) % 31 == 0
    &&& (flg / 32) % 2 == 0
}

/// Reads a zlib stream as a decoder does: a header naming deflate with a
/// window of at most 32 KiB, no preset dictionary and a valid check value,
/// then the blocks, then the Adler-32 of the payload, and nothing after it.
pub open spec fn zlib_decode(s: Seq<u8>) -> Option<Seq<u8>> {
    if s.len() < 2 || !zlib_header_ok(s[0], s[1]) {
        None
    } else {
        match inflate_stored(s.subrange(2, s.len() as int)) {
            Some((p, used)) => if s.len() == 2 + used + 4 && s.subrange(
                2 + used as int,
                s.len() as int,
            ) == be32(adler32_of(p)) {
                Some(p)
            } else {
                None
            },
            None => None,
        }
    }
}

/// Reading the stored blocks of `d`, followed by anything, gives back `d`
/// and stops where the blocks end.
pub proof fn lemma_inflate_stored_blocks(d: Seq<u8>, tail: Seq<u8>)
    ensures
        inflate_stored(stored_blocks(d) + tail) == Some((d, stored_blocks(d).len())),
    decreases d.len(),
{
    let s = stored_blocks(d) + tail;
    if d.len() < CHUNK_SIZE {
        let len = d.len();
        assert((len % 256) as u8 as nat + 256 * (len / 256) as u8 as nat == len);
        assert((255 - len % 256) as u8 as nat + 256 * (255 - len / 256) as u8 as nat == 65535
            - len);
        assert(s.subrange(5, 5 + len as int) =~= d);
    } else {
        let rest = d.subrange(CHUNK_SIZE as int, d.len() as int);
        lemma_inflate_stored_blocks(rest, tail);
        lemma_stored_blocks_len(rest);
        assert(s.subrange(5, 5 + 65535 as int) =~= d.subrange(0, CHUNK_SIZE as int));
        assert(s.subrange(5 + 65535 as int, s.len() as int) =~= stored_blocks(rest) + tail);
        assert(d.subrange(0, CHUNK_SIZE as int) + rest =~= d);
    }
}

/// Any zlib decoder that reads the stream `deflate` writes gets back exactly
/// the payload.
pub proof fn lemma_zlib_round_trip(d: Seq<u8>)
    ensures
        zlib_decode(zlib_stored(d)) == Some(d),
{
    let s = zlib_stored(d);
    let b = stored_blocks(d);
    assert(s[0] == 0x78u8 && s[1] == 0x01u8);
    assert(zlib_header_ok(0x78u8, 0x01u8));
    let tail = be32(adler32_of(d));
    lemma_inflate_stored_blocks(d, tail);
    assert(s.subrange(2, s.len() as int) =~= b + tail);
    assert(s.subrange(2 + b.len() as int, s.len() as int) =~= tail);
}

} // verus!

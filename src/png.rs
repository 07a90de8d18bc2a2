use vstd::prelude::*;
use crate::bytes::{be32, push_be32, push_range};
use crate::checksum::{crc32, crc32_of};
use crate::color::Color;
use crate::stored::{deflate, stream_size, zlib_stored, lemma_zlib_stored_len};

verus! {

/// Why an image could not be encoded.
#[derive(Copy, Clone, Debug, PartialEq, Eq)]
pub enum EncodeError {
    /// The pixel buffer's length is not width × height × channels.
    ContractViolation,
}

/// The eight bytes that open every PNG file.
pub open spec fn signature() -> Seq<u8> {
    seq![0x89u8, 0x50u8, 0x4eu8, 0x47u8, 0x0du8, 0x0au8, 0x1au8, 0x0au8]
}

pub open spec fn ihdr_tag() -> Seq<u8> {
    seq![0x49u8, 0x48u8, 0x44u8, 0x52u8]
}

pub open spec fn srgb_tag() -> Seq<u8> {
    seq![0x73u8, 0x52u8, 0x47u8, 0x42u8]
}

pub open spec fn idat_tag() -> Seq<u8> {
    seq![0x49u8, 0x44u8, 0x41u8, 0x54u8]
}

pub open spec fn iend_tag() -> Seq<u8> {
    seq![0x49u8, 0x45u8, 0x4eu8, 0x44u8]
}

/// One chunk: payload length (big-endian, 32 bits), type tag, payload, and
/// the CRC-32 of tag and payload.
pub open spec fn chunk_bytes(tag: Seq<u8>, payload: Seq<u8>) -> Seq<u8> {
    be32(payload.len() as u32) + tag + payload + be32(crc32_of(tag + payload))
}

/// The bytes that one chunk of `x` payload bytes takes.
pub open spec fn chunk_size(x: nat) -> nat {
    4 + 4 + x + 4
}

/// Number of pixel bytes an image of this format and shape holds.
pub open spec fn pixel_len(color: Color, width: u32, height: u32) -> nat {
    width as nat * height as nat * color.channels()
}

/// Number of bytes of the framed rows: each row is preceded by one tag byte.
pub open spec fn framed_len(color: Color, width: u32, height: u32) -> nat {
    height as nat * (width as nat * color.channels() + 1)
}

/// The first `h` rows of `row` bytes each, every one preceded by the filter
/// tag 0 ("none").
pub open spec fn framed(data: Seq<u8>, row: nat, h: nat) -> Seq<u8>
    decreases h,
{
    if h == 0 {
        Seq::empty()
    } else {
        framed(data, row, (h - 1) as nat) + seq![0u8] + data.subrange(
            (h - 1) * row,
            (h * row) as int,
        )
    }
}

/// The IHDR payload: width, height, bit depth 8, the color type, and
/// compression, filter and interlace methods 0.
pub open spec fn ihdr_payload(color: Color, width: u32, height: u32) -> Seq<u8> {
    be32(width) + be32(height) + seq![8u8, color.type_code(), 0u8, 0u8, 0u8]
}

/// The whole PNG file for an image.
pub open spec fn png_bytes(color: Color, width: u32, height: u32, data: Seq<u8>) -> Seq<u8> {
    signature() + chunk_bytes(ihdr_tag(), ihdr_payload(color, width, height)) + chunk_bytes(
        srgb_tag(),
        seq![0u8],
    ) + chunk_bytes(
        idat_tag(),
        zlib_stored(framed(data, width as nat * color.channels(), height as nat)),
    ) + chunk_bytes(iend_tag(), Seq::empty())
}

/// The length of the PNG file for an image of this format and shape.
pub open spec fn png_size(color: Color, width: u32, height: u32) -> nat {
    8 + chunk_size(13) + chunk_size(stream_size(framed_len(color, width, height))) + chunk_size(1)
        + chunk_size(0)
}

/// The bytes that one chunk of `x` payload bytes takes.
pub fn chunk_len(x: usize) -> (r: usize)
    requires
        x + 12 <= usize::MAX,
    ensures
        r == chunk_size(x as nat),
{
    4 + 4 + x + 4
}

/// Appends one chunk with type tag `ty` and payload `data` to `to`. The
/// length field holds the payload's length modulo 2^32.
pub fn chunk(ty: [u8; 4], data: &[u8], to: &mut Vec<u8>)
    ensures
        final(to)@ == old(to)@ + chunk_bytes(ty@, data@),
{
    push_be32(to, data.len() as u32);
    to.push(ty[0]);
    to.push(ty[1]);
    to.push(ty[2]);
    to.push(ty[3]);
    let ghost mid = to@;
    push_range(to, data, 0, data.len());
    let crc = crc32(ty.as_slice(), data);
    push_be32(to, crc);
    assert(data@.subrange(0, data@.len() as int) =~= data@);
    assert(final(to)@ =~= old(to)@ + chunk_bytes(ty@, data@));
}

/// Frames `height` rows of `row` bytes: each row is preceded by the filter
/// tag 0 ("none") and otherwise copied unchanged, in order.
pub fn frame(data: &[u8], row: usize, height: usize) -> (r: Vec<u8>)
    requires
        data@.len() == row * height,
        data@.len() + height <= usize::MAX,
    ensures
        r@ == framed(data@, row as nat, height as nat),
        r@.len() == height * (row + 1),
{
    let mut out: Vec<u8> = Vec::with_capacity(data.len() + height);
    let n = data.len();
    let mut i: usize = 0;
    while i < height
        invariant
            n == data@.len(),
            i <= height,
            data@.len() == row * height,
            out@ == framed(data@, row as nat, i as nat),
            out@.len() == i * (row + 1),
        decreases height - i,
    {
        proof {
            assert((i + 1) * row <= row * height) by (nonlinear_arith)
                requires
                    i + 1 <= height,
            ;
            assert(i * row + row == (i + 1) * row) by (nonlinear_arith);
            assert((i + 1) * (row + 1) == i * (row + 1) + row + 1) by (nonlinear_arith);
        }
        let ghost prev = out@;
        let start = i * row;
        out.push(0u8);
        push_range(&mut out, data, start, start + row);
        i = i + 1;
        proof {
            assert(framed(data@, row as nat, i as nat) == prev + seq![0u8] + data@.subrange(
                start as int,
                (i * row) as int,
            ));
            assert(out@ =~= framed(data@, row as nat, i as nat));
        }
    }
    out
}

/// The framed length, for an image whose PNG length fits in `usize`.
fn framed_size(color: Color, width: u32, height: u32) -> (r: usize)
    requires
        png_size(color, width, height) <= usize::MAX,
    ensures
        r == framed_len(color, width, height),
{
    if height == 0 {
        assert(framed_len(color, width, height) == 0) by (nonlinear_arith)
            requires
                height == 0,
                framed_len(color, width, height) == height as nat * (width as nat
                    * color.channels() + 1),
        ;
        0
    } else {
        let c = color.depth() as usize;
        proof {
            let f = framed_len(color, width, height);
            assert(width as nat * color.channels() + 1 <= f) by (nonlinear_arith)
                requires
                    f == height as nat * (width as nat * color.channels() + 1),
                    height >= 1,
            ;
        }
        let row1 = width as usize * c + 1;
        proof {
            assert(row1 * height == framed_len(color, width, height)) by (nonlinear_arith)
                requires
                    row1 == width as nat * color.channels() + 1,
                    framed_len(color, width, height) == height as nat * (width as nat
                        * color.channels() + 1),
            ;
        }
        let r = row1 * height as usize;
        assert(r == framed_len(color, width, height));
        r
    }
}

/// Get the size of an encoded png. Guaranteed to exactly equal the size of the encoded png.
pub fn size(color: Color, dims: (u32, u32)) -> (r: usize)
    requires
        png_size(color, dims.0, dims.1) <= usize::MAX,
    ensures
        r == png_size(color, dims.0, dims.1),
{
    let (width, height) = dims;
    let n = framed_size(color, width, height);
    8 + chunk_len(13) + chunk_len(crate::stored::deflate_size(n)) + chunk_len(1) + chunk_len(0)
}

/// The rows framed as `framed` makes them take `h * (row + 1)` bytes.
pub proof fn lemma_framed_len(data: Seq<u8>, row: nat, h: nat)
    requires
        data.len() >= row * h,
    ensures
        framed(data, row, h).len() == h * (row + 1),
    decreases h,
{
    if h > 0 {
        let k = (h - 1) as nat;
        assert(row * k <= row * h && k * row == row * k && h * row == row * h && k * row + row
            == h * row && k * (row + 1) + row + 1 == h * (row + 1)) by (nonlinear_arith)
            requires
                k + 1 == h,
        ;
        lemma_framed_len(data, row, k);
        assert(data.subrange((k * row) as int, (h * row) as int).len() == row);
    } else {
        assert(h * (row + 1) == 0) by (nonlinear_arith)
            requires
                h == 0,
        ;
    }
}

/// Appends the eight signature bytes to `to`.
fn push_signature(to: &mut Vec<u8>)
    ensures
        final(to)@ == old(to)@ + signature(),
{
    to.push(0x89u8);
    to.push(0x50u8);
    to.push(0x4eu8);
    to.push(0x47u8);
    to.push(0x0du8);
    to.push(0x0au8);
    to.push(0x1au8);
    to.push(0x0au8);
    assert(final(to)@ =~= old(to)@ + signature());
}

/// The IHDR payload of an image.
fn ihdr(color: Color, width: u32, height: u32) -> (r: Vec<u8>)
    ensures
        r@ == ihdr_payload(color, width, height),
{
    let mut p: Vec<u8> = Vec::with_capacity(13);
    push_be32(&mut p, width);
    push_be32(&mut p, height);
    p.push(8u8);
    p.push(color.ty());
    p.push(0u8);
    p.push(0u8);
    p.push(0u8);
    assert(p@ =~= ihdr_payload(color, width, height));
    p
}

/// Encode a png without any compression, appending it to `to`.
/// Takes advantage of the non-compressed blocks of deflate.
///
/// Fails with `ContractViolation`, and leaves `to` as it was, where the
/// length of `data` is not width × height × color depth.
pub fn ode(color: Color, dims: (u32, u32), data: &[u8], to: &mut Vec<u8>) -> (r: Result<
    (),
    EncodeError,
>)
    requires
        data@.len() == pixel_len(color, dims.0, dims.1) ==> png_size(color, dims.0, dims.1)
            <= usize::MAX,
    ensures
        r is Ok <==> data@.len() == pixel_len(color, dims.0, dims.1),
        r is Ok ==> final(to)@ == old(to)@ + png_bytes(color, dims.0, dims.1, data@),
        r is Err ==> r == Err::<(), EncodeError>(EncodeError::ContractViolation) && final(to)@
            == old(to)@,
{
    let (width, height) = dims;
    let c = color.depth() as usize;
    let ghost row_spec = width as nat * color.channels();
    let n = data.len();
    let expected = match (width as usize).checked_mul(height as usize) {
        Some(area) => area.checked_mul(c),
        None => None,
    };
    proof {
        assert(pixel_len(color, width, height) == width as nat * height as nat
            * color.channels());
    }
    match expected {
        Some(e) => {
            if e != n {
                return Err(EncodeError::ContractViolation);
            }
        },
        None => {
            return Err(EncodeError::ContractViolation);
        },
    }
    let f = framed_size(color, width, height);
    let row: usize = if height == 0 {
        0
    } else {
        proof {
            assert(row_spec <= pixel_len(color, width, height)) by (nonlinear_arith)
                requires
                    row_spec == width as nat * color.channels(),
                    pixel_len(color, width, height) == width as nat * height as nat
                        * color.channels(),
                    height >= 1,
            ;
        }
        width as usize * c
    };
    proof {
        assert(n == row * height && f == n + height && framed(data@, row as nat, height as nat)
            =~= framed(data@, row_spec, height as nat)) by (nonlinear_arith)
            requires
                n == pixel_len(color, width, height),
                pixel_len(color, width, height) == width as nat * height as nat
                    * color.channels(),
                f == framed_len(color, width, height),
                framed_len(color, width, height) == height as nat * (width as nat
                    * color.channels() + 1),
                row_spec == width as nat * color.channels(),
                height == 0 ==> row == 0,
                height != 0 ==> row == row_spec,
                height == 0 ==> framed(data@, row as nat, height as nat) =~= Seq::<u8>::empty()
                    && framed(data@, row_spec, height as nat) =~= Seq::<u8>::empty(),
        ;
    }
    let scanned = frame(data, row, height as usize);
    let packed = deflate(scanned.as_slice());
    push_signature(to);
    let header = ihdr(color, width, height);
    chunk([0x49u8, 0x48u8, 0x44u8, 0x52u8], header.as_slice(), to);
    let intent: Vec<u8> = vec![0u8];
    chunk([0x73u8, 0x52u8, 0x47u8, 0x42u8], intent.as_slice(), to);
    chunk([0x49u8, 0x44u8, 0x41u8, 0x54u8], packed.as_slice(), to);
    let empty: Vec<u8> = Vec::new();
    chunk([0x49u8, 0x45u8, 0x4eu8, 0x44u8], empty.as_slice(), to);
    proof {
        assert([0x49u8, 0x48u8, 0x44u8, 0x52u8]@ =~= ihdr_tag());
        assert([0x73u8, 0x52u8, 0x47u8, 0x42u8]@ =~= srgb_tag());
        assert([0x49u8, 0x44u8, 0x41u8, 0x54u8]@ =~= idat_tag());
        assert([0x49u8, 0x45u8, 0x4eu8, 0x44u8]@ =~= iend_tag());
        assert(intent@ =~= seq![0u8]);
        assert(final(to)@ =~= old(to)@ + png_bytes(color, width, height, data@));
    }
    Ok(())
}

/// For every pixel buffer that fits the shape, the file that `ode` writes is
/// exactly as long as `size` predicts.
pub proof fn lemma_size_is_exact(color: Color, width: u32, height: u32, data: Seq<u8>)
    requires
        data.len() == pixel_len(color, width, height),
    ensures
        png_bytes(color, width, height, data).len() == png_size(color, width, height),
{
    let row = width as nat * color.channels();
    assert(data.len() == row * height as nat) by (nonlinear_arith)
        requires
            data.len() == width as nat * height as nat * color.channels(),
            row == width as nat * color.channels(),
    ;
    lemma_framed_len(data, row, height as nat);
    let f = framed(data, row, height as nat);
    lemma_zlib_stored_len(f);
}

/// Encoding is deterministic: the same format, shape and pixels always give
/// the same bytes.
pub proof fn lemma_deterministic(color: Color, width: u32, height: u32, a: Seq<u8>, b: Seq<u8>)
    requires
        a == b,
    ensures
        png_bytes(color, width, height, a) == png_bytes(color, width, height, b),
{
}

} // verus!

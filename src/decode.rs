use vstd::prelude::*;
use crate::bytes::be32;
use crate::checksum::crc32_of;
use crate::color::Color;
use crate::png::{
    chunk_bytes, framed, idat_tag, iend_tag, ihdr_payload, ihdr_tag, lemma_framed_len, framed_len, pixel_len, png_bytes,
    signature, srgb_tag,
};
use crate::stored::{lemma_zlib_round_trip, lemma_zlib_stored_len, stream_size, zlib_decode, zlib_stored};

verus! {

/// The value of four bytes read as a big-endian integer.
pub open spec fn be32_value(b: Seq<u8>) -> nat {
    b[0] as nat * 0x100_0000 + b[1] as nat * 0x1_0000 + b[2] as nat * 0x100 + b[3] as nat
}

/// Reading back the bytes of `be32(x)` gives `x`.
pub proof fn lemma_be32_value(x: u32)
    ensures
        be32_value(be32(x)) == x,
{
    let b = be32(x);
    assert(b[0] as nat == x / 0x100_0000);
    assert(b[1] as nat == x / 0x1_0000 % 0x100);
    assert(b[2] as nat == x / 0x100 % 0x100);
    assert(b[3] as nat == x % 0x100);
}

/// Splits a sequence of chunks as a decoder does: length, tag, payload and a
/// CRC-32 over tag and payload that must match; `None` where the bytes are
/// not such a sequence.
pub open spec fn parse_chunks(s: Seq<u8>) -> Option<Seq<(Seq<u8>, Seq<u8>)>>
    decreases s.len(),
{
    if s.len() == 0 {
        Some(Seq::empty())
    } else if s.len() < 12 {
        None
    } else {
        let len = be32_value(s.subrange(0, 4));
        if s.len() < 12 + len {
            None
        } else {
            let tag = s.subrange(4, 8);
            let payload = s.subrange(8, 8 + len as int);
            if s.subrange(8 + len as int, 12 + len as int) != be32(crc32_of(tag + payload)) {
                None
            } else {
                match parse_chunks(s.subrange(12 + len as int, s.len() as int)) {
                    Some(rest) => Some(seq![(tag, payload)] + rest),
                    None => None,
                }
            }
        }
    }
}

/// The payloads of the IDAT chunks, joined in order.
pub open spec fn idat_data(cs: Seq<(Seq<u8>, Seq<u8>)>) -> Seq<u8>
    decreases cs.len(),
{
    if cs.len() == 0 {
        Seq::empty()
    } else {
        idat_data(cs.drop_last()) + if cs.last().0 == idat_tag() {
            cs.last().1
        } else {
            Seq::empty()
        }
    }
}

/// The number of channels of a color type with 8-bit samples, if it names
/// one that holds no palette.
pub open spec fn channels_of(ty: u8) -> Option<nat> {
    if ty == 0 {
        Some(1)
    } else if ty == 4 {
        Some(2)
    } else if ty == 2 {
        Some(3)
    } else if ty == 6 {
        Some(4)
    } else {
        None
    }
}

/// Removes the filter tag before each of `h` rows of `row` bytes, accepting
/// the tag 0 ("none") only.
pub open spec fn unframe(f: Seq<u8>, row: nat, h: nat) -> Option<Seq<u8>>
    decreases h,
{
    if h == 0 {
        if f.len() == 0 {
            Some(Seq::empty())
        } else {
            None
        }
    } else {
        let start = (h - 1) * (row + 1);
        if f.len() != h * (row + 1) || f[start] != 0 {
            None
        } else {
            match unframe(f.subrange(0, start), row, (h - 1) as nat) {
                Some(p) => Some(p + f.subrange(start + 1, start + 1 + row)),
                None => None,
            }
        }
    }
}

/// Reads a PNG file with 8-bit samples and no interlacing as a decoder does:
/// the signature, the chunks, the IHDR fields, the joined IDAT payloads as a
/// zlib stream, and the rows. Gives width, height, color type and pixels.
pub open spec fn decode_png(s: Seq<u8>) -> Option<(nat, nat, u8, Seq<u8>)> {
    if s.len() < 8 || s.subrange(0, 8) != signature() {
        None
    } else {
        match parse_chunks(s.subrange(8, s.len() as int)) {
            None => None,
            Some(cs) => {
                let ih = cs[0].1;
                if cs.len() < 2 || cs[0].0 != ihdr_tag() || ih.len() != 13 || cs.last().0
                    != iend_tag() || cs.last().1.len() != 0 || ih[8] != 8 || ih[10] != 0
                    || ih[11] != 0 || ih[12] != 0 {
                    None
                } else {
                    let w = be32_value(ih.subrange(0, 4));
                    let h = be32_value(ih.subrange(4, 8));
                    match (channels_of(ih[9]), zlib_decode(idat_data(cs))) {
                        (Some(c), Some(f)) => match unframe(f, w * c, h) {
                            Some(p) => Some((w, h, ih[9], p)),
                            None => None,
                        },
                        _ => None,
                    }
                }
            }
        }
    }
}

/// Removing the tags from the first `h` framed rows gives back those rows.
pub proof fn lemma_unframe(data: Seq<u8>, row: nat, h: nat)
    requires
        data.len() >= row * h,
    ensures
        unframe(framed(data, row, h), row, h) == Some(data.subrange(0, (row * h) as int)),
    decreases h,
{
    lemma_framed_len(data, row, h);
    if h == 0 {
        assert(row * h == 0) by (nonlinear_arith)
            requires
                h == 0,
        ;
        assert(data.subrange(0, 0) =~= Seq::<u8>::empty());
    } else {
        let k = (h - 1) as nat;
        assert(row * k <= row * h && k * row == row * k && h * row == row * h && k * row + row
            == h * row && k * (row + 1) + row + 1 == h * (row + 1)) by (nonlinear_arith)
            requires
                k + 1 == h,
        ;
        lemma_unframe(data, row, k);
        lemma_framed_len(data, row, k);
        let f = framed(data, row, h);
        let start = k * (row + 1);
        assert(f.subrange(0, start as int) =~= framed(data, row, k));
        assert(f.subrange(start + 1 as int, start + 1 + row as int) =~= data.subrange(
            (k * row) as int,
            (h * row) as int,
        ));
        assert(data.subrange(0, (row * k) as int) + data.subrange(
            (k * row) as int,
            (h * row) as int,
        ) =~= data.subrange(0, (row * h) as int));
    }
}

/// A chunk whose payload length fits its 32-bit field is read back as its tag
/// and payload, and reading goes on right after it.
pub proof fn lemma_parse_chunk(tag: Seq<u8>, payload: Seq<u8>, rest: Seq<u8>)
    requires
        tag.len() == 4,
        payload.len() <= u32::MAX,
    ensures
        parse_chunks(chunk_bytes(tag, payload) + rest) == match parse_chunks(rest) {
            Some(r) => Some(seq![(tag, payload)] + r),
            None => None::<Seq<(Seq<u8>, Seq<u8>)>>,
        },
{
    let s = chunk_bytes(tag, payload) + rest;
    let len = payload.len();
    lemma_be32_value(len as u32);
    assert(s.subrange(0, 4) =~= be32(len as u32));
    assert(s.subrange(4, 8) =~= tag);
    assert(s.subrange(8, 8 + len as int) =~= payload);
    assert(s.subrange(8 + len as int, 12 + len as int) =~= be32(crc32_of(tag + payload)));
    assert(s.subrange(12 + len as int, s.len() as int) =~= rest);
}

/// The IDAT payload of four chunks tagged IHDR, sRGB, IDAT and IEND is the
/// third one's payload.
proof fn lemma_idat_of_four(p1: Seq<u8>, p2: Seq<u8>, p3: Seq<u8>, p4: Seq<u8>)
    ensures
        idat_data(seq![(ihdr_tag(), p1), (srgb_tag(), p2), (idat_tag(), p3), (iend_tag(), p4)])
            == p3,
{
    let e1 = (ihdr_tag(), p1);
    let e2 = (srgb_tag(), p2);
    let e3 = (idat_tag(), p3);
    let e4 = (iend_tag(), p4);
    assert(ihdr_tag()[1] != idat_tag()[1]);
    assert(srgb_tag()[0] != idat_tag()[0]);
    assert(iend_tag()[1] != idat_tag()[1]);
    assert(seq![e1, e2, e3, e4].drop_last() =~= seq![e1, e2, e3]);
    assert(seq![e1, e2, e3].drop_last() =~= seq![e1, e2]);
    assert(seq![e1, e2].drop_last() =~= seq![e1]);
    assert(seq![e1].drop_last() =~= Seq::<(Seq<u8>, Seq<u8>)>::empty());
    assert(idat_data(Seq::<(Seq<u8>, Seq<u8>)>::empty()) =~= Seq::<u8>::empty());
    assert(seq![e1].last() == e1);
    assert(idat_data(seq![e1]) =~= Seq::<u8>::empty());
    assert(idat_data(seq![e1, e2]) =~= Seq::<u8>::empty());
    assert(idat_data(seq![e1, e2, e3]) =~= p3);
    assert(idat_data(seq![e1, e2, e3, e4]) =~= p3);
}

/// The chunks after the signature of an encoded file are read back as its
/// four chunks, where the stream fits one chunk's length field.
proof fn lemma_png_chunks(color: Color, width: u32, height: u32, data: Seq<u8>, z: Seq<u8>)
    requires
        z.len() <= u32::MAX,
        z == zlib_stored(
            framed(data, width as nat * color.channels(), height as nat),
        ),
    ensures
        ({
            let s = png_bytes(color, width, height, data);
            &&& s.len() >= 8
            &&& s.subrange(0, 8) == signature()
            &&& parse_chunks(s.subrange(8, s.len() as int)) == Some(
                seq![
                    (ihdr_tag(), ihdr_payload(color, width, height)),
                    (srgb_tag(), seq![0u8]),
                    (idat_tag(), z),
                    (iend_tag(), Seq::<u8>::empty()),
                ],
            )
        }),
{
    let ihp = ihdr_payload(color, width, height);
    let c1 = chunk_bytes(ihdr_tag(), ihp);
    let c2 = chunk_bytes(srgb_tag(), seq![0u8]);
    let c3 = chunk_bytes(idat_tag(), z);
    let c4 = chunk_bytes(iend_tag(), Seq::empty());
    let s = png_bytes(color, width, height, data);
    assert(s == signature() + c1 + c2 + c3 + c4);
    assert(s.subrange(0, 8) =~= signature());
    assert(s.subrange(8, s.len() as int) =~= c1 + (c2 + (c3 + c4)));
    assert(c4 + Seq::empty() =~= c4);
    lemma_parse_chunk(iend_tag(), Seq::empty(), Seq::empty());
    lemma_parse_chunk(idat_tag(), z, c4);
    lemma_parse_chunk(srgb_tag(), seq![0u8], c3 + c4);
    lemma_parse_chunk(ihdr_tag(), ihp, c2 + (c3 + c4));
    let e1 = (ihdr_tag(), ihp);
    let e2 = (srgb_tag(), seq![0u8]);
    let e3 = (idat_tag(), z);
    let e4 = (iend_tag(), Seq::<u8>::empty());
    assert(seq![e1] + (seq![e2] + (seq![e3] + (seq![e4] + Seq::empty()))) =~= seq![
        e1,
        e2,
        e3,
        e4,
    ]);
}

/// What `decode_png` gives, from the parts that it reads.
proof fn lemma_decode_parts(
    s: Seq<u8>,
    cs: Seq<(Seq<u8>, Seq<u8>)>,
    w: nat,
    h: nat,
    c: nat,
    f: Seq<u8>,
    p: Seq<u8>,
)
    requires
        s.len() >= 8,
        s.subrange(0, 8) == signature(),
        parse_chunks(s.subrange(8, s.len() as int)) == Some(cs),
        cs.len() >= 2,
        cs[0].0 == ihdr_tag(),
        cs[0].1.len() == 13,
        cs.last().0 == iend_tag(),
        cs.last().1.len() == 0,
        cs[0].1[8] == 8,
        cs[0].1[10] == 0,
        cs[0].1[11] == 0,
        cs[0].1[12] == 0,
        be32_value(cs[0].1.subrange(0, 4)) == w,
        be32_value(cs[0].1.subrange(4, 8)) == h,
        channels_of(cs[0].1[9]) == Some(c),
        zlib_decode(idat_data(cs)) == Some(f),
        unframe(f, w * c, h) == Some(p),
    ensures
        decode_png(s) == Some((w, h, cs[0].1[9], p)),
{
}

/// The IHDR payload of an image is read back as its fields.
proof fn lemma_ihdr_fields(color: Color, width: u32, height: u32)
    ensures
        ({
            let ihp = ihdr_payload(color, width, height);
            &&& ihp.len() == 13
            &&& be32_value(ihp.subrange(0, 4)) == width
            &&& be32_value(ihp.subrange(4, 8)) == height
            &&& ihp[8] == 8
            &&& ihp[9] == color.type_code()
            &&& ihp[10] == 0
            &&& ihp[11] == 0
            &&& ihp[12] == 0
            &&& channels_of(ihp[9]) == Some(color.channels())
        }),
{
    let ihp = ihdr_payload(color, width, height);
    lemma_be32_value(width);
    lemma_be32_value(height);
    assert(ihp.subrange(0, 4) =~= be32(width));
    assert(ihp.subrange(4, 8) =~= be32(height));
}

/// A decoder that reads the file `ode` writes gets back the width, height,
/// color type and pixels it was given, for every format and shape whose
/// compressed stream fits the 32-bit length field of one chunk.
pub proof fn lemma_round_trip(color: Color, width: u32, height: u32, data: Seq<u8>)
    requires
        data.len() == pixel_len(color, width, height),
        stream_size(framed_len(color, width, height)) <= u32::MAX,
    ensures
        decode_png(png_bytes(color, width, height, data)) == Some(
            (width as nat, height as nat, color.type_code(), data),
        ),
{
    let row = width as nat * color.channels();
    let h = height as nat;
    assert(data.len() == row * h && framed_len(color, width, height) == h * (row + 1))
        by (nonlinear_arith)
        requires
            data.len() == width as nat * height as nat * color.channels(),
            framed_len(color, width, height) == height as nat * (width as nat
                * color.channels() + 1),
            row == width as nat * color.channels(),
            h == height as nat,
    ;
    let f = framed(data, row, h);
    let z = zlib_stored(f);
    lemma_framed_len(data, row, h);
    lemma_zlib_stored_len(f);
    lemma_zlib_round_trip(f);
    lemma_unframe(data, row, h);
    assert(data.subrange(0, (row * h) as int) =~= data);
    assert(z.len() <= u32::MAX);
    let ihp = ihdr_payload(color, width, height);
    lemma_png_chunks(color, width, height, data, z);
    lemma_idat_of_four(ihp, seq![0u8], z, Seq::empty());
    lemma_ihdr_fields(color, width, height);
    let cs = seq![
        (ihdr_tag(), ihp),
        (srgb_tag(), seq![0u8]),
        (idat_tag(), z),
        (iend_tag(), Seq::<u8>::empty()),
    ];
    assert(cs.len() == 4 && cs[0].1 == ihp && cs[0].0 == ihdr_tag() && cs.last().0 == iend_tag()
        && cs.last().1.len() == 0);
    let s = png_bytes(color, width, height, data);
    lemma_decode_parts(s, cs, width as nat, h, color.channels(), f, data);
}

} // verus!

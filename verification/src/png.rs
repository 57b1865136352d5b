//! The PNG encoder: pixel serialization, the stored-block zlib container,
//! and the chunk framing.

use vstd::prelude::*;
use vstd::slice::slice_subrange;

use crate::checksum::{adler32, adler32_of, crc32, crc32_of};
use crate::color::Color;
use crate::image::Image;

verus! {

/// The four big-endian bytes of a 32-bit value, most significant first.
pub open spec fn be32(n: u32) -> Seq<u8> {
    seq![
        (n / 0x100_0000 % 0x100) as u8,
        (n / 0x1_0000 % 0x100) as u8,
        (n / 0x100 % 0x100) as u8,
        (n % 0x100) as u8,
    ]
}

/// The two little-endian bytes of a 16-bit value, least significant first.
pub open spec fn le16(n: u16) -> Seq<u8> {
    seq![(n % 0x100) as u8, (n / 0x100) as u8]
}

/// The three channel bytes of one pixel, red first.
pub open spec fn pixel_bytes(c: Color) -> Seq<u8> {
    seq![c.red, c.green, c.blue]
}

/// The channel bytes of a whole row, left to right.
pub open spec fn pixels_bytes(row: Seq<Color>) -> Seq<u8>
    decreases row.len(),
{
    if row.len() == 0 {
        Seq::<u8>::empty()
    } else {
        pixel_bytes(row[0]) + pixels_bytes(row.skip(1))
    }
}

/// The serialized grid: per row, the filter-type byte 0 and then the row's
/// channel bytes, top to bottom.
pub open spec fn rows_bytes(g: Seq<Seq<Color>>) -> Seq<u8>
    decreases g.len(),
{
    if g.len() == 0 {
        Seq::<u8>::empty()
    } else {
        (seq![0u8] + pixels_bytes(g[0])) + rows_bytes(g.skip(1))
    }
}

/// A serialized row holds 1 + 3·w bytes.
pub proof fn lemma_pixels_bytes_len(row: Seq<Color>)
    ensures
        pixels_bytes(row).len() == 3 * row.len(),
    decreases row.len(),
{
    if row.len() > 0 {
        lemma_pixels_bytes_len(row.skip(1));
    }
}

/// A serialized rectangular grid holds h·(1 + 3·w) bytes.
pub proof fn lemma_rows_bytes_len(g: Seq<Seq<Color>>, w: int)
    requires
        forall|i: int| 0 <= i < g.len() ==> (#[trigger] g[i]).len() == w,
        w >= 0,
    ensures
        rows_bytes(g).len() == g.len() * (1 + 3 * w),
    decreases g.len(),
{
    if g.len() > 0 {
        lemma_pixels_bytes_len(g[0]);
        assert(forall|i: int|
            0 <= i < g.skip(1).len() ==> (#[trigger] g.skip(1)[i]).len() == w);
        lemma_rows_bytes_len(g.skip(1), w);
        assert(rows_bytes(g).len() == (1 + 3 * w) + (g.len() - 1) * (1 + 3 * w));
        assert((1 + 3 * w) + (g.len() - 1) * (1 + 3 * w) == g.len() * (1 + 3 * w))
            by (nonlinear_arith);
    }
}

/// The stored-block framing of `data`: blocks of at most 65535 bytes, each
/// one control byte (1 only on the final block), the block length
/// little-endian, its one's complement, then the raw bytes.
pub open spec fn zlib_blocks(data: Seq<u8>) -> Seq<u8>
    decreases data.len(),
{
    if data.len() <= 65535 {
        ((seq![1u8] + le16(data.len() as u16)) + le16((0xFFFF - data.len()) as u16)) + data
    } else {
        (((seq![0u8] + le16(65535u16)) + le16(0u16)) + data.take(65535)) + zlib_blocks(
            data.skip(65535),
        )
    }
}

/// Each block adds five bytes of framing to its raw bytes.
pub proof fn lemma_zlib_blocks_len(data: Seq<u8>)
    ensures
        zlib_blocks(data).len() <= data.len() + 5 * (data.len() / 65535) + 5,
        zlib_blocks(data).len() >= data.len(),
    decreases data.len(),
{
    if data.len() > 65535 {
        lemma_zlib_blocks_len(data.skip(65535));
    }
}

/// A complete zlib stream holding `data` uncompressed: the fixed empty
/// stream when there is no data, else the 08 1D header, the stored blocks,
/// and the big-endian Adler-32 of all of `data`.
pub open spec fn zlib_spec(data: Seq<u8>) -> Seq<u8> {
    if data.len() == 0 {
        seq![0x78u8, 0x9cu8, 0x03u8, 0x00u8, 0x00u8, 0x00u8, 0x00u8, 0x01u8]
    } else {
        (seq![0x08u8, 0x1du8] + zlib_blocks(data)) + be32(adler32_of(data))
    }
}

/// Appends the two little-endian bytes of `v`.
fn push_le16(out: &mut Vec<u8>, v: u16)
    ensures
        final(out)@ == old(out)@ + le16(v),
{
    out.push((v % 0x100) as u8);
    out.push((v / 0x100) as u8);
    proof {
        assert(out@ =~= old(out)@ + le16(v));
    }
}

/// Appends the four big-endian bytes of `v`.
fn push_be32(out: &mut Vec<u8>, v: u32)
    ensures
        final(out)@ == old(out)@ + be32(v),
{
    out.push((v / 0x100_0000 % 0x100) as u8);
    out.push((v / 0x1_0000 % 0x100) as u8);
    out.push((v / 0x100 % 0x100) as u8);
    out.push((v % 0x100) as u8);
    proof {
        assert(out@ =~= old(out)@ + be32(v));
    }
}

/// Wraps raw bytes in a minimal valid zlib stream without compressing:
/// stored deflate blocks only, split at 65535 bytes, with the Adler-32 of
/// the input as trailer.
pub fn zlib_format(data: &[u8]) -> (out: Vec<u8>)
    ensures
        out@ == zlib_spec(data@),
{
    let n = data.len();
    if n == 0 {
        let mut out: Vec<u8> = Vec::new();
        out.push(0x78);
        out.push(0x9c);
        out.push(0x03);
        out.push(0x00);
        out.push(0x00);
        out.push(0x00);
        out.push(0x00);
        out.push(0x01);
        proof {
            assert(out@ =~= zlib_spec(data@));
        }
        return out;
    }
    let checksum = adler32(data);
    let mut out: Vec<u8> = Vec::new();
    out.push(0x08);
    out.push(0x1d);
    let ghost header: Seq<u8> = seq![0x08u8, 0x1du8];
    proof {
        assert(out@ =~= header);
        assert(data@.skip(0) =~= data@);
    }
    let mut pos: usize = 0;
    while pos < n
        invariant
            n == data@.len(),
            1 <= n,
            pos <= n,
            header == seq![0x08u8, 0x1du8],
            header + zlib_blocks(data@) == out@ + (if pos < n {
                zlib_blocks(data@.skip(pos as int))
            } else {
                Seq::<u8>::empty()
            }),
        decreases n - pos,
    {
        let ghost out0 = out@;
        let rem = n - pos;
        if rem > 65535 {
            out.push(0);
            push_le16(&mut out, 0xFFFF);
            push_le16(&mut out, 0);
            let chunk = slice_subrange(data, pos, pos + 65535);
            out.extend_from_slice(chunk);
            proof {
                let tail = data@.skip(pos as int);
                assert(tail.take(65535) =~= data@.subrange(pos as int, pos as int + 65535));
                assert(tail.skip(65535) =~= data@.skip(pos as int + 65535));
                assert(out@ =~= out0 + (((seq![0u8] + le16(65535u16)) + le16(0u16)) + tail.take(
                    65535,
                )));
                assert(header + zlib_blocks(data@) =~= out@ + zlib_blocks(
                    data@.skip(pos as int + 65535),
                ));
            }
            pos = pos + 65535;
        } else {
            out.push(1);
            push_le16(&mut out, rem as u16);
            push_le16(&mut out, 0xFFFF - (rem as u16));
            let chunk = slice_subrange(data, pos, n);
            out.extend_from_slice(chunk);
            proof {
                let tail = data@.skip(pos as int);
                assert(tail =~= data@.subrange(pos as int, n as int));
                assert(out@ =~= out0 + (((seq![1u8] + le16(rem as u16)) + le16(
                    (0xFFFF - rem) as u16,
                )) + tail));
                assert(header + zlib_blocks(data@) =~= out@);
            }
            pos = n;
        }
    }
    push_be32(&mut out, checksum);
    proof {
        assert(out@ =~= zlib_spec(data@));
    }
    out
}

/// One PNG chunk: the big-endian payload length, the 4-byte type tag, the
/// payload, and the big-endian CRC-32 over tag plus payload.
pub open spec fn chunk_spec(tag: Seq<u8>, payload: Seq<u8>) -> Seq<u8> {
    ((be32(payload.len() as u32) + tag) + payload) + be32(crc32_of(tag + payload))
}

/// The 13-byte IHDR payload for a `w` by `h` image: both dimensions
/// big-endian, bit depth 8, color type 2 (truecolor), then zero compression,
/// filter and interlace methods.
pub open spec fn ihdr_payload(w: u32, h: u32) -> Seq<u8> {
    (be32(w) + be32(h)) + seq![8u8, 2u8, 0u8, 0u8, 0u8]
}

/// The fixed 8-byte PNG signature.
pub open spec fn png_signature() -> Seq<u8> {
    seq![0x89u8, 0x50u8, 0x4Eu8, 0x47u8, 0x0Du8, 0x0Au8, 0x1Au8, 0x0Au8]
}

/// A complete PNG file for a `w` by `h` grid: the signature, then the IHDR,
/// IDAT and IEND chunks, the IDAT holding the zlib-wrapped serialized rows.
pub open spec fn png_spec(w: u32, h: u32, g: Seq<Seq<Color>>) -> Seq<u8> {
    ((png_signature() + chunk_spec(seq![0x49u8, 0x48u8, 0x44u8, 0x52u8], ihdr_payload(w, h)))
        + chunk_spec(seq![0x49u8, 0x44u8, 0x41u8, 0x54u8], zlib_spec(rows_bytes(g))))
        + chunk_spec(seq![0x49u8, 0x45u8, 0x4Eu8, 0x44u8], Seq::<u8>::empty())
}

/// Appends one chunk: length, tag, payload, and the CRC-32 computed over
/// the tag and payload together.
fn append_chunk(out: &mut Vec<u8>, tag: [u8; 4], payload: &Vec<u8>)
    requires
        payload@.len() <= 0xFFFF_FFFF,
    ensures
        final(out)@ == old(out)@ + chunk_spec(tag@, payload@),
{
    push_be32(out, payload.len() as u32);
    let mut tagged: Vec<u8> = Vec::new();
    tagged.push(tag[0]);
    tagged.push(tag[1]);
    tagged.push(tag[2]);
    tagged.push(tag[3]);
    tagged.extend_from_slice(payload.as_slice());
    proof {
        assert(tagged@ =~= tag@ + payload@);
    }
    let crc = crc32(tagged.as_slice());
    out.extend_from_slice(tagged.as_slice());
    push_be32(out, crc);
    proof {
        assert(out@ =~= old(out)@ + chunk_spec(tag@, payload@));
    }
}

impl Image {
    /// Serializes the grid for the IDAT stream: per row, one filter-type
    /// byte 0 ("None"), then each pixel's red, green and blue bytes.
    pub fn uncompressed_pixel_data(&self) -> (out: Vec<u8>)
        requires
            self.wf(),
        ensures
            out@ == rows_bytes(self.grid()),
    {
        let mut out: Vec<u8> = Vec::new();
        let mut y: usize = 0;
        proof {
            assert(self.grid().skip(0) =~= self.grid());
        }
        while y < self.height
            invariant
                self.wf(),
                y <= self.height,
                rows_bytes(self.grid()) == out@ + rows_bytes(self.grid().skip(y as int)),
            decreases self.height - y,
        {
            let ghost row = self.grid()[y as int];
            out.push(0);
            let mut x: usize = 0;
            let ghost out_mark = out@;
            proof {
                assert(row.skip(0) =~= row);
            }
            while x < self.width
                invariant
                    self.wf(),
                    y < self.height,
                    x <= self.width,
                    row == self.grid()[y as int],
                    out_mark + pixels_bytes(row) == out@ + pixels_bytes(row.skip(x as int)),
                decreases self.width - x,
            {
                let px = self.pixels[y][x];
                out.push(px.red);
                out.push(px.green);
                out.push(px.blue);
                proof {
                    assert(px == row[x as int]);
                    assert(pixels_bytes(row.skip(x as int)) == pixel_bytes(row[x as int])
                        + pixels_bytes(row.skip(x as int).skip(1)));
                    assert(row.skip(x as int).skip(1) =~= row.skip(x as int + 1));
                    assert(out@ =~= (out@.subrange(0, out@.len() - 3)) + pixel_bytes(
                        row[x as int],
                    ));
                }
                x = x + 1;
            }
            proof {
                assert(row.skip(self.width as int) =~= Seq::<Color>::empty());
                assert(out@ =~= out_mark + pixels_bytes(row));
                assert(rows_bytes(self.grid().skip(y as int)) == (seq![0u8] + pixels_bytes(row))
                    + rows_bytes(self.grid().skip(y as int).skip(1)));
                assert(self.grid().skip(y as int).skip(1) =~= self.grid().skip(y as int + 1));
            }
            y = y + 1;
        }
        proof {
            assert(self.grid().skip(self.height as int) =~= Seq::<Seq<Color>>::empty());
            assert(rows_bytes(Seq::<Seq<Color>>::empty()) == Seq::<u8>::empty());
            assert(out@ =~= rows_bytes(self.grid()));
        }
        out
    }

    /// Builds the complete PNG file for this grid: signature, IHDR, IDAT
    /// with the zlib-wrapped pixel rows, and IEND. The size bound keeps the
    /// IDAT payload within the 32-bit chunk length that PNG prescribes.
    pub fn make_png(&self) -> (out: Vec<u8>)
        requires
            self.wf(),
            self.height * (1 + 3 * self.width) <= 0xFFEF_FFFF,
        ensures
            out@ == png_spec(self.width as u32, self.height as u32, self.grid()),
    {
        let pixel_data = self.uncompressed_pixel_data();
        proof {
            lemma_rows_bytes_len(self.grid(), self.width as int);
            lemma_zlib_blocks_len(pixel_data@);
        }
        let idat = zlib_format(pixel_data.as_slice());
        let mut out: Vec<u8> = Vec::new();
        out.push(0x89);
        out.push(0x50);
        out.push(0x4E);
        out.push(0x47);
        out.push(0x0D);
        out.push(0x0A);
        out.push(0x1A);
        out.push(0x0A);
        proof {
            assert(out@ =~= png_signature());
        }
        let mut ihdr: Vec<u8> = Vec::new();
        push_be32(&mut ihdr, self.width as u32);
        push_be32(&mut ihdr, self.height as u32);
        ihdr.push(8);
        ihdr.push(2);
        ihdr.push(0);
        ihdr.push(0);
        ihdr.push(0);
        proof {
            assert(ihdr@ =~= ihdr_payload(self.width as u32, self.height as u32));
        }
        append_chunk(&mut out, [0x49, 0x48, 0x44, 0x52], &ihdr);
        append_chunk(&mut out, [0x49, 0x44, 0x41, 0x54], &idat);
        let empty: Vec<u8> = Vec::new();
        append_chunk(&mut out, [0x49, 0x45, 0x4E, 0x44], &empty);
        proof {
            assert([0x49u8, 0x48u8, 0x44u8, 0x52u8]@ =~= seq![0x49u8, 0x48u8, 0x44u8, 0x52u8]);
            assert([0x49u8, 0x44u8, 0x41u8, 0x54u8]@ =~= seq![0x49u8, 0x44u8, 0x41u8, 0x54u8]);
            assert([0x49u8, 0x45u8, 0x4Eu8, 0x44u8]@ =~= seq![0x49u8, 0x45u8, 0x4Eu8, 0x44u8]);
            assert(empty@ =~= Seq::<u8>::empty());
            assert(out@ =~= png_spec(self.width as u32, self.height as u32, self.grid()));
        }
        out
    }
}

} // verus!

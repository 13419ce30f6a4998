//! What holds of pictures: what the bytes of a file say of each pixel.

use vstd::prelude::*;
use crate::formats::UtxFormat;
use crate::images;
use crate::bytes;
use crate::dxt;
use crate::formats;
use crate::preview;

verus! {

/// Whether every pixel is opaque.
pub open spec fn is_opaque(pixels: Seq<u8>, count: int) -> bool {
    forall|i: int| 0 <= i < count ==> #[trigger] pixels[4 * i + 3] == 255
}

proof fn packed_are_opaque(d: Seq<u8>, p: int, left: int, done: Seq<u8>, found: int)
    requires
        0 <= left,
        0 <= found,
        done.len() == 4 * found,
        is_opaque(done, found),
    ensures
        images::packed_pixels(d, p, false, left, done) matches Ok(pixels) ==> {
            &&& pixels.len() == 4 * (found + left)
            &&& is_opaque(pixels, found + left)
        },
    decreases left,
{
    if left > 0 && 0 <= p < d.len() {
        let count = d[p] % 128 + 1;
        if count <= left {
            let more = if d[p] >= 128 {
                images::repeated_pixel(d, p + 1, false, count)
            } else {
                images::stored_pixels(d, p + 1, false, count)
            };
            let next = if d[p] >= 128 {
                p + 1 + images::stored_len(false, 1)
            } else {
                p + 1 + images::stored_len(false, count)
            };
            assert forall|i: int| 0 <= i < found + count implies #[trigger] (done + more)[4 * i + 3]
                == 255 by {
                if i < found {
                    assert((done + more)[4 * i + 3] == done[4 * i + 3]);
                } else {
                    assert((done + more)[4 * i + 3] == more[4 * (i - found) + 3]);
                    assert((4 * (i - found) + 3) % 4 == 3);
                }
            }
            packed_are_opaque(d, next, left - count, done + more, found + count);
        }
    }
}

proof fn packed_fill_the_picture(d: Seq<u8>, p: int, wide: bool, left: int, done: Seq<u8>)
    requires
        0 <= left,
    ensures
        images::packed_pixels(d, p, wide, left, done) matches Ok(pixels) ==> pixels.len()
            == done.len() + 4 * left,
    decreases left,
{
    if left > 0 && 0 <= p < d.len() {
        let count = d[p] % 128 + 1;
        if count <= left {
            if d[p] >= 128 {
                packed_fill_the_picture(
                    d,
                    p + 1 + images::stored_len(wide, 1),
                    wide,
                    left - count,
                    done + images::repeated_pixel(d, p + 1, wide, count),
                );
            } else {
                packed_fill_the_picture(
                    d,
                    p + 1 + images::stored_len(wide, count),
                    wide,
                    left - count,
                    done + images::stored_pixels(d, p + 1, wide, count),
                );
            }
        }
    }
}

/// The picture of a TGA file has the dimensions of the header and four bytes for each
/// pixel. In a file of 24 bits every pixel is opaque. Where the pixels are not packed,
/// the color of each is the three bytes that are stored for it behind the header and the
/// identifier, and in a file of 32 bits its alpha is the fourth.
pub proof fn tga_pixels_are_those_stored(d: Seq<u8>)
    requires
        images::tga_content(d) is Ok,
    ensures
        ({
            let (width, height, pixels) = images::tga_content(d)->Ok_0;
            let start = 18 + d[0];
            &&& d.len() >= 18
            &&& width == d[12] + 256 * d[13]
            &&& height == d[14] + 256 * d[15]
            &&& width > 0 && height > 0
            &&& d[1] == 0
            &&& d[2] == 2 || d[2] == 10
            &&& d[16] == 24 || d[16] == 32
            &&& pixels.len() == 4 * (width * height)
            &&& d[16] == 24 ==> forall|i: int|
                0 <= i < width * height ==> #[trigger] pixels[4 * i + 3] == 255
            &&& d[2] == 2 && d[16] == 24 ==> forall|i: int|
                #![trigger pixels[4 * i]]
                #![trigger d[start + 3 * i]]
                0 <= i < width * height ==> {
                    &&& pixels[4 * i] == d[start + 3 * i]
                    &&& pixels[4 * i + 1] == d[start + 3 * i + 1]
                    &&& pixels[4 * i + 2] == d[start + 3 * i + 2]
                }
            &&& d[2] == 2 && d[16] == 32 ==> pixels == d.subrange(
                start,
                start + 4 * (width * height),
            )
        }),
{
    let (width, height, pixels) = images::tga_content(d)->Ok_0;
    let start = 18 + d[0];
    let n = width * height;
    assert(n > 0) by (nonlinear_arith)
        requires
            width > 0,
            height > 0,
            n == width * height,
    ;
    if d[2] == 10 {
        packed_fill_the_picture(d, start, d[16] == 32, n, Seq::empty());
        if d[16] == 24 {
            packed_are_opaque(d, start, n, Seq::empty(), 0);
        }
    } else if d[16] == 24 {
        assert forall|i: int| 0 <= i < n implies #[trigger] pixels[4 * i + 3] == 255 by {
            assert((4 * i + 3) % 4 == 3);
        }
        assert forall|i: int|
            #![trigger pixels[4 * i]]
            #![trigger d[start + 3 * i]]
            0 <= i < n implies {
            &&& pixels[4 * i] == d[start + 3 * i]
            &&& pixels[4 * i + 1] == d[start + 3 * i + 1]
            &&& pixels[4 * i + 2] == d[start + 3 * i + 2]
        } by {
            assert((4 * i) % 4 == 0 && (4 * i) / 4 == i);
            assert((4 * i + 1) % 4 == 1 && (4 * i + 1) / 4 == i);
            assert((4 * i + 2) % 4 == 2 && (4 * i + 2) / 4 == i);
        }
    } else {
        assert(pixels =~= d.subrange(start, start + 4 * n));
    }
}

/// A TGA file without a palette whose pixels are not packed is read, whatever is in its
/// identifier, if it has dimensions, 24 or 32 bits for each pixel, and all its pixels.
pub proof fn whole_tga_files_are_read(d: Seq<u8>)
    requires
        d.len() >= 18,
        d[1] == 0,
        d[2] == 2,
        ({
            let width = d[12] + 256 * d[13];
            let height = d[14] + 256 * d[15];
            &&& width > 0 && height > 0
            &&& width * height * 4 <= usize::MAX
            &&& d[16] == 24 ==> 18 + d[0] + 3 * (width * height) <= d.len()
            &&& d[16] == 32 ==> 18 + d[0] + 4 * (width * height) <= d.len()
            &&& d[16] == 24 || d[16] == 32
        }),
    ensures
        images::tga_content(d) is Ok,
{
    let width = d[12] + 256 * d[13];
    let height = d[14] + 256 * d[15];
    assert(0 <= width * height) by (nonlinear_arith)
        requires
            width > 0,
            height > 0,
    ;
}

/// A packet of a TGA file whose pixels are packed: a number of pixels, either all the
/// same or each of its own.
pub enum Packet {
    Same(Pixel, int),
    Each(Seq<Pixel>),
}

/// The four bytes of a pixel.
pub struct Pixel {
    pub blue: u8,
    pub green: u8,
    pub red: u8,
    pub alpha: u8,
}

pub open spec fn byte_of_pixel(pixel: Pixel, channel: int) -> u8 {
    if channel == 0 {
        pixel.blue
    } else if channel == 1 {
        pixel.green
    } else if channel == 2 {
        pixel.red
    } else {
        pixel.alpha
    }
}

/// Whether a packet can stand in a file of 24 bits for each pixel, or of 32.
pub open spec fn is_packet(packet: Packet, bits: u8) -> bool {
    match packet {
        Packet::Same(pixel, count) => 1 <= count <= 128 && (bits == 24 ==> pixel.alpha == 255),
        Packet::Each(pixels) => {
            &&& 1 <= pixels.len() <= 128
            &&& bits == 24 ==> forall|i: int|
                0 <= i < pixels.len() ==> (#[trigger] pixels[i]).alpha == 255
        },
    }
}

/// The bytes of a packet: its length with a mark, and its pixels.
pub open spec fn packet_bytes(packet: Packet, bits: u8) -> Seq<u8> {
    let size = if bits == 24 {
        3int
    } else {
        4
    };
    match packet {
        Packet::Same(pixel, count) => seq![(count + 127) as u8] + Seq::new(
            size as nat,
            |i: int| byte_of_pixel(pixel, i),
        ),
        Packet::Each(pixels) => seq![(pixels.len() - 1) as u8] + Seq::new(
            (size * pixels.len()) as nat,
            |i: int| byte_of_pixel(pixels[i / size], i % size),
        ),
    }
}

/// The pixels of a packet.
pub open spec fn packet_pixels(packet: Packet) -> Seq<Pixel> {
    match packet {
        Packet::Same(pixel, count) => Seq::new(count as nat, |i: int| pixel),
        Packet::Each(pixels) => pixels,
    }
}

pub open spec fn packets_bytes(packets: Seq<Packet>, bits: u8) -> Seq<u8>
    decreases packets.len(),
{
    if packets.len() == 0 {
        Seq::empty()
    } else {
        packet_bytes(packets[0], bits) + packets_bytes(packets.skip(1), bits)
    }
}

pub open spec fn packets_pixels(packets: Seq<Packet>) -> Seq<Pixel>
    decreases packets.len(),
{
    if packets.len() == 0 {
        Seq::empty()
    } else {
        packet_pixels(packets[0]) + packets_pixels(packets.skip(1))
    }
}

/// Pixels as four bytes each.
pub open spec fn pixels_bytes(pixels: Seq<Pixel>) -> Seq<u8> {
    Seq::new(4 * pixels.len(), |i: int| byte_of_pixel(pixels[i / 4], i % 4))
}

proof fn pixels_bytes_join(a: Seq<Pixel>, b: Seq<Pixel>)
    ensures
        pixels_bytes(a + b) == pixels_bytes(a) + pixels_bytes(b),
{
    assert forall|i: int| 0 <= i < 4 * (a + b).len() implies pixels_bytes(a + b)[i] == (
    pixels_bytes(a) + pixels_bytes(b))[i] by {
        if i < 4 * a.len() {
            assert((a + b)[i / 4] == a[i / 4]);
        } else {
            assert((a + b)[i / 4] == b[i / 4 - a.len()]);
            assert((i - 4 * a.len()) / 4 == i / 4 - a.len());
            assert((i - 4 * a.len()) % 4 == i % 4);
        }
    }
    assert(pixels_bytes(a + b) =~= pixels_bytes(a) + pixels_bytes(b));
}

#[verifier::spinoff_prover]
proof fn one_packet_is_read(d: Seq<u8>, p: int, packet: Packet, bits: u8)
    requires
        bits == 24 || bits == 32,
        is_packet(packet, bits),
        0 <= p,
        p + packet_bytes(packet, bits).len() <= d.len(),
        d.subrange(p, p + packet_bytes(packet, bits).len()) == packet_bytes(packet, bits),
    ensures
        ({
            let count = packet_pixels(packet).len() as int;
            let len = packet_bytes(packet, bits).len();
            &&& d[p] % 128 + 1 == count
            &&& (d[p] >= 128) == (packet is Same)
            &&& d[p] >= 128 ==> len == 1 + images::stored_len(bits == 32, 1)
                && images::repeated_pixel(d, p + 1, bits == 32, count) == pixels_bytes(
                packet_pixels(packet),
            )
            &&& d[p] < 128 ==> len == 1 + images::stored_len(bits == 32, count)
                && images::stored_pixels(d, p + 1, bits == 32, count) == pixels_bytes(
                packet_pixels(packet),
            )
        }),
{
    let bytes = packet_bytes(packet, bits);
    let count = packet_pixels(packet).len() as int;
    let wanted = pixels_bytes(packet_pixels(packet));
    assert(d[p] == bytes[0]) by {
        assert(d.subrange(p, p + bytes.len())[0] == d[p]);
    }
    match packet {
        Packet::Same(pixel, n) => {
            let found = images::repeated_pixel(d, p + 1, bits == 32, count);
            assert forall|i: int| 0 <= i < 4 * count implies found[i] == wanted[i] by {
                let c = i % 4;
                if c < 3 || bits == 32 {
                    assert(d.subrange(p, p + bytes.len())[1 + c] == d[p + 1 + c]);
                    assert(bytes[1 + c] == byte_of_pixel(pixel, c));
                }
            }
            assert(found =~= wanted);
        },
        Packet::Each(pixels) => {
            let found = images::stored_pixels(d, p + 1, bits == 32, count);
            assert forall|i: int| 0 <= i < 4 * count implies found[i] == wanted[i] by {
                let k = i / 4;
                let c = i % 4;
                if bits == 32 {
                    let at = 1 + 4 * k + c;
                    assert(d.subrange(p, p + bytes.len())[at] == d[p + at]);
                    assert((4 * k + c) / 4 == k && (4 * k + c) % 4 == c);
                    assert(bytes[at] == d[p + at]);
                } else if c < 3 {
                    let at = 1 + 3 * k + c;
                    assert(d.subrange(p, p + bytes.len())[at] == d[p + at]);
                    assert((3 * k + c) / 3 == k && (3 * k + c) % 3 == c);
                    assert(bytes[at] == d[p + at]);
                }
            }
            assert(found =~= wanted);
        },
    }
}

proof fn packets_are_read(d: Seq<u8>, p: int, packets: Seq<Packet>, bits: u8, done: Seq<u8>)
    requires
        bits == 24 || bits == 32,
        0 <= p,
        forall|i: int| 0 <= i < packets.len() ==> is_packet(#[trigger] packets[i], bits),
        p + packets_bytes(packets, bits).len() <= d.len(),
        d.subrange(p, p + packets_bytes(packets, bits).len()) == packets_bytes(packets, bits),
    ensures
        images::packed_pixels(d, p, bits == 32, packets_pixels(packets).len() as int, done) == Ok::<
            Seq<u8>,
            Seq<char>,
        >(done + pixels_bytes(packets_pixels(packets))),
    decreases packets.len(),
{
    let all = packets_bytes(packets, bits);
    if packets.len() == 0 {
        assert(done + pixels_bytes(packets_pixels(packets)) =~= done);
    } else {
        let rest = packets.skip(1);
        let first = packet_bytes(packets[0], bits);
        let pixels = packet_pixels(packets[0]);
        let next = p + first.len();
        assert(d.subrange(p, next) =~= first) by {
            assert forall|i: int| 0 <= i < first.len() implies d[p + i] == first[i] by {
                assert(d.subrange(p, p + all.len())[i] == all[i]);
            }
        }
        one_packet_is_read(d, p, packets[0], bits);
        assert forall|i: int| 0 <= i < rest.len() implies is_packet(#[trigger] rest[i], bits) by {
            assert(rest[i] == packets[i + 1]);
        }
        assert(d.subrange(next, next + packets_bytes(rest, bits).len()) =~= packets_bytes(rest, bits)) by {
            assert forall|i: int| 0 <= i < packets_bytes(rest, bits).len() implies d[next + i]
                == packets_bytes(rest, bits)[i] by {
                assert(d.subrange(p, p + all.len())[first.len() + i] == all[first.len() + i]);
            }
        }
        packets_are_read(d, next, rest, bits, done + pixels_bytes(pixels));
        pixels_bytes_join(pixels, packets_pixels(rest));
        assert(done + pixels_bytes(pixels) + pixels_bytes(packets_pixels(rest)) =~= done
            + pixels_bytes(packets_pixels(packets)));
    }
}

/// A TGA file whose pixels are packed is read as the pixels of its packets: that of a
/// packet of equal pixels as often as it says, those of another one after the other. In a
/// file of 24 bits all of them are opaque.
pub proof fn packed_tga_files_are_read(d: Seq<u8>, packets: Seq<Packet>)
    requires
        18 + d[0] + packets_bytes(packets, d[16]).len() <= d.len(),
        d[1] == 0,
        d[2] == 10,
        d[16] == 24 || d[16] == 32,
        d[12] + 256 * d[13] > 0,
        d[14] + 256 * d[15] > 0,
        packets_pixels(packets).len() == (d[12] + 256 * d[13]) * (d[14] + 256 * d[15]),
        packets_pixels(packets).len() * 4 <= usize::MAX,
        forall|i: int| 0 <= i < packets.len() ==> is_packet(#[trigger] packets[i], d[16]),
        d.subrange(18 + d[0], 18 + d[0] + packets_bytes(packets, d[16]).len()) == packets_bytes(packets, d[16]),
    ensures
        images::tga_content(d) == Ok::<(i32, i32, Seq<u8>), Seq<char>>(
            (
                (d[12] + 256 * d[13]) as i32,
                (d[14] + 256 * d[15]) as i32,
                pixels_bytes(packets_pixels(packets)),
            ),
        ),
{
    let start = 18 + d[0];
    packets_are_read(d, start, packets, d[16], Seq::empty());
    assert(Seq::<u8>::empty() + pixels_bytes(packets_pixels(packets)) =~= pixels_bytes(
        packets_pixels(packets),
    ));
}

/// A TGA file that is written says that its pixels are not packed, that it has no
/// palette, 32 bits for each pixel with eight of alpha, and its first row on top. The
/// dimensions stand in the header, and the pixels behind it.
pub proof fn tga_files_are_written(pixels: Seq<u8>, width: i32, height: i32)
    ensures
        images::tga_file(pixels, width, height) matches Ok(b) ==> {
            &&& 0 <= width <= 65535 && 0 <= height <= 65535
            &&& b.len() == 18 + 4 * (width * height)
            &&& b[0] == 0 && b[1] == 0 && b[2] == 2
            &&& b[12] + 256 * b[13] == width
            &&& b[14] + 256 * b[15] == height
            &&& b[16] == 32
            &&& b[17] == 0x28
            &&& b.skip(18) == pixels.take(4 * (width * height))
        },
        0 <= width <= 65535 && 0 <= height <= 65535 && 4 * (width * height) <= usize::MAX
            && pixels.len() >= 4 * (width * height) ==> images::tga_file(pixels, width, height)
            is Ok,
{
    if let Ok(b) = images::tga_file(pixels, width, height) {
        assert(width * height >= 0) by (nonlinear_arith)
            requires
                width >= 0,
                height >= 0,
        ;
        assert(b.skip(18) =~= pixels.take(4 * (width * height)));
        assert(b[12] == bytes::le16(width as u16)[0]);
        assert(b[13] == bytes::le16(width as u16)[1]);
        assert(b[14] == bytes::le16(height as u16)[0]);
        assert(b[15] == bytes::le16(height as u16)[1]);
    }
}

/// The number in four bytes, the lowest part first.
pub open spec fn number_at(d: Seq<u8>, p: int) -> int {
    d[p] + 256 * d[p + 1] + 65536 * d[p + 2] + 16777216 * d[p + 3]
}

/// The bytes of a picture in blocks of four by four pixels: eight for a block with DXT1,
/// sixteen otherwise.
pub open spec fn blocks_take(width: int, height: int, format: UtxFormat) -> int {
    ((width + 3) / 4) * ((height + 3) / 4) * if format == UtxFormat::Dxt1 {
        8int
    } else {
        16
    }
}

/// Whether a DDS file names a compression: the letters `DXT` and its digit.
pub open spec fn names_compression(d: Seq<u8>, format: UtxFormat) -> bool {
    &&& d[84] == 'D' as u8 && d[85] == 'X' as u8 && d[86] == 'T' as u8
    &&& match format {
        UtxFormat::Dxt1 => d[87] == '1' as u8,
        UtxFormat::Dxt3 => d[87] == '3' as u8,
        UtxFormat::Dxt5 => d[87] == '5' as u8,
        _ => false,
    }
}

proof fn four_bytes(d: Seq<u8>, p: int)
    requires
        0 <= p,
        p + 4 <= d.len(),
    ensures
        ({
            let s = d.subrange(p, p + 4);
            &&& s[0] == d[p] && s[1] == d[p + 1] && s[2] == d[p + 2] && s[3] == d[p + 3]
            &&& number_at(d, p) < 2147483648 ==> bytes::i32_of(s) == number_at(d, p)
            &&& number_at(d, p) >= 2147483648 ==> bytes::i32_of(s) == number_at(d, p) - 4294967296
            &&& forall|a: u8, b: u8, c: u8, e: u8|
                #[trigger] seq![a, b, c, e] == s <==> d[p] == a && d[p + 1] == b && d[p + 2] == c
                    && d[p + 3] == e
        }),
{
    let s = d.subrange(p, p + 4);
    assert forall|a: u8, b: u8, c: u8, e: u8|
        #[trigger] seq![a, b, c, e] == s <==> d[p] == a && d[p + 1] == b && d[p + 2] == c && d[p
            + 3] == e by {
        let t = seq![a, b, c, e];
        assert(t[0] == a && t[1] == b && t[2] == c && t[3] == e);
        if d[p] == a && d[p + 1] == b && d[p + 2] == c && d[p + 3] == e {
            assert(t =~= s);
        }
    }
}

/// A DDS file is read by its header: the letters `DDS` and a space, the height, the
/// width, and the name of the compression. The blocks stand behind the header.
#[verifier::spinoff_prover]
pub proof fn dds_pictures_are_those_stored(d: Seq<u8>)
    ensures
        images::dds_content(d) matches Ok((format, width, height, blocks)) ==> {
            &&& d.len() >= 128
            &&& d[0] == 'D' as u8 && d[1] == 'D' as u8 && d[2] == 'S' as u8 && d[3] == ' ' as u8
            &&& height > 0 && height == number_at(d, 12)
            &&& width > 0 && width == number_at(d, 16)
            &&& names_compression(d, format)
            &&& 128 + blocks_take(width as int, height as int, format) <= d.len()
            &&& blocks == d.subrange(128, 128 + blocks_take(width as int, height as int, format))
        },
{
    if d.len() >= 128 {
        four_bytes(d, 0);
        four_bytes(d, 12);
        four_bytes(d, 16);
        four_bytes(d, 84);
        assert(d.take(4) =~= d.subrange(0, 4));
    }
}

/// Every DDS file with a known compression, dimensions and all its blocks is read.
#[verifier::spinoff_prover]
pub proof fn whole_dds_files_are_read(d: Seq<u8>, format: UtxFormat)
    requires
        128 <= d.len() <= usize::MAX,
        d[0] == 'D' as u8 && d[1] == 'D' as u8 && d[2] == 'S' as u8 && d[3] == ' ' as u8,
        names_compression(d, format),
        0 < number_at(d, 12) < 2147483648,
        0 < number_at(d, 16) < 2147483648,
        128 + blocks_take(number_at(d, 16), number_at(d, 12), format) <= d.len(),
    ensures
        images::dds_content(d) matches Ok((found, width, height, _)) && found == format && width
            == number_at(d, 16) && height == number_at(d, 12),
{
    four_bytes(d, 0);
    four_bytes(d, 12);
    four_bytes(d, 16);
    four_bytes(d, 84);
    assert(d.take(4) =~= d.subrange(0, 4));
    assert(images::four_cc(UtxFormat::Dxt1) == seq![68u8, 88, 84, 49]);
    assert(images::four_cc(UtxFormat::Dxt3) == seq![68u8, 88, 84, 51]);
    assert(images::four_cc(UtxFormat::Dxt5) == seq![68u8, 88, 84, 53]);
}

/// A DDS file that is written has the size of its header, the height, the width and the
/// length of its blocks in it, and the name of the compression; the blocks follow.
#[verifier::spinoff_prover]
pub proof fn dds_files_are_written(pixels: Seq<u8>, width: i32, height: i32, format: UtxFormat)
    requires
        formats::compressed(format),
    ensures
        images::dds_file(pixels, width, height, format) matches Ok(b) ==> {
            let size = blocks_take(width as int, height as int, format);
            &&& width > 0 && height > 0
            &&& b.len() == 128 + size
            &&& b[0] == 'D' as u8 && b[1] == 'D' as u8 && b[2] == 'S' as u8 && b[3] == ' ' as u8
            &&& number_at(b, 4) == 124
            &&& number_at(b, 8) == 0x81007
            &&& number_at(b, 12) == height
            &&& number_at(b, 16) == width
            &&& number_at(b, 20) == size
            &&& number_at(b, 76) == 32
            &&& number_at(b, 80) == 4
            &&& names_compression(b, format)
            &&& number_at(b, 108) == 0x1000
            &&& b.skip(128) == pixels.take(size)
        },
        width > 0 && height > 0 && blocks_take(width as int, height as int, format) <= i32::MAX
            && pixels.len() >= blocks_take(width as int, height as int, format)
            ==> images::dds_file(pixels, width, height, format) is Ok,
{
    if let Ok(b) = images::dds_file(pixels, width, height, format) {
        let size = blocks_take(width as int, height as int, format);
        assert(size >= 0) by (nonlinear_arith)
            requires
                size == ((width + 3) / 4) * ((height + 3) / 4) * if format == UtxFormat::Dxt1 {
                    8int
                } else {
                    16
                },
                width > 0,
                height > 0,
        ;
        assert(b.skip(128) =~= pixels.take(size));
        written_number(b, 4, 124);
        written_number(b, 8, 0x81007);
        written_number(b, 12, height);
        written_number(b, 16, width);
        written_number(b, 20, size as i32);
        written_number(b, 76, 32);
        written_number(b, 80, 4);
        written_number(b, 108, 0x1000);
        assert(b.subrange(4, 8) =~= bytes::i32_bytes(124));
        assert(b.subrange(8, 12) =~= bytes::i32_bytes(0x81007));
        assert(b.subrange(12, 16) =~= bytes::i32_bytes(height));
        assert(b.subrange(16, 20) =~= bytes::i32_bytes(width));
        assert(b.subrange(20, 24) =~= bytes::i32_bytes(size as i32));
        assert(b.subrange(76, 80) =~= bytes::i32_bytes(32));
        assert(b.subrange(80, 84) =~= bytes::i32_bytes(4));
        assert(b.subrange(108, 112) =~= bytes::i32_bytes(0x1000));
        assert(b[84] == images::four_cc(format)[0]);
        assert(b[85] == images::four_cc(format)[1]);
        assert(b[86] == images::four_cc(format)[2]);
        assert(b[87] == images::four_cc(format)[3]);
    }
}

proof fn written_number(d: Seq<u8>, p: int, v: i32)
    requires
        0 <= p,
        p + 4 <= d.len(),
        v >= 0,
    ensures
        d.subrange(p, p + 4) == bytes::i32_bytes(v) ==> number_at(d, p) == v,
{
    four_bytes(d, p);
    let b = bytes::i32_bytes(v);
    assert(b.len() == 4);
    assert(b[0] + 256 * b[1] + 65536 * b[2] + 16777216 * b[3] == v);
}

/// A DDS file can replace a picture if it has its dimensions and its compression, and no
/// other file can.
#[verifier::spinoff_prover]
pub proof fn fitting_dds_files_have_size_and_compression(
    d: Seq<u8>,
    width: i32,
    height: i32,
    format: UtxFormat,
)
    requires
        width > 0,
        height > 0,
    ensures
        images::dds_misfit(d, width, height, format) is Ok == ({
            &&& d.len() >= 128
            &&& d[0] == 'D' as u8 && d[1] == 'D' as u8 && d[2] == 'S' as u8 && d[3] == ' ' as u8
            &&& number_at(d, 12) == height
            &&& number_at(d, 16) == width
            &&& names_compression(d, format)
        }),
{
    if d.len() >= 128 {
        four_bytes(d, 0);
        four_bytes(d, 12);
        four_bytes(d, 16);
        four_bytes(d, 84);
        assert(d.take(4) =~= d.subrange(0, 4));
        assert(images::four_cc(UtxFormat::Dxt1) == seq![68u8, 88, 84, 49]);
        assert(images::four_cc(UtxFormat::Dxt3) == seq![68u8, 88, 84, 51]);
        assert(images::four_cc(UtxFormat::Dxt5) == seq![68u8, 88, 84, 53]);
    }
}

/// A picture that is not compressed is shown with red first: the first and the third byte
/// of each pixel change places, the others stay.
pub proof fn plain_pictures_are_shown_with_red_first(pixels: Seq<u8>, width: i32, height: i32, i: int)
    requires
        width > 0,
        height > 0,
        0 <= i < width * height,
    ensures
        preview::rgba_of(pixels, width, height, UtxFormat::Rgba8) matches Ok(rgba) ==> {
            &&& rgba.len() == 4 * (width * height) <= pixels.len()
            &&& rgba[4 * i] == pixels[4 * i + 2]
            &&& rgba[4 * i + 1] == pixels[4 * i + 1]
            &&& rgba[4 * i + 2] == pixels[4 * i]
            &&& rgba[4 * i + 3] == pixels[4 * i + 3]
        },
{
    assert((4 * i) % 4 == 0);
    assert((4 * i + 1) % 4 == 1);
    assert((4 * i + 2) % 4 == 2);
    assert((4 * i + 3) % 4 == 3);
}

/// A picture can be shown if it is plain or compressed, has dimensions, and all its bytes.
pub proof fn whole_pictures_are_shown(pixels: Seq<u8>, width: i32, height: i32, format: UtxFormat)
    requires
        width > 0,
        height > 0,
        4 * (width * height) <= usize::MAX,
        pixels.len() <= usize::MAX,
    ensures
        format == UtxFormat::Rgba8 && pixels.len() >= 4 * (width * height) ==> preview::rgba_of(
            pixels,
            width,
            height,
            format,
        ) is Ok,
        (format == UtxFormat::Dxt1 || format == UtxFormat::Dxt3 || format == UtxFormat::Dxt5)
            && pixels.len() >= blocks_take(width as int, height as int, format)
            ==> preview::rgba_of(pixels, width, height, format) == dxt::decoded(
            pixels,
            width as int,
            height as int,
            format,
        ) && preview::rgba_of(pixels, width, height, format) is Ok,
        format != UtxFormat::Rgba8 && format != UtxFormat::Dxt1 && format != UtxFormat::Dxt3
            && format != UtxFormat::Dxt5 ==> preview::rgba_of(pixels, width, height, format) is Err,
{
}

/// The byte of each format in a package.
pub proof fn formats_have_their_byte(value: u8)
    ensures
        (formats::format_of(value) == UtxFormat::P8) == (value == 0),
        (formats::format_of(value) == UtxFormat::Rgba7) == (value == 1),
        (formats::format_of(value) == UtxFormat::Rgb16) == (value == 2),
        (formats::format_of(value) == UtxFormat::Dxt1) == (value == 3),
        (formats::format_of(value) == UtxFormat::Rgb8) == (value == 4),
        (formats::format_of(value) == UtxFormat::Rgba8) == (value == 5),
        (formats::format_of(value) == UtxFormat::NoData) == (value == 6),
        (formats::format_of(value) == UtxFormat::Dxt3) == (value == 7),
        (formats::format_of(value) == UtxFormat::Dxt5) == (value == 8),
        (formats::format_of(value) == UtxFormat::L8) == (value == 9),
        (formats::format_of(value) == UtxFormat::G16) == (value == 10),
        (formats::format_of(value) == UtxFormat::Unknown) == (value > 10),
{
}

/// A picture without a format is taken for the first of DXT1, DXT3, four bytes and one
/// byte for each pixel that has its length.
pub proof fn lengths_tell_formats(size: int, width: i32, height: i32)
    requires
        width > 0,
        height > 0,
    ensures
        ({
            let blocks = ((width + 3) / 4) * ((height + 3) / 4);
            let found = images::guessed_format(size, width, height);
            &&& (found == UtxFormat::Dxt1) == (size == blocks * 8)
            &&& (found == UtxFormat::Dxt3) == (size == blocks * 16)
            &&& (found == UtxFormat::Rgba8) == (size == width * height * 4 && size != blocks * 8
                && size != blocks * 16)
            &&& (found == UtxFormat::P8) == (size == width * height && size != width * height * 4
                && size != blocks * 8 && size != blocks * 16)
            &&& (found == UtxFormat::Unknown) == (size != blocks * 8 && size != blocks * 16 && size
                != width * height * 4 && size != width * height)
        }),
{
    let blocks = ((width + 3) / 4) * ((height + 3) / 4);
    assert(blocks > 0) by (nonlinear_arith)
        requires
            blocks == ((width + 3) / 4) * ((height + 3) / 4),
            width > 0,
            height > 0,
    ;
}

} // verus!

use vstd::prelude::*;
use vstd::arithmetic::div_mod::{lemma_fundamental_div_mod, lemma_div_denominator, lemma_mod_bound, lemma_div_pos_is_pos};
use crate::bytes::{u32_at, four_at};
use crate::container::{tiff_magic_at, exif_sig_at, jpeg_tiff_start, png_exif, webp_exif, strip_exif_prefix, isobmff_scan, meta_scan, box_size, jxl_exif, jxl_scan, jxl_signature, box_header_len, jxl_exif_payload, jpeg_orientation, payload_orientation, jpeg_tags, payload_tags};
use crate::exif::all_tags;
use crate::tiff::tiff_orientation;

verus! {

/// Big-endian bytes of `n` (below 2^32).
pub open spec fn be32(n: int) -> Seq<u8> {
    seq![(n / 16777216) as u8, ((n / 65536) % 256) as u8, ((n / 256) % 256) as u8, (n % 256) as u8]
}

/// Little-endian bytes of `n` (below 2^32).
pub open spec fn le32(n: int) -> Seq<u8> {
    seq![(n % 256) as u8, ((n / 256) % 256) as u8, ((n / 65536) % 256) as u8, (n / 16777216) as u8]
}

/// A JPEG file whose only segment is an APP1 "Exif" segment holding `t`.
pub open spec fn jpeg_wrap(t: Seq<u8>) -> Seq<u8> {
    seq![0xFFu8, 0xD8, 0xFF, 0xE1, ((t.len() + 8) / 256) as u8, ((t.len() + 8) % 256) as u8]
        + seq![0x45u8, 0x78, 0x69, 0x66, 0, 0] + t
}

/// A PNG file made of the signature and one eXIf chunk holding `t`.
pub open spec fn png_wrap(t: Seq<u8>) -> Seq<u8> {
    seq![0x89u8, 0x50, 0x4E, 0x47, 0x0D, 0x0A, 0x1A, 0x0A] + be32(t.len() as int) + seq![
        0x65u8,
        0x58,
        0x49,
        0x66,
    ] + t + seq![0u8, 0, 0, 0]
}

/// A WebP file made of the RIFF header and one EXIF chunk holding `t`.
pub open spec fn webp_wrap(t: Seq<u8>) -> Seq<u8> {
    seq![0x52u8, 0x49, 0x46, 0x46] + le32(t.len() as int + 12) + seq![0x57u8, 0x45, 0x42, 0x50] + seq![
        0x45u8,
        0x58,
        0x49,
        0x46,
    ] + le32(t.len() as int) + t
}

/// An ISOBMFF file made of one "meta" box whose body is a zero offset field and `t`.
pub open spec fn isobmff_wrap(t: Seq<u8>) -> Seq<u8> {
    be32(t.len() as int + 16) + seq![0x6Du8, 0x65, 0x74, 0x61] + seq![0u8, 0, 0, 0] + seq![0u8, 0, 0, 0]
        + t
}

/// A JPEG XL container: the signature box, then an "Exif" box of a zero offset and `t`.
pub open spec fn jxl_wrap(t: Seq<u8>) -> Seq<u8> {
    seq![0x00u8, 0x00, 0x00, 0x0C, 0x4A, 0x58, 0x4C, 0x20, 0x0D, 0x0A, 0x87, 0x0A] + be32(
        t.len() as int + 12,
    ) + seq![0x45u8, 0x78, 0x69, 0x66] + seq![0u8, 0, 0, 0] + t
}

proof fn lemma_bytes32(n: int)
    requires
        0 <= n < 0x1_0000_0000,
    ensures
        u32_at(be32(n), 0, false) == n,
        u32_at(le32(n), 0, true) == n,
        0 <= n / 16777216 < 256,
{
    lemma_fundamental_div_mod(n, 256);
    lemma_fundamental_div_mod(n / 256, 256);
    lemma_fundamental_div_mod(n / 65536, 256);
    lemma_div_denominator(n, 256, 256);
    lemma_div_denominator(n / 256, 256, 256);
    lemma_div_denominator(n, 65536, 256);
    lemma_mod_bound(n, 256);
    lemma_mod_bound(n / 256, 256);
    lemma_mod_bound(n / 65536, 256);
    lemma_div_pos_is_pos(n, 256);
    lemma_div_pos_is_pos(n, 65536);
    lemma_div_pos_is_pos(n, 16777216);
    assert(n / 16777216 < 256);
    let b = be32(n);
    assert(b[0] as int == n / 16777216);
    assert(b[1] as int == (n / 65536) % 256);
    assert(b[2] as int == (n / 256) % 256);
    assert(b[3] as int == n % 256);
    let l = le32(n);
    assert(l[3] as int == n / 16777216);
    assert(l[2] as int == (n / 65536) % 256);
    assert(l[1] as int == (n / 256) % 256);
    assert(l[0] as int == n % 256);
}

/// The TIFF structures the round trip speaks of: at least a header long, short
/// enough for every container's length fields, and starting with a byte-order
/// mark and the magic number.
pub open spec fn embeddable(t: Seq<u8>) -> bool {
    8 <= t.len() <= 65000 && tiff_magic_at(t, 0)
}

proof fn lemma_jpeg(t: Seq<u8>)
    requires
        embeddable(t),
    ensures
        jpeg_tiff_start(jpeg_wrap(t)) == Some(12int),
        jpeg_wrap(t).subrange(12, jpeg_wrap(t).len() as int) == t,
{
    let d = jpeg_wrap(t);
    assert(d.len() == 12 + t.len());
    assert(d[2] == 0xFFu8 && d[3] == 0xE1u8);
    assert(exif_sig_at(d, 6));
    assert(d.subrange(12, d.len() as int) =~= t);
}

proof fn lemma_png(t: Seq<u8>)
    requires
        embeddable(t),
    ensures
        png_exif(png_wrap(t)) == Some(t),
{
    let d = png_wrap(t);
    let n = t.len() as int;
    lemma_bytes32(n);
    let b = be32(n);
    assert(d.len() == 20 + n);
    assert(four_at(d, 0, 0x89, 0x50, 0x4E, 0x47));
    assert(d[8] == b[0] && d[9] == b[1] && d[10] == b[2] && d[11] == b[3]);
    assert(u32_at(d, 8, false) == n);
    assert(four_at(d, 12, 0x65, 0x58, 0x49, 0x66));
    assert(d.subrange(16, 16 + n) =~= t);
}

proof fn lemma_webp(t: Seq<u8>)
    requires
        embeddable(t),
    ensures
        webp_exif(webp_wrap(t)) == Some(t),
{
    let d = webp_wrap(t);
    let n = t.len() as int;
    lemma_bytes32(n);
    let l = le32(n);
    assert(d.len() == 20 + n);
    assert(four_at(d, 0, 0x52, 0x49, 0x46, 0x46));
    assert(four_at(d, 8, 0x57, 0x45, 0x42, 0x50));
    assert(four_at(d, 12, 0x45, 0x58, 0x49, 0x46));
    assert(d[16] == l[0] && d[17] == l[1] && d[18] == l[2] && d[19] == l[3]);
    assert(u32_at(d, 16, true) == n);
    let p = d.subrange(20, 20 + n);
    assert(p =~= t);
    assert(p[0] == t[0]);
    assert(!exif_sig_at(p, 0));
    assert(strip_exif_prefix(p) == t);
}

proof fn lemma_isobmff(t: Seq<u8>)
    requires
        embeddable(t),
    ensures
        isobmff_scan(isobmff_wrap(t), 0) == Some(t),
{
    let d = isobmff_wrap(t);
    let n = t.len() as int;
    lemma_bytes32(n + 16);
    let b = be32(n + 16);
    assert(d.len() == 16 + n);
    assert(d[0] == b[0] && d[1] == b[1] && d[2] == b[2] && d[3] == b[3]);
    assert(u32_at(d, 0, false) == n + 16);
    assert(box_size(d, 0) == Some(n + 16));
    assert(four_at(d, 4, 0x6D, 0x65, 0x74, 0x61));
    let m = d.subrange(12, 16 + n);
    assert(m.len() == 4 + n);
    assert(m[4] == t[0] && m[5] == t[1] && m[6] == t[2] && m[7] == t[3]);
    assert(tiff_magic_at(m, 4));
    assert(m.subrange(4, m.len() as int) =~= t);
    assert(meta_scan(m, 0) == Some(t));
}

proof fn lemma_jxl(t: Seq<u8>)
    requires
        embeddable(t),
    ensures
        jxl_exif(jxl_wrap(t)) == Some(t),
{
    let d = jxl_wrap(t);
    let n = t.len() as int;
    lemma_bytes32(n + 12);
    lemma_bytes32(12);
    lemma_bytes32(0);
    let b = be32(n + 12);
    assert(d.len() == 24 + n);
    assert(jxl_signature(d));
    assert(u32_at(d, 0, false) == 12);
    assert(box_size(d, 0) == Some(12int));
    assert(box_header_len(d, 0) == 8);
    assert(!four_at(d, 4, 0x45, 0x78, 0x69, 0x66));
    assert(d[12] == b[0] && d[13] == b[1] && d[14] == b[2] && d[15] == b[3]);
    assert(u32_at(d, 12, false) == n + 12);
    assert(box_size(d, 12) == Some(n + 12));
    assert(box_header_len(d, 12) == 8);
    assert(four_at(d, 16, 0x45, 0x78, 0x69, 0x66));
    let p = d.subrange(20, 24 + n);
    assert(u32_at(p, 0, false) == 0);
    assert(p.subrange(4, p.len() as int) =~= t);
    assert(jxl_exif_payload(p) == Some(t));
    assert(jxl_scan(d, 12) == Some(t));
}

/// One walker, many containers: a TIFF structure embedded in a JPEG APP1 segment,
/// a PNG eXIf chunk, a WebP EXIF chunk, an ISOBMFF (AVIF, HEIC) meta box or a
/// JPEG XL Exif box is found again byte for byte, so every container yields the
/// orientation and the tag listing that the raw TIFF structure holds.
pub proof fn law_one_walker_many_containers(t: Seq<u8>)
    requires
        embeddable(t),
    ensures
        png_exif(png_wrap(t)) == Some(t),
        webp_exif(webp_wrap(t)) == Some(t),
        isobmff_scan(isobmff_wrap(t), 0) == Some(t),
        jxl_exif(jxl_wrap(t)) == Some(t),
        jpeg_orientation(jpeg_wrap(t)) == tiff_orientation(t),
        payload_orientation(png_exif(png_wrap(t))) == tiff_orientation(t),
        payload_orientation(webp_exif(webp_wrap(t))) == tiff_orientation(t),
        payload_orientation(isobmff_scan(isobmff_wrap(t), 0)) == tiff_orientation(t),
        payload_orientation(jxl_exif(jxl_wrap(t))) == tiff_orientation(t),
        jpeg_tags(jpeg_wrap(t)) == all_tags(t),
        payload_tags(png_exif(png_wrap(t))) == all_tags(t),
        payload_tags(webp_exif(webp_wrap(t))) == all_tags(t),
        payload_tags(isobmff_scan(isobmff_wrap(t), 0)) == all_tags(t),
        payload_tags(jxl_exif(jxl_wrap(t))) == all_tags(t),
{
    lemma_jpeg(t);
    lemma_png(t);
    lemma_webp(t);
    lemma_isobmff(t);
    lemma_jxl(t);
}

} // verus!

//! The XMP packet inside a JPEG or PNG file, read and replaced through
//! `img_parts`.
//!
//! A JPEG is seen as its list of segments (marker, contents, entropy), a
//! PNG as its list of chunks (type, contents, CRC).  The packet lives in a
//! JPEG segment that starts with the XMP namespace header, or in a PNG
//! `iTXt` chunk; a segment or chunk that holds `<x:xmpmeta ` also counts.

use vstd::prelude::*;
use vstd::utf8::{decode_utf8, encode_utf8, valid_utf8};
use img_parts::jpeg::{Jpeg, JpegSegment};
use img_parts::png::{Png, PngChunk};
use img_parts::Bytes;
use crate::text::{chars_of, eq_ignoring_ascii_case, equals_ignoring_ascii_case};

verus! {

broadcast use vstd::string::group_string_axioms;

#[verifier::external_type_specification]
#[verifier::external_body]
pub struct ExJpeg(Jpeg);

#[verifier::external_type_specification]
#[verifier::external_body]
pub struct ExPng(Png);

/// A JPEG segment: marker, contents, entropy-coded data after it.
pub type SegmentModel = (u8, Seq<u8>, Seq<u8>);

/// A PNG chunk: type, contents, CRC.
pub type ChunkModel = (Seq<u8>, Seq<u8>, Seq<u8>);

/// The segments that a `Jpeg` holds, in order.
pub uninterp spec fn jpeg_segments(j: Jpeg) -> Seq<SegmentModel>;

/// The segments that `Jpeg::from_bytes` finds in `bytes`, when it accepts
/// them.
pub uninterp spec fn jpeg_decode(bytes: Seq<u8>) -> Option<Seq<SegmentModel>>;

/// The chunks that a `Png` holds, in order.
pub uninterp spec fn png_chunks(p: Png) -> Seq<ChunkModel>;

/// The chunks that `Png::from_bytes` finds in `bytes`, when it accepts
/// them.
pub uninterp spec fn png_decode(bytes: Seq<u8>) -> Option<Seq<ChunkModel>>;

/// The CRC that `PngChunk::new` computes for a chunk.
pub uninterp spec fn png_crc(kind: Seq<u8>, contents: Seq<u8>) -> Seq<u8>;

/// The JPEG markers whose segments carry a two-byte length.
pub open spec fn jpeg_marker_has_length(m: u8) -> bool {
    ||| 0xC0 <= m <= 0xCF
    ||| 0xDA <= m <= 0xDF
    ||| 0xE0 <= m <= 0xEF
    ||| 0xF0 <= m <= 0xFD
    ||| m == 0xFE
}

/// Every segment has a length field that its contents fit.
pub open spec fn jpeg_segments_fit(segs: Seq<SegmentModel>) -> bool {
    forall|i: int| 0 <= i < segs.len() ==> jpeg_marker_has_length((#[trigger] segs[i]).0) && segs[i].1.len() <= 65533
}

/// Every chunk has a four-byte type and CRC, and contents whose length
/// fits in 32 bits.
pub open spec fn png_chunks_fit(chunks: Seq<ChunkModel>) -> bool {
    forall|i: int| 0 <= i < chunks.len() ==> (#[trigger] chunks[i]).0.len() == 4 && chunks[i].2.len() == 4
        && chunks[i].1.len() <= u32::MAX
}

/// The marker that starts a scan (SOS).
pub open spec fn scan_marker() -> u8 {
    0xDAu8
}

/// A JPEG segment as `Jpeg::from_bytes` makes one: a marker with a length,
/// contents that fit it, and entropy-coded data exactly when it starts a
/// scan.
pub open spec fn jpeg_segment_shaped(s: SegmentModel) -> bool {
    &&& jpeg_marker_has_length(s.0)
    &&& s.1.len() <= 65533
    &&& if s.0 == scan_marker() {
        s.2.len() > 0
    } else {
        s.2.len() == 0
    }
}

/// Segments as `Jpeg::from_bytes` gives them: each shaped, and a scan, which
/// holds the rest of the file, only last.
pub open spec fn jpeg_well_placed(segs: Seq<SegmentModel>) -> bool {
    &&& forall|i: int| 0 <= i < segs.len() ==> jpeg_segment_shaped(#[trigger] segs[i])
    &&& forall|i: int| 0 <= i < segs.len() && (#[trigger] segs[i]).0 == scan_marker() ==> i == segs.len() - 1
}

/// The type of the image trailer chunk.
pub open spec fn iend_kind() -> Seq<u8> {
    seq![0x49u8, 0x45u8, 0x4eu8, 0x44u8]
}

/// A PNG chunk as `Png::from_bytes` makes one: four-byte type and CRC,
/// contents whose length fits in 32 bits, and the CRC of its type and
/// contents.
pub open spec fn png_chunk_shaped(c: ChunkModel) -> bool {
    &&& c.0.len() == 4
    &&& c.2.len() == 4
    &&& c.1.len() <= u32::MAX
    &&& c.2 == png_crc(c.0, c.1)
}

/// Chunks as `Png::from_bytes` gives them: each shaped, and the trailer,
/// after which reading stops, only last.
pub open spec fn png_well_placed(chunks: Seq<ChunkModel>) -> bool {
    &&& forall|i: int| 0 <= i < chunks.len() ==> png_chunk_shaped(#[trigger] chunks[i])
    &&& forall|i: int| 0 <= i < chunks.len() && (#[trigger] chunks[i]).0 == iend_kind() ==> i == chunks.len() - 1
}

/// `n` as two bytes, most significant first.
pub open spec fn be16(n: nat) -> Seq<u8> {
    seq![((n / 256) % 256) as u8, (n % 256) as u8]
}

/// `n` as four bytes, most significant first.
pub open spec fn be32(n: nat) -> Seq<u8> {
    seq![((n / 16777216) % 256) as u8, ((n / 65536) % 256) as u8, ((n / 256) % 256) as u8, (n % 256) as u8]
}

/// The bytes of one JPEG segment.
pub open spec fn jpeg_segment_bytes(s: SegmentModel) -> Seq<u8> {
    seq![0xFFu8, s.0] + (if jpeg_marker_has_length(s.0) { be16(s.1.len() + 2) } else { Seq::empty() }) + s.1 + s.2
}

/// The bytes of a list of JPEG segments, one after the other.
pub open spec fn jpeg_segments_bytes(segs: Seq<SegmentModel>) -> Seq<u8>
    decreases segs.len(),
{
    if segs.len() == 0 {
        Seq::empty()
    } else {
        jpeg_segments_bytes(segs.drop_last()) + jpeg_segment_bytes(segs.last())
    }
}

/// The bytes of a JPEG: start-of-image, the segments, and end-of-image
/// unless some segment carries entropy-coded data (which then holds it).
pub open spec fn jpeg_encoding(segs: Seq<SegmentModel>) -> Seq<u8> {
    seq![0xFFu8, 0xD8u8] + jpeg_segments_bytes(segs) + (if exists|i: int| 0 <= i < segs.len() && (#[trigger] segs[i]).2.len() > 0 {
        Seq::empty()
    } else {
        seq![0xFFu8, 0xD9u8]
    })
}

/// The PNG signature.
pub open spec fn png_signature() -> Seq<u8> {
    seq![0x89u8, 0x50u8, 0x4eu8, 0x47u8, 0x0du8, 0x0au8, 0x1au8, 0x0au8]
}

/// The bytes of one PNG chunk.
pub open spec fn png_chunk_bytes(c: ChunkModel) -> Seq<u8> {
    be32(c.1.len()) + c.0 + c.1 + c.2
}

/// The bytes of a list of PNG chunks, one after the other.
pub open spec fn png_chunks_bytes(chunks: Seq<ChunkModel>) -> Seq<u8>
    decreases chunks.len(),
{
    if chunks.len() == 0 {
        Seq::empty()
    } else {
        png_chunks_bytes(chunks.drop_last()) + png_chunk_bytes(chunks.last())
    }
}

/// The bytes of a PNG: the signature, then the chunks.
pub open spec fn png_encoding(chunks: Seq<ChunkModel>) -> Seq<u8> {
    png_signature() + png_chunks_bytes(chunks)
}

/// `Jpeg::from_bytes`.  Claimed: it accepts exactly where
/// [`jpeg_decode`] does, with those segments; each has a marker with a
/// length and at most 65533 bytes of contents (it was read with a
/// two-byte length); only a scan (SOS) gets entropy-coded data, the rest
/// of the file, which is never empty (reading would go on and fail), and
/// reading stops after it, so it comes last ([`jpeg_well_placed`]).
#[verifier::external_body]
fn jpeg_from_bytes(bytes: Vec<u8>) -> (r: Option<Jpeg>)
    ensures
        r matches Some(j) ==> jpeg_decode(bytes@) == Some(jpeg_segments(j)) && jpeg_segments_fit(jpeg_segments(j))
            && jpeg_well_placed(jpeg_segments(j)),
        r is None ==> jpeg_decode(bytes@) is None,
{
    Jpeg::from_bytes(Bytes::from(bytes)).ok()
}

/// `Jpeg::segments().len()`.
#[verifier::external_body]
fn jpeg_segment_count(j: &Jpeg) -> (n: usize)
    ensures
        n == jpeg_segments(*j).len(),
{
    j.segments().len()
}

/// `JpegSegment::contents` of segment `i`, copied.
#[verifier::external_body]
fn jpeg_segment_contents(j: &Jpeg, i: usize) -> (r: Vec<u8>)
    requires
        i < jpeg_segments(*j).len(),
    ensures
        r@ == jpeg_segments(*j)[i as int].1,
{
    j.segments()[i].contents().to_vec()
}

/// `Vec::retain` on `Jpeg::segments_mut`, keeping the segments that hold
/// no XMP.  Claimed: the segments that remain are those, in order.
#[verifier::external_body]
fn jpeg_drop_xmp_segments(j: &mut Jpeg)
    ensures
        jpeg_segments(*final(j)) == jpeg_segments(*old(j)).filter(|s: SegmentModel| !jpeg_holds_xmp(s.1)),
{
    j.segments_mut().retain(|s| !jpeg_contents_hold_xmp(s.contents()));
}

/// `Vec::insert` on `Jpeg::segments_mut` of
/// `JpegSegment::new_with_contents(marker, contents)`.  Claimed: the new
/// segment, with no entropy-coded data, stands at `index`.
#[verifier::external_body]
fn jpeg_insert_segment(j: &mut Jpeg, index: usize, marker: u8, contents: Vec<u8>)
    requires
        index <= jpeg_segments(*old(j)).len(),
    ensures
        jpeg_segments(*final(j)) == jpeg_segments(*old(j)).insert(index as int, (marker, contents@, Seq::<u8>::empty())),
{
    j.segments_mut().insert(index, JpegSegment::new_with_contents(marker, Bytes::from(contents)));
}

/// `Jpeg::encoder().write_to` into a `Vec`, which cannot fail.  Claimed:
/// the bytes are [`jpeg_encoding`] of the segments; encoding panics where
/// a segment's length does not fit its length field, which `requires`
/// leaves out.  Also claimed: `Jpeg::from_bytes` reads these bytes back
/// into the same segments where they are laid out as it gives them
/// ([`jpeg_well_placed`]): it reads each marker, length and contents in
/// turn, takes the rest of the file as the last scan's data, or stops at
/// the end-of-image marker that the encoder then writes.
#[verifier::external_body]
fn jpeg_encode(j: Jpeg) -> (r: Vec<u8>)
    requires
        jpeg_segments_fit(jpeg_segments(j)),
    ensures
        r@ == jpeg_encoding(jpeg_segments(j)),
        jpeg_well_placed(jpeg_segments(j)) ==> jpeg_decode(r@) == Some(jpeg_segments(j)),
{
    let mut out = Vec::new();
    let _ = j.encoder().write_to(&mut out);
    out
}

/// `Png::from_bytes`.  Claimed: it accepts exactly where [`png_decode`]
/// does, with those chunks; each has a four-byte type and CRC and
/// contents read with a four-byte length; it rejects a chunk whose CRC is
/// not the one `PngChunk::new` computes ([`png_crc`]), and it stops after
/// an `IEND` chunk ([`png_well_placed`]).
#[verifier::external_body]
fn png_from_bytes(bytes: Vec<u8>) -> (r: Option<Png>)
    ensures
        r matches Some(p) ==> png_decode(bytes@) == Some(png_chunks(p)) && png_chunks_fit(png_chunks(p))
            && png_well_placed(png_chunks(p)),
        r is None ==> png_decode(bytes@) is None,
{
    Png::from_bytes(Bytes::from(bytes)).ok()
}

/// `Png::chunks().len()`.
#[verifier::external_body]
fn png_chunk_count(p: &Png) -> (n: usize)
    ensures
        n == png_chunks(*p).len(),
{
    p.chunks().len()
}

/// `PngChunk::kind` of chunk `i`, as a vector.
#[verifier::external_body]
fn png_chunk_kind(p: &Png, i: usize) -> (r: Vec<u8>)
    requires
        i < png_chunks(*p).len(),
    ensures
        r@ == png_chunks(*p)[i as int].0,
{
    p.chunks()[i].kind().to_vec()
}

/// `PngChunk::contents` of chunk `i`, copied.
#[verifier::external_body]
fn png_chunk_contents(p: &Png, i: usize) -> (r: Vec<u8>)
    requires
        i < png_chunks(*p).len(),
    ensures
        r@ == png_chunks(*p)[i as int].1,
{
    p.chunks()[i].contents().to_vec()
}

/// `Vec::retain` on `Png::chunks_mut`, keeping the chunks that hold no
/// XMP.  Claimed: the chunks that remain are those, in order.
#[verifier::external_body]
fn png_drop_xmp_chunks(p: &mut Png)
    ensures
        png_chunks(*final(p)) == png_chunks(*old(p)).filter(|c: ChunkModel| !png_holds_xmp(c.0, c.1)),
{
    p.chunks_mut().retain(|c| !png_chunk_holds_xmp(&c.kind(), c.contents()));
}

/// `Vec::insert` on `Png::chunks_mut` of `PngChunk::new(kind, contents)`.
/// Claimed: the new chunk, with the CRC that [`png_crc`] names, stands at
/// `index`.
#[verifier::external_body]
fn png_insert_chunk(p: &mut Png, index: usize, kind: Vec<u8>, contents: Vec<u8>)
    requires
        index <= png_chunks(*old(p)).len(),
        kind@.len() == 4,
    ensures
        png_chunks(*final(p)) == png_chunks(*old(p)).insert(index as int, (kind@, contents@, png_crc(kind@, contents@))),
        png_chunks(*final(p))[index as int].2.len() == 4,
{
    let k = [kind[0], kind[1], kind[2], kind[3]];
    p.chunks_mut().insert(index, PngChunk::new(k, Bytes::from(contents)));
}

/// `Png::encoder().write_to` into a `Vec`, which cannot fail.  Claimed:
/// the bytes are [`png_encoding`] of the chunks; encoding panics where a
/// chunk's length does not fit in 32 bits, which `requires` leaves out.
/// Also claimed: `Png::from_bytes` reads these bytes back into the same
/// chunks where they are laid out as it gives them ([`png_well_placed`]):
/// it reads length, type, contents and CRC in turn, checks the CRC, and
/// stops at the end of the bytes or after `IEND`.
#[verifier::external_body]
fn png_encode(p: Png) -> (r: Vec<u8>)
    requires
        png_chunks_fit(png_chunks(p)),
    ensures
        r@ == png_encoding(png_chunks(p)),
        png_well_placed(png_chunks(p)) ==> png_decode(r@) == Some(png_chunks(p)),
{
    let mut out = Vec::new();
    let _ = p.encoder().write_to(&mut out);
    out
}

/// `std::str::from_utf8`, owned.  Claimed: it decodes exactly the valid
/// UTF-8 byte strings.
#[verifier::external_body]
fn utf8_text(bytes: &[u8]) -> (r: Option<String>)
    ensures
        r matches Some(s) ==> valid_utf8(bytes@) && s@ == decode_utf8(bytes@),
        r is None ==> !valid_utf8(bytes@),
{
    std::str::from_utf8(bytes).ok().map(|s| s.to_string())
}

/// The namespace header that opens a JPEG XMP segment.
pub open spec fn xmp_header() -> Seq<u8> {
    seq![0x68u8, 0x74u8, 0x74u8, 0x70u8, 0x3au8, 0x2fu8, 0x2fu8, 0x6eu8, 0x73u8, 0x2eu8, 0x61u8, 0x64u8, 0x6fu8, 0x62u8, 0x65u8, 0x2eu8, 0x63u8, 0x6fu8, 0x6du8, 0x2fu8, 0x78u8, 0x61u8, 0x70u8, 0x2fu8, 0x31u8, 0x2eu8, 0x30u8, 0x2fu8, 0x00u8]
}

/// The keyword that opens a PNG XMP `iTXt` chunk.
pub open spec fn png_keyword() -> Seq<u8> {
    seq![0x58u8, 0x4du8, 0x4cu8, 0x3au8, 0x63u8, 0x6fu8, 0x6du8, 0x2eu8, 0x61u8, 0x64u8, 0x6fu8, 0x62u8, 0x65u8, 0x2eu8, 0x78u8, 0x6du8, 0x70u8, 0x00u8]
}

/// The opening of an `x:xmpmeta` element.
pub open spec fn xmpmeta_open() -> Seq<u8> {
    seq![0x3cu8, 0x78u8, 0x3au8, 0x78u8, 0x6du8, 0x70u8, 0x6du8, 0x65u8, 0x74u8, 0x61u8, 0x20u8]
}

/// The opening of an `rdf:RDF` element.
pub open spec fn rdf_open() -> Seq<u8> {
    seq![0x3cu8, 0x72u8, 0x64u8, 0x66u8, 0x3au8, 0x52u8, 0x44u8, 0x46u8, 0x20u8]
}

/// The type of an international text chunk.
pub open spec fn itxt_kind() -> Seq<u8> {
    seq![0x69u8, 0x54u8, 0x58u8, 0x74u8]
}

/// The type of an image data chunk.
pub open spec fn idat_kind() -> Seq<u8> {
    seq![0x49u8, 0x44u8, 0x41u8, 0x54u8]
}

/// `c` begins with `p`.
pub open spec fn starts_with(c: Seq<u8>, p: Seq<u8>) -> bool {
    p.len() <= c.len() && c.take(p.len() as int) == p
}

/// The eleven bytes of `c` at `i` open an `x:xmpmeta` or `rdf:RDF`
/// element (the latter, nine bytes long, never fills such a window).
pub open spec fn marker_at(c: Seq<u8>, i: int) -> bool {
    0 <= i && i + 11 <= c.len() && (c.subrange(i, i + 11) == xmpmeta_open() || c.subrange(i, i + 11) == rdf_open())
}

/// `i` is the first position of [`marker_at`] in `c`.
pub open spec fn first_marker_at(c: Seq<u8>, i: int) -> bool {
    marker_at(c, i) && forall|j: int| 0 <= j < i ==> !marker_at(c, j)
}

/// The first position of [`marker_at`] in `c`, if any.
pub open spec fn first_marker(c: Seq<u8>) -> Option<int> {
    if exists|i: int| first_marker_at(c, i) {
        Some(choose|i: int| first_marker_at(c, i))
    } else {
        None
    }
}

/// The contents of a JPEG segment hold XMP.
pub open spec fn jpeg_holds_xmp(c: Seq<u8>) -> bool {
    starts_with(c, xmp_header()) || exists|i: int| marker_at(c, i)
}

/// A PNG chunk holds XMP.
pub open spec fn png_holds_xmp(kind: Seq<u8>, c: Seq<u8>) -> bool {
    kind == itxt_kind() && (starts_with(c, png_keyword()) || exists|i: int| marker_at(c, i))
}

/// The text of `b`, when it is valid UTF-8.
pub open spec fn utf8_of(b: Seq<u8>) -> Option<Seq<char>> {
    if valid_utf8(b) {
        Some(decode_utf8(b))
    } else {
        None
    }
}

/// The XMP packet in the contents of a JPEG segment: what follows the
/// namespace header, or else what follows the first element marker, when
/// it is text.
pub open spec fn jpeg_segment_xmp(c: Seq<u8>) -> Option<Seq<char>> {
    if starts_with(c, xmp_header()) {
        utf8_of(c.skip(xmp_header().len() as int))
    } else {
        match first_marker(c) {
            Some(p) => utf8_of(c.skip(p)),
            None => None,
        }
    }
}

/// The XMP packet in a PNG chunk: in an `iTXt` chunk, what follows the
/// first element marker, when it is text.
pub open spec fn png_chunk_xmp(kind: Seq<u8>, c: Seq<u8>) -> Option<Seq<char>> {
    if kind == itxt_kind() {
        match first_marker(c) {
            Some(p) => utf8_of(c.skip(p)),
            None => None,
        }
    } else {
        None
    }
}

/// The packet of the first segment that has one.
pub open spec fn first_jpeg_xmp(segs: Seq<SegmentModel>) -> Option<Seq<char>>
    decreases segs.len(),
{
    if segs.len() == 0 {
        None
    } else {
        match jpeg_segment_xmp(segs[0].1) {
            Some(t) => Some(t),
            None => first_jpeg_xmp(segs.drop_first()),
        }
    }
}

/// The packet of the first chunk that has one.
pub open spec fn first_png_xmp(chunks: Seq<ChunkModel>) -> Option<Seq<char>>
    decreases chunks.len(),
{
    if chunks.len() == 0 {
        None
    } else {
        match png_chunk_xmp(chunks[0].0, chunks[0].1) {
            Some(t) => Some(t),
            None => first_png_xmp(chunks.drop_first()),
        }
    }
}

/// The XMP packet of a JPEG file, when it reads as one and holds one.
pub open spec fn jpeg_xmp(bytes: Seq<u8>) -> Option<Seq<char>> {
    match jpeg_decode(bytes) {
        Some(segs) => first_jpeg_xmp(segs),
        None => None,
    }
}

/// The XMP packet of a PNG file, when it reads as one and holds one.
pub open spec fn png_xmp(bytes: Seq<u8>) -> Option<Seq<char>> {
    match png_decode(bytes) {
        Some(chunks) => first_png_xmp(chunks),
        None => None,
    }
}

/// The contents of the JPEG segment that carries a packet.
pub open spec fn jpeg_xmp_payload(xml: Seq<char>) -> Seq<u8> {
    xmp_header() + encode_utf8(xml)
}

/// The contents of the PNG `iTXt` chunk that carries a packet: keyword,
/// no compression, no language tag, no translated keyword, then the text.
pub open spec fn png_xmp_payload(xml: Seq<char>) -> Seq<u8> {
    png_keyword() + seq![0u8, 0u8, 0u8, 0u8] + encode_utf8(xml)
}

/// The segments of a JPEG with its packet replaced: every segment that
/// holds XMP is dropped and the new one (APP1) goes second, or first when
/// no segment is left.
pub open spec fn jpeg_with_xmp(segs: Seq<SegmentModel>, payload: Seq<u8>) -> Seq<SegmentModel> {
    let kept = segs.filter(|s: SegmentModel| !jpeg_holds_xmp(s.1));
    kept.insert(if kept.len() == 0 { 0 } else { 1 }, (0xE1u8, payload, Seq::empty()))
}

/// The position of the first `IDAT` chunk, or the number of chunks when
/// there is none.
pub open spec fn idat_position(chunks: Seq<ChunkModel>) -> int
    decreases chunks.len(),
{
    if chunks.len() == 0 {
        0
    } else if chunks[0].0 == idat_kind() {
        0
    } else {
        1 + idat_position(chunks.drop_first())
    }
}

/// The chunks of a PNG with its packet replaced: every chunk that holds
/// XMP is dropped and the new `iTXt` chunk goes before the first `IDAT`.
pub open spec fn png_with_xmp(chunks: Seq<ChunkModel>, payload: Seq<u8>) -> Seq<ChunkModel> {
    let kept = chunks.filter(|c: ChunkModel| !png_holds_xmp(c.0, c.1));
    kept.insert(idat_position(kept), (itxt_kind(), payload, png_crc(itxt_kind(), payload)))
}

/// The segments kept when the packet is replaced are a single scan: the
/// new segment then goes after it, inside the scan's data.
pub open spec fn jpeg_only_scan_kept(segs: Seq<SegmentModel>) -> bool {
    let kept = segs.filter(|s: SegmentModel| !jpeg_holds_xmp(s.1));
    kept.len() == 1 && kept[0].0 == scan_marker()
}

/// The chunks kept when the packet is replaced have no image data and end
/// with the trailer: the new chunk then goes after it, where reading has
/// stopped.
pub open spec fn png_trailer_before_insert(chunks: Seq<ChunkModel>) -> bool {
    let kept = chunks.filter(|c: ChunkModel| !png_holds_xmp(c.0, c.1));
    idat_position(kept) == kept.len() && kept.len() > 0 && kept.last().0 == iend_kind()
}

/// How replacing the packet of a file went.
pub enum XmpWrite {
    /// The new file.
    Written(Vec<u8>),
    /// The file does not read as that kind of image.
    Unreadable,
    /// The packet does not fit in one segment or chunk: the encoder would
    /// panic.
    TooLarge,
}

fn xmp_header_bytes() -> (r: Vec<u8>)
    ensures
        r@ == xmp_header(),
{
    let r = vec![0x68u8, 0x74u8, 0x74u8, 0x70u8, 0x3au8, 0x2fu8, 0x2fu8, 0x6eu8, 0x73u8, 0x2eu8, 0x61u8, 0x64u8, 0x6fu8, 0x62u8, 0x65u8, 0x2eu8, 0x63u8, 0x6fu8, 0x6du8, 0x2fu8, 0x78u8, 0x61u8, 0x70u8, 0x2fu8, 0x31u8, 0x2eu8, 0x30u8, 0x2fu8, 0x00u8];
    assert(r@ =~= xmp_header());
    r
}

fn png_keyword_bytes() -> (r: Vec<u8>)
    ensures
        r@ == png_keyword(),
{
    let r = vec![0x58u8, 0x4du8, 0x4cu8, 0x3au8, 0x63u8, 0x6fu8, 0x6du8, 0x2eu8, 0x61u8, 0x64u8, 0x6fu8, 0x62u8, 0x65u8, 0x2eu8, 0x78u8, 0x6du8, 0x70u8, 0x00u8];
    assert(r@ =~= png_keyword());
    r
}

fn xmpmeta_open_bytes() -> (r: Vec<u8>)
    ensures
        r@ == xmpmeta_open(),
{
    let r = vec![0x3cu8, 0x78u8, 0x3au8, 0x78u8, 0x6du8, 0x70u8, 0x6du8, 0x65u8, 0x74u8, 0x61u8, 0x20u8];
    assert(r@ =~= xmpmeta_open());
    r
}

fn rdf_open_bytes() -> (r: Vec<u8>)
    ensures
        r@ == rdf_open(),
{
    let r = vec![0x3cu8, 0x72u8, 0x64u8, 0x66u8, 0x3au8, 0x52u8, 0x44u8, 0x46u8, 0x20u8];
    assert(r@ =~= rdf_open());
    r
}

fn itxt_kind_bytes() -> (r: Vec<u8>)
    ensures
        r@ == itxt_kind(),
{
    let r = vec![0x69u8, 0x54u8, 0x58u8, 0x74u8];
    assert(r@ =~= itxt_kind());
    r
}

fn idat_kind_bytes() -> (r: Vec<u8>)
    ensures
        r@ == idat_kind(),
{
    let r = vec![0x49u8, 0x44u8, 0x41u8, 0x54u8];
    assert(r@ =~= idat_kind());
    r
}

/// The first marker is unique, so it is what `first_marker` gives.
pub proof fn lemma_first_marker_is(c: Seq<u8>, i: int)
    requires
        first_marker_at(c, i),
    ensures
        first_marker(c) == Some(i),
{
    let k = choose|k: int| first_marker_at(c, k);
    assert(first_marker_at(c, k));
    if k < i {
        assert(!marker_at(c, k));
    } else if k > i {
        assert(!marker_at(c, i));
    }
}

/// Whether `c` begins with `p`.
fn bytes_start_with(c: &[u8], p: &Vec<u8>) -> (b: bool)
    ensures
        b == starts_with(c@, p@),
{
    if p.len() > c.len() {
        return false;
    }
    let mut i: usize = 0;
    while i < p.len()
        invariant
            p@.len() <= c@.len(),
            i <= p@.len(),
            forall|j: int| 0 <= j < i ==> c@[j] == p@[j],
        decreases p@.len() - i,
    {
        if c[i] != p[i] {
            assert(c@.take(p@.len() as int)[i as int] != p@[i as int]);
            return false;
        }
        i = i + 1;
    }
    assert(c@.take(p@.len() as int) =~= p@);
    true
}

/// Whether the bytes of `c` at `i` equal `p`.
fn bytes_equal_at(c: &[u8], i: usize, p: &Vec<u8>) -> (b: bool)
    requires
        i + p@.len() <= c@.len(),
    ensures
        b == (c@.subrange(i as int, i + p@.len()) == p@),
{
    let clen = c.len();
    let mut k: usize = 0;
    while k < p.len()
        invariant
            clen == c@.len(),
            i + p@.len() <= c@.len(),
            k <= p@.len(),
            forall|j: int| 0 <= j < k ==> c@[i + j] == p@[j],
        decreases p@.len() - k,
    {
        if c[i + k] != p[k] {
            assert(c@.subrange(i as int, i + p@.len())[k as int] != p@[k as int]);
            return false;
        }
        k = k + 1;
    }
    assert(c@.subrange(i as int, i + p@.len()) =~= p@);
    true
}

/// The first position of [`marker_at`] in `c`.
fn find_marker(c: &[u8]) -> (r: Option<usize>)
    ensures
        match first_marker(c@) {
            Some(i) => r == Some(i as usize),
            None => r is None,
        },
        r matches Some(i) ==> marker_at(c@, i as int),
        r is None ==> forall|j: int| !marker_at(c@, j),
{
    let meta = xmpmeta_open_bytes();
    let rdf = rdf_open_bytes();
    if c.len() < 11 {
        assert(forall|j: int| !marker_at(c@, j));
        return None;
    }
    let mut i: usize = 0;
    while i <= c.len() - 11
        invariant
            c@.len() >= 11,
            meta@ == xmpmeta_open(),
            rdf@ == rdf_open(),
            forall|j: int| 0 <= j < i ==> !marker_at(c@, j),
        decreases c@.len() - i,
    {
        let hit = bytes_equal_at(c, i, &meta) || (rdf.len() == 11 && bytes_equal_at(c, i, &rdf));
        proof {
            if rdf.len() != 11 {
                assert(c@.subrange(i as int, i + 11).len() != rdf@.len());
            }
        }
        if hit {
            proof {
                lemma_first_marker_is(c@, i as int);
            }
            return Some(i);
        }
        i = i + 1;
    }
    None
}

/// Whether the contents of a JPEG segment hold XMP.
pub fn jpeg_contents_hold_xmp(c: &[u8]) -> (b: bool)
    ensures
        b == jpeg_holds_xmp(c@),
{
    let header = xmp_header_bytes();
    if bytes_start_with(c, &header) {
        return true;
    }
    match find_marker(c) {
        Some(i) => {
            assert(marker_at(c@, i as int));
            true
        },
        None => false,
    }
}

/// Whether a PNG chunk holds XMP.
pub fn png_chunk_holds_xmp(kind: &[u8; 4], c: &[u8]) -> (b: bool)
    ensures
        b == png_holds_xmp(kind@, c@),
{
    let it = itxt_kind_bytes();
    let is_itxt = kind[0] == it[0] && kind[1] == it[1] && kind[2] == it[2] && kind[3] == it[3];
    assert(is_itxt ==> kind@ =~= itxt_kind());
    if !is_itxt {
        return false;
    }
    let keyword = png_keyword_bytes();
    if bytes_start_with(c, &keyword) {
        return true;
    }
    match find_marker(c) {
        Some(i) => {
            assert(marker_at(c@, i as int));
            true
        },
        None => false,
    }
}

fn utf8_from(c: &Vec<u8>, from: usize) -> (r: Option<String>)
    requires
        from <= c@.len(),
    ensures
        match utf8_of(c@.skip(from as int)) {
            Some(t) => r matches Some(s) && s@ == t,
            None => r is None,
        },
{
    let mut rest: Vec<u8> = Vec::new();
    let mut i: usize = from;
    while i < c.len()
        invariant
            from <= i <= c@.len(),
            rest@ == c@.subrange(from as int, i as int),
        decreases c@.len() - i,
    {
        rest.push(c[i]);
        assert(c@.subrange(from as int, i + 1) =~= c@.subrange(from as int, i as int).push(c@[i as int]));
        i = i + 1;
    }
    assert(rest@ =~= c@.skip(from as int));
    utf8_text(rest.as_slice())
}

/// The packet in the contents of a JPEG segment (see [`jpeg_segment_xmp`]).
fn segment_xmp(c: &Vec<u8>) -> (r: Option<String>)
    ensures
        match jpeg_segment_xmp(c@) {
            Some(t) => r matches Some(s) && s@ == t,
            None => r is None,
        },
{
    let header = xmp_header_bytes();
    if bytes_start_with(c.as_slice(), &header) {
        return utf8_from(c, header.len());
    }
    match find_marker(c.as_slice()) {
        Some(p) => utf8_from(c, p),
        None => None,
    }
}

/// The packet in a PNG chunk (see [`png_chunk_xmp`]).
fn chunk_xmp(kind: &Vec<u8>, c: &Vec<u8>) -> (r: Option<String>)
    ensures
        match png_chunk_xmp(kind@, c@) {
            Some(t) => r matches Some(s) && s@ == t,
            None => r is None,
        },
{
    let it = itxt_kind_bytes();
    let is_itxt = kind.len() == 4 && kind[0] == it[0] && kind[1] == it[1] && kind[2] == it[2] && kind[3] == it[3];
    assert(is_itxt ==> kind@ =~= itxt_kind());
    if !is_itxt {
        assert(kind@ != itxt_kind() ==> png_chunk_xmp(kind@, c@) is None);
        assert(kind@.len() == 4 ==> (kind@ == itxt_kind() ==> kind@[0] == it@[0] && kind@[1] == it@[1] && kind@[2] == it@[2] && kind@[3] == it@[3]));
        return None;
    }
    match find_marker(c.as_slice()) {
        Some(p) => utf8_from(c, p),
        None => None,
    }
}

/// The XMP packet of a JPEG file (see [`jpeg_xmp`]).
pub fn xmp_of_jpeg(bytes: Vec<u8>) -> (r: Option<String>)
    ensures
        match jpeg_xmp(bytes@) {
            Some(t) => r matches Some(s) && s@ == t,
            None => r is None,
        },
{
    let ghost b = bytes@;
    let jpeg = match jpeg_from_bytes(bytes) {
        Some(j) => j,
        None => {
            return None;
        },
    };
    let ghost segs = jpeg_segments(jpeg);
    let n = jpeg_segment_count(&jpeg);
    let mut i: usize = 0;
    assert(segs.skip(0) =~= segs);
    while i < n
        invariant
            n == segs.len(),
            segs == jpeg_segments(jpeg),
            jpeg_decode(b) == Some(segs),
            b == bytes@,
            i <= n,
            first_jpeg_xmp(segs) == first_jpeg_xmp(segs.skip(i as int)),
        decreases n - i,
    {
        let c = jpeg_segment_contents(&jpeg, i);
        assert(segs.skip(i as int)[0] == segs[i as int]);
        assert(segs.skip(i as int).drop_first() =~= segs.skip(i + 1));
        match segment_xmp(&c) {
            Some(s) => {
                return Some(s);
            },
            None => {},
        }
        i = i + 1;
    }
    None
}

/// The XMP packet of a PNG file (see [`png_xmp`]).
pub fn xmp_of_png(bytes: Vec<u8>) -> (r: Option<String>)
    ensures
        match png_xmp(bytes@) {
            Some(t) => r matches Some(s) && s@ == t,
            None => r is None,
        },
{
    let ghost b = bytes@;
    let png = match png_from_bytes(bytes) {
        Some(p) => p,
        None => {
            return None;
        },
    };
    let ghost chunks = png_chunks(png);
    let n = png_chunk_count(&png);
    let mut i: usize = 0;
    assert(chunks.skip(0) =~= chunks);
    while i < n
        invariant
            n == chunks.len(),
            chunks == png_chunks(png),
            png_decode(b) == Some(chunks),
            b == bytes@,
            i <= n,
            first_png_xmp(chunks) == first_png_xmp(chunks.skip(i as int)),
        decreases n - i,
    {
        let kind = png_chunk_kind(&png, i);
        let c = png_chunk_contents(&png, i);
        assert(chunks.skip(i as int)[0] == chunks[i as int]);
        assert(chunks.skip(i as int).drop_first() =~= chunks.skip(i + 1));
        match chunk_xmp(&kind, &c) {
            Some(s) => {
                return Some(s);
            },
            None => {},
        }
        i = i + 1;
    }
    None
}

/// The XMP packet of an image file: read as a PNG when `is_png`, else as
/// a JPEG.
pub fn xmp_packet_of_image(bytes: Vec<u8>, is_png: bool) -> (r: Option<String>)
    ensures
        match (if is_png { png_xmp(bytes@) } else { jpeg_xmp(bytes@) }) {
            Some(t) => r matches Some(s) && s@ == t,
            None => r is None,
        },
{
    if is_png {
        xmp_of_png(bytes)
    } else {
        xmp_of_jpeg(bytes)
    }
}

fn text_bytes(xml: &str) -> (r: Vec<u8>)
    ensures
        r@ == encode_utf8(xml@),
{
    vstd::slice::slice_to_vec(xml.as_bytes())
}

fn append_bytes(out: &mut Vec<u8>, s: &Vec<u8>)
    ensures
        final(out)@ == old(out)@ + s@,
{
    let mut i: usize = 0;
    while i < s.len()
        invariant
            i <= s@.len(),
            out@ == old(out)@ + s@.take(i as int),
        decreases s@.len() - i,
    {
        out.push(s[i]);
        assert(s@.take(i + 1) =~= s@.take(i as int).push(s@[i as int]));
        i = i + 1;
    }
    assert(s@.take(s@.len() as int) =~= s@);
}

/// The contents of the JPEG segment that carries `xml` (see
/// [`jpeg_xmp_payload`]).
pub fn jpeg_payload_for(xml: &str) -> (r: Vec<u8>)
    ensures
        r@ == jpeg_xmp_payload(xml@),
{
    let mut r = xmp_header_bytes();
    let t = text_bytes(xml);
    append_bytes(&mut r, &t);
    r
}

/// The contents of the PNG chunk that carries `xml` (see
/// [`png_xmp_payload`]).
pub fn png_payload_for(xml: &str) -> (r: Vec<u8>)
    ensures
        r@ == png_xmp_payload(xml@),
{
    let mut r = png_keyword_bytes();
    r.push(0u8);
    r.push(0u8);
    r.push(0u8);
    r.push(0u8);
    let t = text_bytes(xml);
    append_bytes(&mut r, &t);
    assert(r@ =~= png_xmp_payload(xml@));
    r
}

/// Replaces the XMP packet of a JPEG file with `xml` (see
/// [`jpeg_with_xmp`]): the new file, or why there is none.
pub fn write_xmp_into_jpeg(bytes: Vec<u8>, xml: &str) -> (r: XmpWrite)
    ensures
        match jpeg_decode(bytes@) {
            None => r is Unreadable,
            Some(segs) => if jpeg_xmp_payload(xml@).len() > 65533 {
                r is TooLarge
            } else {
                r matches XmpWrite::Written(out) && out@ == jpeg_encoding(jpeg_with_xmp(segs, jpeg_xmp_payload(xml@)))
            },
        },
        match jpeg_decode(bytes@) {
            Some(segs) => r matches XmpWrite::Written(out) ==> (!jpeg_only_scan_kept(segs) ==> jpeg_decode(out@)
                == Some(jpeg_with_xmp(segs, jpeg_xmp_payload(xml@))) && jpeg_xmp(out@) == Some(xml@)),
            None => true,
        },
{
    let mut jpeg = match jpeg_from_bytes(bytes) {
        Some(j) => j,
        None => {
            return XmpWrite::Unreadable;
        },
    };
    let payload = jpeg_payload_for(xml);
    if payload.len() > 65533 {
        return XmpWrite::TooLarge;
    }
    let ghost segs = jpeg_segments(jpeg);
    let ghost keep = |s: SegmentModel| !jpeg_holds_xmp(s.1);
    jpeg_drop_xmp_segments(&mut jpeg);
    assert(jpeg_segments(jpeg) == segs.filter(keep));
    let n = jpeg_segment_count(&jpeg);
    let index: usize = if n == 0 { 0 } else { 1 };
    let ghost p = payload@;
    jpeg_insert_segment(&mut jpeg, index, 0xE1u8, payload);
    proof {
        let kept = segs.filter(keep);
        let out = jpeg_segments(jpeg);
        assert(out == jpeg_with_xmp(segs, p));
        if !jpeg_only_scan_kept(segs) {
            lemma_jpeg_write_well_placed(segs, p, index as int);
            law_jpeg_packet_read_back(segs, xml@);
        }
        assert forall|i: int| 0 <= i < out.len() implies jpeg_marker_has_length((#[trigger] out[i]).0) && out[i].1.len() <= 65533 by {
            if i < index {
                assert(out[i] == kept[i]);
                segs.lemma_filter_contains_rev(keep, kept[i]);
            } else if i > index {
                assert(out[i] == kept[i - 1]);
                segs.lemma_filter_contains_rev(keep, kept[i - 1]);
            }
        }
    }
    XmpWrite::Written(jpeg_encode(jpeg))
}

fn chunk_is_idat(p: &Png, i: usize) -> (b: bool)
    requires
        i < png_chunks(*p).len(),
    ensures
        b == (png_chunks(*p)[i as int].0 == idat_kind()),
{
    let kind = png_chunk_kind(p, i);
    let idat = idat_kind_bytes();
    if kind.len() == 4 && kind[0] == idat[0] && kind[1] == idat[1] && kind[2] == idat[2] && kind[3] == idat[3] {
        assert(kind@ =~= idat_kind());
        true
    } else {
        assert(kind@ != idat_kind()) by {
            if kind@ == idat_kind() {
                assert(kind@[0] == idat@[0] && kind@[1] == idat@[1] && kind@[2] == idat@[2] && kind@[3] == idat@[3]);
            }
        }
        false
    }
}

/// Replaces the XMP packet of a PNG file with `xml` (see
/// [`png_with_xmp`]): the new file, or why there is none.
pub fn write_xmp_into_png(bytes: Vec<u8>, xml: &str) -> (r: XmpWrite)
    ensures
        match png_decode(bytes@) {
            None => r is Unreadable,
            Some(chunks) => if png_xmp_payload(xml@).len() > u32::MAX {
                r is TooLarge
            } else {
                r matches XmpWrite::Written(out) && out@ == png_encoding(png_with_xmp(chunks, png_xmp_payload(xml@)))
            },
        },
        match png_decode(bytes@) {
            Some(chunks) => r matches XmpWrite::Written(out) ==> (!png_trailer_before_insert(chunks) ==> png_decode(
                out@,
            ) == Some(png_with_xmp(chunks, png_xmp_payload(xml@))) && png_xmp(out@) == png_chunk_xmp(
                itxt_kind(),
                png_xmp_payload(xml@),
            )),
            None => true,
        },
{
    let mut png = match png_from_bytes(bytes) {
        Some(p) => p,
        None => {
            return XmpWrite::Unreadable;
        },
    };
    let payload = png_payload_for(xml);
    if payload.len() > 4294967295 {
        return XmpWrite::TooLarge;
    }
    let ghost chunks = png_chunks(png);
    let ghost keep = |c: ChunkModel| !png_holds_xmp(c.0, c.1);
    png_drop_xmp_chunks(&mut png);
    let ghost kept = png_chunks(png);
    assert(kept == chunks.filter(keep));
    let n = png_chunk_count(&png);
    let mut pos: usize = 0;
    assert(kept.skip(0) =~= kept);
    while pos < n && !chunk_is_idat(&png, pos)
        invariant
            n == kept.len(),
            kept == png_chunks(png),
            pos <= n,
            idat_position(kept) == pos + idat_position(kept.skip(pos as int)),
        decreases n - pos,
    {
        assert(kept.skip(pos as int)[0] == kept[pos as int]);
        assert(kept.skip(pos as int).drop_first() =~= kept.skip(pos + 1));
        pos = pos + 1;
    }
    proof {
        if pos == n {
            assert(kept.skip(pos as int) =~= Seq::<ChunkModel>::empty());
        } else {
            assert(kept.skip(pos as int)[0] == kept[pos as int]);
        }
    }
    assert(idat_position(kept) == pos);
    let ghost p = payload@;
    let kind = itxt_kind_bytes();
    png_insert_chunk(&mut png, pos, kind, payload);
    proof {
        let out = png_chunks(png);
        assert(out == png_with_xmp(chunks, p));
        if !png_trailer_before_insert(chunks) {
            lemma_png_write_well_placed(chunks, p);
            law_png_packet_read_back(chunks, xml@);
        }
        assert forall|i: int| 0 <= i < out.len() implies (#[trigger] out[i]).0.len() == 4 && out[i].2.len() == 4
            && out[i].1.len() <= u32::MAX by {
            if i < pos {
                assert(out[i] == kept[i]);
                chunks.lemma_filter_contains_rev(keep, kept[i]);
            } else if i > pos {
                assert(out[i] == kept[i - 1]);
                chunks.lemma_filter_contains_rev(keep, kept[i - 1]);
            }
        }
    }
    XmpWrite::Written(png_encode(png))
}

/// A PNG file's extension: `png` in any case.  (Comparing the
/// lower-cased extension with `png` gives the same answer.)
pub open spec fn is_png_extension(ext: Seq<char>) -> bool {
    eq_ignoring_ascii_case(ext, seq!['p', 'n', 'g'])
}

/// Whether `ext` is a PNG file's extension.
pub fn is_png_extension_str(ext: &str) -> (b: bool)
    ensures
        b == is_png_extension(ext@),
{
    let e = chars_of(ext);
    let png = vec!['p', 'n', 'g'];
    assert(png@ =~= seq!['p', 'n', 'g']);
    equals_ignoring_ascii_case(&e, &png)
}

/// A segment that holds no XMP yields no packet.
proof fn lemma_plain_segment_has_no_packet(c: Seq<u8>)
    requires
        !jpeg_holds_xmp(c),
    ensures
        jpeg_segment_xmp(c) is None,
{
    if first_marker(c) is Some {
        let p = first_marker(c)->0;
        assert(first_marker_at(c, p));
        assert(marker_at(c, p));
    }
}

/// Law: the packet read back from a JPEG whose packet was replaced with
/// `xml` is `xml`, and only the new segment holds XMP.
pub proof fn law_jpeg_packet_read_back(segs: Seq<SegmentModel>, xml: Seq<char>)
    ensures
        first_jpeg_xmp(jpeg_with_xmp(segs, jpeg_xmp_payload(xml))) == Some(xml),
        jpeg_with_xmp(segs, jpeg_xmp_payload(xml)).filter(|s: SegmentModel| jpeg_holds_xmp(s.1))
            == seq![(0xE1u8, jpeg_xmp_payload(xml), Seq::<u8>::empty())],
{
    broadcast use {
        vstd::utf8::encode_utf8_valid_utf8,
        vstd::utf8::encode_utf8_decode_utf8,
        vstd::seq_lib::group_filter_ensures,
    };

    let payload = jpeg_xmp_payload(xml);
    let keep = |s: SegmentModel| !jpeg_holds_xmp(s.1);
    let holds = |s: SegmentModel| jpeg_holds_xmp(s.1);
    let kept = segs.filter(keep);
    let new_seg = (0xE1u8, payload, Seq::<u8>::empty());
    let out = jpeg_with_xmp(segs, payload);
    assert(payload.take(29) =~= xmp_header());
    assert(payload.skip(29) =~= encode_utf8(xml));
    assert(jpeg_segment_xmp(payload) == Some(xml));
    if kept.len() == 0 {
        assert(out =~= seq![new_seg]);
        assert(out.drop_first() =~= Seq::<SegmentModel>::empty());
        reveal_with_fuel(Seq::filter, 2);
        assert(out.filter(holds) =~= seq![new_seg]);
    } else {
        assert(keep(kept[0]));
        lemma_plain_segment_has_no_packet(kept[0].1);
        assert(out[0] == kept[0]);
        assert(out.drop_first()[0] == new_seg);
        assert(first_jpeg_xmp(out.drop_first()) == Some(xml));
        lemma_filter_none_but(out, 1, new_seg, holds, kept);
    }
}

/// Filtering a list where only position `k` passes leaves that element.
proof fn lemma_filter_none_but(out: Seq<SegmentModel>, k: int, x: SegmentModel, holds: spec_fn(SegmentModel) -> bool, kept: Seq<SegmentModel>)
    requires
        0 <= k <= kept.len(),
        out == kept.insert(k, x),
        holds(x),
        forall|i: int| 0 <= i < kept.len() ==> !holds(#[trigger] kept[i]),
    ensures
        out.filter(holds) == seq![x],
    decreases kept.len(),
{
    reveal(Seq::filter);
    if kept.len() == 0 {
        assert(out =~= seq![x]);
        assert(out.drop_last() =~= Seq::<SegmentModel>::empty());
        assert(out.drop_last().filter(holds) =~= Seq::<SegmentModel>::empty());
    } else if k == kept.len() {
        assert(out.drop_last() =~= kept);
        assert(out.last() == x);
        lemma_filter_all_fail(kept, holds);
        assert(out.filter(holds) =~= seq![x]);
    } else {
        assert(out.drop_last() =~= kept.drop_last().insert(k, x));
        assert(out.last() == kept.last());
        lemma_filter_none_but(out.drop_last(), k, x, holds, kept.drop_last());
    }
}

/// Filtering a list where nothing passes leaves nothing.
proof fn lemma_filter_all_fail(s: Seq<SegmentModel>, holds: spec_fn(SegmentModel) -> bool)
    requires
        forall|i: int| 0 <= i < s.len() ==> !holds(#[trigger] s[i]),
    ensures
        s.filter(holds) == Seq::<SegmentModel>::empty(),
    decreases s.len(),
{
    reveal(Seq::filter);
    if s.len() > 0 {
        lemma_filter_all_fail(s.drop_last(), holds);
        assert(s.filter(holds) =~= Seq::<SegmentModel>::empty());
    }
}

/// A chunk that holds no XMP yields no packet.
proof fn lemma_plain_chunk_has_no_packet(kind: Seq<u8>, c: Seq<u8>)
    requires
        !png_holds_xmp(kind, c),
    ensures
        png_chunk_xmp(kind, c) is None,
{
    if kind == itxt_kind() && first_marker(c) is Some {
        let p = first_marker(c)->0;
        assert(first_marker_at(c, p));
        assert(marker_at(c, p));
    }
}

/// Reading past chunks without packets reaches the inserted one.
proof fn lemma_first_png_xmp_at(kept: Seq<ChunkModel>, k: int, x: ChunkModel)
    requires
        0 <= k <= kept.len(),
        forall|i: int| 0 <= i < kept.len() ==> !png_holds_xmp((#[trigger] kept[i]).0, kept[i].1),
    ensures
        first_png_xmp(kept.insert(k, x)) == png_chunk_xmp(x.0, x.1),
    decreases k,
{
    let out = kept.insert(k, x);
    if k == 0 {
        assert(out[0] == x);
        assert(out.drop_first() =~= kept);
        lemma_plain_chunks_have_no_packet(kept);
    } else {
        assert(out[0] == kept[0]);
        lemma_plain_chunk_has_no_packet(kept[0].0, kept[0].1);
        assert(out.drop_first() =~= kept.drop_first().insert(k - 1, x));
        lemma_first_png_xmp_at(kept.drop_first(), k - 1, x);
    }
}

/// Chunks none of which holds XMP yield no packet.
proof fn lemma_plain_chunks_have_no_packet(chunks: Seq<ChunkModel>)
    requires
        forall|i: int| 0 <= i < chunks.len() ==> !png_holds_xmp((#[trigger] chunks[i]).0, chunks[i].1),
    ensures
        first_png_xmp(chunks) is None,
    decreases chunks.len(),
{
    if chunks.len() > 0 {
        lemma_plain_chunk_has_no_packet(chunks[0].0, chunks[0].1);
        assert forall|i: int| 0 <= i < chunks.drop_first().len() implies !png_holds_xmp(
            (#[trigger] chunks.drop_first()[i]).0,
            chunks.drop_first()[i].1,
        ) by {
            assert(chunks.drop_first()[i] == chunks[i + 1]);
        }
        lemma_plain_chunks_have_no_packet(chunks.drop_first());
    }
}

/// Law: the packet read back from a PNG whose packet was replaced is the
/// one that the new chunk holds.
pub proof fn law_png_packet_read_back(chunks: Seq<ChunkModel>, xml: Seq<char>)
    ensures
        first_png_xmp(png_with_xmp(chunks, png_xmp_payload(xml))) == png_chunk_xmp(itxt_kind(), png_xmp_payload(xml)),
{
    broadcast use vstd::seq_lib::group_filter_ensures;

    let payload = png_xmp_payload(xml);
    let keep = |c: ChunkModel| !png_holds_xmp(c.0, c.1);
    let kept = chunks.filter(keep);
    let pos = idat_position(kept);
    lemma_idat_position_bound(kept);
    lemma_first_png_xmp_at(kept, pos, (itxt_kind(), payload, png_crc(itxt_kind(), payload)));
}

/// The position of the first image data chunk lies within the list.
proof fn lemma_idat_position_bound(chunks: Seq<ChunkModel>)
    ensures
        0 <= idat_position(chunks) <= chunks.len(),
    decreases chunks.len(),
{
    if chunks.len() > 0 && chunks[0].0 != idat_kind() {
        lemma_idat_position_bound(chunks.drop_first());
    }
}


/// No chunk before the first `IDAT` is one; the chunk there, if any, is.
proof fn lemma_idat_position_first(chunks: Seq<ChunkModel>)
    ensures
        forall|j: int| 0 <= j < idat_position(chunks) ==> (#[trigger] chunks[j]).0 != idat_kind(),
        idat_position(chunks) < chunks.len() ==> chunks[idat_position(chunks)].0 == idat_kind(),
    decreases chunks.len(),
{
    if chunks.len() > 0 && chunks[0].0 != idat_kind() {
        let rest = chunks.drop_first();
        lemma_idat_position_first(rest);
        lemma_idat_position_bound(rest);
        assert(idat_position(chunks) == 1 + idat_position(rest));
        if idat_position(rest) < rest.len() {
            assert(chunks[idat_position(chunks)] == rest[idat_position(rest)]);
        }
        assert forall|j: int| 0 <= j < idat_position(chunks) implies (#[trigger] chunks[j]).0 != idat_kind() by {
            if j > 0 {
                assert(chunks[j] == rest[j - 1]);
            }
        }
    }
}

/// Replacing the packet keeps the segments laid out as `Jpeg::from_bytes`
/// gives them, unless only a scan is kept.
proof fn lemma_jpeg_write_well_placed(segs: Seq<SegmentModel>, payload: Seq<u8>, index: int)
    requires
        jpeg_well_placed(segs),
        payload.len() <= 65533,
        !jpeg_only_scan_kept(segs),
        index == (if segs.filter(|s: SegmentModel| !jpeg_holds_xmp(s.1)).len() == 0 { 0int } else { 1int }),
    ensures
        jpeg_well_placed(jpeg_with_xmp(segs, payload)),
{
    broadcast use vstd::seq_lib::group_filter_ensures;

    let keep = |s: SegmentModel| !jpeg_holds_xmp(s.1);
    let kept = segs.filter(keep);
    let new_seg = (0xE1u8, payload, Seq::<u8>::empty());
    let out = jpeg_with_xmp(segs, payload);
    assert(out == kept.insert(index, new_seg));
    assert forall|i: int| 0 <= i < kept.len() implies jpeg_segment_shaped(#[trigger] kept[i]) by {
        segs.lemma_filter_contains_rev(keep, kept[i]);
    }
    lemma_filter_scan_last(segs, keep);
    assert forall|i: int| 0 <= i < out.len() implies jpeg_segment_shaped(#[trigger] out[i]) by {
        if i < index {
            assert(out[i] == kept[i]);
        } else if i > index {
            assert(out[i] == kept[i - 1]);
        }
    }
    assert forall|i: int| 0 <= i < out.len() && (#[trigger] out[i]).0 == scan_marker() implies i == out.len() - 1 by {
        if i < index {
            assert(out[i] == kept[i]);
        } else if i > index {
            assert(out[i] == kept[i - 1]);
        }
    }
}

/// Filtering keeps a scan, if any, last.
proof fn lemma_filter_scan_last(segs: Seq<SegmentModel>, keep: spec_fn(SegmentModel) -> bool)
    requires
        forall|i: int| 0 <= i < segs.len() && (#[trigger] segs[i]).0 == scan_marker() ==> i == segs.len() - 1,
    ensures
        forall|i: int| 0 <= i < segs.filter(keep).len() && (#[trigger] segs.filter(keep)[i]).0 == scan_marker()
            ==> i == segs.filter(keep).len() - 1,
{
    broadcast use vstd::seq_lib::group_filter_ensures;

    reveal(Seq::filter);
    if segs.len() > 0 {
        let front = segs.drop_last();
        let sub = front.filter(keep);
        assert forall|i: int| 0 <= i < sub.len() implies (#[trigger] sub[i]).0 != scan_marker() by {
            front.lemma_filter_contains_rev(keep, sub[i]);
            let k = choose|k: int| 0 <= k < front.len() && front[k] == sub[i];
            assert(segs[k] == front[k]);
        }
    }
}

/// Replacing the packet keeps the chunks laid out as `Png::from_bytes`
/// gives them, unless the trailer comes before the new chunk.
proof fn lemma_png_write_well_placed(chunks: Seq<ChunkModel>, payload: Seq<u8>)
    requires
        png_well_placed(chunks),
        payload.len() <= u32::MAX,
        png_crc(itxt_kind(), payload).len() == 4,
        !png_trailer_before_insert(chunks),
    ensures
        png_well_placed(png_with_xmp(chunks, payload)),
{
    broadcast use vstd::seq_lib::group_filter_ensures;

    let keep = |c: ChunkModel| !png_holds_xmp(c.0, c.1);
    let kept = chunks.filter(keep);
    let pos = idat_position(kept);
    lemma_idat_position_bound(kept);
    let new_chunk = (itxt_kind(), payload, png_crc(itxt_kind(), payload));
    let out = png_with_xmp(chunks, payload);
    assert(out == kept.insert(pos, new_chunk));
    assert forall|i: int| 0 <= i < kept.len() implies png_chunk_shaped(#[trigger] kept[i]) by {
        chunks.lemma_filter_contains_rev(keep, kept[i]);
    }
    lemma_filter_trailer_last(chunks, keep);
    assert(itxt_kind() != iend_kind()) by {
        assert(itxt_kind()[0] != iend_kind()[0]);
    }
    assert forall|i: int| 0 <= i < out.len() implies png_chunk_shaped(#[trigger] out[i]) by {
        if i < pos {
            assert(out[i] == kept[i]);
        } else if i > pos {
            assert(out[i] == kept[i - 1]);
        }
    }
    assert forall|i: int| 0 <= i < out.len() && (#[trigger] out[i]).0 == iend_kind() implies i == out.len() - 1 by {
        if i < pos {
            assert(out[i] == kept[i]);
        } else if i > pos {
            assert(out[i] == kept[i - 1]);
        }
    }
}


/// Filtering keeps the trailer, if any, last.
proof fn lemma_filter_trailer_last(chunks: Seq<ChunkModel>, keep: spec_fn(ChunkModel) -> bool)
    requires
        forall|i: int| 0 <= i < chunks.len() && (#[trigger] chunks[i]).0 == iend_kind() ==> i == chunks.len() - 1,
    ensures
        forall|i: int| 0 <= i < chunks.filter(keep).len() && (#[trigger] chunks.filter(keep)[i]).0 == iend_kind()
            ==> i == chunks.filter(keep).len() - 1,
{
    broadcast use vstd::seq_lib::group_filter_ensures;

    reveal(Seq::filter);
    if chunks.len() > 0 {
        let front = chunks.drop_last();
        let sub = front.filter(keep);
        assert forall|i: int| 0 <= i < sub.len() implies (#[trigger] sub[i]).0 != iend_kind() by {
            front.lemma_filter_contains_rev(keep, sub[i]);
            let k = choose|k: int| 0 <= k < front.len() && front[k] == sub[i];
            assert(chunks[k] == front[k]);
        }
    }
}


/// Law: replacing the packet of a JPEG drops exactly the segments that
/// hold XMP, those whose contents begin with the XMP namespace header or
/// hold an `x:xmpmeta` or `rdf:RDF` element.  Every other segment (the
/// JFIF header, the EXIF block, the scan) stays, in its order, and the
/// new APP1 segment is the one segment added: second, or first when no
/// segment is left.
#[verifier::spinoff_prover]
pub proof fn law_jpeg_keeps_other_segments(segs: Seq<SegmentModel>, payload: Seq<u8>)
    ensures
        ({
            let kept = segs.filter(|s: SegmentModel| !starts_with(s.1, xmp_header()) && !(exists|i: int| marker_at(s.1, i)));
            let at = if kept.len() == 0 { 0int } else { 1int };
            &&& jpeg_with_xmp(segs, payload).len() == kept.len() + 1
            &&& jpeg_with_xmp(segs, payload)[at] == (0xE1u8, payload, Seq::<u8>::empty())
            &&& jpeg_with_xmp(segs, payload).remove(at) == kept
        }),
{
    let keep = |s: SegmentModel| !jpeg_holds_xmp(s.1);
    let plain = |s: SegmentModel| !starts_with(s.1, xmp_header()) && !(exists|i: int| marker_at(s.1, i));
    assert(keep =~= plain);
    let kept = segs.filter(plain);
    let at = if kept.len() == 0 { 0int } else { 1int };
    let new_seg = (0xE1u8, payload, Seq::<u8>::empty());
    assert(jpeg_with_xmp(segs, payload) == kept.insert(at, new_seg));
    assert(kept.insert(at, new_seg).remove(at) =~= kept);
}

/// Law: a segment whose contents neither begin with the XMP namespace
/// header nor hold an `x:xmpmeta` or `rdf:RDF` element is still among the
/// segments after the packet is replaced.
#[verifier::spinoff_prover]
pub proof fn law_jpeg_keeps_plain_segment(segs: Seq<SegmentModel>, payload: Seq<u8>, s: SegmentModel)
    requires
        segs.contains(s),
        !starts_with(s.1, xmp_header()),
        forall|i: int| !marker_at(s.1, i),
    ensures
        jpeg_with_xmp(segs, payload).contains(s),
{
    broadcast use vstd::seq_lib::group_filter_ensures;

    let keep = |t: SegmentModel| !jpeg_holds_xmp(t.1);
    let k = choose|k: int| 0 <= k < segs.len() && segs[k] == s;
    segs.lemma_filter_contains(keep, k);
    let kept = segs.filter(keep);
    let at = if kept.len() == 0 { 0int } else { 1int };
    let out = jpeg_with_xmp(segs, payload);
    let j = choose|j: int| 0 <= j < kept.len() && kept[j] == s;
    if j < at {
        assert(out[j] == s);
    } else {
        assert(out[j + 1] == s);
    }
}

/// Law: a segment whose contents hold no `<` byte and do not begin with
/// `h` (as the namespace header does) holds no packet, and is kept when
/// the packet is replaced.
#[verifier::spinoff_prover]
pub proof fn law_jpeg_keeps_segment_without_markup(segs: Seq<SegmentModel>, payload: Seq<u8>, s: SegmentModel)
    requires
        segs.contains(s),
        s.1.len() == 0 || s.1[0] != 0x68u8,
        !s.1.contains(0x3cu8),
    ensures
        jpeg_with_xmp(segs, payload).contains(s),
{
    if starts_with(s.1, xmp_header()) {
        assert(s.1[0] == xmp_header()[0]);
    }
    assert forall|i: int| !marker_at(s.1, i) by {
        if marker_at(s.1, i) {
            assert(s.1.subrange(i, i + 11)[0] == s.1[i]);
            assert(xmpmeta_open()[0] == 0x3cu8);
        }
    }
    law_jpeg_keeps_plain_segment(segs, payload, s);
}

/// The opening of the APP1 segment that holds a photograph's EXIF block.
pub open spec fn exif_header() -> Seq<u8> {
    seq![0x45u8, 0x78u8, 0x69u8, 0x66u8, 0x00u8, 0x00u8]
}

/// Law: the EXIF segment (contents that begin with `Exif\0\0`) is kept
/// when the packet is replaced, so long as it holds no `x:xmpmeta` or
/// `rdf:RDF` element.
#[verifier::spinoff_prover]
pub proof fn law_jpeg_keeps_exif_segment(segs: Seq<SegmentModel>, payload: Seq<u8>, s: SegmentModel)
    requires
        segs.contains(s),
        starts_with(s.1, exif_header()),
        forall|i: int| !marker_at(s.1, i),
    ensures
        jpeg_with_xmp(segs, payload).contains(s),
{
    assert(s.1[0] == exif_header()[0]);
    if starts_with(s.1, xmp_header()) {
        assert(s.1[0] == xmp_header()[0]);
    }
    law_jpeg_keeps_plain_segment(segs, payload, s);
}

/// Law: replacing the packet of a PNG drops exactly the `iTXt` chunks
/// that hold XMP, those whose contents begin with the XMP keyword or hold
/// an `x:xmpmeta` or `rdf:RDF` element.  Every other chunk stays, in its
/// order, and the new `iTXt` chunk is the one chunk added, just before
/// the first image data chunk that is kept (at the end when none is).
#[verifier::spinoff_prover]
pub proof fn law_png_keeps_other_chunks(chunks: Seq<ChunkModel>, payload: Seq<u8>)
    ensures
        ({
            let kept = chunks.filter(
                |c: ChunkModel| !(c.0 == itxt_kind() && (starts_with(c.1, png_keyword()) || exists|i: int| marker_at(c.1, i))),
            );
            let at = idat_position(kept);
            &&& 0 <= at <= kept.len()
            &&& forall|j: int| 0 <= j < at ==> (#[trigger] kept[j]).0 != idat_kind()
            &&& at < kept.len() ==> kept[at].0 == idat_kind()
            &&& png_with_xmp(chunks, payload).len() == kept.len() + 1
            &&& png_with_xmp(chunks, payload)[at] == (itxt_kind(), payload, png_crc(itxt_kind(), payload))
            &&& png_with_xmp(chunks, payload).remove(at) == kept
        }),
{
    let keep = |c: ChunkModel| !png_holds_xmp(c.0, c.1);
    let plain = |c: ChunkModel| !(c.0 == itxt_kind() && (starts_with(c.1, png_keyword()) || exists|i: int| marker_at(c.1, i)));
    assert(keep =~= plain);
    let kept = chunks.filter(plain);
    let at = idat_position(kept);
    lemma_idat_position_bound(kept);
    lemma_idat_position_first(kept);
    let new_chunk = (itxt_kind(), payload, png_crc(itxt_kind(), payload));
    assert(png_with_xmp(chunks, payload) == kept.insert(at, new_chunk));
    assert(kept.insert(at, new_chunk).remove(at) =~= kept);
}

/// Law: a chunk of any type but `iTXt` (such as `IHDR`, `eXIf` or
/// `IDAT`), and an `iTXt` chunk that neither begins with the XMP keyword
/// nor holds an `x:xmpmeta` or `rdf:RDF` element, is still among the
/// chunks after the packet is replaced.
#[verifier::spinoff_prover]
pub proof fn law_png_keeps_plain_chunk(chunks: Seq<ChunkModel>, payload: Seq<u8>, c: ChunkModel)
    requires
        chunks.contains(c),
        c.0 != itxt_kind() || (!starts_with(c.1, png_keyword()) && forall|i: int| !marker_at(c.1, i)),
    ensures
        png_with_xmp(chunks, payload).contains(c),
{
    broadcast use vstd::seq_lib::group_filter_ensures;

    let keep = |t: ChunkModel| !png_holds_xmp(t.0, t.1);
    let k = choose|k: int| 0 <= k < chunks.len() && chunks[k] == c;
    chunks.lemma_filter_contains(keep, k);
    let kept = chunks.filter(keep);
    let at = idat_position(kept);
    lemma_idat_position_bound(kept);
    let out = png_with_xmp(chunks, payload);
    let j = choose|j: int| 0 <= j < kept.len() && kept[j] == c;
    if j < at {
        assert(out[j] == c);
    } else {
        assert(out[j + 1] == c);
    }
}

} // verus!

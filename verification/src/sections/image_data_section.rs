use vstd::prelude::*;

use crate::psd_channel::PsdChannelCompression;
use crate::sections::file_header_section::PsdVersion;
use crate::sections::{be_u16_at, be_u32_at, byte_at, clamp, PsdCursor};
use crate::PsdDepth;

verus! {

/// Represents a malformed or unsupported image data section.
#[derive(Debug, PartialEq, Eq)]
pub enum ImageDataSectionError {
    /// Raw composites can only be read at 8, 16 and 32 bits per sample.
    UnsupportedDepth,
    /// The compression code is not 0, 1, 2 or 3.
    InvalidCompression { compression: u16 },
    /// ZIP-compressed merged image data cannot be decoded.
    UnsupportedCompression,
}

/// The bytes of one channel of the composite image.
#[derive(Debug, Clone)]
pub enum ChannelBytes {
    /// Uncompressed samples, one byte per pixel.
    RawData(Vec<u8>),
    /// PackBits-compressed scanlines, still to be decoded.
    RleCompressed(Vec<u8>),
}

impl ChannelBytes {
    /// The bytes the channel holds, whatever its kind.
    pub open spec fn spec_bytes(&self) -> Seq<u8> {
        match self {
            ChannelBytes::RawData(v) => v@,
            ChannelBytes::RleCompressed(v) => v@,
        }
    }
}

/// The ImageDataSection comes from the final section in the PSD that contains the pixel
/// data of the final PSD image (the one that comes from combining all of the layers).
///
/// The section starts with a two-byte compression code: 0 for raw data, 1 for RLE
/// (PackBits) compressed scanlines, 2 and 3 for ZIP. Image data is stored in planar
/// order: first all the red data, then all the green data, and so on; each plane is
/// stored in scan-line order, with no pad bytes.
#[derive(Debug)]
pub struct ImageDataSection {
    /// The compression method for the image.
    pub compression: PsdChannelCompression,
    /// The red channel of the final image.
    pub red: ChannelBytes,
    /// The green channel of the final image.
    pub green: Option<ChannelBytes>,
    /// The blue channel of the final image.
    pub blue: Option<ChannelBytes>,
    /// The alpha channel of the final image.
    /// If there is no alpha channel then it is a fully opaque image.
    pub alpha: Option<ChannelBytes>,
}

// ---------------------------------------------------------------------------------
// The meaning of a section, as functions of its bytes.
// ---------------------------------------------------------------------------------

/// The compression code at the start of the section (zero-padded when it is short).
pub open spec fn compression_code(s: Seq<u8>) -> u16 {
    be_u16_at(s, 0) as u16
}

/// The error that a section with these bytes yields, or `None` when it decodes.
pub open spec fn image_data_error(s: Seq<u8>, depth: PsdDepth) -> Option<ImageDataSectionError> {
    let code = compression_code(s);
    if code > 3 {
        Some(ImageDataSectionError::InvalidCompression { compression: code })
    } else if code >= 2 {
        Some(ImageDataSectionError::UnsupportedCompression)
    } else if code == 0 && depth is One {
        Some(ImageDataSectionError::UnsupportedDepth)
    } else {
        None
    }
}

/// The bytes of `s` in `[a, b)`, or nothing when that range does not lie within `s`.
pub open spec fn bytes_in(s: Seq<u8>, a: int, b: int) -> Seq<u8> {
    if 0 <= a <= b <= s.len() {
        s.subrange(a, b)
    } else {
        Seq::empty()
    }
}

/// The planar sample bytes of a raw section: everything after the compression code.
pub open spec fn raw_payload(s: Seq<u8>) -> Seq<u8> {
    if s.len() >= 2 {
        s.skip(2)
    } else {
        Seq::empty()
    }
}

/// The size of one plane of a raw section: the payload split evenly over the channels.
pub open spec fn raw_plane_len(s: Seq<u8>, channel_count: nat) -> int {
    if channel_count == 0 {
        0
    } else {
        raw_payload(s).len() as int / channel_count as int
    }
}

/// Plane `i` of a raw section.
pub open spec fn raw_plane(s: Seq<u8>, channel_count: nat, i: int) -> Seq<u8> {
    let n = raw_plane_len(s, channel_count);
    bytes_in(raw_payload(s), i * n, i * n + n)
}

/// The high byte of every two-byte sample of a 16-bit plane.
pub open spec fn high_bytes(plane: Seq<u8>) -> Seq<u8> {
    Seq::new(plane.len() / 2, |k: int| plane[2 * k])
}

/// The big-endian bits of the `k`-th four-byte sample of a 32-bit plane.
pub open spec fn float_sample_bits(plane: Seq<u8>, k: int) -> u32 {
    be_u32_at(plane, 4 * k) as u32
}

/// `out` is what a raw plane becomes at 8 bits per sample: at 8 bits the plane itself,
/// at 16 bits the high byte of each sample, at 32 bits one value that `to_u8` may give
/// for the bits of each whole four-byte sample.
pub open spec fn raw_samples_ok<F: Fn(u32) -> u8>(
    depth: PsdDepth,
    plane: Seq<u8>,
    out: Seq<u8>,
    to_u8: F,
) -> bool {
    match depth {
        PsdDepth::Sixteen => out == high_bytes(plane),
        PsdDepth::ThirtyTwo => {
            &&& out.len() == plane.len() / 4
            &&& forall|k: int|
                0 <= k < out.len() ==> call_ensures(
                    to_u8,
                    (float_sample_bits(plane, k),),
                    #[trigger] out[k],
                )
        },
        _ => out == plane,
    }
}

/// A raw channel: present exactly when `present`, and then plane `i` brought to 8 bits.
pub open spec fn raw_channel_ok<F: Fn(u32) -> u8>(
    ch: Option<ChannelBytes>,
    present: bool,
    s: Seq<u8>,
    depth: PsdDepth,
    channel_count: nat,
    i: int,
    to_u8: F,
) -> bool {
    &&& ch is Some <==> present
    &&& ch matches Some(c) ==> c is RawData && raw_samples_ok(
        depth,
        raw_plane(s, channel_count, i),
        c.spec_bytes(),
        to_u8,
    )
}

/// Width in bytes of one entry of the RLE scanline byte-count table.
pub open spec fn entry_width(version: PsdVersion) -> int {
    version.spec_rle_scanline_len_bytes()
}

/// The scanline byte count stored at index `p`.
pub open spec fn scanline_entry(s: Seq<u8>, version: PsdVersion, p: int) -> int {
    if version is Two {
        be_u32_at(s, p)
    } else {
        be_u16_at(s, p)
    }
}

/// The sum of `n` consecutive scanline byte counts, the first at index `p`.
pub open spec fn scanline_sum(s: Seq<u8>, version: PsdVersion, p: int, n: nat) -> int
    decreases n,
{
    if n == 0 {
        0
    } else {
        scanline_entry(s, version, p) + scanline_sum(
            s,
            version,
            p + entry_width(version),
            (n - 1) as nat,
        )
    }
}

/// The compressed size of channel `c`: the sum of its `height` scanline byte counts.
pub open spec fn rle_len(s: Seq<u8>, version: PsdVersion, height: nat, c: nat) -> int {
    scanline_sum(s, version, 2 + entry_width(version) * height * c, height)
}

/// Where the compressed channel data begins: after the code and one byte-count entry
/// for each scanline of each of the `channel_count` channels.
pub open spec fn rle_data_start(version: PsdVersion, height: nat, channel_count: nat) -> int {
    2 + entry_width(version) * height * channel_count
}

/// Where the compressed bytes of channel `c` begin: the channels follow one another.
pub open spec fn rle_offset(
    s: Seq<u8>,
    version: PsdVersion,
    height: nat,
    channel_count: nat,
    c: nat,
) -> int
    decreases c,
{
    if c == 0 {
        rle_data_start(version, height, channel_count)
    } else {
        rle_offset(s, version, height, channel_count, (c - 1) as nat) + rle_len(
            s,
            version,
            height,
            (c - 1) as nat,
        )
    }
}

/// The compressed bytes of channel `c`, or nothing when they run past the end of `s`.
pub open spec fn rle_channel(
    s: Seq<u8>,
    version: PsdVersion,
    height: nat,
    channel_count: nat,
    c: nat,
) -> Seq<u8> {
    bytes_in(
        s,
        rle_offset(s, version, height, channel_count, c),
        rle_offset(s, version, height, channel_count, c + 1),
    )
}

/// An RLE channel: present exactly when `present`, and then the bytes of channel `c`.
pub open spec fn rle_channel_ok(
    ch: Option<ChannelBytes>,
    present: bool,
    s: Seq<u8>,
    version: PsdVersion,
    height: nat,
    channel_count: nat,
    c: nat,
) -> bool {
    &&& ch is Some <==> present
    &&& ch matches Some(b) ==> b is RleCompressed && b.spec_bytes() == rle_channel(
        s,
        version,
        height,
        channel_count,
        c,
    )
}

/// What a section that decodes holds.
pub open spec fn section_ok<F: Fn(u32) -> u8>(
    s: Seq<u8>,
    depth: PsdDepth,
    height: nat,
    channel_count: nat,
    version: PsdVersion,
    to_u8: F,
    sec: ImageDataSection,
) -> bool {
    &&& PsdChannelCompression::spec_new(compression_code(s)) == Some(sec.compression)
    &&& if compression_code(s) == 0 {
        &&& raw_channel_ok(Some(sec.red), true, s, depth, channel_count, 0, to_u8)
        &&& raw_channel_ok(sec.green, channel_count >= 2, s, depth, channel_count, 1, to_u8)
        &&& raw_channel_ok(sec.blue, channel_count >= 3, s, depth, channel_count, 2, to_u8)
        &&& raw_channel_ok(sec.alpha, channel_count >= 4, s, depth, channel_count, 3, to_u8)
    } else {
        &&& rle_channel_ok(Some(sec.red), true, s, version, height, channel_count, 0)
        &&& rle_channel_ok(sec.green, channel_count >= 2, s, version, height, channel_count, 1)
        &&& rle_channel_ok(sec.blue, channel_count >= 3, s, version, height, channel_count, 2)
        &&& rle_channel_ok(sec.alpha, channel_count == 4, s, version, height, channel_count, 3)
    }
}

// ---------------------------------------------------------------------------------
// Helpers.
// ---------------------------------------------------------------------------------

/// Every scanline sum is nonnegative and bounded by its length times the largest entry.
pub(crate) proof fn lemma_scanline_sum_bounds(s: Seq<u8>, version: PsdVersion, p: int, n: nat)
    ensures
        0 <= scanline_sum(s, version, p, n) <= n * 4294967295,
    decreases n,
{
    if n > 0 {
        lemma_scanline_sum_bounds(s, version, p + entry_width(version), (n - 1) as nat);
        let m = (n - 1) as nat;
        assert(m * 4294967295 + 4294967295 == n * 4294967295) by (nonlinear_arith)
            requires
                m + 1 == n,
        ;
    }
}

/// The bytes of `s` in `[a, b)`, or nothing when that range does not lie within `s`.
fn slice_or_empty(s: &[u8], a: u128, b: u128) -> (out: &[u8])
    ensures
        out@ == bytes_in(s@, a as int, b as int),
{
    if a <= b && b <= s.len() as u128 {
        &s[a as usize..b as usize]
    } else {
        &s[0..0]
    }
}

/// Read `rows` scanline byte counts from the cursor and add them up.
fn read_scanline_total(
    cursor: &mut PsdCursor,
    version: PsdVersion,
    rows: u32,
    Ghost(p): Ghost<int>,
) -> (total: u64)
    requires
        old(cursor).wf(),
        0 <= p,
        old(cursor).position() == clamp(p, old(cursor).bytes().len() as int),
    ensures
        final(cursor).wf(),
        final(cursor).bytes() == old(cursor).bytes(),
        final(cursor).position() == clamp(
            p + entry_width(version) * rows,
            old(cursor).bytes().len() as int,
        ),
        total == scanline_sum(old(cursor).bytes(), version, p, rows as nat),
{
    let ghost s = cursor.bytes();
    let ghost w = entry_width(version);
    let mut total: u64 = 0;
    let mut i: u32 = 0;
    let ghost mut q = p;
    proof {
        lemma_scanline_sum_bounds(s, version, p, rows as nat);
        assert((rows as int) * 4294967295 <= 4294967295 * 4294967295) by (nonlinear_arith)
            requires
                rows <= 4294967295,
        ;
    }
    while i < rows
        invariant
            i <= rows,
            w == entry_width(version),
            w == 2 || w == 4,
            cursor.wf(),
            cursor.bytes() == s,
            q == p + w * i,
            0 <= q,
            cursor.position() == clamp(q, s.len() as int),
            total + scanline_sum(s, version, q, (rows - i) as nat) == scanline_sum(
                s,
                version,
                p,
                rows as nat,
            ),
            scanline_sum(s, version, p, rows as nat) <= 4294967295 * 4294967295,
        decreases rows - i,
    {
        proof {
            lemma_scanline_sum_bounds(s, version, q + w, (rows - i - 1) as nat);
        }
        let e: u64 = if version.is_psb() {
            cursor.read_u32() as u64
        } else {
            cursor.read_u16() as u64
        };
        assert(e == scanline_entry(s, version, q));
        total = total + e;
        proof {
            assert(w * (i + 1) == w * i + w) by (nonlinear_arith);
            q = q + w;
        }
        i = i + 1;
    }
    total
}

/// Bring a raw plane to 8 bits per sample.
fn convert_plane<F: Fn(u32) -> u8>(plane: &[u8], depth: PsdDepth, to_u8: &F) -> (out: Vec<u8>)
    requires
        forall|x: u32| call_requires(*to_u8, (x,)),
    ensures
        raw_samples_ok(depth, plane@, out@, *to_u8),
{
    match depth {
        PsdDepth::Sixteen => {
            let n = plane.len() / 2;
            let mut out: Vec<u8> = Vec::new();
            let mut k: usize = 0;
            while k < n
                invariant
                    n == plane@.len() / 2,
                    2 * n <= plane.len(),
                    k <= n,
                    out@ == high_bytes(plane@).take(k as int),
                decreases n - k,
            {
                out.push(plane[2 * k]);
                k = k + 1;
                assert(out@ =~= high_bytes(plane@).take(k as int));
            }
            assert(out@ =~= high_bytes(plane@));
            out
        },
        PsdDepth::ThirtyTwo => {
            let n = plane.len() / 4;
            let mut out: Vec<u8> = Vec::new();
            let mut k: usize = 0;
            while k < n
                invariant
                    n == plane@.len() / 4,
                    4 * n <= plane.len(),
                    k <= n,
                    out@.len() == k,
                    forall|x: u32| call_requires(*to_u8, (x,)),
                    forall|j: int|
                        0 <= j < k ==> call_ensures(
                            *to_u8,
                            (float_sample_bits(plane@, j),),
                            #[trigger] out@[j],
                        ),
                decreases n - k,
            {
                let b = 4 * k;
                let bits: u32 = (plane[b] as u32) * 16777216 + (plane[b + 1] as u32) * 65536
                    + (plane[b + 2] as u32) * 256 + (plane[b + 3] as u32);
                assert(bits == float_sample_bits(plane@, k as int));
                let v = to_u8(bits);
                out.push(v);
                k = k + 1;
            }
            out
        },
        _ => vstd::slice::slice_to_vec(plane),
    }
}

/// Plane `i` of a raw payload split into planes of `plane_len` bytes.
fn raw_plane_at(payload: &[u8], plane_len: usize, i: usize) -> (out: &[u8])
    requires
        i <= 3,
    ensures
        out@ == bytes_in(payload@, i * plane_len, i * plane_len + plane_len),
{
    proof {
        assert((i as int) * (plane_len as int) <= 3 * 18446744073709551615) by (nonlinear_arith)
            requires
                i <= 3,
                plane_len <= 18446744073709551615,
        ;
    }
    let start: u128 = (i as u128) * (plane_len as u128);
    slice_or_empty(payload, start, start + plane_len as u128)
}


// ---------------------------------------------------------------------------------
// Laws.
// ---------------------------------------------------------------------------------

/// Whether a section decodes, and which error it gives otherwise, depends only on its
/// compression code: cutting the section short anywhere after the code never changes
/// the outcome.
pub proof fn lemma_truncation_keeps_outcome(s: Seq<u8>, n: int, depth: PsdDepth)
    requires
        2 <= n <= s.len(),
    ensures
        image_data_error(s.take(n), depth) == image_data_error(s, depth),
{
    assert(byte_at(s.take(n), 0) == byte_at(s, 0));
    assert(byte_at(s.take(n), 1) == byte_at(s, 1));
}

/// The outcome by the two-byte big-endian code at the start of the section (a missing
/// byte reads as zero): codes above 3 are invalid and carry the code, ZIP (2 and 3) is
/// refused at every depth, RLE (1) decodes at every depth, and raw data (0) decodes at
/// 8, 16 and 32 bits and is refused at 1 bit.
pub proof fn lemma_outcome_by_compression(s: Seq<u8>, depth: PsdDepth)
    ensures
        ({
            let code = byte_at(s, 0) * 256 + byte_at(s, 1);
            &&& code > 3 ==> image_data_error(s, depth) == Some(
                ImageDataSectionError::InvalidCompression { compression: code as u16 },
            )
            &&& (code == 2 || code == 3) ==> image_data_error(s, depth) == Some(
                ImageDataSectionError::UnsupportedCompression,
            )
            &&& code == 1 ==> image_data_error(s, depth) is None
            &&& code == 0 ==> (image_data_error(s, depth) == if depth is One {
                Some(ImageDataSectionError::UnsupportedDepth)
            } else {
                None
            })
        }),
{
}

/// The raw planes tile the payload: plane `i` of `channel_count` planes is the `i`-th
/// run of `payload / channel_count` bytes, so it always lies within the section.
pub proof fn lemma_raw_planes_tile_payload(s: Seq<u8>, channel_count: nat, i: int)
    requires
        0 <= i < channel_count,
    ensures
        raw_plane(s, channel_count, i).len() == raw_plane_len(s, channel_count),
        raw_plane(s, channel_count, i) == raw_payload(s).subrange(
            i * raw_plane_len(s, channel_count),
            (i + 1) * raw_plane_len(s, channel_count),
        ),
{
    let n = raw_plane_len(s, channel_count);
    let len = raw_payload(s).len() as int;
    assert(0 <= i * n && (i + 1) * n <= len && i * n + n == (i + 1) * n) by (nonlinear_arith)
        requires
            0 <= i < channel_count,
            n == len / channel_count as int,
            0 <= len,
    ;
}

/// The 8-bit size of a raw plane of `plane_len` bytes at `depth`.
pub open spec fn raw_output_len(depth: PsdDepth, plane_len: int) -> int {
    match depth {
        PsdDepth::Sixteen => plane_len / 2,
        PsdDepth::ThirtyTwo => plane_len / 4,
        _ => plane_len,
    }
}

/// Every channel of a decoded raw composite holds the same number of samples, so the
/// channels can be interleaved into one RGBA buffer without running past any of them.
pub proof fn lemma_raw_channels_same_length<F: Fn(u32) -> u8>(
    s: Seq<u8>,
    depth: PsdDepth,
    height: nat,
    channel_count: nat,
    version: PsdVersion,
    to_u8: F,
    sec: ImageDataSection,
)
    requires
        compression_code(s) == 0,
        channel_count >= 1,
        section_ok(s, depth, height, channel_count, version, to_u8, sec),
    ensures
        sec.red.spec_bytes().len() == raw_output_len(depth, raw_plane_len(s, channel_count)),
        sec.green matches Some(g) ==> g.spec_bytes().len() == sec.red.spec_bytes().len(),
        sec.blue matches Some(b) ==> b.spec_bytes().len() == sec.red.spec_bytes().len(),
        sec.alpha matches Some(a) ==> a.spec_bytes().len() == sec.red.spec_bytes().len(),
{
    lemma_raw_planes_tile_payload(s, channel_count, 0);
    if channel_count >= 2 {
        lemma_raw_planes_tile_payload(s, channel_count, 1);
    }
    if channel_count >= 3 {
        lemma_raw_planes_tile_payload(s, channel_count, 2);
    }
    if channel_count >= 4 {
        lemma_raw_planes_tile_payload(s, channel_count, 3);
    }
}

/// The offsets of the RLE channels never decrease.
pub(crate) proof fn lemma_rle_offsets_grow(
    s: Seq<u8>,
    version: PsdVersion,
    height: nat,
    channel_count: nat,
    c: nat,
)
    ensures
        rle_offset(s, version, height, channel_count, c) <= rle_offset(
            s,
            version,
            height,
            channel_count,
            c + 1,
        ),
        0 <= rle_offset(s, version, height, channel_count, c),
    decreases c,
{
    lemma_scanline_sum_bounds(s, version, 2 + entry_width(version) * height * c, height);
    assert(0 <= entry_width(version) * height * channel_count) by (nonlinear_arith)
        requires
            entry_width(version) >= 0,
    ;
    if c > 0 {
        lemma_rle_offsets_grow(s, version, height, channel_count, (c - 1) as nat);
    }
}

/// An RLE channel holds exactly the bytes that its scanline counts add up to, taken
/// from where the previous channel ends, unless those run past the end of the section:
/// then it is empty. It never reads outside the section.
pub proof fn lemma_rle_channel_exact_or_empty(
    s: Seq<u8>,
    version: PsdVersion,
    height: nat,
    channel_count: nat,
    c: nat,
)
    ensures
        rle_offset(s, version, height, channel_count, c + 1) <= s.len() ==> rle_channel(
            s,
            version,
            height,
            channel_count,
            c,
        ) == s.subrange(
            rle_offset(s, version, height, channel_count, c),
            rle_offset(s, version, height, channel_count, c) + rle_len(
                s,
                version,
                height,
                c,
            ),
        ),
        rle_offset(s, version, height, channel_count, c + 1) > s.len() ==> rle_channel(
            s,
            version,
            height,
            channel_count,
            c,
        ) == Seq::<u8>::empty(),
{
    lemma_rle_offsets_grow(s, version, height, channel_count, c);
}

/// Two neighbouring RLE channels that lie within the section follow each other with
/// no gap and no overlap: together they are the bytes from where the first begins to
/// where the second ends.
pub proof fn lemma_rle_adjacent_channels(
    s: Seq<u8>,
    version: PsdVersion,
    height: nat,
    channel_count: nat,
    c: nat,
)
    requires
        rle_offset(s, version, height, channel_count, c + 2) <= s.len(),
    ensures
        rle_channel(s, version, height, channel_count, c) + rle_channel(
            s,
            version,
            height,
            channel_count,
            c + 1,
        ) == s.subrange(
            rle_offset(s, version, height, channel_count, c),
            rle_offset(s, version, height, channel_count, c + 2),
        ),
{
    lemma_rle_offsets_grow(s, version, height, channel_count, c);
    lemma_rle_offsets_grow(s, version, height, channel_count, c + 1);
    let a = rle_offset(s, version, height, channel_count, c);
    let b = rle_offset(s, version, height, channel_count, c + 1);
    let e = rle_offset(s, version, height, channel_count, c + 2);
    assert(s.subrange(a, b) + s.subrange(b, e) =~= s.subrange(a, e));
}

impl ImageDataSection {
    /// Create an ImageDataSection from the bytes in the corresponding section in a PSD
    /// file (including the length marker).
    ///
    /// `to_u8` brings one 32-bit sample, given as the bits of its big-endian float, to
    /// an 8-bit display value; it is used only for raw composites at 32 bits per sample.
    pub fn from_bytes<F: Fn(u32) -> u8>(
        bytes: &[u8],
        depth: PsdDepth,
        psd_height: u32,
        channel_count: u8,
        version: PsdVersion,
        to_u8: F,
    ) -> (res: Result<ImageDataSection, ImageDataSectionError>)
        requires
            forall|x: u32| call_requires(to_u8, (x,)),
        ensures
            match res {
                Ok(sec) => {
                    &&& image_data_error(bytes@, depth) is None
                    &&& section_ok(
                        bytes@,
                        depth,
                        psd_height as nat,
                        channel_count as nat,
                        version,
                        to_u8,
                        sec,
                    )
                },
                Err(e) => image_data_error(bytes@, depth) == Some(e),
            },
    {
        let mut cursor = PsdCursor::new(bytes);
        let cc = channel_count as usize;

        let compression = cursor.read_u16();
        let compression = match PsdChannelCompression::new(compression) {
            Some(c) => c,
            None => {
                return Err(ImageDataSectionError::InvalidCompression { compression });
            },
        };

        match compression {
            PsdChannelCompression::RawData => {
                if let PsdDepth::One = depth {
                    return Err(ImageDataSectionError::UnsupportedDepth);
                }
                // First 2 bytes were the compression marker.

                let len = bytes.len();
                let channel_bytes: &[u8] = if len >= 2 {
                    &bytes[2..len]
                } else {
                    &bytes[0..0]
                };
                assert(channel_bytes@ =~= raw_payload(bytes@));
                let bytes_per_channel: usize = if cc == 0 {
                    0
                } else {
                    channel_bytes.len() / cc
                };

                // Map every channel down to 8 bits per sample.
                let red = ChannelBytes::RawData(
                    convert_plane(raw_plane_at(channel_bytes, bytes_per_channel, 0), depth, &to_u8),
                );
                let green = if cc >= 2 {
                    Some(
                        ChannelBytes::RawData(
                            convert_plane(
                                raw_plane_at(channel_bytes, bytes_per_channel, 1),
                                depth,
                                &to_u8,
                            ),
                        ),
                    )
                } else {
                    None
                };
                let blue = if cc >= 3 {
                    Some(
                        ChannelBytes::RawData(
                            convert_plane(
                                raw_plane_at(channel_bytes, bytes_per_channel, 2),
                                depth,
                                &to_u8,
                            ),
                        ),
                    )
                } else {
                    None
                };
                let alpha = if cc >= 4 {
                    Some(
                        ChannelBytes::RawData(
                            convert_plane(
                                raw_plane_at(channel_bytes, bytes_per_channel, 3),
                                depth,
                                &to_u8,
                            ),
                        ),
                    )
                } else {
                    None
                };
                let sec = ImageDataSection { compression, red, green, blue, alpha };
                assert(raw_channel_ok(Some(sec.red), true, bytes@, depth, channel_count as nat, 0, to_u8));
                assert(raw_channel_ok(sec.green, channel_count >= 2, bytes@, depth, channel_count as nat, 1, to_u8));
                assert(raw_channel_ok(sec.blue, channel_count >= 3, bytes@, depth, channel_count as nat, 2, to_u8));
                assert(raw_channel_ok(sec.alpha, channel_count >= 4, bytes@, depth, channel_count as nat, 3, to_u8));
                Ok(sec)
            },
            // RLE compressed: the image data starts with the byte counts for all the
            // scan lines (rows * channels), each stored in 2 bytes in a PSD and 4 bytes in
            // a PSB. The PackBits compressed data follows, each scan line compressed
            // separately.
            PsdChannelCompression::RleCompressed => {
                let ghost s = bytes@;
                let ghost h = psd_height as nat;
                let w = version.rle_scanline_len_bytes();
                let wh: u64 = (w as u64) * (psd_height as u64);
                proof {
                    assert(wh <= 4 * 4294967295) by (nonlinear_arith)
                        requires
                            wh == (w as int) * (psd_height as int),
                            w <= 4,
                            psd_height <= 4294967295,
                    ;
                    assert((wh as int) * (cc as int) <= 4 * 4294967295 * 255) by (nonlinear_arith)
                        requires
                            wh <= 4 * 4294967295,
                            cc <= 255,
                    ;
                    assert(entry_width(version) * h * 0 == 0) by (nonlinear_arith);
                    assert(entry_width(version) * h * 1 == wh) by (nonlinear_arith)
                        requires wh == (w as int) * (psd_height as int), w == entry_width(version), h == psd_height;
                    assert(entry_width(version) * h * 2 == wh * 2) by (nonlinear_arith)
                        requires wh == (w as int) * (psd_height as int), w == entry_width(version), h == psd_height;
                    assert(entry_width(version) * h * 3 == wh * 3) by (nonlinear_arith)
                        requires wh == (w as int) * (psd_height as int), w == entry_width(version), h == psd_height;
                    assert(entry_width(version) * h * channel_count == wh * cc) by (nonlinear_arith)
                        requires wh == (w as int) * (psd_height as int), w == entry_width(version), h == psd_height, cc == channel_count;
                }

                let red_byte_count = read_scanline_total(
                    &mut cursor,
                    version,
                    psd_height,
                    Ghost(2),
                );
                let green_byte_count = if cc >= 2 {
                    Some(read_scanline_total(&mut cursor, version, psd_height, Ghost(2 + wh)))
                } else {
                    None
                };
                let blue_byte_count = if cc >= 3 {
                    Some(read_scanline_total(&mut cursor, version, psd_height, Ghost(2 + wh * 2)))
                } else {
                    None
                };
                let alpha_byte_count = if cc == 4 {
                    Some(read_scanline_total(&mut cursor, version, psd_height, Ghost(2 + wh * 3)))
                } else {
                    None
                };

                // Channel offsets derive from the header, so a truncated or malformed
                // section can push them past the end: an out-of-range channel degrades
                // to empty.
                let channel_data_start: u128 = 2 + (wh as u128) * (cc as u128);
                let red_start = channel_data_start;
                let red_end = red_start + red_byte_count as u128;
                let red = vstd::slice::slice_to_vec(slice_or_empty(bytes, red_start, red_end));

                let green = match green_byte_count {
                    Some(g) => {
                        let green_end = red_end + g as u128;
                        Some(
                            ChannelBytes::RleCompressed(
                                vstd::slice::slice_to_vec(slice_or_empty(bytes, red_end, green_end)),
                            ),
                        )
                    },
                    None => None,
                };
                let blue = match blue_byte_count {
                    Some(b) => {
                        let g = match green_byte_count {
                            Some(g) => g,
                            None => 0,
                        };
                        let blue_start = red_end + g as u128;
                        let blue_end = blue_start + b as u128;
                        Some(
                            ChannelBytes::RleCompressed(
                                vstd::slice::slice_to_vec(slice_or_empty(bytes, blue_start, blue_end)),
                            ),
                        )
                    },
                    None => None,
                };
                let alpha = match alpha_byte_count {
                    Some(a) => {
                        let g = match green_byte_count {
                            Some(g) => g,
                            None => 0,
                        };
                        let b = match blue_byte_count {
                            Some(b) => b,
                            None => 0,
                        };
                        let alpha_start = red_end + g as u128 + b as u128;
                        let alpha_end = alpha_start + a as u128;
                        Some(
                            ChannelBytes::RleCompressed(
                                vstd::slice::slice_to_vec(slice_or_empty(bytes, alpha_start, alpha_end)),
                            ),
                        )
                    },
                    None => None,
                };
                let sec = ImageDataSection {
                    compression,
                    red: ChannelBytes::RleCompressed(red),
                    green,
                    blue,
                    alpha,
                };
                assert(rle_channel_ok(Some(sec.red), true, s, version, h, channel_count as nat, 0));
                assert(rle_channel_ok(sec.green, channel_count >= 2, s, version, h, channel_count as nat, 1));
                assert(rle_channel_ok(sec.blue, channel_count >= 3, s, version, h, channel_count as nat, 2));
                assert(rle_channel_ok(sec.alpha, channel_count == 4, s, version, h, channel_count as nat, 3));
                Ok(sec)
            },
            // ZIP-compressed composites are not decoded: return a clean error and let the
            // caller fall back.
            _ => Err(ImageDataSectionError::UnsupportedCompression),
        }
    }
}

} // verus!

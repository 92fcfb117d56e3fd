//! What a decoded image data section holds, stated directly over the bytes of the
//! section.

use vstd::prelude::*;

use crate::sections::byte_at;
use crate::sections::file_header_section::PsdVersion;
use crate::sections::image_data_section::{
    compression_code, lemma_raw_planes_tile_payload, lemma_rle_offsets_grow, raw_payload,
    rle_len, rle_offset, scanline_entry, scanline_sum, section_ok, ChannelBytes, ImageDataSection,
};
use crate::PsdDepth;

verus! {

/// Channel `i` of a section: 0 red, 1 green, 2 blue, 3 alpha.
pub open spec fn channel_at(sec: ImageDataSection, i: int) -> Option<ChannelBytes> {
    if i == 0 {
        Some(sec.red)
    } else if i == 1 {
        sec.green
    } else if i == 2 {
        sec.blue
    } else {
        sec.alpha
    }
}

/// The number of bytes each channel of a raw section occupies: the bytes after the
/// two-byte compression code, shared evenly among the `channel_count` channels.
pub open spec fn raw_share(s: Seq<u8>, channel_count: nat) -> int {
    if s.len() >= 2 && channel_count > 0 {
        (s.len() - 2) / channel_count as int
    } else {
        0
    }
}

/// The scanline byte count stored at byte `i`: four big-endian bytes when `wide`, two
/// otherwise, reading zero past the end of the section.
pub open spec fn count_at(s: Seq<u8>, wide: bool, i: int) -> int {
    if wide {
        byte_at(s, i) * 16777216 + byte_at(s, i + 1) * 65536 + byte_at(s, i + 2) * 256
            + byte_at(s, i + 3)
    } else {
        byte_at(s, i) * 256 + byte_at(s, i + 1)
    }
}

/// The sum of the `n` consecutive scanline byte counts that start at byte `p`.
pub open spec fn counts_from(s: Seq<u8>, wide: bool, p: int, n: nat) -> int
    decreases n,
{
    if n == 0 {
        0
    } else {
        count_at(s, wide, p) + counts_from(s, wide, p + if wide { 4int } else { 2int }, (n - 1) as nat)
    }
}

proof fn lemma_counts_match(s: Seq<u8>, version: PsdVersion, p: int, n: nat)
    ensures
        scanline_sum(s, version, p, n) == counts_from(s, version is Two, p, n),
    decreases n,
{
    if n > 0 {
        assert(scanline_entry(s, version, p) == count_at(s, version is Two, p));
        lemma_counts_match(s, version, p + if version is Two { 4int } else { 2int }, (n - 1) as nat);
    }
}

/// Unpacks what a decoded raw section says of channel `i`.
proof fn lemma_raw_channel<F: Fn(u32) -> u8>(
    s: Seq<u8>,
    depth: PsdDepth,
    height: nat,
    channel_count: nat,
    version: PsdVersion,
    to_u8: F,
    sec: ImageDataSection,
    i: int,
)
    requires
        compression_code(s) == 0,
        section_ok(s, depth, height, channel_count, version, to_u8, sec),
        0 <= i < 4,
        i < channel_count,
    ensures
        channel_at(sec, i) is Some,
        channel_at(sec, i).unwrap() is RawData,
        crate::sections::image_data_section::raw_samples_ok(
            depth,
            if s.len() >= 2 {
                s.subrange(
                    2 + i * raw_share(s, channel_count),
                    2 + (i + 1) * raw_share(s, channel_count),
                )
            } else {
                Seq::empty()
            },
            channel_at(sec, i).unwrap().spec_bytes(),
            to_u8,
        ),
        s.len() >= 2 ==> 2 + (i + 1) * raw_share(s, channel_count) <= s.len(),
        s.len() < 2 ==> raw_share(s, channel_count) == 0,
{
    lemma_raw_planes_tile_payload(s, channel_count, i);
    let n = raw_share(s, channel_count);
    assert(0 <= i * n && i * n + n == (i + 1) * n) by (nonlinear_arith)
        requires
            0 <= i,
            0 <= n,
    ;
    if s.len() >= 2 {
        assert(raw_payload(s).subrange(i * n, (i + 1) * n) =~= s.subrange(2 + i * n, 2 + (i + 1) * n));
    } else {
        assert(raw_payload(s).subrange(0, 0) =~= Seq::<u8>::empty());
    }
}

/// A raw section has red always, and green, blue and alpha exactly when the channel
/// count reaches 2, 3 and 4; every channel it has is raw data.
pub proof fn lemma_raw_channel_presence<F: Fn(u32) -> u8>(
    s: Seq<u8>,
    depth: PsdDepth,
    height: nat,
    channel_count: nat,
    version: PsdVersion,
    to_u8: F,
    sec: ImageDataSection,
    i: int,
)
    requires
        compression_code(s) == 0,
        section_ok(s, depth, height, channel_count, version, to_u8, sec),
        0 <= i < 4,
    ensures
        channel_at(sec, i) is Some <==> (i == 0 || i < channel_count),
        channel_at(sec, i) matches Some(ch) ==> ch is RawData,
        sec.compression == crate::psd_channel::PsdChannelCompression::RawData,
{
}

/// At 8 bits per sample, every channel a raw section has (red, green, blue, alpha,
/// as far as `channel_count` reaches) is the `i`-th share of the bytes after the
/// compression code, unchanged.
pub proof fn lemma_raw_eight_bit_channels_are_planes<F: Fn(u32) -> u8>(
    s: Seq<u8>,
    height: nat,
    channel_count: nat,
    version: PsdVersion,
    to_u8: F,
    sec: ImageDataSection,
    i: int,
)
    requires
        compression_code(s) == 0,
        section_ok(s, PsdDepth::Eight, height, channel_count, version, to_u8, sec),
        0 <= i < 4,
        i < channel_count,
    ensures
        channel_at(sec, i) matches Some(ChannelBytes::RawData(v)) && (if s.len() >= 2 {
            v@ == s.subrange(
                2 + i * raw_share(s, channel_count),
                2 + (i + 1) * raw_share(s, channel_count),
            )
        } else {
            v@.len() == 0
        }),
{
    lemma_raw_channel(s, PsdDepth::Eight, height, channel_count, version, to_u8, sec, i);
}

/// At 16 bits per sample, every channel a raw section has, alpha included, holds one
/// byte per two-byte sample of its share of the data: sample `k` is the high byte,
/// byte `2k` of the share.
pub proof fn lemma_raw_sixteen_bit_keeps_high_bytes<F: Fn(u32) -> u8>(
    s: Seq<u8>,
    height: nat,
    channel_count: nat,
    version: PsdVersion,
    to_u8: F,
    sec: ImageDataSection,
    i: int,
)
    requires
        compression_code(s) == 0,
        section_ok(s, PsdDepth::Sixteen, height, channel_count, version, to_u8, sec),
        0 <= i < 4,
        i < channel_count,
    ensures
        channel_at(sec, i) matches Some(ChannelBytes::RawData(v)) && {
            &&& v@.len() == raw_share(s, channel_count) / 2
            &&& forall|k: int|
                0 <= k < v@.len() ==> #[trigger] v@[k] == s[2 + i * raw_share(s, channel_count) + 2
                    * k]
        },
{
    lemma_raw_channel(s, PsdDepth::Sixteen, height, channel_count, version, to_u8, sec, i);
    let n = raw_share(s, channel_count);
    if s.len() >= 2 {
        assert(2 + (i + 1) * n - (2 + i * n) == n) by (nonlinear_arith);
    }
}

/// At 32 bits per sample, every channel a raw section has holds one byte per
/// four-byte sample of its share of the data, and sample `k` is a value the converter
/// gives for the big-endian bits of bytes `4k .. 4k + 4` of the share, in order.
pub proof fn lemma_raw_thirty_two_bit_converts_big_endian_samples<F: Fn(u32) -> u8>(
    s: Seq<u8>,
    height: nat,
    channel_count: nat,
    version: PsdVersion,
    to_u8: F,
    sec: ImageDataSection,
    i: int,
)
    requires
        compression_code(s) == 0,
        section_ok(s, PsdDepth::ThirtyTwo, height, channel_count, version, to_u8, sec),
        0 <= i < 4,
        i < channel_count,
    ensures
        channel_at(sec, i) matches Some(ChannelBytes::RawData(v)) && {
            &&& v@.len() == raw_share(s, channel_count) / 4
            &&& forall|k: int|
                0 <= k < v@.len() ==> call_ensures(
                    to_u8,
                    (({
                        let b = 2 + i * raw_share(s, channel_count) + 4 * k;
                        s[b] * 16777216 + s[b + 1] * 65536 + s[b + 2] * 256 + s[b + 3]
                    }) as u32,),
                    #[trigger] v@[k],
                )
        },
{
    lemma_raw_channel(s, PsdDepth::ThirtyTwo, height, channel_count, version, to_u8, sec, i);
    let n = raw_share(s, channel_count);
    let plane = s.subrange(2 + i * n, 2 + (i + 1) * n);
    let v = channel_at(sec, i).unwrap().spec_bytes();
    if s.len() >= 2 {
        assert(2 + (i + 1) * n - (2 + i * n) == n) by (nonlinear_arith);
    }
    assert forall|k: int| 0 <= k < v.len() implies call_ensures(
        to_u8,
        (({
            let b = 2 + i * n + 4 * k;
            s[b] * 16777216 + s[b + 1] * 65536 + s[b + 2] * 256 + s[b + 3]
        }) as u32,),
        #[trigger] v[k],
    ) by {
        assert(s.len() >= 2);
        assert(plane.len() == n);
        assert(4 * k + 3 < plane.len());
        assert(byte_at(plane, 4 * k) == s[2 + i * n + 4 * k]);
        assert(byte_at(plane, 4 * k + 1) == s[2 + i * n + 4 * k + 1]);
        assert(byte_at(plane, 4 * k + 2) == s[2 + i * n + 4 * k + 2]);
        assert(byte_at(plane, 4 * k + 3) == s[2 + i * n + 4 * k + 3]);
    }
}

/// The layout of a decoded RLE section, over its bytes. After the two-byte code come
/// the scanline byte counts, `height` per channel for each of the `channel_count`
/// channels (four bytes each in a PSB, two in a PSD); then the channels' data, one
/// after another. Channel `c` is as long as the sum of its own `height` counts, which
/// start at byte `2 + width * height * c`, and starts where channel `c - 1` ends; a
/// channel that would run past the end of the section is empty.
pub proof fn lemma_rle_channels_follow_their_counts<F: Fn(u32) -> u8>(
    s: Seq<u8>,
    depth: PsdDepth,
    height: nat,
    channel_count: nat,
    version: PsdVersion,
    to_u8: F,
    sec: ImageDataSection,
    c: int,
)
    requires
        compression_code(s) == 1,
        section_ok(s, depth, height, channel_count, version, to_u8, sec),
        0 <= c < 4,
    ensures
        ({
            let wide = version is Two;
            let width: int = if wide { 4 } else { 2 };
            let len0 = counts_from(s, wide, 2, height);
            let len1 = counts_from(s, wide, 2 + width * height, height);
            let len2 = counts_from(s, wide, 2 + 2 * (width * height), height);
            let len3 = counts_from(s, wide, 2 + 3 * (width * height), height);
            let start = 2 + width * height * channel_count + if c == 0 {
                0
            } else if c == 1 {
                len0
            } else if c == 2 {
                len0 + len1
            } else {
                len0 + len1 + len2
            };
            let len = if c == 0 {
                len0
            } else if c == 1 {
                len1
            } else if c == 2 {
                len2
            } else {
                len3
            };
            &&& channel_at(sec, c) is Some <==> (c == 0 || (c < 3 && c < channel_count) || (c
                == 3 && channel_count == 4))
            &&& channel_at(sec, c) matches Some(ch) ==> {
                &&& ch is RleCompressed
                &&& start + len <= s.len() ==> ch.spec_bytes() == s.subrange(start, start + len)
                &&& start + len > s.len() ==> ch.spec_bytes() == Seq::<u8>::empty()
            }
        }),
        sec.compression == crate::psd_channel::PsdChannelCompression::RleCompressed,
{
    let wide = version is Two;
    let width: int = if wide { 4 } else { 2 };
    assert(width == crate::sections::image_data_section::entry_width(version));
    assert(width * height * 0 == 0 && width * height * 1 == width * height && width * height * 2
        == 2 * (width * height) && width * height * 3 == 3 * (width * height))
        by (nonlinear_arith);
    lemma_counts_match(s, version, 2, height);
    lemma_counts_match(s, version, 2 + width * height, height);
    lemma_counts_match(s, version, 2 + 2 * (width * height), height);
    lemma_counts_match(s, version, 2 + 3 * (width * height), height);
    assert(rle_len(s, version, height, 0) == counts_from(s, wide, 2, height));
    assert(rle_len(s, version, height, 1) == counts_from(s, wide, 2 + width * height, height));
    assert(rle_len(s, version, height, 2) == counts_from(
        s,
        wide,
        2 + 2 * (width * height),
        height,
    ));
    assert(rle_len(s, version, height, 3) == counts_from(
        s,
        wide,
        2 + 3 * (width * height),
        height,
    ));
    lemma_rle_offsets_grow(s, version, height, channel_count, c as nat);
    assert(rle_offset(s, version, height, channel_count, 1) == rle_offset(
        s,
        version,
        height,
        channel_count,
        0,
    ) + rle_len(s, version, height, 0));
    assert(rle_offset(s, version, height, channel_count, 2) == rle_offset(
        s,
        version,
        height,
        channel_count,
        1,
    ) + rle_len(s, version, height, 1));
    assert(rle_offset(s, version, height, channel_count, 3) == rle_offset(
        s,
        version,
        height,
        channel_count,
        2,
    ) + rle_len(s, version, height, 2));
    assert(rle_offset(s, version, height, channel_count, 4) == rle_offset(
        s,
        version,
        height,
        channel_count,
        3,
    ) + rle_len(s, version, height, 3));
}

} // verus!

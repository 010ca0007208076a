use vstd::prelude::*;

use crate::le::{le_bytes_u32, le_bytes_u64, push_le_u32, push_le_u64};
use crate::sample::TrackSample;
use std::io::Write;

verus! {

/// `std::io::Error`, the error type of the compression primitive's write
/// path; opaque here, mapped to `EncodeError` right after the call.
#[verifier::external_type_specification]
#[verifier::external_body]
pub struct ExIoError(std::io::Error);

/// The zlib stream that the compression primitive produces for the given
/// bytes at the default level. The compressor is deterministic: the stream
/// depends on the input bytes alone, so two encodes of one series agree
/// byte for byte.
pub uninterp spec fn zlib_deflate_of(data: Seq<u8>) -> Seq<u8>;

/// Relies on flate2's `write::ZlibEncoder` with `Compression::default()`:
/// a single-shot zlib compression of `data`, a deterministic function of
/// the input bytes alone. Success is owed: the sink is an owned `Vec`,
/// whose `write` cannot fail, and for a fresh compressor driven as here —
/// all data written, then finished once — the pure-Rust backend reports
/// no error status.
#[verifier::external_body]
fn zlib_compress(data: &Vec<u8>) -> (r: Result<Vec<u8>, std::io::Error>)
    ensures
        r is Ok,
        r matches Ok(c) ==> c@ == zlib_deflate_of(data@),
{
    let mut enc = flate2::write::ZlibEncoder::new(Vec::new(), flate2::Compression::default());
    enc.write_all(data)?;
    enc.finish()
}

/// Element tag of a matrix record.
pub const TAG_MATRIX: u32 = 14;
/// Element tag of the 32-bit-word sub-record that carries the array flags.
pub const TAG_UINT32: u32 = 6;
/// Element tag of the 32-bit-word sub-record that carries the dimensions.
pub const TAG_INT32: u32 = 5;
/// Element tag of the double-precision data sub-record.
pub const TAG_DOUBLE: u32 = 9;
/// Element tag of the outer compressed block.
pub const TAG_COMPRESSED: u32 = 15;
/// Flags word of a double-precision numeric array.
pub const ARRAY_FLAGS_DOUBLE: u32 = 6;
/// The description field of the header is padded to this many bytes.
pub const DESCRIPTION_FIELD_LEN: usize = 116;

/// Everything the encoder can report.
#[derive(Clone, Copy, PartialEq, Eq, Structural, Debug)]
pub enum EncodeError {
    /// The header description does not fit its 116-byte field.
    DescriptionTooLong,
    /// The compression primitive reported a failure. The library's zlib
    /// wrapper owes success, so `encode_series` never returns this.
    CompressionFailed,
    /// The compressed block is too long for its 32-bit length field.
    OutputTooLarge,
}

/// The descriptive text that opens every header this encoder writes:
/// the ASCII bytes of `MATLAB 5.0 MAT-file, Platform: PCWIN64`.
pub open spec fn default_description() -> Seq<u8> {
    seq![
        0x4du8, 0x41u8, 0x54u8, 0x4cu8, 0x41u8, 0x42u8, 0x20u8, 0x35u8, 0x2eu8, 0x30u8, 0x20u8,
        0x4du8, 0x41u8, 0x54u8, 0x2du8, 0x66u8, 0x69u8, 0x6cu8, 0x65u8, 0x2cu8, 0x20u8,
        0x50u8, 0x6cu8, 0x61u8, 0x74u8, 0x66u8, 0x6fu8, 0x72u8, 0x6du8, 0x3au8, 0x20u8,
        0x50u8, 0x43u8, 0x57u8, 0x49u8, 0x4eu8, 0x36u8, 0x34u8,
    ]
}

/// The four final header bytes: the version word 0x0100 followed by the
/// endian magic `M`, `I`.
pub open spec fn header_magic() -> Seq<u8> {
    seq![0x00u8, 0x01u8, 0x4du8, 0x49u8]
}

/// The 128-byte header: the description right-padded with spaces to 116
/// bytes, eight reserved zero bytes, and the version/endian magic.
pub open spec fn header_bytes(desc: Seq<u8>) -> Seq<u8>
    recommends
        desc.len() <= DESCRIPTION_FIELD_LEN,
{
    desc + Seq::new((DESCRIPTION_FIELD_LEN - desc.len()) as nat, |i: int| 0x20u8)
        + Seq::new(8, |i: int| 0x00u8) + header_magic()
}

/// The 8-byte compact name sub-record: tag 1, length 3, the three
/// characters `t`, `x`, `t`, one pad byte.
pub open spec fn name_record() -> Seq<u8> {
    seq![0x01u8, 0x00u8, 0x03u8, 0x00u8, 0x74u8, 0x78u8, 0x74u8, 0x00u8]
}

/// All speed values of `s`, in order, each as eight little-endian bytes.
pub open spec fn speed_bytes(s: Seq<TrackSample>) -> Seq<u8>
    decreases s.len(),
{
    if s.len() == 0 {
        Seq::empty()
    } else {
        speed_bytes(s.drop_last()) + le_bytes_u64(s.last().speed_bits)
    }
}

/// All slope values of `s`, in order, each as eight little-endian bytes.
pub open spec fn slope_bytes(s: Seq<TrackSample>) -> Seq<u8>
    decreases s.len(),
{
    if s.len() == 0 {
        Seq::empty()
    } else {
        slope_bytes(s.drop_last()) + le_bytes_u64(s.last().slope_bits)
    }
}

/// The 56 bytes that precede the numeric data inside the matrix record:
/// matrix tag and declared total length, array-flags sub-record, dimensions
/// sub-record, name sub-record, and the data sub-record's tag and length.
pub open spec fn payload_prelude(n: nat) -> Seq<u8>
    recommends
        16 * n + 48 <= u32::MAX,
{
    le_bytes_u32(TAG_MATRIX) + le_bytes_u32((48 + 16 * n) as u32)
        + le_bytes_u32(TAG_UINT32) + le_bytes_u32(8) + le_bytes_u32(ARRAY_FLAGS_DOUBLE)
        + le_bytes_u32(0) + le_bytes_u32(TAG_INT32) + le_bytes_u32(8)
        + le_bytes_u32(n as u32) + le_bytes_u32(2) + name_record()
        + le_bytes_u32(TAG_DOUBLE) + le_bytes_u32((16 * n) as u32)
}

/// The whole matrix record as it stands before compression: the prelude,
/// then all speeds, then all slopes.
pub open spec fn payload_bytes(s: Seq<TrackSample>) -> Seq<u8>
    recommends
        16 * s.len() + 48 <= u32::MAX,
{
    payload_prelude(s.len()) + speed_bytes(s) + slope_bytes(s)
}

/// Builds the 128-byte header for the given description.
/// Fails exactly when the description does not fit its 116-byte field.
pub fn build_header(desc: &Vec<u8>) -> (r: Result<Vec<u8>, EncodeError>)
    ensures
        r is Ok <==> desc@.len() <= DESCRIPTION_FIELD_LEN,
        r matches Ok(h) ==> h@ == header_bytes(desc@),
        r matches Err(e) ==> e == EncodeError::DescriptionTooLong,
{
    if desc.len() > DESCRIPTION_FIELD_LEN {
        return Err(EncodeError::DescriptionTooLong);
    }
    let mut out: Vec<u8> = Vec::new();
    for i in 0..desc.len()
        invariant
            out@ == desc@.take(i as int),
    {
        out.push(desc[i]);
        proof {
            assert(desc@.take(i as int + 1) =~= desc@.take(i as int).push(desc@[i as int]));
        }
    }
    proof {
        assert(desc@.take(desc@.len() as int) =~= desc@);
    }
    let pad = DESCRIPTION_FIELD_LEN - desc.len();
    for j in 0..pad
        invariant
            out@ == desc@ + Seq::new(j as nat, |i: int| 0x20u8),
    {
        out.push(0x20);
        proof {
            assert(Seq::new(j as nat + 1, |i: int| 0x20u8)
                =~= Seq::new(j as nat, |i: int| 0x20u8).push(0x20u8));
            assert(out@ =~= desc@ + Seq::new(j as nat, |i: int| 0x20u8).push(0x20u8));
        }
    }
    for k in 0..8usize
        invariant
            out@ == desc@ + Seq::new((DESCRIPTION_FIELD_LEN - desc@.len()) as nat, |i: int| 0x20u8)
                + Seq::new(k as nat, |i: int| 0x00u8),
    {
        out.push(0x00);
        proof {
            assert(Seq::new(k as nat + 1, |i: int| 0x00u8)
                =~= Seq::new(k as nat, |i: int| 0x00u8).push(0x00u8));
            assert(out@ =~= desc@
                + Seq::new((DESCRIPTION_FIELD_LEN - desc@.len()) as nat, |i: int| 0x20u8)
                + Seq::new(k as nat, |i: int| 0x00u8).push(0x00u8));
        }
    }
    out.push(0x00);
    out.push(0x01);
    out.push(0x4d);
    out.push(0x49);
    proof {
        assert(out@ =~= header_bytes(desc@));
    }
    Ok(out)
}

/// The default description as a vector, ready for `build_header`.
pub fn default_description_text() -> (v: Vec<u8>)
    ensures
        v@ == default_description(),
{
    let mut v: Vec<u8> = Vec::new();
    v.push(0x4d); v.push(0x41); v.push(0x54); v.push(0x4c); v.push(0x41); v.push(0x42);
    v.push(0x20); v.push(0x35); v.push(0x2e); v.push(0x30); v.push(0x20);
    v.push(0x4d); v.push(0x41); v.push(0x54); v.push(0x2d); v.push(0x66); v.push(0x69);
    v.push(0x6c); v.push(0x65); v.push(0x2c); v.push(0x20);
    v.push(0x50); v.push(0x6c); v.push(0x61); v.push(0x74); v.push(0x66); v.push(0x6f);
    v.push(0x72); v.push(0x6d); v.push(0x3a); v.push(0x20);
    v.push(0x50); v.push(0x43); v.push(0x57); v.push(0x49); v.push(0x4e); v.push(0x36);
    v.push(0x34);
    proof {
        assert(v@ =~= default_description());
    }
    v
}

/// Assembles the uncompressed matrix record for the given samples:
/// the fixed prelude with its declared lengths and `(N, 2)` dimensions,
/// then all speed values, then all slope values, column-major.
pub fn build_payload(samples: &Vec<TrackSample>) -> (r: Vec<u8>)
    requires
        16 * samples@.len() + 48 <= u32::MAX,
    ensures
        r@ == payload_bytes(samples@),
{
    let n = samples.len();
    let n32 = n as u32;
    let mut out: Vec<u8> = Vec::new();
    push_le_u32(&mut out, TAG_MATRIX);
    push_le_u32(&mut out, 48 + 16 * n32);
    push_le_u32(&mut out, TAG_UINT32);
    push_le_u32(&mut out, 8);
    push_le_u32(&mut out, ARRAY_FLAGS_DOUBLE);
    push_le_u32(&mut out, 0);
    push_le_u32(&mut out, TAG_INT32);
    push_le_u32(&mut out, 8);
    push_le_u32(&mut out, n32);
    push_le_u32(&mut out, 2);
    out.push(0x01); out.push(0x00); out.push(0x03); out.push(0x00);
    out.push(0x74); out.push(0x78); out.push(0x74); out.push(0x00);
    push_le_u32(&mut out, TAG_DOUBLE);
    push_le_u32(&mut out, 16 * n32);
    proof {
        assert(out@ =~= payload_prelude(samples@.len()));
    }
    let ghost prelude = out@;
    for i in 0..n
        invariant
            n == samples@.len(),
            out@ == prelude + speed_bytes(samples@.take(i as int)),
    {
        push_le_u64(&mut out, samples[i].speed_bits);
        proof {
            let t = samples@.take(i as int + 1);
            assert(t.drop_last() =~= samples@.take(i as int));
            assert(out@ =~= prelude + speed_bytes(t));
        }
    }
    proof {
        assert(samples@.take(n as int) =~= samples@);
    }
    let ghost with_speeds = out@;
    for i in 0..n
        invariant
            n == samples@.len(),
            out@ == with_speeds + slope_bytes(samples@.take(i as int)),
    {
        push_le_u64(&mut out, samples[i].slope_bits);
        proof {
            let t = samples@.take(i as int + 1);
            assert(t.drop_last() =~= samples@.take(i as int));
            assert(out@ =~= with_speeds + slope_bytes(t));
        }
    }
    proof {
        assert(samples@.take(n as int) =~= samples@);
        assert(out@ =~= payload_bytes(samples@));
    }
    out
}

/// The complete file image for the given samples: the 128-byte default
/// header, then the compressed-block tag, the compressed block's byte
/// length, and the zlib stream of the matrix record.
pub open spec fn container_bytes(s: Seq<TrackSample>) -> Seq<u8>
    recommends
        16 * s.len() + 48 <= u32::MAX,
        zlib_deflate_of(payload_bytes(s)).len() <= u32::MAX,
{
    header_bytes(default_description()) + le_bytes_u32(TAG_COMPRESSED)
        + le_bytes_u32(zlib_deflate_of(payload_bytes(s)).len() as u32)
        + zlib_deflate_of(payload_bytes(s))
}

/// Frames one compressed block after a header: tag 15, the block's byte
/// length as a 32-bit little-endian word, then the block itself. Fails
/// exactly when the block is too long for the length field.
pub fn assemble_container(header: Vec<u8>, compressed: Vec<u8>) -> (r: Result<Vec<u8>, EncodeError>)
    ensures
        r is Ok <==> compressed@.len() <= u32::MAX,
        r matches Ok(b) ==> b@ == header@ + le_bytes_u32(TAG_COMPRESSED)
            + le_bytes_u32(compressed@.len() as u32) + compressed@,
        r matches Err(e) ==> e == EncodeError::OutputTooLarge,
{
    if compressed.len() as u64 > u32::MAX as u64 {
        return Err(EncodeError::OutputTooLarge);
    }
    let mut out = header;
    let mut block = compressed;
    push_le_u32(&mut out, TAG_COMPRESSED);
    push_le_u32(&mut out, block.len() as u32);
    out.append(&mut block);
    Ok(out)
}

/// Encodes the sample series as one container file image: the fixed header,
/// then the zlib-compressed matrix record behind a tag-15 block. The result
/// is `Ok`, and exactly `container_bytes` of the series, unless the
/// compressed block overflows its 32-bit length field, the one way an
/// encode can fail.
pub fn encode_series(samples: &Vec<TrackSample>) -> (r: Result<Vec<u8>, EncodeError>)
    requires
        16 * samples@.len() + 48 <= u32::MAX,
    ensures
        r is Ok <==> zlib_deflate_of(payload_bytes(samples@)).len() <= u32::MAX,
        r matches Ok(b) ==> b@ == container_bytes(samples@),
        r matches Err(e) ==> e == EncodeError::OutputTooLarge,
{
    let payload = build_payload(samples);
    let compressed = match zlib_compress(&payload) {
        Ok(c) => c,
        Err(_) => {
            // The wrapper owes success, so this arm is unreachable.
            proof {
                assert(false);
            }
            return Err(EncodeError::CompressionFailed);
        },
    };
    let desc = default_description_text();
    let header = match build_header(&desc) {
        Ok(h) => h,
        Err(e) => {
            // The default description fits its 116-byte field, so this arm
            // is unreachable.
            proof {
                assert(false);
            }
            return Err(e);
        },
    };
    match assemble_container(header, compressed) {
        Ok(b) => {
            proof {
                assert(b@ =~= container_bytes(samples@));
            }
            Ok(b)
        },
        Err(e) => Err(e),
    }
}

proof fn lemma_speed_bytes_len(s: Seq<TrackSample>)
    ensures
        speed_bytes(s).len() == 8 * s.len(),
    decreases s.len(),
{
    if s.len() > 0 {
        lemma_speed_bytes_len(s.drop_last());
    }
}

proof fn lemma_slope_bytes_len(s: Seq<TrackSample>)
    ensures
        slope_bytes(s).len() == 8 * s.len(),
    decreases s.len(),
{
    if s.len() > 0 {
        lemma_slope_bytes_len(s.drop_last());
    }
}

proof fn lemma_speed_bytes_at(s: Seq<TrackSample>, i: int)
    requires
        0 <= i < s.len(),
    ensures
        speed_bytes(s).subrange(8 * i, 8 * i + 8) == le_bytes_u64(s[i].speed_bits),
    decreases s.len(),
{
    lemma_speed_bytes_len(s);
    lemma_speed_bytes_len(s.drop_last());
    if i == s.len() - 1 {
        assert(speed_bytes(s).subrange(8 * i, 8 * i + 8) =~= le_bytes_u64(s.last().speed_bits));
    } else {
        lemma_speed_bytes_at(s.drop_last(), i);
        assert(speed_bytes(s).subrange(8 * i, 8 * i + 8)
            =~= speed_bytes(s.drop_last()).subrange(8 * i, 8 * i + 8));
    }
}

proof fn lemma_slope_bytes_at(s: Seq<TrackSample>, i: int)
    requires
        0 <= i < s.len(),
    ensures
        slope_bytes(s).subrange(8 * i, 8 * i + 8) == le_bytes_u64(s[i].slope_bits),
    decreases s.len(),
{
    lemma_slope_bytes_len(s);
    lemma_slope_bytes_len(s.drop_last());
    if i == s.len() - 1 {
        assert(slope_bytes(s).subrange(8 * i, 8 * i + 8) =~= le_bytes_u64(s.last().slope_bits));
    } else {
        lemma_slope_bytes_at(s.drop_last(), i);
        assert(slope_bytes(s).subrange(8 * i, 8 * i + 8)
            =~= slope_bytes(s.drop_last()).subrange(8 * i, 8 * i + 8));
    }
}

/// The header is 128 bytes for every description that fits, its four final
/// bytes are the version word `00 01` and the endian magic `M`, `I`, the
/// eight bytes before them are reserved zeros, and the description sits at
/// the front, right-padded with spaces.
pub proof fn lemma_header_invariant(desc: Seq<u8>)
    requires
        desc.len() <= DESCRIPTION_FIELD_LEN,
    ensures
        header_bytes(desc).len() == 128,
        header_bytes(desc).subrange(124, 128) == header_magic(),
        forall|i: int| 116 <= i < 124 ==> header_bytes(desc)[i] == 0x00u8,
        header_bytes(desc).subrange(0, desc.len() as int) == desc,
        forall|i: int| desc.len() <= i < 116 ==> header_bytes(desc)[i] == 0x20u8,
{
    assert(header_bytes(desc).subrange(124, 128) =~= header_magic());
    assert(header_bytes(desc).subrange(0, desc.len() as int) =~= desc);
}

/// Every file image starts with the 128-byte default header — so bytes
/// 124 through 127 are `00 01 'M' 'I'` whatever the series holds — and
/// continues with the compressed-block tag, the compressed block's length
/// word, and the compressed block, which fills the rest of the file.
pub proof fn lemma_container_layout(s: Seq<TrackSample>)
    ensures
        container_bytes(s).len() == 136 + zlib_deflate_of(payload_bytes(s)).len(),
        container_bytes(s).subrange(0, 128) == header_bytes(default_description()),
        container_bytes(s).subrange(124, 128) == header_magic(),
        container_bytes(s).subrange(128, 132) == le_bytes_u32(TAG_COMPRESSED),
        container_bytes(s).subrange(132, 136)
            == le_bytes_u32(zlib_deflate_of(payload_bytes(s)).len() as u32),
        container_bytes(s).subrange(136, container_bytes(s).len() as int)
            == zlib_deflate_of(payload_bytes(s)),
{
    lemma_header_invariant(default_description());
    assert(container_bytes(s).subrange(0, 128) =~= header_bytes(default_description()));
    assert(container_bytes(s).subrange(124, 128) =~= header_magic());
    assert(container_bytes(s).subrange(128, 132) =~= le_bytes_u32(TAG_COMPRESSED));
    assert(container_bytes(s).subrange(132, 136)
        =~= le_bytes_u32(zlib_deflate_of(payload_bytes(s)).len() as u32));
    assert(container_bytes(s).subrange(136, container_bytes(s).len() as int)
        =~= zlib_deflate_of(payload_bytes(s)));
}

/// The matrix record declares lengths that match its actual layout: its
/// whole length is `56 + 16 N`, the matrix record declares `48 + 16 N`
/// bytes of content, the dimension words are `N` and `2`, the data
/// sub-record declares `16 N` bytes, and the data block is all speeds
/// followed by all slopes.
pub proof fn lemma_payload_structure(s: Seq<TrackSample>)
    requires
        16 * s.len() + 48 <= u32::MAX,
    ensures
        payload_bytes(s).len() == 56 + 16 * s.len(),
        payload_bytes(s).subrange(0, 4) == le_bytes_u32(TAG_MATRIX),
        payload_bytes(s).subrange(4, 8) == le_bytes_u32((48 + 16 * s.len()) as u32),
        payload_bytes(s).subrange(8, 12) == le_bytes_u32(TAG_UINT32),
        payload_bytes(s).subrange(12, 16) == le_bytes_u32(8),
        payload_bytes(s).subrange(16, 20) == le_bytes_u32(ARRAY_FLAGS_DOUBLE),
        payload_bytes(s).subrange(20, 24) == le_bytes_u32(0),
        payload_bytes(s).subrange(24, 28) == le_bytes_u32(TAG_INT32),
        payload_bytes(s).subrange(28, 32) == le_bytes_u32(8),
        payload_bytes(s).subrange(32, 36) == le_bytes_u32(s.len() as u32),
        payload_bytes(s).subrange(36, 40) == le_bytes_u32(2),
        payload_bytes(s).subrange(40, 48) == name_record(),
        payload_bytes(s).subrange(48, 52) == le_bytes_u32(TAG_DOUBLE),
        payload_bytes(s).subrange(52, 56) == le_bytes_u32((16 * s.len()) as u32),
        payload_bytes(s).subrange(56, 56 + 8 * s.len() as int) == speed_bytes(s),
        payload_bytes(s).subrange(56 + 8 * s.len() as int, 56 + 16 * s.len() as int) == slope_bytes(s),
{
    lemma_speed_bytes_len(s);
    lemma_slope_bytes_len(s);
    assert(payload_bytes(s).subrange(0, 4) =~= le_bytes_u32(TAG_MATRIX));
    assert(payload_bytes(s).subrange(4, 8) =~= le_bytes_u32((48 + 16 * s.len()) as u32));
    assert(payload_bytes(s).subrange(8, 12) =~= le_bytes_u32(TAG_UINT32));
    assert(payload_bytes(s).subrange(12, 16) =~= le_bytes_u32(8));
    assert(payload_bytes(s).subrange(16, 20) =~= le_bytes_u32(ARRAY_FLAGS_DOUBLE));
    assert(payload_bytes(s).subrange(20, 24) =~= le_bytes_u32(0));
    assert(payload_bytes(s).subrange(24, 28) =~= le_bytes_u32(TAG_INT32));
    assert(payload_bytes(s).subrange(28, 32) =~= le_bytes_u32(8));
    assert(payload_bytes(s).subrange(32, 36) =~= le_bytes_u32(s.len() as u32));
    assert(payload_bytes(s).subrange(36, 40) =~= le_bytes_u32(2));
    assert(payload_bytes(s).subrange(40, 48) =~= name_record());
    assert(payload_bytes(s).subrange(48, 52) =~= le_bytes_u32(TAG_DOUBLE));
    assert(payload_bytes(s).subrange(52, 56) =~= le_bytes_u32((16 * s.len()) as u32));
    assert(payload_bytes(s).subrange(56, 56 + 8 * s.len() as int) =~= speed_bytes(s));
    assert(payload_bytes(s).subrange(56 + 8 * s.len() as int, 56 + 16 * s.len() as int) =~= slope_bytes(s));
}

/// The data block is column-major: the speed of sample `i` sits at offset
/// `56 + 8 i` of the matrix record, and its slope follows the whole speed
/// column, at offset `56 + 8 N + 8 i`, each as eight little-endian bytes
/// of the untouched bit pattern.
pub proof fn lemma_sample_data_layout(s: Seq<TrackSample>, i: int)
    requires
        16 * s.len() + 48 <= u32::MAX,
        0 <= i < s.len(),
    ensures
        payload_bytes(s).subrange(56 + 8 * i, 56 + 8 * i + 8) == le_bytes_u64(s[i].speed_bits),
        payload_bytes(s).subrange(56 + 8 * s.len() + 8 * i, 56 + 8 * s.len() + 8 * i + 8)
            == le_bytes_u64(s[i].slope_bits),
{
    lemma_payload_structure(s);
    lemma_speed_bytes_len(s);
    lemma_slope_bytes_len(s);
    lemma_speed_bytes_at(s, i);
    lemma_slope_bytes_at(s, i);
    assert(payload_bytes(s).subrange(56 + 8 * i, 56 + 8 * i + 8)
        =~= speed_bytes(s).subrange(8 * i, 8 * i + 8));
    assert(payload_bytes(s).subrange(56 + 8 * s.len() + 8 * i, 56 + 8 * s.len() + 8 * i + 8)
        =~= slope_bytes(s).subrange(8 * i, 8 * i + 8));
}

/// Encoding is deterministic: the file image is a pure function of the
/// sample series, so encoding one series twice gives byte-identical output.
pub proof fn lemma_encode_deterministic(s1: Seq<TrackSample>, s2: Seq<TrackSample>)
    requires
        s1 == s2,
    ensures
        container_bytes(s1) == container_bytes(s2),
{
}

} // verus!

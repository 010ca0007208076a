use std::io::Read;

use gpxmat::encode::{assemble_container, build_header, build_payload, encode_series, EncodeError};
use gpxmat::TrackSample;

fn samples_of(pairs: &[(f64, f64)]) -> Vec<TrackSample> {
    pairs
        .iter()
        .map(|&(speed, slope)| TrackSample::new(speed.to_bits(), slope.to_bits()))
        .collect()
}

fn encode(pairs: &[(f64, f64)]) -> Vec<u8> {
    encode_series(&samples_of(pairs)).expect("encoding failed")
}

fn inflate(bytes: &[u8]) -> Vec<u8> {
    let mut decoder = flate2::read::ZlibDecoder::new(bytes);
    let mut out = Vec::new();
    decoder.read_to_end(&mut out).expect("inflation failed");
    out
}

fn read_u32(bytes: &[u8], off: usize) -> u32 {
    u32::from_le_bytes([bytes[off], bytes[off + 1], bytes[off + 2], bytes[off + 3]])
}

fn check_structure(pairs: &[(f64, f64)]) -> Vec<u8> {
    let n = pairs.len() as u32;
    let file = encode(pairs);

    // Header: 128 bytes, description, reserved zeros, version and magic.
    assert!(file.len() >= 136);
    assert_eq!(&file[0..38], b"MATLAB 5.0 MAT-file, Platform: PCWIN64");
    assert!(file[38..116].iter().all(|&b| b == 0x20));
    assert!(file[116..124].iter().all(|&b| b == 0x00));
    assert_eq!(&file[124..128], &[0x00, 0x01, b'M', b'I']);

    // Compressed block framing: tag 15, then the block's length.
    assert_eq!(read_u32(&file, 128), 15);
    assert_eq!(read_u32(&file, 132) as usize, file.len() - 136);

    // The inflated matrix record.
    let payload = inflate(&file[136..]);
    assert_eq!(payload.len() as u32, 56 + 16 * n);
    assert_eq!(read_u32(&payload, 0), 14);
    assert_eq!(read_u32(&payload, 4), 48 + 16 * n);
    assert_eq!(read_u32(&payload, 8), 6);
    assert_eq!(read_u32(&payload, 12), 8);
    assert_eq!(read_u32(&payload, 16), 6);
    assert_eq!(read_u32(&payload, 20), 0);
    assert_eq!(read_u32(&payload, 24), 5);
    assert_eq!(read_u32(&payload, 28), 8);
    assert_eq!(read_u32(&payload, 32), n);
    assert_eq!(read_u32(&payload, 36), 2);
    assert_eq!(&payload[40..48], &[0x01, 0x00, 0x03, 0x00, b't', b'x', b't', 0x00]);
    assert_eq!(read_u32(&payload, 48), 9);
    assert_eq!(read_u32(&payload, 52), 16 * n);
    payload
}

#[test]
fn header_invariant_regardless_of_length() {
    for pairs in [&[][..], &[(3.5, 0.25)][..], &[(1.0, 2.0), (3.0, 4.0), (5.0, 6.0)][..]] {
        let file = encode(pairs);
        assert_eq!(&file[124..128], &[0x00, 0x01, b'M', b'I']);
        assert_eq!(read_u32(&file, 128), 15);
    }
}

#[test]
fn structural_decode_zero_samples() {
    let payload = check_structure(&[]);
    assert_eq!(payload.len(), 56);
}

#[test]
fn structural_decode_one_sample() {
    check_structure(&[(12.5, -3.25)]);
}

#[test]
fn structural_decode_two_samples() {
    check_structure(&[(0.0, 0.0), (f64::INFINITY, f64::NAN)]);
}

#[test]
fn structural_decode_thousand_samples() {
    let pairs: Vec<(f64, f64)> = (0..1000).map(|i| (i as f64 * 0.5, -(i as f64))).collect();
    check_structure(&pairs);
}

#[test]
fn numeric_fidelity_bit_exact() {
    let payload = check_structure(&[(12.5, -3.25)]);
    assert_eq!(&payload[56..64], &12.5f64.to_le_bytes());
    assert_eq!(&payload[64..72], &(-3.25f64).to_le_bytes());
}

#[test]
fn column_major_ordering() {
    let payload = check_structure(&[(1.0, 10.0), (2.0, 20.0), (3.0, 30.0)]);
    let mut expected = Vec::new();
    for v in [1.0f64, 2.0, 3.0, 10.0, 20.0, 30.0] {
        expected.extend_from_slice(&v.to_le_bytes());
    }
    assert_eq!(&payload[56..104], &expected[..]);
}

#[test]
fn nan_bits_pass_through_unchanged() {
    let bits = 0x7ff8_0000_dead_beefu64;
    let series = vec![TrackSample::new(bits, bits)];
    let file = encode_series(&series).expect("encoding failed");
    let payload = inflate(&file[136..]);
    assert_eq!(&payload[56..64], &bits.to_le_bytes());
    assert_eq!(&payload[64..72], &bits.to_le_bytes());
}

#[test]
fn encoding_is_idempotent() {
    let pairs = [(12.5, -3.25), (0.0, 1.0e308), (-7.25, 42.0)];
    assert_eq!(encode(&pairs), encode(&pairs));
}

#[test]
fn compression_really_compresses() {
    let pairs: Vec<(f64, f64)> = (0..1000).map(|_| (1.0, -1.0)).collect();
    let series = samples_of(&pairs);
    let file = encode_series(&series).expect("encoding failed");
    let payload = build_payload(&series);
    // The block is a genuine zlib stream of the matrix record, not the
    // record itself, and it is shorter for this repetitive input.
    assert_ne!(&file[136..], &payload[..]);
    assert!(file.len() - 136 < payload.len());
    assert_eq!(inflate(&file[136..]), payload);
}

#[test]
fn long_description_is_rejected() {
    let too_long = vec![b'x'; 117];
    assert_eq!(build_header(&too_long), Err(EncodeError::DescriptionTooLong));
    let just_fits = vec![b'x'; 116];
    let header = build_header(&just_fits).expect("should fit");
    assert_eq!(header.len(), 128);
    assert!(header[0..116].iter().all(|&b| b == b'x'));
    assert_eq!(&header[124..128], &[0x00, 0x01, b'M', b'I']);
}

#[test]
fn container_framing_is_exact() {
    let framed = assemble_container(vec![9, 9], vec![1, 2, 3]).expect("framing failed");
    assert_eq!(framed, vec![9, 9, 15, 0, 0, 0, 3, 0, 0, 0, 1, 2, 3]);
}

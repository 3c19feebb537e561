use std::io::Read;

use actool::compress::{compress_data, compress_kcbc, lzfse_compress, make_celm_dmp2, pixfmt_to_dm};
use actool::rle::compress_rle;

fn le32(data: &[u8], at: usize) -> u32 {
    u32::from_le_bytes([data[at], data[at + 1], data[at + 2], data[at + 3]])
}

fn pixel_data(w: u32, h: u32, bpp: u32) -> Vec<u8> {
    let colors: [u8; 4] = [0xAA, 0xBB, 0xCC, 0xFF];
    (0..(w * h) as usize).flat_map(|_| colors[..bpp as usize].iter().copied()).collect()
}

#[test]
fn celm_header_fields() {
    let fake_dmp2 =
        [b'd', b'm', b'p', b'2'].iter().chain([0u8; 20].iter()).copied().collect::<Vec<u8>>();
    let celm = make_celm_dmp2(&fake_dmp2, b"BGRA", false, 2);
    assert_eq!(&celm[..4], b"MLEC");
    assert_eq!(le32(&celm, 4), 2);
    assert_eq!(le32(&celm, 8), 11);
    assert_eq!(le32(&celm, 12), 16 + fake_dmp2.len() as u32);
}

#[test]
fn celm_sub_header_bgra() {
    let fake_dmp2 = vec![0u8; 30];
    let celm = make_celm_dmp2(&fake_dmp2, b"BGRA", false, 2);
    assert_eq!(le32(&celm, 16), 1);
    assert_eq!(le32(&celm, 20), 4);
    assert_eq!(le32(&celm, 24), 30);
    assert_eq!(le32(&celm, 28), 0);
}

#[test]
fn celm_sub_header_ga8() {
    let fake_dmp2 = vec![0u8; 10];
    let celm = make_celm_dmp2(&fake_dmp2, b" 8AG", false, 2);
    assert_eq!(le32(&celm, 20), 2);
}

#[test]
fn celm_contains_payload() {
    let fake_dmp2 = b"dmp2TESTPAYLOAD!";
    let celm = make_celm_dmp2(fake_dmp2, b"BGRA", false, 2);
    assert_eq!(&celm[32..], &fake_dmp2[..]);
}

#[test]
fn celm_inline() {
    let fake = b"dmp2XX";
    let celm = make_celm_dmp2(fake, b"BGRA", true, 0);
    assert_eq!(&celm[..4], b"MLEC");
    assert_eq!(le32(&celm, 4), 0);
    assert_eq!(&celm[16..], &fake[..]);
}

#[test]
fn compress_data_uncompressed_small() {
    let out = compress_data(&vec![0u8; 16], b"BGRA", 2, 2, "10.11", "macosx", None, false, false);
    assert_eq!(&out[..4], b"MLEC");
    assert_eq!(le32(&out, 8), 0);
}

#[test]
fn compress_data_lzfse_at_10_11() {
    let out =
        compress_data(&vec![0u8; 1024], b"BGRA", 16, 16, "10.11", "macosx", None, false, false);
    assert_eq!(le32(&out, 8), 4);
}

#[test]
fn compress_data_dmp2_at_11_0_when_allowed() {
    let encoded = b"dmp2 stream".to_vec();
    let out = compress_data(
        &vec![0u8; 1024],
        b"BGRA",
        16,
        16,
        "11.0",
        "macosx",
        Some(&encoded),
        false,
        false,
    );
    assert_eq!(le32(&out, 8), 11);
}

#[test]
fn dmp2_used_for_atlas_at_11_0() {
    let data = pixel_data(64, 64, 4);
    let encoded = b"dmp2 stream".to_vec();
    let out =
        compress_data(&data, b"BGRA", 64, 64, "11.0", "macosx", Some(&encoded), false, true);
    assert_eq!(&out[..4], b"MLEC");
    assert_eq!(le32(&out, 8), 11, "expected DMP2");
    assert_eq!(le32(&out, 4), 2, "expected CELM ver=2 for opaque DMP2");
}

#[test]
fn lzfse_used_for_standalone_at_11_0() {
    let data = pixel_data(64, 64, 4);
    let out = compress_data(&data, b"BGRA", 64, 64, "11.0", "macosx", None, false, false);
    assert_ne!(le32(&out, 8), 11, "standalone images should not use DMP2");
}

#[test]
fn no_dmp2_at_10_15() {
    let data = pixel_data(64, 64, 4);
    let encoded = b"dmp2 stream".to_vec();
    let out =
        compress_data(&data, b"BGRA", 64, 64, "10.15", "macosx", Some(&encoded), false, false);
    assert_ne!(le32(&out, 8), 11, "DMP2 should not be used for target < 11.0");
}

#[test]
fn no_dmp2_at_10_11() {
    let data = pixel_data(64, 64, 4);
    let encoded = b"dmp2 stream".to_vec();
    let out =
        compress_data(&data, b"BGRA", 64, 64, "10.11", "macosx", Some(&encoded), false, false);
    assert_ne!(le32(&out, 8), 11);
}

#[test]
fn dmp2_for_ga8_atlas() {
    let data = pixel_data(64, 64, 2);
    let encoded = b"dmp2 stream".to_vec();
    let out =
        compress_data(&data, b" 8AG", 64, 64, "11.0", "macosx", Some(&encoded), false, false);
    assert_eq!(le32(&out, 8), 11, "GA8 atlas should use DMP2 at 11.0+");
}

#[test]
fn small_data_skips_dmp2() {
    let data = vec![0u8; 256];
    let encoded = b"dmp2 stream".to_vec();
    let out = compress_data(&data, b"BGRA", 8, 8, "11.0", "macosx", Some(&encoded), false, false);
    assert_ne!(le32(&out, 8), 11, "data <= 256 bytes should skip DMP2");
}

#[test]
fn deepmap_formats_have_numbers() {
    assert!(pixfmt_to_dm(b"BGRA").is_some());
    assert!(pixfmt_to_dm(b" 8AG").is_some());
    assert_eq!(pixfmt_to_dm(b"XYZW"), None);
}

#[test]
fn lzfse_streams_decode_to_their_input() {
    let data: Vec<u8> = (0..5000u32).map(|i| (i / 7) as u8).collect();
    let stream = lzfse_compress(&data).unwrap();
    assert!(stream.len() < data.len());
    let mut out = vec![0u8; data.len() + 64];
    let n = lzfse::decode_buffer(&stream, &mut out).unwrap();
    assert_eq!(&out[..n], &data[..]);
}

#[test]
fn chunks_hold_rows() {
    let data: Vec<u8> = (0..33 * 128u32).map(|i| (i / 100) as u8).collect();
    let chunks = compress_kcbc(&data, 33).unwrap();
    let mut at = 0;
    let mut rows = 0;
    let mut plain: Vec<u8> = Vec::new();
    while at < chunks.len() {
        if at > 0 {
            assert_eq!(&chunks[at..at + 4], b"KCBC");
            at += 4;
        }
        rows += le32(&chunks, at + 8);
        let len = le32(&chunks, at + 12) as usize;
        let mut out = vec![0u8; data.len() + 64];
        let n = lzfse::decode_buffer(&chunks[at + 16..at + 16 + len], &mut out).unwrap();
        plain.extend_from_slice(&out[..n]);
        at += 16 + len;
    }
    assert_eq!(rows, 33);
    assert_eq!(plain, data);
    assert!(compress_kcbc(&data, 0).is_none());
}

#[test]
fn gzip_streams_decode_to_their_input() {
    let data = vec![5u8; 8192];
    let out = compress_data(&data, b"BGRA", 64, 32, "10.9", "macosx", None, false, false);
    assert_eq!(le32(&out, 8), 2);
    let mut plain = Vec::new();
    flate2::read::GzDecoder::new(&out[16..]).read_to_end(&mut plain).unwrap();
    assert_eq!(plain, data);
}

#[test]
fn small_images_are_run_length_encoded() {
    let data = vec![3u8; 16 * 16 * 4];
    let out = compress_data(&data, b"BGRA", 16, 16, "10.9", "macosx", None, false, false);
    assert_eq!(le32(&out, 8), 1);
    assert_eq!(&out[16..], &compress_rle(&data, 16, 16, 4)[..]);
}

#[test]
fn without_deepmap_the_inline_flag_is_unused() {
    let pixels = pixel_data(20, 20, 4);
    let make = |inline: bool| {
        compress_data(&pixels, b"BGRA", 20, 20, "11.0", "macosx", None, inline, false)
    };
    assert_eq!(make(true), make(false));
    let unused = compress_data(&pixels, b"BGRA", 20, 20, "10.9", "macosx", Some(b"x"), true, false);
    let none = compress_data(&pixels, b"BGRA", 20, 20, "10.9", "macosx", None, false, false);
    assert_eq!(unused, none);
}

use rusthydrus::download::{dl_hash_step, dl_read_failed, file_identity, hash_bytes, DlNext};
use rusthydrus::sharedtypes::HashesSupported;

#[test]
fn md5_of_known_inputs() {
    let (h, ok) = hash_bytes(b"", &HashesSupported::Md5("d41d8cd98f00b204e9800998ecf8427e".to_string()));
    assert_eq!(h, "d41d8cd98f00b204e9800998ecf8427e");
    assert!(ok);
    let (h, ok) = hash_bytes(b"abc", &HashesSupported::Md5("nope".to_string()));
    assert_eq!(h, "900150983cd24fb0d6963f7d28e17f72");
    assert!(!ok);
}

#[test]
fn sha1_is_upper_case() {
    let (h, ok) = hash_bytes(b"abc", &HashesSupported::Sha1("A9993E364706816ABA3E25717850C26C9CD0D89D".to_string()));
    assert_eq!(h, "A9993E364706816ABA3E25717850C26C9CD0D89D");
    assert!(ok);
}

#[test]
fn sha256_kind_is_checked_with_sha512() {
    let expect = "DDAF35A193617ABACC417349AE20413112E6FA4E89A97EA20A9EEEE64B55D39A2192992A274FC1A836BA3C23A3FEEBBD454D4423643CE80E2A9AC94FA54CA49F";
    let (h, ok) = hash_bytes(b"abc", &HashesSupported::Sha256(expect.to_string()));
    assert_eq!(h, expect);
    assert!(ok);
}

#[test]
fn no_hash_never_matches() {
    let (h, ok) = hash_bytes(b"abc", &HashesSupported::NoHash);
    assert_eq!(h, "");
    assert!(!ok);
}

#[test]
fn file_identity_names_the_type() {
    let png: Vec<u8> = vec![0x89, b'P', b'N', b'G', 0x0D, 0x0A, 0x1A, 0x0A, 0, 0, 0, 0x0D, b'I', b'H', b'D', b'R'];
    let (h, ext) = file_identity(&png);
    assert_eq!(ext, "png");
    assert_eq!(h.len(), 128);
    assert_eq!(h, h.to_uppercase());
}

#[test]
fn download_retries_then_gives_up() {
    assert_eq!(dl_hash_step(0, true), (0, DlNext::Done));
    assert_eq!(dl_hash_step(0, false), (1, DlNext::Retry));
    assert_eq!(dl_hash_step(1, false), (2, DlNext::Retry));
    assert_eq!(dl_hash_step(2, false), (3, DlNext::GiveUp));
    assert_eq!(dl_read_failed(2), Some(3));
    assert_eq!(dl_read_failed(3), None);
}

#[test]
fn file_extension_of_png_bytes() {
    let png: Vec<u8> = vec![0x89, b'P', b'N', b'G', 0x0D, 0x0A, 0x1A, 0x0A, 0, 0, 0, 0x0D, b'I', b'H', b'D', b'R'];
    assert_eq!(rusthydrus::download::file_extension(&png), "png");
    assert_eq!(rusthydrus::download::file_extension(b"plain words"), "bin");
}

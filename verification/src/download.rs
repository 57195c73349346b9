//! Checking downloaded bytes: their hashes, the hash a scraper promised,
//! the file type they hold, and when a download is given up. Fetching the
//! bytes and writing them out is the caller's.

use vstd::prelude::*;
use crate::sharedtypes::{HashV, HashesSupported, hash_v};
use sha2::Digest;

verus! {

/// The md5 digest of bytes in lower-case hexadecimal, as `md5::compute`
/// and `{:x}` give it.
pub uninterp spec fn md5_hex_of(b: Seq<u8>) -> Seq<char>;

/// The SHA-1 digest of bytes in upper-case hexadecimal, as `sha1`'s
/// `Sha1` and `{:X}` give it.
pub uninterp spec fn sha1_hex_of(b: Seq<u8>) -> Seq<char>;

/// The SHA-512 digest of bytes in upper-case hexadecimal, as `sha2`'s
/// `Sha512` and `{:X}` give it.
pub uninterp spec fn sha512_hex_of(b: Seq<u8>) -> Seq<char>;

/// The extension `file_format` gives for the type it detects in bytes.
pub uninterp spec fn file_extension_of(b: Seq<u8>) -> Seq<char>;

/// `md5::compute`, written with `{:x}`.
#[verifier::external_body]
fn md5_hex(bytes: &[u8]) -> (r: String)
    ensures
        r@ == md5_hex_of(bytes@),
{
    format!("{:x}", md5::compute(bytes))
}

/// `sha1::Sha1` over the bytes, written with `{:X}`.
#[verifier::external_body]
fn sha1_hex(bytes: &[u8]) -> (r: String)
    ensures
        r@ == sha1_hex_of(bytes@),
{
    let mut hasher = sha1::Sha1::new();
    hasher.update(bytes);
    format!("{:X}", hasher.finalize())
}

/// `sha2::Sha512` over the bytes, written with `{:X}`.
#[verifier::external_body]
fn sha512_hex(bytes: &[u8]) -> (r: String)
    ensures
        r@ == sha512_hex_of(bytes@),
{
    let mut hasher = sha2::Sha512::new();
    hasher.update(bytes);
    format!("{:X}", hasher.finalize())
}

/// `file_format::FileFormat::from_bytes(..).extension()`.
#[verifier::external_body]
fn detect_extension(bytes: &[u8]) -> (r: String)
    ensures
        r@ == file_extension_of(bytes@),
{
    file_format::FileFormat::from_bytes(bytes).extension().to_string()
}

/// The hash of bytes by the kind a scraper named, and whether it is the
/// one named. The kind named `Sha256` is checked with SHA-512; without a
/// hash nothing matches.
pub open spec fn hash_bytes_spec(b: Seq<u8>, h: HashV) -> (Seq<char>, bool) {
    match h {
        HashV::Md5(x) => (md5_hex_of(b), md5_hex_of(b) == x),
        HashV::Sha1(x) => (sha1_hex_of(b), sha1_hex_of(b) == x),
        HashV::Sha256(x) => (sha512_hex_of(b), sha512_hex_of(b) == x),
        HashV::NoHash => (Seq::empty(), false),
    }
}

/// Hashes bytes by the kind of a hash and compares with it.
pub fn hash_bytes(bytes: &[u8], hash: &HashesSupported) -> (r: (String, bool))
    ensures
        (r.0@, r.1) == hash_bytes_spec(bytes@, hash_v(*hash)),
{
    match hash {
        HashesSupported::Md5(h) => {
            let d = md5_hex(bytes);
            let ok = d == *h;
            (d, ok)
        },
        HashesSupported::Sha1(h) => {
            let d = sha1_hex(bytes);
            let ok = d == *h;
            (d, ok)
        },
        HashesSupported::Sha256(h) => {
            let d = sha512_hex(bytes);
            let ok = d == *h;
            (d, ok)
        },
        HashesSupported::NoHash => (String::new(), false),
    }
}

/// The extension of the type that a file's bytes show.
pub fn file_extension(bytes: &[u8]) -> (r: String)
    ensures
        r@ == file_extension_of(bytes@),
{
    detect_extension(bytes)
}

/// What a downloaded file is kept under: the SHA-512 of its bytes in
/// upper-case hexadecimal, and the extension of its type.
pub fn file_identity(bytes: &[u8]) -> (r: (String, String))
    ensures
        r.0@ == sha512_hex_of(bytes@),
        r.1@ == file_extension_of(bytes@),
{
    (sha512_hex(bytes), detect_extension(bytes))
}

/// What comes after hashing a download.
#[derive(Debug, Clone, Copy, PartialEq, Eq, Structural)]
pub enum DlNext {
    /// The hash matched: keep the file.
    Done,
    /// The hash did not match: download again.
    Retry,
    /// Too many failures: give up.
    GiveUp,
}

/// The failure count and the next step after a hash check: a mismatch
/// counts as a failure; three failures give up.
pub fn dl_hash_step(cnt: usize, matched: bool) -> (r: (usize, DlNext))
    requires
        cnt < usize::MAX,
    ensures
        r.0 == (if matched { cnt } else { (cnt + 1) as usize }),
        r.1 == (if r.0 >= 3 { DlNext::GiveUp } else if matched { DlNext::Done } else { DlNext::Retry }),
{
    let c = if matched { cnt } else { cnt + 1 };
    if c >= 3 {
        (c, DlNext::GiveUp)
    } else if matched {
        (c, DlNext::Done)
    } else {
        (c, DlNext::Retry)
    }
}

/// After a failed read of a download's bytes: give up once three failures
/// are counted, else count one more.
pub fn dl_read_failed(cnt: usize) -> (r: Option<usize>)
    ensures
        r == (if cnt >= 3 { None } else { Some((cnt + 1) as usize) }),
{
    if cnt >= 3 { None } else { Some(cnt + 1) }
}

} // verus!

//! The two conversions that are left to code outside this library: gzip
//! decompression and the decoding of bytes into text. Their contracts are
//! taken on trust.

use std::io::Read;
use vstd::prelude::*;
use vstd::utf8::{decode_utf8, valid_utf8};

verus! {

/// What decompressing `data` as one gzip member gives: the plain bytes, or
/// nothing where `data` is not a sound gzip stream.
pub uninterp spec fn gzip_inflated(data: Seq<u8>) -> Option<Seq<u8>>;

/// The text that `bytes` decode to when every malformed UTF-8 sequence is
/// replaced by U+FFFD.
pub uninterp spec fn lossy_text(bytes: Seq<u8>) -> Seq<char>;

/// Reads `data` to its end through `flate2::read::GzDecoder`, which decodes the
/// first gzip member and ignores what follows it. Trusted: the outcome depends
/// on `data` alone, and is a failure exactly where the decoder reports an
/// error (bad header, corrupt deflate stream, wrong checksum or length).
#[verifier::external_body]
pub(crate) fn gunzip(data: &[u8]) -> (r: Option<Vec<u8>>)
    ensures
        match r {
            Some(plain) => gzip_inflated(data@) == Some(plain@),
            None => gzip_inflated(data@) is None,
        },
{
    let mut plain = Vec::new();
    match flate2::read::GzDecoder::new(data).read_to_end(&mut plain) {
        Ok(_) => Some(plain),
        Err(_) => None,
    }
}

/// Calls `String::from_utf8_lossy`. Trusted: the text depends on `bytes`
/// alone, and bytes that are valid UTF-8 decode to the text they encode.
#[verifier::external_body]
pub(crate) fn lossy_string(bytes: &[u8]) -> (s: String)
    ensures
        s@ == lossy_text(bytes@),
        valid_utf8(bytes@) ==> s@ == decode_utf8(bytes@),
{
    String::from_utf8_lossy(bytes).into_owned()
}

} // verus!

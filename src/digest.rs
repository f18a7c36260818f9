//! Content digest and compression: the two outside algorithms that every
//! stored object goes through. Their results are named, not restated.
use vstd::prelude::*;

verus! {

#[verifier::external_type_specification]
#[verifier::external_body]
pub struct ExIoError(std::io::Error);

/// The SHA-1 digest of a byte string.
pub uninterp spec fn sha1_of(b: Seq<u8>) -> Seq<u8>;

/// The zlib stream that flate2 writes for a byte string at its default level.
pub uninterp spec fn zlib_of(b: Seq<u8>) -> Seq<u8>;

/// What flate2's zlib decoder reads from a byte string: the decoded bytes,
/// or `None` where it reports an error (a corrupt or truncated stream).
pub uninterp spec fn inflated(b: Seq<u8>) -> Option<Seq<u8>>;

/// Relies on `sha1::Sha1` through `digest::Digest::digest`: the 20-byte
/// SHA-1 digest of the input.
#[verifier::external_body]
pub(crate) fn hash_content(content_with_header: &[u8]) -> (r: [u8; 20])
    ensures
        r@ == sha1_of(content_with_header@),
{
    <sha1::Sha1 as sha1::Digest>::digest(content_with_header).into()
}

/// Relies on `flate2::write::ZlibEncoder` at `Compression::default()`
/// writing into a `Vec`, which never fails: the zlib stream of the input.
#[verifier::external_body]
pub(crate) fn compress_content(content: &[u8]) -> (r: Result<Vec<u8>, std::io::Error>)
    ensures
        r is Ok,
        r matches Ok(v) ==> v@ == zlib_of(content@),
{
    let mut encoder = flate2::write::ZlibEncoder::new(Vec::new(), flate2::Compression::default());
    std::io::Write::write_all(&mut encoder, content)?;
    encoder.finish()
}

/// Relies on `flate2::read::ZlibDecoder` read to the end, which reports an
/// incomplete stream as an error: the result is `inflated` of the input, and
/// since zlib is lossless a stream that the encoder wrote for `x` gives `x`.
#[verifier::external_body]
pub(crate) fn decompress_content(encoded_data: &[u8]) -> (r: Result<Vec<u8>, std::io::Error>)
    ensures
        r is Ok <==> inflated(encoded_data@) is Some,
        r matches Ok(v) ==> inflated(encoded_data@) == Some(v@),
        r is Err ==> forall|x: Seq<u8>| zlib_of(x) != encoded_data@,
        r matches Ok(v) ==> forall|x: Seq<u8>| zlib_of(x) == encoded_data@ ==> v@ == x,
{
    let mut decoder = flate2::read::ZlibDecoder::new(encoded_data);
    let mut out = Vec::new();
    std::io::Read::read_to_end(&mut decoder, &mut out)?;
    Ok(out)
}

} // verus!

//! The per-file transform pipeline: compress then encrypt on the way to the
//! destination, decrypt then decompress on the way back.

use vstd::prelude::*;
use crate::crypto::decrypt_spec;
use crate::crypto::Encryptor;

verus! {

/// Zstandard compression level used by the pipeline.
pub const ZSTD_LEVEL: i32 = 3;

/// What decompressing a byte string yields: the original bytes when the
/// input is a frame that `zstd_compress` produced, `None` when the input is
/// no valid frame.  A pure function of the input bytes.
pub uninterp spec fn zstd_unframe(data: Seq<u8>) -> Option<Seq<u8>>;

/// Relies on `zstd::stream::encode_all`: the output is a zstd frame, and
/// `zstd::stream::decode_all` recovers the input from it.  With a level in
/// zstd's documented range (0 to 22) the only remaining failure is an
/// out-of-memory report from the compression context, which this contract
/// sets aside as it does allocation failure elsewhere.
#[verifier::external_body]
pub(crate) fn zstd_compress(data: &[u8], level: i32) -> (r: Option<Vec<u8>>)
    ensures
        r is Some ==> zstd_unframe((r->0)@) == Some(data@),
        0 <= level <= 22 ==> r is Some,
{
    zstd::stream::encode_all(data, level).ok()
}

/// Relies on `zstd::stream::decode_all`: decompression is a pure function of
/// the input bytes, failing exactly on input that is no valid frame.
#[verifier::external_body]
pub(crate) fn zstd_decompress(data: &[u8]) -> (r: Option<Vec<u8>>)
    ensures
        r is Some <==> zstd_unframe(data@) is Some,
        r is Some ==> Some((r->0)@) == zstd_unframe(data@),
{
    zstd::stream::decode_all(data).ok()
}

/// How a destination blob relates to the source bytes it was made from:
/// undoing the encryption (when enabled) and then the compression (when
/// enabled) yields the source bytes.
pub open spec fn transform_ok(
    pass: Option<Seq<u8>>,
    enc: bool,
    comp: bool,
    plain: Seq<u8>,
    blob: Seq<u8>,
) -> bool {
    exists|mid: Seq<u8>|
        #![auto]
        (if enc && pass is Some {
            decrypt_spec(pass->0, blob) == Some(mid)
        } else {
            blob == mid
        }) && (if comp {
            zstd_unframe(mid) == Some(plain)
        } else {
            mid == plain
        })
}

/// The decryption stage of a restore: pass the bytes through when the entry
/// was not encrypted, fail without a passphrase, decrypt otherwise.
pub open spec fn decrypt_stage(pass: Option<Seq<u8>>, enc: bool, raw: Seq<u8>) -> Option<Seq<u8>> {
    if !enc {
        Some(raw)
    } else if pass is None {
        None
    } else {
        decrypt_spec(pass->0, raw)
    }
}

/// The decompression stage of a restore.
pub open spec fn decompress_stage(comp: bool, data: Seq<u8>) -> Option<Seq<u8>> {
    if comp {
        zstd_unframe(data)
    } else {
        Some(data)
    }
}

/// Pipeline round trip, per file: a blob that the backup transform produced
/// from some source bytes runs backwards through the restore stages to
/// exactly those bytes.
pub proof fn lemma_pipeline_round_trip(
    pass: Option<Seq<u8>>,
    enc: bool,
    comp: bool,
    plain: Seq<u8>,
    blob: Seq<u8>,
)
    requires
        transform_ok(pass, enc, comp, plain, blob),
        enc ==> pass is Some,
    ensures
        decrypt_stage(pass, enc, blob) is Some,
        decompress_stage(comp, decrypt_stage(pass, enc, blob)->0) == Some(plain),
{
    let mid = choose|mid: Seq<u8>|
        #![auto]
        (if enc && pass is Some {
            decrypt_spec(pass->0, blob) == Some(mid)
        } else {
            blob == mid
        }) && (if comp {
            zstd_unframe(mid) == Some(plain)
        } else {
            mid == plain
        });
    assert(decrypt_stage(pass, enc, blob) == Some(mid));
}

} // verus!

//! The local half of the delta protocol: the signature of the bytes a replica
//! holds, and the bytes it gets by applying a peer's delta to them.
use vstd::prelude::*;

verus! {

#[verifier::external_type_specification]
#[verifier::external_body]
pub struct ExApplyError(fast_rsync::ApplyError);

/// Block size of the signatures this library computes.
pub const SIG_BLOCK_SIZE: u32 = 1024;

/// Bytes of the strong hash kept per block.
pub const SIG_HASH_SIZE: u32 = 16;

/// The serialized signature of `data` with the given block and hash sizes.
pub uninterp spec fn rsync_signature(data: Seq<u8>, block_size: u32, hash_size: u32) -> Seq<u8>;

/// Whether `delta` applies to `base`.
pub uninterp spec fn rsync_applies(base: Seq<u8>, delta: Seq<u8>) -> bool;

/// The bytes that applying `delta` to `base` yields, where it applies.
pub uninterp spec fn rsync_patched(base: Seq<u8>, delta: Seq<u8>) -> Seq<u8>;

/// Relies on `fast_rsync::Signature::calculate` (read out with `into_serialized`):
/// the signature depends on the bytes and the options alone; it panics unless the
/// block size is positive and the hash size at most 16.
#[verifier::external_body]
fn calculate_signature(data: &Vec<u8>, block_size: u32, crypto_hash_size: u32) -> (r: Vec<u8>)
    requires
        block_size > 0,
        crypto_hash_size <= 16,
    ensures
        r@ == rsync_signature(data@, block_size, crypto_hash_size),
{
    let options = fast_rsync::SignatureOptions { block_size, crypto_hash_size };
    fast_rsync::Signature::calculate(data.as_slice(), options).into_serialized()
}

/// Relies on `fast_rsync::apply`: on success the output, which starts empty,
/// holds the bytes the delta rebuilds from the base; whether it succeeds and
/// what it yields depend on the two alone.
#[verifier::external_body]
fn apply_delta(base: &Vec<u8>, delta: &Vec<u8>) -> (r: Result<Vec<u8>, fast_rsync::ApplyError>)
    ensures
        r is Ok <==> rsync_applies(base@, delta@),
        r is Ok ==> r->Ok_0@ == rsync_patched(base@, delta@),
{
    let mut out: Vec<u8> = Vec::new();
    fast_rsync::apply(base.as_slice(), delta.as_slice(), &mut out).map(|_| out)
}

/// The signature a replica sends along with a request for a delta.
pub fn request_signature(data: &Vec<u8>) -> (r: Vec<u8>)
    ensures
        r@ == rsync_signature(data@, SIG_BLOCK_SIZE, SIG_HASH_SIZE),
{
    calculate_signature(data, SIG_BLOCK_SIZE, SIG_HASH_SIZE)
}

/// The bytes that a peer's delta rebuilds from the local `data`.
pub fn patched_bytes(data: &Vec<u8>, delta: &Vec<u8>) -> (r: Result<Vec<u8>, String>)
    ensures
        r is Ok <==> rsync_applies(data@, delta@),
        r is Ok ==> r->Ok_0@ == rsync_patched(data@, delta@),
        r is Err ==> r->Err_0@ == "Sync Bytes : apply failed"@,
{
    match apply_delta(data, delta) {
        Ok(bytes) => Ok(bytes),
        Err(_) => Err(String::from_str("Sync Bytes : apply failed")),
    }
}

} // verus!

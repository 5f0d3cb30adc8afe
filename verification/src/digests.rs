//! Message digests, computed by the hash crates.
use vstd::prelude::*;

verus! {

/// The digests that are computed here.
#[derive(Clone, Copy, Debug, PartialEq, Eq, Structural)]
pub enum Algorithm {
    Md5,
    Sha1,
    Sha256,
    Sha384,
    Sha512,
}

/// The digest of a byte string.
pub uninterp spec fn digest_of(algorithm: Algorithm, bytes: Seq<u8>) -> Seq<u8>;

/// The HMAC-SHA256 of a byte string under a key.
pub uninterp spec fn hmac_of(key: Seq<u8>, bytes: Seq<u8>) -> Seq<u8>;

/// `sha2::Sha256::digest`: the SHA-256 digest of the bytes, which is 32 bytes
/// long.
#[verifier::external_body]
pub(crate) fn sha256(bytes: &[u8]) -> (r: Vec<u8>)
    ensures
        r@ == digest_of(Algorithm::Sha256, bytes@),
        r@.len() == 32,
{
    <sha2::Sha256 as sha2::Digest>::digest(bytes).to_vec()
}

/// `hmac::Hmac<sha2::Sha256>`, made from a key, fed the bytes and finalized:
/// the HMAC-SHA256 of the bytes under the key, which is 32 bytes long. Every
/// key length is taken.
#[verifier::external_body]
pub(crate) fn hmac_sha256(key: &[u8], bytes: &[u8]) -> (r: Vec<u8>)
    ensures
        r@ == hmac_of(key@, bytes@),
        r@.len() == 32,
{
    let mut mac = <hmac::Hmac<sha2::Sha256> as hmac::Mac>::new_from_slice(key)
        .expect("HMAC takes a key of any length");
    hmac::Mac::update(&mut mac, bytes);
    hmac::Mac::finalize(mac).into_bytes().to_vec()
}

/// A digest that is still being fed.
#[verifier::external_body]
pub struct RunningDigest {
    inner: Box<dyn sha2::digest::DynDigest + Send>,
}

/// What a running digest was started as, and the bytes it was fed.
pub uninterp spec fn running(digest: RunningDigest) -> (Algorithm, Seq<u8>);

/// `Default` of `md5::Md5`: a digest of nothing yet.
#[verifier::external_body]
fn start_md5() -> (r: RunningDigest)
    ensures
        running(r) == (Algorithm::Md5, Seq::<u8>::empty()),
{
    RunningDigest { inner: Box::new(md5::Md5::default()) }
}

/// `Default` of `sha1::Sha1`: a digest of nothing yet.
#[verifier::external_body]
fn start_sha1() -> (r: RunningDigest)
    ensures
        running(r) == (Algorithm::Sha1, Seq::<u8>::empty()),
{
    RunningDigest { inner: Box::new(sha1::Sha1::default()) }
}

/// `Default` of `sha2::Sha256`: a digest of nothing yet.
#[verifier::external_body]
fn start_sha256() -> (r: RunningDigest)
    ensures
        running(r) == (Algorithm::Sha256, Seq::<u8>::empty()),
{
    RunningDigest { inner: Box::new(sha2::Sha256::default()) }
}

/// `Default` of `sha2::Sha384`: a digest of nothing yet.
#[verifier::external_body]
fn start_sha384() -> (r: RunningDigest)
    ensures
        running(r) == (Algorithm::Sha384, Seq::<u8>::empty()),
{
    RunningDigest { inner: Box::new(sha2::Sha384::default()) }
}

/// `Default` of `sha2::Sha512`: a digest of nothing yet.
#[verifier::external_body]
fn start_sha512() -> (r: RunningDigest)
    ensures
        running(r) == (Algorithm::Sha512, Seq::<u8>::empty()),
{
    RunningDigest { inner: Box::new(sha2::Sha512::default()) }
}

/// A digest of nothing yet.
pub(crate) fn start(algorithm: Algorithm) -> (r: RunningDigest)
    ensures
        running(r) == (algorithm, Seq::<u8>::empty()),
{
    match algorithm {
        Algorithm::Md5 => start_md5(),
        Algorithm::Sha1 => start_sha1(),
        Algorithm::Sha256 => start_sha256(),
        Algorithm::Sha384 => start_sha384(),
        Algorithm::Sha512 => start_sha512(),
    }
}

/// `digest::DynDigest::update`: feeds more bytes.
#[verifier::external_body]
pub(crate) fn feed(digest: &mut RunningDigest, bytes: &[u8])
    ensures
        running(*final(digest)) == (running(*old(digest)).0, running(*old(digest)).1 + bytes@),
{
    digest.inner.update(bytes);
}

/// `digest::DynDigest::finalize`: the digest of all the bytes that were fed.
#[verifier::external_body]
pub(crate) fn finish(digest: RunningDigest) -> (r: Vec<u8>)
    ensures
        r@ == digest_of(running(digest).0, running(digest).1),
{
    digest.inner.finalize().into_vec()
}

} // verus!

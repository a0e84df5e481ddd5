//! The memory-hard proof of work: a random scratch region, filled once per
//! search, and a nonce search over SHA3-256 digests.
use vstd::prelude::*;
use crate::encoding::{decimal, hex_of, push_decimal, to_hex};
use vstd::utf8::encode_utf8;

verus! {

/// Size in bytes of the scratch region filled for each search.
pub const MEMORY_SIZE: usize = 2097152;

/// Size in bytes of the region window that goes into each digest.
pub const WINDOW_SIZE: usize = 32;

/// The SHA3-256 digest of a byte sequence.
pub uninterp spec fn sha3_256_of(data: Seq<u8>) -> Seq<u8>;

/// Relies on sha3::Sha3_256 through digest::Digest::digest: the digest depends on
/// the input bytes alone and is 32 bytes long.
#[verifier::external_body]
fn sha3_256(data: &[u8]) -> (r: Vec<u8>)
    ensures
        r@ == sha3_256_of(data@),
        r@.len() == 32,
{
    <sha3::Sha3_256 as sha3::Digest>::digest(data).to_vec()
}

/// Relies on rand::thread_rng and rand::RngCore::fill_bytes: `n` bytes, each
/// drawn at random.
#[verifier::external_body]
pub(crate) fn random_bytes(n: usize) -> (r: Vec<u8>)
    ensures
        r@.len() == n,
{
    let mut v = vec![0u8; n];
    rand::RngCore::fill_bytes(&mut rand::thread_rng(), &mut v);
    v
}

/// Where the window for `nonce` starts in a region of `region_len` bytes.
pub open spec fn window_start(region_len: nat, nonce: nat) -> int {
    (nonce % ((region_len - WINDOW_SIZE) as nat)) as int
}

/// The region bytes that go into the digest for `nonce`.
pub open spec fn window(region: Seq<u8>, nonce: nat) -> Seq<u8> {
    let s = window_start(region.len(), nonce);
    region.subrange(s, s + WINDOW_SIZE)
}

/// What is hashed for one attempt: the previous hash (UTF-8), the nonce in
/// decimal, and the region window that the nonce selects.
pub open spec fn digest_input(prev_hash: Seq<char>, nonce: nat, region: Seq<u8>) -> Seq<u8> {
    encode_utf8(prev_hash) + decimal(nonce) + window(region, nonce)
}

/// The hex hash of one attempt.
pub open spec fn pow_hash(prev_hash: Seq<char>, nonce: nat, region: Seq<u8>) -> Seq<char> {
    hex_of(sha3_256_of(digest_input(prev_hash, nonce, region)))
}

/// A hash meets a difficulty when it starts with that many '0' characters.
pub open spec fn meets(hash: Seq<char>, difficulty: nat) -> bool {
    difficulty <= hash.len() && forall|i: int| 0 <= i < difficulty ==> hash[i] == '0'
}

/// No nonce below `bound` gives a hash that meets the difficulty.
pub open spec fn none_below(
    prev_hash: Seq<char>,
    region: Seq<u8>,
    difficulty: nat,
    bound: nat,
) -> bool {
    forall|m: nat| m < bound ==> !meets(#[trigger] pow_hash(prev_hash, m, region), difficulty)
}

/// Whether `hash` starts with `difficulty` '0' characters.
pub fn meets_difficulty(hash: &str, difficulty: usize) -> (r: bool)
    ensures
        r == meets(hash@, difficulty as nat),
{
    let len = hash.unicode_len();
    if difficulty > len {
        return false;
    }
    let mut i: usize = 0;
    while i < difficulty
        invariant
            difficulty <= len == hash@.len(),
            i <= difficulty,
            forall|j: int| 0 <= j < i ==> hash@[j] == '0',
        decreases difficulty - i,
    {
        if hash.get_char(i) != '0' {
            return false;
        }
        i = i + 1;
    }
    true
}

/// Appends `src[from..to]` to `out`.
fn push_range(out: &mut Vec<u8>, src: &[u8], from: usize, to: usize)
    requires
        from <= to <= src@.len(),
    ensures
        final(out)@ == old(out)@ + src@.subrange(from as int, to as int),
{
    let mut i: usize = from;
    while i < to
        invariant
            from <= i <= to <= src@.len(),
            out@ == old(out)@ + src@.subrange(from as int, i as int),
        decreases to - i,
    {
        out.push(src[i]);
        i = i + 1;
        assert(out@ =~= old(out)@ + src@.subrange(from as int, i as int));
    }
}

/// The hex hash of the attempt with `nonce` against `prev_hash` and `region`.
pub fn proof_hash(prev_hash: &str, nonce: u64, region: &Vec<u8>) -> (r: String)
    requires
        region@.len() > WINDOW_SIZE,
    ensures
        r@ == pow_hash(prev_hash@, nonce as nat, region@),
        r@.len() == 64,
{
    let mut data: Vec<u8> = Vec::new();
    let pb = prev_hash.as_bytes();
    push_range(&mut data, pb, 0, pb.len());
    push_decimal(nonce, &mut data);
    let span: usize = region.len() - WINDOW_SIZE;
    let start: usize = (nonce % (span as u64)) as usize;
    push_range(&mut data, region.as_slice(), start, start + WINDOW_SIZE);
    assert(data@ =~= digest_input(prev_hash@, nonce as nat, region@));
    let d = sha3_256(data.as_slice());
    to_hex(d.as_slice())
}

/// Searches nonces upward from 0 for the first whose hash meets `difficulty`,
/// with a fixed region. `None` only when no 64-bit nonce meets it.
pub fn search_region(prev_hash: &str, difficulty: usize, region: &Vec<u8>) -> (r: Option<(u64, String)>)
    requires
        region@.len() > WINDOW_SIZE,
    ensures
        match r {
            Some((n, h)) => {
                &&& h@ == pow_hash(prev_hash@, n as nat, region@)
                &&& h@.len() == 64
                &&& meets(h@, difficulty as nat)
                &&& none_below(prev_hash@, region@, difficulty as nat, n as nat)
            },
            None => none_below(prev_hash@, region@, difficulty as nat, u64::MAX as nat + 1),
        },
{
    let mut nonce: u64 = 0;
    loop
        invariant
            region@.len() > WINDOW_SIZE,
            none_below(prev_hash@, region@, difficulty as nat, nonce as nat),
        decreases u64::MAX - nonce,
    {
        let h = proof_hash(prev_hash, nonce, region);
        if meets_difficulty(h.as_str(), difficulty) {
            return Some((nonce, h));
        }
        if nonce == u64::MAX {
            return None;
        }
        nonce = nonce + 1;
    }
}

/// A proof found by a search against `prev_hash` on some region of
/// `MEMORY_SIZE` bytes: its hash is that region's hash for the nonce, meets the
/// difficulty, is 64 hex characters long, and no smaller nonce met it on that
/// region.
pub open spec fn found_on_some_region(
    prev_hash: Seq<char>,
    difficulty: nat,
    nonce: nat,
    hash: Seq<char>,
) -> bool {
    exists|region: Seq<u8>|
        #![trigger pow_hash(prev_hash, nonce, region)]
        region.len() == MEMORY_SIZE && hash.len() == 64 && hash == pow_hash(prev_hash, nonce, region) && meets(
            hash,
            difficulty,
        ) && none_below(prev_hash, region, difficulty, nonce)
}

/// A search against `prev_hash` that found nothing: on some region of
/// `MEMORY_SIZE` bytes no 64-bit nonce meets the difficulty.
pub open spec fn no_proof_on_some_region(prev_hash: Seq<char>, difficulty: nat) -> bool {
    exists|region: Seq<u8>|
        #![trigger none_below(prev_hash, region, difficulty, u64::MAX as nat + 1)]
        region.len() == MEMORY_SIZE && none_below(prev_hash, region, difficulty, u64::MAX as nat + 1)
}

/// Fills a fresh random region of `MEMORY_SIZE` bytes and searches it; `None`
/// only when no 64-bit nonce meets the difficulty on that region.
pub fn proof_of_deep_encryption(prev_hash: &str, difficulty: usize) -> (r: Option<(u64, String)>)
    ensures
        match r {
            Some((n, h)) => found_on_some_region(prev_hash@, difficulty as nat, n as nat, h@),
            None => no_proof_on_some_region(prev_hash@, difficulty as nat),
        },
{
    let region = random_bytes(MEMORY_SIZE);
    search_region(prev_hash, difficulty, &region)
}

} // verus!

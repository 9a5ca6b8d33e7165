//! Incremental proofs of work that a client attaches to its identity.
//!
//! A proof is a list of 128-bit tokens. The first token, XOR-ed with a hash
//! of the client's id, must have a RIPEMD-160 digest with exactly one leading
//! zero bit; each further token `k` (counting from 1), XOR-ed with the running
//! hash and hashed again, must give a value with exactly `k` leading zero bits.
//! The number of tokens is the security level that the proof shows. Checking
//! a proof costs one hash per token; producing one costs exponentially more
//! per level.
use rand::random;
use ripemd::{Digest, Ripemd160};
use sha2::Sha256;
use vstd::bytes::{spec_u128_from_le_bytes, spec_u128_to_le_bytes, u128_from_le_bytes, u128_to_le_bytes};
use vstd::prelude::*;
use vstd::slice::slice_subrange;
use vstd::std_specs::bits::u8_leading_zeros;

verus! {

broadcast use crate::endian::group_le_bytes;

/// The SHA-256 digest of some bytes, as computed by the `sha2` crate.
pub uninterp spec fn spec_sha256(data: Seq<u8>) -> Seq<u8>;

/// The RIPEMD-160 digest of some bytes, as computed by the `ripemd` crate.
pub uninterp spec fn spec_ripemd160(data: Seq<u8>) -> Seq<u8>;

/// `Sha256::digest`: the 32-byte SHA-256 digest of `data`.
#[verifier::external_body]
fn sha256_digest(data: &[u8]) -> (r: Vec<u8>)
    ensures
        r@ == spec_sha256(data@),
        r@.len() == 32,
{
    Sha256::digest(data).to_vec()
}

/// `Ripemd160::digest`: the 20-byte RIPEMD-160 digest of `data`.
#[verifier::external_body]
fn ripemd160_digest(data: &[u8]) -> (r: Vec<u8>)
    ensures
        r@ == spec_ripemd160(data@),
        r@.len() == 20,
{
    Ripemd160::digest(data).to_vec()
}

/// `rand::random::<u128>()`: a random token; nothing is promised of its value.
#[verifier::external_body]
pub(crate) fn random_u128() -> (r: u128) {
    random::<u128>()
}

// ---------------------------------------------------------------------------
// Leading zero bits
// ---------------------------------------------------------------------------

/// The number of zero bits at the front of a digest: eight for every zero
/// byte before the first nonzero byte, plus that byte's leading zeros.
pub open spec fn spec_zero_bits(h: Seq<u8>) -> nat
    decreases h.len(),
{
    if h.len() == 0 {
        0
    } else if h[0] != 0 {
        u8_leading_zeros(h[0]) as nat
    } else {
        8 + spec_zero_bits(h.drop_first())
    }
}

/// Whether bit `k` (counting from the least significant) of `x` is set.
pub open spec fn bit_set(x: u128, k: int) -> bool {
    (x >> (k as u128)) & 1 == 1
}

/// The number of zero bits above the highest set bit of `x`, scanning from
/// position `127 - i` downwards; 128 for zero.
pub open spec fn spec_lz_from(x: u128, i: nat) -> nat
    decreases 128 - i,
{
    if i >= 128 {
        128
    } else if bit_set(x, 127 - i) {
        i
    } else {
        spec_lz_from(x, i + 1)
    }
}

/// `u128::leading_zeros`: the number of zero bits above the highest set bit.
pub open spec fn spec_leading_zeros_u128(x: u128) -> nat {
    spec_lz_from(x, 0)
}

pub proof fn lemma_lz_from_bound(x: u128, i: nat)
    ensures
        spec_lz_from(x, i) <= 128,
    decreases 128 - i,
{
    if i < 128 && !bit_set(x, 127 - i) {
        lemma_lz_from_bound(x, i + 1);
    }
}

/// The number of zero bits above the highest set bit of `x`.
pub fn leading_zeros_u128(x: u128) -> (r: u32)
    ensures
        r as nat == spec_leading_zeros_u128(x),
        r <= 128,
{
    let mut i: u32 = 0;
    while i < 128
        invariant
            i <= 128,
            spec_lz_from(x, i as nat) == spec_lz_from(x, 0),
        decreases 128 - i,
    {
        if (x >> (127 - i)) & 1 == 1 {
            proof { lemma_lz_from_bound(x, 0); }
            return i;
        }
        i = i + 1;
    }
    i
}

// ---------------------------------------------------------------------------
// The two hashes
// ---------------------------------------------------------------------------

/// SHA-256 of the little-endian bytes of `val`, folded to 128 bits by XOR-ing
/// the first sixteen digest bytes with the last sixteen, each half read as a
/// little-endian number.
pub open spec fn spec_hash_sha(val: u128) -> u128 {
    let d = spec_sha256(spec_u128_to_le_bytes(val));
    spec_u128_from_le_bytes(d.subrange(0, 16)) ^ spec_u128_from_le_bytes(d.subrange(16, 32))
}

/// The security level of a 128-bit value: the leading zero bits of the
/// RIPEMD-160 digest of its little-endian bytes.
pub open spec fn spec_security_level_num(input: u128) -> nat {
    spec_zero_bits(spec_ripemd160(spec_u128_to_le_bytes(input)))
}

/// Hashes a 128-bit value to another with SHA-256.
pub fn hash_sha(val: u128) -> (r: u128)
    ensures
        r == spec_hash_sha(val),
{
    let bytes = u128_to_le_bytes(val);
    let digest = sha256_digest(bytes.as_slice());
    let low = u128_from_le_bytes(slice_subrange(digest.as_slice(), 0, 16));
    let high = u128_from_le_bytes(slice_subrange(digest.as_slice(), 16, 32));
    low ^ high
}

/// Counts the leading zero bits of a digest.
pub fn zero_bits(hash: &[u8]) -> (r: usize)
    requires
        hash@.len() <= 20,
    ensures
        r == spec_zero_bits(hash@),
        r <= 8 * hash@.len(),
{
    broadcast use vstd::std_specs::bits::axiom_u8_leading_zeros;
    let mut i: usize = 0;
    assert(hash@.skip(0) =~= hash@);
    while i < hash.len()
        invariant
            i <= hash@.len() <= 20,
            spec_zero_bits(hash@) == 8 * i + spec_zero_bits(hash@.skip(i as int)),
        decreases hash.len() - i,
    {
        assert(hash@.skip(i as int).drop_first() =~= hash@.skip(i + 1));
        if hash[i] != 0 {
            assert(hash@.skip(i as int)[0] == hash@[i as int]);
            return hash[i].leading_zeros() as usize + i * 8;
        }
        i = i + 1;
    }
    assert(hash@.skip(i as int) =~= Seq::<u8>::empty());
    i * 8
}

/// The security level of a 128-bit value.
pub fn security_level_num(input: u128) -> (r: u8)
    ensures
        r as nat == spec_security_level_num(input),
{
    let bytes = u128_to_le_bytes(input);
    let digest = ripemd160_digest(bytes.as_slice());
    zero_bits(digest.as_slice()) as u8
}

// ---------------------------------------------------------------------------
// Checking and producing proofs
// ---------------------------------------------------------------------------

/// The running hash after the first `k + 1` tokens of a proof for `uuid`.
pub open spec fn spec_chain(uuid: u128, hashes: Seq<u128>, k: nat) -> u128
    decreases k,
{
    if k == 0 {
        spec_hash_sha(uuid) ^ hashes[0]
    } else {
        spec_hash_sha(spec_chain(uuid, hashes, (k - 1) as nat) ^ hashes[k as int])
    }
}

/// Every token after the first, up to index `n`, brings the running hash to
/// exactly as many leading zero bits as its index.
pub open spec fn spec_chain_ok(uuid: u128, hashes: Seq<u128>, n: nat) -> bool {
    forall|k: nat| 1 <= k < n ==> spec_leading_zeros_u128(#[trigger] spec_chain(uuid, hashes, k)) == k
}

/// The security level that a proof shows for `uuid`, if it is valid.
pub open spec fn spec_verified_security_level(uuid: u128, hashes: Seq<u128>) -> Option<u8> {
    if spec_security_level_num(spec_chain(uuid, hashes, 0)) != 1 {
        None
    } else if spec_chain_ok(uuid, hashes, hashes.len()) {
        Some(hashes.len() as u8)
    } else {
        None
    }
}

/// Checks a proof of work for `uuid` and returns the level it shows.
///
/// The level is the number of tokens; since a token at index `k` needs `k`
/// leading zero bits out of 128, a valid proof has at most 129 tokens, so the
/// level always fits in a byte.
pub fn verified_security_level(uuid: u128, hashes: Vec<u128>) -> (r: Option<u8>)
    requires
        hashes@.len() >= 1,
    ensures
        r == spec_verified_security_level(uuid, hashes@),
        r matches Some(level) ==> level == hashes@.len() && hashes@.len() <= 129,
{
    let initial_hash = hash_sha(uuid) ^ hashes[0];
    if security_level_num(initial_hash) != 1 {
        return None;
    }
    let hashes_len = hashes.len();
    let mut curr = initial_hash;
    let mut k: usize = 1;
    while k < hashes_len
        invariant
            1 <= k <= hashes_len,
            hashes_len == hashes@.len(),
            curr == spec_chain(uuid, hashes@, (k - 1) as nat),
            spec_chain_ok(uuid, hashes@, k as nat),
            k <= 129,
        decreases hashes_len - k,
    {
        curr = hash_sha(curr ^ hashes[k]);
        let zeros = leading_zeros_u128(curr);
        if k as u64 != zeros as u64 {
            assert(spec_leading_zeros_u128(spec_chain(uuid, hashes@, k as nat)) != k);
            return None;
        }
        assert forall|j: nat| 1 <= j < k + 1 implies spec_leading_zeros_u128(
            #[trigger] spec_chain(uuid, hashes@, j),
        ) == j by {
            if j < k {
                assert(spec_chain_ok(uuid, hashes@, k as nat));
            }
        }
        k = k + 1;
    }
    Some(hashes_len as u8)
}

/// Whether a drawn token lifts `uuid` to at least `req_level`.
pub fn accept_token(req_level: u8, uuid: u128, token: u128) -> (r: bool)
    ensures
        r == (spec_security_level_num(spec_hash_sha(uuid) ^ token) >= req_level),
{
    // the uuid is hashed first so that the XOR below cannot be undone
    let uuid_hashed = hash_sha(uuid);
    let security_level = security_level_num(uuid_hashed ^ token);
    security_level >= req_level
}

/// Draws random tokens until one lifts `uuid` to at least `req_level`, and
/// returns it; gives up with `None` after `u64::MAX` draws. Every token
/// reaches level 0, so for that level the first draw is returned.
pub fn generate_token_num(req_level: u8, uuid: u128) -> (r: Option<u128>)
    ensures
        r matches Some(token) ==> spec_security_level_num(spec_hash_sha(uuid) ^ token) >= req_level,
        req_level == 0 ==> r is Some,
{
    let mut attempts: u64 = u64::MAX;
    while attempts > 0
        invariant
            req_level == 0 ==> attempts == u64::MAX,
        decreases attempts,
    {
        let token = random_u128();
        if accept_token(req_level, uuid, token) {
            return Some(token);
        }
        attempts = attempts - 1;
    }
    None
}

/// The level a new profile's proof of work is made for: the one the server
/// asks for unless configured otherwise.
pub const DEFAULT_SECURITY_LEVEL: u8 = 12;

/// Draws random tokens until one gives `uuid` the exact level 1 that a
/// proof's first token needs; gives up with `None` after `u64::MAX` draws.
pub fn first_proof_token(uuid: u128) -> (r: Option<u128>)
    ensures
        r matches Some(t) ==> spec_security_level_num(spec_hash_sha(uuid) ^ t) == 1,
{
    let uuid_hashed = hash_sha(uuid);
    let mut attempts: u64 = u64::MAX;
    while attempts > 0
        invariant
            uuid_hashed == spec_hash_sha(uuid),
        decreases attempts,
    {
        let token = random_u128();
        if security_level_num(uuid_hashed ^ token) == 1 {
            return Some(token);
        }
        attempts = attempts - 1;
    }
    None
}

/// Draws random tokens until one brings the running hash `curr` to exactly
/// `k` leading zero bits; gives up with `None` after `u64::MAX` draws.
pub fn next_proof_token(curr: u128, k: u32) -> (r: Option<(u128, u128)>)
    ensures
        r matches Some((t, next)) ==> next == spec_hash_sha(curr ^ t) && spec_leading_zeros_u128(next) == k,
{
    let mut attempts: u64 = u64::MAX;
    while attempts > 0
        decreases attempts,
    {
        let token = random_u128();
        let next = hash_sha(curr ^ token);
        if leading_zeros_u128(next) == k {
            return Some((token, next));
        }
        attempts = attempts - 1;
    }
    None
}

/// Makes a proof of work of `level` tokens for `uuid`: the first token
/// gives level 1, each further token `k` brings the running hash to exactly
/// `k` leading zero bits. Gives up with `None` when a token is not found
/// within `u64::MAX` draws.
pub fn generate_proofs(uuid: u128, level: u8) -> (r: Option<Vec<u128>>)
    requires
        level >= 1,
    ensures
        r matches Some(v) ==> v@.len() == level && spec_verified_security_level(uuid, v@) == Some(level),
{
    let first = match first_proof_token(uuid) {
        Some(t) => t,
        None => return None,
    };
    let mut tokens: Vec<u128> = Vec::new();
    tokens.push(first);
    let mut curr = hash_sha(uuid) ^ first;
    let mut k: u8 = 1;
    while k < level
        invariant
            1 <= k <= level,
            tokens@.len() == k,
            curr == spec_chain(uuid, tokens@, (k - 1) as nat),
            spec_security_level_num(spec_chain(uuid, tokens@, 0)) == 1,
            spec_chain_ok(uuid, tokens@, k as nat),
        decreases level - k,
    {
        let (t, next) = match next_proof_token(curr, k as u32) {
            Some(p) => p,
            None => return None,
        };
        let ghost old_tokens = tokens@;
        tokens.push(t);
        proof {
            let n = old_tokens.len() as int;
            assert(tokens@.take(n) =~= old_tokens);
            assert forall|j: nat| j < n implies spec_chain(uuid, tokens@, j) == #[trigger] spec_chain(uuid, old_tokens, j) by {
                lemma_chain_prefix(uuid, tokens@, n, j);
            }
            assert(spec_chain(uuid, tokens@, 0) == spec_chain(uuid, old_tokens, 0));
            assert(spec_chain(uuid, tokens@, k as nat) == spec_hash_sha(curr ^ t));
            assert forall|j: nat| 1 <= j < k + 1 implies spec_leading_zeros_u128(
                #[trigger] spec_chain(uuid, tokens@, j),
            ) == j by {
                if j < k {
                    assert(spec_chain(uuid, tokens@, j) == spec_chain(uuid, old_tokens, j));
                }
            }
        }
        curr = next;
        k = k + 1;
    }
    Some(tokens)
}

/// The running hash after `k + 1` tokens depends on those tokens only.
pub proof fn lemma_chain_prefix(uuid: u128, hashes: Seq<u128>, m: int, k: nat)
    requires
        k < m <= hashes.len(),
    ensures
        spec_chain(uuid, hashes.take(m), k) == spec_chain(uuid, hashes, k),
    decreases k,
{
    if k > 0 {
        lemma_chain_prefix(uuid, hashes, m, (k - 1) as nat);
    }
}

/// Proofs of work are incremental: the first `k` tokens of a valid proof
/// of level `n` are a valid proof of level `k`, for every `k` from 1 to `n`.
pub proof fn lemma_proof_prefix_valid(uuid: u128, hashes: Seq<u128>, k: int)
    requires
        spec_verified_security_level(uuid, hashes) is Some,
        1 <= k <= hashes.len(),
    ensures
        spec_verified_security_level(uuid, hashes.take(k)) == Some(k as u8),
{
    let pre = hashes.take(k);
    lemma_chain_prefix(uuid, hashes, k, 0);
    assert forall|j: nat| 1 <= j < k implies spec_leading_zeros_u128(#[trigger] spec_chain(uuid, pre, j)) == j by {
        lemma_chain_prefix(uuid, hashes, k, j);
        assert(spec_leading_zeros_u128(spec_chain(uuid, hashes, j)) == j);
    }
    assert(pre.len() == k);
}

} // verus!

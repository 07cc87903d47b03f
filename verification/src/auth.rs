//! Authentication primitives for server-authoritative networking: keyed
//! proof digests over a shared secret, and session tokens.

use vstd::prelude::*;
use vstd::std_specs::hash::DefaultHasherAdditionalSpecFns;
use std::collections::hash_map::DefaultHasher;
use std::hash::{Hash, Hasher};
use crate::bytes::{le64, push_le64};
use crate::clock::{max_duration_nanos, unix_time_nanos};

verus! {

/// A session token minted by the server.
pub type SessionToken = u128;

/// What hashing the string `s` feeds into a `DefaultHasher`: a fixed sequence
/// of writes that depends on `s` alone.
pub uninterp spec fn str_hash_writes(s: Seq<char>) -> Seq<Seq<u8>>;

/// Feeds `s` to the hasher through `<str as Hash>::hash`; the contract claims
/// that this appends to the hasher's recorded writes a sequence that depends
/// only on the characters of `s`.
#[verifier::external_body]
fn hash_str_into(s: &str, state: &mut DefaultHasher)
    ensures
        final(state)@ == old(state)@ + str_hash_writes(s@),
{
    s.hash(state);
}

/// Feeds the eight little-endian bytes of `v` to the hasher as one write.
///
/// This departs on purpose from hashing `v` with `<u64 as Hash>::hash`,
/// which feeds a `DefaultHasher` the bytes in the machine's native order: on
/// a little-endian machine the two are the same write, but on a big-endian
/// machine the digests of this library differ from those of native-order
/// hashing. The fixed order makes a proof made on one machine verify on any
/// other, and lets the digest be stated as a function of its inputs alone.
fn hash_u64_le_into(v: u64, state: &mut DefaultHasher)
    ensures
        final(state)@ == old(state)@.push(le64(v)),
{
    let mut b: Vec<u8> = Vec::new();
    push_le64(&mut b, v);
    assert(b@ =~= le64(v));
    state.write(b.as_slice());
}

/// The digest of `(secret, a, b)`: the default hasher's result after hashing
/// the secret string and then writing the little-endian bytes of each
/// integer (the native-order hash of the integers on little-endian machines;
/// see `hash_u64_le_into`).
pub open spec fn digest_of(secret: Seq<char>, a: u64, b: u64) -> u64 {
    DefaultHasher::spec_finish(str_hash_writes(secret).push(le64(a)).push(le64(b)))
}

/// The session token minted at clock reading `now`: the digest of
/// `(player_id, nonce)` in the low 64 bits and of `(nonce, player_id)` in the
/// high 64 bits, mixed with the clock reading.
pub open spec fn token_at(server_secret: Seq<char>, player_id: u64, nonce: u64, now: u128) -> u128 {
    (((digest_of(server_secret, nonce, player_id) as u128) << 64u128) ^ (digest_of(
        server_secret,
        player_id,
        nonce,
    ) as u128)) ^ now
}

/// A client's answer to an authentication challenge.
#[derive(Debug, Clone, Copy, PartialEq, Eq, Structural)]
pub struct AuthProof {
    /// The player identity claimed.
    pub player_id: u64,
    /// The server's challenge nonce.
    pub nonce: u64,
    /// Keyed digest of the identity and the nonce.
    pub digest: u64,
}

/// Whether `proof` carries the digest of its identity and nonce under `secret`.
pub open spec fn proof_valid(secret: Seq<char>, proof: AuthProof) -> bool {
    proof.digest == digest_of(secret, proof.player_id, proof.nonce)
}

/// Computes the proof for `player_id` answering `nonce` under `shared_secret`.
pub fn make_auth_proof(shared_secret: &str, player_id: u64, nonce: u64) -> (p: AuthProof)
    ensures
        p == (AuthProof { player_id, nonce, digest: digest_of(shared_secret@, player_id, nonce) }),
{
    AuthProof { player_id, nonce, digest: proof_digest(shared_secret, player_id, nonce) }
}

/// Checks that `proof` carries the right digest under `shared_secret`.
pub fn verify_auth_proof(shared_secret: &str, proof: AuthProof) -> (r: bool)
    ensures
        r == proof_valid(shared_secret@, proof),
{
    proof.digest == proof_digest(shared_secret, proof.player_id, proof.nonce)
}

/// Mints a session token for `player_id` answering `nonce`, mixing in the
/// current time; see `session_token_at` for how a clock reading is mixed in.
/// The reading is a `Duration` in nanoseconds, so its top 34 bits are zero
/// and the token's top 34 bits are those of the digest of
/// `(nonce, player_id)`.
pub fn mint_session_token(server_secret: &str, player_id: u64, nonce: u64) -> (r: SessionToken)
    ensures
        exists|now: u128|
            now <= max_duration_nanos() && r == #[trigger] token_at(server_secret@, player_id, nonce, now),
{
    let now = unix_time_nanos();
    let r = session_token_at(server_secret, player_id, nonce, now);
    assert(now <= max_duration_nanos() && r == token_at(server_secret@, player_id, nonce, now));
    r
}

/// The session token for `player_id` answering `nonce` at clock reading `now`.
pub fn session_token_at(server_secret: &str, player_id: u64, nonce: u64, now: u128) -> (r:
    SessionToken)
    ensures
        r == token_at(server_secret@, player_id, nonce, now),
{
    let low = proof_digest(server_secret, player_id, nonce) as u128;
    let high = (proof_digest(server_secret, nonce, player_id) as u128) << 64;
    high ^ low ^ now
}

fn proof_digest(secret: &str, a: u64, b: u64) -> (r: u64)
    ensures
        r == digest_of(secret@, a, b),
{
    let mut hasher = DefaultHasher::new();
    hash_str_into(secret, &mut hasher);
    hash_u64_le_into(a, &mut hasher);
    hash_u64_le_into(b, &mut hasher);
    hasher.finish()
}

/// A proof made under a secret verifies under the same secret.
pub proof fn lemma_made_proof_verifies(secret: Seq<char>, player_id: u64, nonce: u64)
    ensures
        proof_valid(
            secret,
            AuthProof { player_id, nonce, digest: digest_of(secret, player_id, nonce) },
        ),
{
}

} // verus!

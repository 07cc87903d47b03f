use std::collections::hash_map::DefaultHasher;
use std::hash::{Hash, Hasher};

use learning::auth::{make_auth_proof, session_token_at, verify_auth_proof};

fn le_digest(secret: &str, a: u64, b: u64) -> u64 {
    let mut h = DefaultHasher::new();
    secret.hash(&mut h);
    h.write(&a.to_le_bytes());
    h.write(&b.to_le_bytes());
    h.finish()
}

#[test]
fn proof_digest_uses_little_endian_integers() {
    let p = make_auth_proof("secret", 42, 0x0102_0304_0506_0708);
    assert_eq!(p.digest, le_digest("secret", 42, 0x0102_0304_0506_0708));
    if u64::from_ne_bytes([1, 0, 0, 0, 0, 0, 0, 0]) == 1 {
        let mut h = DefaultHasher::new();
        "secret".hash(&mut h);
        42u64.hash(&mut h);
        0x0102_0304_0506_0708u64.hash(&mut h);
        assert_eq!(p.digest, h.finish());
    }
    assert!(verify_auth_proof("secret", p));
    assert!(!verify_auth_proof("other", p));
}

#[test]
fn session_token_mixes_both_digests_and_time() {
    let t = session_token_at("srv", 7, 9, 5);
    let low = le_digest("srv", 7, 9) as u128;
    let high = (le_digest("srv", 9, 7) as u128) << 64;
    assert_eq!(t, high ^ low ^ 5);
}

use vcs::util::hash::VcsHash;
use vcs::util::error::{ErrorKind, VcsError};
use vcs::util::snapshot::create_snapshot;

#[test]
fn sha1_known_digest() {
    // the digest must be the real SHA-1 of the input, not the input back
    let h = VcsHash::from_bytes("abc".as_bytes());
    assert_eq!(h.to_hex(), "a9993e364706816aba3e25717850c26c9cd0d89d");
}

#[test]
fn sha1_empty_input() {
    let h = VcsHash::from_bytes("".as_bytes());
    assert_eq!(h.to_hex(), "da39a3ee5e6b4b0d3255bfef95601890afd80709");
}

#[test]
fn zero_hash_renders_forty_zeros() {
    let z = VcsHash::zero();
    assert_eq!(z.to_hex(), "0000000000000000000000000000000000000000");
    assert!(z.is_zero());
    assert!(!VcsHash::from_bytes("abc".as_bytes()).is_zero());
}

#[test]
fn short_str_is_prefix() {
    let h = VcsHash::from_bytes("abc".as_bytes());
    assert_eq!(h.short_str(), "a9993e");
    assert_eq!(&h.to_hex()[..6], h.short_str());
}

#[test]
fn from_hex_roundtrip() {
    let h = VcsHash::from_bytes("roundtrip".as_bytes());
    let hex = h.to_hex();
    let back = VcsHash::from_hex(&hex).unwrap();
    assert!(back == h);
    assert_eq!(back.to_hex(), hex);
}

#[test]
fn from_hex_accepts_uppercase() {
    let h = VcsHash::from_hex("A9993E364706816ABA3E25717850C26C9CD0D89D").unwrap();
    assert_eq!(h.to_hex(), "a9993e364706816aba3e25717850c26c9cd0d89d");
}

#[test]
fn from_hex_rejects_bad_input() {
    // wrong length
    let e = VcsHash::from_hex("abc").unwrap_err();
    assert_eq!(e, VcsError::Corrupt);
    assert_eq!(e.kind(), ErrorKind::Corrupt);
    // right length, bad character
    let e = VcsHash::from_hex("zzzz3e364706816aba3e25717850c26c9cd0d89d").unwrap_err();
    assert_eq!(e, VcsError::Corrupt);
    // 41 characters
    assert!(VcsHash::from_hex("a9993e364706816aba3e25717850c26c9cd0d89da").is_err());
}

#[test]
fn hash_prefix_matching() {
    let h = VcsHash::from_bytes("abc".as_bytes());
    assert!(h.matches_hex_prefix("a9993e"));
    assert!(h.matches_hex_prefix(""));
    assert!(h.matches_hex_prefix("a9993e364706816aba3e25717850c26c9cd0d89d"));
    assert!(!h.matches_hex_prefix("A9993E"));
    assert!(!h.matches_hex_prefix("b"));
}

#[test]
fn capture_is_idempotent() {
    // the same archive bytes always capture to the same identity
    let bytes: Vec<u8> = "dir listing bytes".as_bytes().to_vec();
    let h1 = create_snapshot(&bytes);
    let h2 = create_snapshot(&bytes);
    assert!(h1 == h2);
    assert_eq!(h1.to_hex(), h2.to_hex());
    let other = create_snapshot("other bytes".as_bytes());
    assert!(!(h1 == other));
}

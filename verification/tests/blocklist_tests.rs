use scramjet::blocklist::{Blocklist, BlocklistManager};
use scramjet::keys::ValidatorKey;

const KEY_A: &str = "11111111111111111111111111111112";
const KEY_B: &str = "TokenkegQfeZyiNwAJbNbGKPFXCWuBvf9Ss623VQ5DA";
const KEY_C: &str = "So11111111111111111111111111111111111111112";

/// The decoded form of `KEY_A`: base58 `1` is the zero digit, so
/// thirty-one of them followed by `2` spell the value one.
fn key_a_bytes() -> [u8; 32] {
    let mut bytes = [0u8; 32];
    bytes[31] = 1;
    bytes
}

/// A library key for a base58 text, recovered through the public
/// parser.
fn key_of(text: &str) -> ValidatorKey {
    let list = Blocklist::parse(text);
    assert_eq!(list.len(), 1, "fixture key must parse");
    list.entries()[0]
}

#[test]
fn test_parse_blocklist() {
    let manager = BlocklistManager::new();
    let content = "\n            # Comment line\n            11111111111111111111111111111112\n            TokenkegQfeZyiNwAJbNbGKPFXCWuBvf9Ss623VQ5DA\n            invalid_key_here\n            \n            So11111111111111111111111111111111111111112\n        ";
    let keys = manager.parse_blocklist(content);
    assert_eq!(keys.len(), 3);
}

#[test]
fn test_parse_empty_blocklist() {
    let manager = BlocklistManager::new();
    let keys = manager.parse_blocklist("");
    assert!(keys.is_empty());
}

#[test]
fn test_parse_deduplicates_repeated_keys() {
    let text = format!("{}\n{}\n{}\n", KEY_A, KEY_A, KEY_B);
    let keys = Blocklist::parse(&text);
    assert_eq!(keys.len(), 2);
}

#[test]
fn test_parse_decodes_base58_bytes() {
    // The parsed set holds the decoded bytes, not the base58 text.
    let list = Blocklist::parse(KEY_A);
    assert_eq!(list.len(), 1);
    assert!(list.contains(&ValidatorKey::from_bytes(key_a_bytes())));

    // A malformed line contributes nothing.
    assert_eq!(Blocklist::parse("invalid_key_here").len(), 0);
    // A 31-byte value is not a validator key.
    assert_eq!(Blocklist::parse("1111111111111111111111111111111").len(), 0);
}

#[test]
fn test_is_blocked() {
    let mut manager = BlocklistManager::new();
    let pk = ValidatorKey::from_bytes(key_a_bytes());

    // Initially not blocked.
    assert!(!manager.is_blocked(&pk));

    // Add to blocklist.
    let loaded = manager.ingest_local(KEY_A);
    assert_eq!(loaded, 1);

    // Now blocked.
    assert!(manager.is_blocked(&pk));
}

#[test]
fn test_from_defaults() {
    let manager = BlocklistManager::default();
    assert_eq!(manager.local_path, "./blocklist.txt");
    assert!(manager.remote_url.is_none());
    assert_eq!(manager.refresh_interval_secs, 300);
}

#[test]
fn test_local_only_mode() {
    let manager = BlocklistManager::new();
    assert!(manager.remote_url.is_none());
}

#[test]
fn test_remote_empty_result_rejected() {
    let mut manager = BlocklistManager::new();
    assert_eq!(manager.ingest_local(KEY_A), 1);
    let pk = ValidatorKey::from_bytes(key_a_bytes());

    // An empty remote body must not clear the set.
    let result = manager.ingest_remote("# nothing here\n\n");
    assert!(result.is_err());
    assert!(result.unwrap_err().contains("empty"));
    assert!(manager.is_blocked(&pk));
    assert_eq!(manager.len(), 1);
}

#[test]
fn test_remote_swap_is_wholesale() {
    let mut manager = BlocklistManager::new();
    assert_eq!(manager.ingest_local(KEY_A), 1);
    let pk_a = ValidatorKey::from_bytes(key_a_bytes());
    let pk_b = key_of(KEY_B);
    let pk_c = key_of(KEY_C);

    let body = format!("{}\n{}\n", KEY_B, KEY_C);
    let count = manager.ingest_remote(&body).expect("remote accepted");
    assert_eq!(count, 2);

    // The old set is gone in full, the new one present in full.
    assert!(!manager.is_blocked(&pk_a));
    assert!(manager.is_blocked(&pk_b));
    assert!(manager.is_blocked(&pk_c));
    assert_eq!(manager.len(), 2);
}

#[test]
fn test_local_empty_file_keeps_set() {
    let mut manager = BlocklistManager::new();
    assert_eq!(manager.ingest_local(KEY_B), 1);
    assert_eq!(manager.ingest_local("# only comments\n"), 0);
    assert_eq!(manager.len(), 1);
}

#[test]
fn test_entries_round_trip() {
    let list = Blocklist::parse(&format!("{}\n{}\n", KEY_A, KEY_B));
    let held = list.entries();
    assert_eq!(held.len(), 2);
    for key in held {
        assert!(list.contains(key));
    }
}

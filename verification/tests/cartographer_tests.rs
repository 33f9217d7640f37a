use scramjet::blocklist::Blocklist;
use scramjet::cartographer::Cartographer;
use scramjet::keys::IngressAddress;

const KEY_A: &str = "11111111111111111111111111111112";
const KEY_B: &str = "TokenkegQfeZyiNwAJbNbGKPFXCWuBvf9Ss623VQ5DA";

fn key_bytes(text: &str) -> Vec<u8> {
    text.as_bytes().to_vec()
}

fn v4(a: u8, b: u8, c: u8, d: u8, port: u16) -> IngressAddress {
    IngressAddress::v4(u32::from_be_bytes([a, b, c, d]), port)
}

#[test]
fn test_atomic_clock_basics() {
    let mut c = Cartographer::new(Blocklist::new());
    assert_eq!(c.get_known_slot(), 0);
    c.update_slot(100);
    assert_eq!(c.get_known_slot(), 100);
    c.update_slot(101);
    assert_eq!(c.get_known_slot(), 101);
}

#[test]
fn test_topology_resolution() {
    let mut c = Cartographer::new(Blocklist::new());
    let addr = v4(127, 0, 0, 1, 8000);

    // Schedule slot 500 for the validator; advertise its ingress.
    c.apply_schedule(1, 500, 0, &vec![(key_bytes(KEY_A), vec![0])]);
    c.apply_topology(&vec![(key_bytes(KEY_A), Some(addr))]);

    // Hit.
    assert_eq!(c.get_target(500), Some(addr));

    // Miss.
    assert_eq!(c.get_target(501), None);
}

#[test]
fn test_shield_blocks_malicious_validator() {
    let blocklist = Blocklist::parse(KEY_A);
    let addr1 = v4(1, 1, 1, 1, 80);
    let addr2 = v4(2, 2, 2, 2, 80);

    let mut c = Cartographer::new(blocklist);

    // Slots 100 and 101; both validators advertise an address.
    c.apply_schedule(1, 100, 0, &vec![
        (key_bytes(KEY_A), vec![0]),
        (key_bytes(KEY_B), vec![1]),
    ]);
    c.apply_topology(&vec![
        (key_bytes(KEY_A), Some(addr1)),
        (key_bytes(KEY_B), Some(addr2)),
    ]);

    // Blocked validator resolves to nothing.
    assert_eq!(c.get_target(100), None);
    // Good validator resolves to its address.
    assert_eq!(c.get_target(101), Some(addr2));
}

#[test]
fn test_scout_lookahead() {
    let mut c = Cartographer::new(Blocklist::new());
    let addr1 = v4(1, 1, 1, 1, 80);
    let addr2 = v4(2, 2, 2, 2, 80);

    // Schedule: 101 -> A, 102 -> A, 103 -> B; clock seeded at 100.
    c.apply_schedule(1, 100, 0, &vec![
        (key_bytes(KEY_A), vec![1, 2]),
        (key_bytes(KEY_B), vec![3]),
    ]);
    c.apply_topology(&vec![
        (key_bytes(KEY_A), Some(addr1)),
        (key_bytes(KEY_B), Some(addr2)),
    ]);

    let targets = c.get_upcoming_leaders(100, 5);

    // Both addresses, no duplicates, soonest first.
    assert_eq!(targets.len(), 2);
    assert!(targets.contains(&addr1));
    assert!(targets.contains(&addr2));
    assert_eq!(targets[0], addr1);
    assert_eq!(targets[1], addr2);
}

#[test]
fn test_scout_filters_blocked_validators() {
    let blocklist = Blocklist::parse(KEY_A);
    let blocked_addr = v4(1, 1, 1, 1, 80);
    let good_addr = v4(2, 2, 2, 2, 80);

    let mut c = Cartographer::new(blocklist);

    // Schedule: 101 -> blocked, 102 -> good.
    c.apply_schedule(1, 100, 0, &vec![
        (key_bytes(KEY_A), vec![1]),
        (key_bytes(KEY_B), vec![2]),
    ]);
    c.apply_topology(&vec![
        (key_bytes(KEY_A), Some(blocked_addr)),
        (key_bytes(KEY_B), Some(good_addr)),
    ]);

    let targets = c.get_upcoming_leaders(100, 5);
    assert_eq!(targets.len(), 1);
    assert!(targets.contains(&good_addr));
    assert!(!targets.contains(&blocked_addr));
}

#[test]
fn test_target_without_known_address() {
    let mut c = Cartographer::new(Blocklist::new());
    c.apply_schedule(1, 200, 0, &vec![(key_bytes(KEY_A), vec![0])]);
    // Scheduled, not denied, but no ingress known.
    assert_eq!(c.get_target(200), None);
}

#[test]
fn test_schedule_epoch_staleness() {
    let mut c = Cartographer::new(Blocklist::new());
    let addr = v4(9, 9, 9, 9, 9);
    c.apply_topology(&vec![(key_bytes(KEY_A), Some(addr))]);

    c.apply_schedule(7, 700, 0, &vec![(key_bytes(KEY_A), vec![0])]);
    assert_eq!(c.get_target(700), Some(addr));

    // Same epoch again: the old schedule is kept.
    c.apply_schedule(7, 900, 100, &vec![(key_bytes(KEY_B), vec![0])]);
    assert_eq!(c.get_target(700), Some(addr));
    assert_eq!(c.get_known_slot(), 700);

    // A newer epoch replaces it wholesale and reseeds the clock.
    c.apply_schedule(8, 900, 100, &vec![(key_bytes(KEY_A), vec![0, 5])]);
    assert_eq!(c.get_target(700), None);
    assert_eq!(c.get_target(800), Some(addr));
    assert_eq!(c.get_target(805), Some(addr));
    assert_eq!(c.get_known_slot(), 900);
}

#[test]
fn test_schedule_relative_offsets() {
    let mut c = Cartographer::new(Blocklist::new());
    let addr = v4(3, 3, 3, 3, 3);
    c.apply_topology(&vec![(key_bytes(KEY_B), Some(addr))]);
    // Epoch starts at 1000 - 250 = 750.
    c.apply_schedule(2, 1000, 250, &vec![(key_bytes(KEY_B), vec![0, 250, 300])]);
    assert_eq!(c.get_target(750), Some(addr));
    assert_eq!(c.get_target(1000), Some(addr));
    assert_eq!(c.get_target(1050), Some(addr));
    assert_eq!(c.get_target(751), None);
}

#[test]
fn test_topology_keeps_only_advertised_nodes() {
    let mut c = Cartographer::new(Blocklist::new());
    let addr = v4(5, 5, 5, 5, 5);
    c.apply_topology(&vec![
        (key_bytes(KEY_A), None),
        (b"not_a_key".to_vec(), Some(addr)),
        (key_bytes(KEY_B), Some(addr)),
    ]);
    c.apply_schedule(1, 10, 0, &vec![
        (key_bytes(KEY_A), vec![0]),
        (key_bytes(KEY_B), vec![1]),
    ]);
    assert_eq!(c.get_target(10), None);
    assert_eq!(c.get_target(11), Some(addr));
}

#[test]
fn test_schedule_last_claim_wins() {
    let mut c = Cartographer::new(Blocklist::new());
    let addr1 = v4(1, 1, 1, 1, 1);
    let addr2 = v4(2, 2, 2, 2, 2);
    c.apply_topology(&vec![
        (key_bytes(KEY_A), Some(addr1)),
        (key_bytes(KEY_B), Some(addr2)),
    ]);
    // Both entries claim relative slot 5; the later entry wins.
    c.apply_schedule(1, 0, 0, &vec![
        (key_bytes(KEY_A), vec![5]),
        (key_bytes(KEY_B), vec![5]),
    ]);
    assert_eq!(c.get_target(5), Some(addr2));
}

#[test]
fn test_upcoming_leaders_skips_unknown_addresses() {
    let mut c = Cartographer::new(Blocklist::new());
    let addr = v4(2, 2, 2, 2, 2);
    c.apply_schedule(1, 100, 0, &vec![
        (key_bytes(KEY_A), vec![1]),
        (key_bytes(KEY_B), vec![2]),
    ]);
    // Only B advertises an ingress address.
    c.apply_topology(&vec![(key_bytes(KEY_B), Some(addr))]);
    let targets = c.get_upcoming_leaders(100, 5);
    assert_eq!(targets, vec![addr]);
}

#[test]
fn test_upcoming_leaders_zero_lookahead() {
    let mut c = Cartographer::new(Blocklist::new());
    c.apply_schedule(1, 100, 0, &vec![(key_bytes(KEY_A), vec![1])]);
    assert!(c.get_upcoming_leaders(100, 0).is_empty());
}

#[test]
fn test_topology_replacement_is_wholesale() {
    let mut c = Cartographer::new(Blocklist::new());
    let addr1 = v4(1, 0, 0, 1, 1);
    let addr2 = v4(2, 0, 0, 2, 2);
    c.apply_schedule(1, 50, 0, &vec![
        (key_bytes(KEY_A), vec![0]),
        (key_bytes(KEY_B), vec![1]),
    ]);
    c.apply_topology(&vec![(key_bytes(KEY_A), Some(addr1))]);
    assert_eq!(c.get_target(50), Some(addr1));

    c.apply_topology(&vec![(key_bytes(KEY_B), Some(addr2))]);
    assert_eq!(c.get_target(50), None);
    assert_eq!(c.get_target(51), Some(addr2));
}

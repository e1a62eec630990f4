use peerstore::api::DiskConfig;
use peerstore::file_system::FileSystem;
use peerstore::node::StorageNode;
use peerstore::proof_of_spacetime::audit_verdict;
use peerstore::proof_of_spacetime::challenge_window;
use peerstore::proof_of_spacetime::generate_hash;
use peerstore::proof_of_spacetime::generate_random_challenge;
use peerstore::proof_of_spacetime::proof_of_spacetime;
use peerstore::storage_api::calculate_hash;
use peerstore::textform::bytes_to_hex;
use peerstore::token_management::TokenManager;
use peerstore::transfer::RetryPlan;
use peerstore::validation::Validator;

#[test]
fn challenge_is_ten_lowercase_letters() {
    let c = generate_random_challenge();
    assert_eq!(c.len(), 10);
    assert!(c.iter().all(|&b| (b'a'..=b'z').contains(&b)));
}

#[test]
fn challenge_window_fits_the_file() {
    for size in [0u64, 5, 99, 100, 101, 100_000] {
        let (start, len) = challenge_window(size, 100);
        assert_eq!(len, size.min(100));
        assert!(start + len <= size);
    }
}

#[test]
fn audit_hash_depends_on_challenge() {
    let window = vec![1u8; 100];
    let h1 = generate_hash(&window, &b"aaaaaaaaaa".to_vec());
    let h2 = generate_hash(&window, &b"bbbbbbbbbb".to_vec());
    assert_eq!(h1.len(), 32);
    assert_ne!(h1, h2);
    // the keyed hash is the digest of window-then-challenge
    let mut joined = window.clone();
    joined.extend_from_slice(b"aaaaaaaaaa");
    assert_eq!(bytes_to_hex(&h1), calculate_hash(&joined));
}

#[test]
fn audit_passes_only_within_timeout() {
    assert!(audit_verdict(0, 30));
    assert!(audit_verdict(30, 30));
    assert!(!audit_verdict(31, 30));

    let window = vec![9u8; 50];
    let challenge = generate_random_challenge();
    let (_, on_time) = proof_of_spacetime(&window, &challenge, 3, 30);
    assert!(on_time);
    let (_, late) = proof_of_spacetime(&window, &challenge, 31, 30);
    assert!(!late);
}

#[test]
fn retry_plan_is_bounded() {
    let mut plan = RetryPlan::new(3);
    let mut failures: u32 = 0;
    while plan.may_attempt() {
        assert_eq!(plan.backoff_secs(), 2);
        plan.record_failure();
        failures += 1;
    }
    assert_eq!(failures, 3);
    assert!(!plan.may_attempt());
}

#[test]
fn validator_accepts_files() {
    assert!(Validator::validate_file("some/path"));
    let digest = Validator::get_file_part_hash("some/path", "apple");
    assert_eq!(digest, "some/path_apple");
}

#[test]
fn filesystem_limits() {
    assert_eq!(FileSystem::FAT32.max_file_size(), 4u128 << 30);
    assert_eq!(FileSystem::Ext4.max_file_size(), 16u128 << 40);
    assert_eq!(FileSystem::for_os("Linux"), Some(FileSystem::Ext4));
    assert_eq!(FileSystem::for_os("Windows"), Some(FileSystem::NTFS));
    assert_eq!(FileSystem::for_os("Darwin"), Some(FileSystem::APFS));
    assert_eq!(FileSystem::for_os("Plan9"), None);
    assert!(StorageNode::validate_capacity(FileSystem::FAT32, 4u64 << 30));
    assert!(!StorageNode::validate_capacity(FileSystem::FAT32, (4u64 << 30) + 1));
}

#[test]
fn storage_node_bookkeeping() {
    let mut n = StorageNode::new("n1".to_string(), 1_000).unwrap();
    assert_eq!(n.available_space, 1_000);
    assert_eq!(n.storage_path, "storage/n1");
    n.update_available_space(400);
    assert_eq!(n.available_space, 600);
    n.update_available_space(2_000); // more used than capacity: floored
    assert_eq!(n.available_space, 0);
}

#[test]
fn token_claims_expire() {
    let tm = TokenManager::new("secret".to_string());
    let claims = tm.claims_for("user1", 1_000);
    assert_eq!(claims.sub, "user1");
    assert_eq!(claims.exp, 4_600);
    assert!(tm.claims_valid_at(&claims, 4_599));
    assert!(!tm.claims_valid_at(&claims, 4_600));
}

#[test]
fn disk_config_space_checks() {
    let cfg = DiskConfig {
        base_path: "store".to_string(),
        max_capacity: 1_000,
        reserved_space: 100,
    };
    assert!(cfg.check_space(300, 600));
    assert!(!cfg.check_space(301, 600));
    assert_eq!(cfg.available_space(300), 700);
    assert_eq!(cfg.available_space(2_000), 0);
}

#[test]
fn validator_network_judges_responses() {
    let mut net = peerstore::validator_network::ValidatorNetwork::new();
    net.add_node("n1".to_string());

    // no response recorded yet: the node fails its challenge
    assert!(!net.evaluate_node("n1", "challenge-1"));

    // the exact challenge echoed back passes
    net.set_node_response("n1", "challenge-1".to_string());
    assert!(net.evaluate_node("n1", "challenge-1"));

    // a stale response fails the next challenge
    assert!(!net.evaluate_node("n1", "challenge-2"));

    // unknown nodes are never valid
    assert!(!net.evaluate_node("ghost", "challenge-1"));
}

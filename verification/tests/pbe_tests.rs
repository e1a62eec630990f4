use peerstore::pbe::AccessType;
use peerstore::pbe::ProgrammableBusinessEngine;

#[test]
fn test_token_staking() {
    let mut pbe = ProgrammableBusinessEngine::new(1_000_000); // 1MB per token
    let result = pbe.stake_tokens("user1", 100);
    assert!(result.is_ok());
    let token = result.unwrap();
    assert_eq!(token.storage_limit, 100_000_000); // 100MB
}

#[test]
fn test_node_assignment() {
    let mut pbe = ProgrammableBusinessEngine::new(1_000_000);
    pbe.register_node("node1", 1_000_000_000).unwrap(); // 1GB
    let assigned_node = pbe.assign_node(100_000_000); // 100MB
    assert!(assigned_node.is_some());
    assert_eq!(assigned_node.unwrap(), "node1");
}

#[test]
fn assignment_skips_unhealthy_nodes() {
    let mut pbe = ProgrammableBusinessEngine::new(1_000_000);
    pbe.register_node("sick", 1_000_000_000).unwrap();
    pbe.register_node("well", 1_000_000_000).unwrap();
    pbe.update_node_health("sick", false);
    let assigned = pbe.assign_node(1_000);
    assert_eq!(assigned.unwrap(), "well");
}

#[test]
fn assignment_without_capacity_fails() {
    let mut pbe = ProgrammableBusinessEngine::new(1_000_000);
    pbe.register_node("tiny", 1_000).unwrap();
    assert!(pbe.assign_node(2_000).is_none());
}

#[test]
fn allowance_gates_file_entries() {
    let mut pbe = ProgrammableBusinessEngine::new(1_000);
    pbe.stake_tokens("alice", 10).unwrap(); // 10,000 bytes allowed
    assert!(pbe.check_storage_allowance("alice", 9_000));
    assert!(!pbe.check_storage_allowance("alice", 11_000));
    assert!(!pbe.check_storage_allowance("nobody", 1));

    assert!(pbe.create_file_entry("f1", "alice", 8_000, "node1").is_ok());
    assert_eq!(pbe.get_user_storage_usage("alice"), 8_000);
    // the remaining allowance no longer covers another large file
    let denied = pbe.create_file_entry("f2", "alice", 5_000, "node1");
    assert!(denied.is_err());
    assert_eq!(pbe.get_user_storage_usage("alice"), 8_000);
}

#[test]
fn file_access_is_owner_only() {
    let mut pbe = ProgrammableBusinessEngine::new(1_000);
    pbe.stake_tokens("alice", 10).unwrap();
    pbe.create_file_entry("f1", "alice", 100, "node1").unwrap();
    assert!(pbe.check_access("alice", "f1", AccessType::Read));
    assert!(!pbe.check_access("bob", "f1", AccessType::Read));
    assert!(!pbe.check_access("alice", "missing", AccessType::Read));
}

#[test]
fn node_health_updates_are_recorded() {
    let mut pbe = ProgrammableBusinessEngine::new(1);
    pbe.register_node("n1", 1_000).unwrap();
    pbe.update_node_health("n1", false);
    let nodes = pbe.get_all_nodes();
    assert_eq!(nodes.len(), 1);
    assert!(!nodes[0].health_status);
    pbe.update_node_health("n1", true);
    let nodes = pbe.get_all_nodes();
    assert!(nodes[0].health_status);
}

use peerstore::StorageError;
use peerstore::p2p::Network;
use peerstore::p2p::Node;
use peerstore::p2p::find_available_node;
use peerstore::storage_api::StorageAPI;

fn node(id: &str, capacity: u64) -> Node {
    Node::new(
        id.to_string(),
        format!("storage/{}", id),
        format!("127.0.0.1:{}", 9000),
        capacity,
    )
}

#[test]
fn placement_correctness() {
    // nodes with 100 and 50 bytes available and no existing usage
    let mut api = StorageAPI::new(1024, 64);
    api.register_node(node("big", 100));
    api.register_node(node("small", 50));

    // requesting 60 bytes selects the 100-byte node
    assert_eq!(api.select_node(60), Ok(0));
    // requesting 120 bytes fits nowhere
    assert_eq!(api.select_node(120), Err(StorageError::NoSuitableNode));
}

#[test]
fn find_available_node_picks_first_fit() {
    let nodes = vec![node("a", 10), node("b", 100), node("c", 200)];
    let hit = find_available_node(50, &nodes).unwrap();
    assert_eq!(hit.id, "b");
    assert!(find_available_node(500, &nodes).is_none());
}

#[test]
fn registry_add_is_idempotent() {
    let mut net = Network::new();
    net.add_node(node("n1", 100));
    net.add_node(node("n1", 999));
    let nodes = net.get_nodes();
    assert_eq!(nodes.len(), 1);
    assert_eq!(nodes[0].total_space, 100);
}

#[test]
fn upload_and_download_round_trip() {
    let mut api = StorageAPI::new(512, 128);
    api.register_node(node("n1", 1 << 20));
    let data = vec![11u8; 3000];
    let fid = api.upload_file("file.bin", &data, "alice", "pw").unwrap();
    let back = api.download_file(&fid, "pw").unwrap();
    assert_eq!(back, data);
}

#[test]
fn chunk_integrity_on_download() {
    let mut api = StorageAPI::new(512, 128);
    api.register_node(node("n1", 1 << 20));
    let data = vec![13u8; 1000];
    let fid = api.upload_file("file.bin", &data, "alice", "pw").unwrap();

    // corrupt one stored chunk's bytes
    let files = api.list_files();
    let meta = files.iter().find(|m| m.file_id == fid).unwrap();
    let victim = &meta.chunks[0];
    let mut bytes = api.read_chunk(&victim.node_id, &victim.chunk_id).unwrap();
    bytes[0] ^= 0xff;
    api.put_chunk(&victim.node_id, &victim.chunk_id, bytes).unwrap();

    let r = api.download_file(&fid, "pw");
    assert_eq!(r, Err(StorageError::ChunkIntegrity));
}

#[test]
fn missing_chunk_is_a_transfer_failure() {
    let mut api = StorageAPI::new(512, 128);
    api.register_node(node("n1", 1 << 20));
    let fid = api.upload_file("f", &vec![1u8; 500], "alice", "pw").unwrap();
    let files = api.list_files();
    let victim = &files[0].chunks[0];
    api.delete_chunk(&victim.node_id, &victim.chunk_id).unwrap();
    assert_eq!(api.download_file(&fid, "pw"), Err(StorageError::Transfer));
}

#[test]
fn download_unknown_file_is_not_found() {
    let api = StorageAPI::new(512, 128);
    assert_eq!(api.download_file("nope", "pw"), Err(StorageError::NotFound));
}

#[test]
fn upload_without_capacity_fails() {
    let mut api = StorageAPI::new(512, 128);
    api.register_node(node("tiny", 64));
    let r = api.upload_file("f", &vec![0u8; 100_000], "alice", "pw");
    assert_eq!(r, Err(StorageError::NoSuitableNode));
    assert!(api.list_files().is_empty());
}

const MB: usize = 1024 * 1024;

#[test]
fn end_to_end_25mb_upload() {
    // 10 MB cipher chunks, 1 MB placement chunks, nodes of 5/15/30 MB
    let mut api = StorageAPI::new(10 * MB, MB);
    api.register_node(node("n5", 5 * MB as u64));
    api.register_node(node("n15", 15 * MB as u64));
    api.register_node(node("n30", 30 * MB as u64));

    let data = vec![42u8; 25 * MB];
    let fid = api.upload_file("big.bin", &data, "alice", "pw").unwrap();

    let files = api.list_files();
    let meta = files.iter().find(|m| m.file_id == fid).unwrap();

    // the encrypted blob: three padded cipher chunks with 4-byte
    // prefixes, plus the 32-byte tag
    let blob_len: u64 = (10 * MB as u64 + 16 + 4) * 2 + (5 * MB as u64 + 16 + 4) + 32;
    let expected_chunks = (blob_len + MB as u64 - 1) / MB as u64;
    assert_eq!(meta.chunks.len() as u64, expected_chunks);
    assert_eq!(expected_chunks, 26);

    let total: u64 = meta.chunks.iter().map(|c| c.size).sum();
    assert_eq!(total, blob_len);
    assert_ne!(total, 25 * MB as u64); // ciphertext is longer than plaintext

    let back = api.download_file(&fid, "pw").unwrap();
    assert_eq!(back.len(), data.len());
    assert!(back == data);
}

#[test]
fn delete_scenario_frees_exactly_what_was_stored() {
    let mut api = StorageAPI::new(10 * MB, MB);
    api.register_node(node("n5", 5 * MB as u64));
    api.register_node(node("n15", 15 * MB as u64));
    api.register_node(node("n30", 30 * MB as u64));

    let data = vec![42u8; 25 * MB];
    let fid = api.upload_file("big.bin", &data, "alice", "pw").unwrap();

    let before = api.list_nodes();
    let stored_per_node: Vec<u64> = before
        .iter()
        .map(|n| n.total_space - n.available_space)
        .collect();
    assert!(stored_per_node.iter().all(|&b| b > 0));

    // a different owner must be refused, with nothing changed
    assert_eq!(api.delete_file(&fid, "mallory"), Err(StorageError::Authorization));
    let unchanged = api.list_nodes();
    for (n, m) in before.iter().zip(unchanged.iter()) {
        assert_eq!(n.available_space, m.available_space);
    }
    assert_eq!(api.list_files().len(), 1);

    // the owner's delete removes all chunks and returns every byte
    api.delete_file(&fid, "alice").unwrap();
    assert!(api.list_files().is_empty());
    let after = api.list_nodes();
    for (i, n) in after.iter().enumerate() {
        assert_eq!(
            n.available_space,
            before[i].available_space + stored_per_node[i]
        );
        assert_eq!(n.available_space, n.total_space);
    }
    assert_eq!(api.download_file(&fid, "pw"), Err(StorageError::NotFound));
}

#[test]
fn uploads_get_distinct_identifiers() {
    let mut api = StorageAPI::new(512, 128);
    api.register_node(node("n1", 1 << 20));
    let a = api.upload_file("a", &vec![1u8; 300], "alice", "pw").unwrap();
    let b = api.upload_file("b", &vec![2u8; 300], "alice", "pw").unwrap();
    assert_ne!(a, b);
    assert_eq!(api.download_file(&a, "pw").unwrap(), vec![1u8; 300]);
    assert_eq!(api.download_file(&b, "pw").unwrap(), vec![2u8; 300]);
}

#[test]
fn engine_registration_is_idempotent() {
    let mut api = StorageAPI::new(512, 128);
    api.register_node(node("n1", 100));
    api.register_node(node("n1", 999));
    let nodes = api.list_nodes();
    assert_eq!(nodes.len(), 1);
    assert_eq!(nodes[0].total_space, 100);
}

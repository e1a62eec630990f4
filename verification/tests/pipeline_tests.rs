use peerstore::StorageError;
use peerstore::pipeline::decrypt_data_chunked;
use peerstore::pipeline::encrypt_data_chunked;
use peerstore::pipeline::split_into_chunks;
use peerstore::storage_api::calculate_hash;
use peerstore::textform::bytes_to_hex;
use peerstore::textform::str_equal;
use peerstore::textform::u64_to_dec;
use peerstore::vault::KeyVault;
use peerstore::vault::decrypt_key_data;
use peerstore::vault::encrypt_key_data;
use peerstore::vault::generate_key_iv;

fn round_trip(data: Vec<u8>, chunk_size: usize) {
    let mut vault = KeyVault::new();
    let blob = encrypt_data_chunked(&mut vault, "fid", &data, "pw", chunk_size).unwrap();
    let back = decrypt_data_chunked(&vault, "fid", &blob, "pw").unwrap();
    assert_eq!(back, data);
}

#[test]
fn round_trip_empty() {
    round_trip(Vec::new(), 1024);
}

#[test]
fn round_trip_small_and_boundary_sizes() {
    round_trip(vec![42u8], 1024);
    round_trip((0..255u8).collect(), 16);
    round_trip(vec![7u8; 1024], 1024); // exactly one chunk
    round_trip(vec![9u8; 1025], 1024); // one chunk and one byte
    round_trip(vec![1u8; 5000], 512);
}

#[test]
fn empty_input_blob_is_only_the_tag() {
    let mut vault = KeyVault::new();
    let blob = encrypt_data_chunked(&mut vault, "fid", &Vec::new(), "pw", 1024).unwrap();
    assert_eq!(blob.len(), 32);
    let back = decrypt_data_chunked(&vault, "fid", &blob, "pw").unwrap();
    assert!(back.is_empty());
}

#[test]
fn tamper_detection_single_bit_flips() {
    let mut vault = KeyVault::new();
    let data = vec![5u8; 700];
    let blob = encrypt_data_chunked(&mut vault, "fid", &data, "pw", 256).unwrap();
    // flip one bit in the ciphertext body, in the length framing, and in
    // the tag itself: every position must be caught by the tag check
    for pos in [0usize, 4, blob.len() / 2, blob.len() - 33, blob.len() - 1] {
        let mut bad = blob.clone();
        bad[pos] ^= 0x01;
        let r = decrypt_data_chunked(&vault, "fid", &bad, "pw");
        assert_eq!(r, Err(StorageError::Integrity), "bit flip at {} not caught", pos);
    }
}

#[test]
fn short_blob_is_corruption() {
    let mut vault = KeyVault::new();
    let _ = encrypt_data_chunked(&mut vault, "fid", &vec![1u8; 8], "pw", 64).unwrap();
    let r = decrypt_data_chunked(&vault, "fid", &vec![0u8; 31], "pw");
    assert_eq!(r, Err(StorageError::Corruption));
}

#[test]
fn unknown_file_id_is_key_not_found() {
    let vault = KeyVault::new();
    let r = decrypt_data_chunked(&vault, "missing", &vec![0u8; 64], "pw");
    assert_eq!(r, Err(StorageError::KeyNotFound));
}

#[test]
fn wrong_password_is_key_corruption() {
    let mut vault = KeyVault::new();
    let data = vec![3u8; 100];
    let blob = encrypt_data_chunked(&mut vault, "fid", &data, "right", 64).unwrap();
    let r = decrypt_data_chunked(&vault, "fid", &blob, "wrong");
    assert_eq!(r, Err(StorageError::KeyCorruption));
}

#[test]
fn key_idempotence() {
    let mut vault = KeyVault::new();
    let first = vault.get_or_create("fid", "pw").unwrap();
    let second = vault.get_or_create("fid", "pw").unwrap();
    assert_eq!(first.key, second.key);
    assert_eq!(first.iv, second.iv);

    // a third call with a different password never re-keys the vault
    let records_before = vault.record_count();
    let _ = vault.get_or_create("fid", "other-password");
    assert_eq!(vault.record_count(), records_before);

    // the original material is still there under the right password
    let third = vault.get_or_create("fid", "pw").unwrap();
    assert_eq!(first.key, third.key);
    assert_eq!(first.iv, third.iv);
}

#[test]
fn key_record_seals_and_unseals() {
    let material = generate_key_iv();
    let blob = encrypt_key_data(&material, "pw");
    assert_eq!(blob.len(), 48);
    let back = decrypt_key_data(&blob, "pw").unwrap();
    assert_eq!(back.key, material.key);
    assert_eq!(back.iv, material.iv);
    assert!(matches!(decrypt_key_data(&blob, "bad"), Err(StorageError::KeyCorruption)));
    assert!(matches!(decrypt_key_data(&vec![0u8; 8], "pw"), Err(StorageError::KeyCorruption)));
}

#[test]
fn split_into_chunks_sizes() {
    let data = vec![1u8; 2500];
    let pieces = split_into_chunks(&data, 1000);
    assert_eq!(pieces.len(), 3);
    assert_eq!(pieces[0].len(), 1000);
    assert_eq!(pieces[1].len(), 1000);
    assert_eq!(pieces[2].len(), 500);
    assert!(split_into_chunks(&Vec::new(), 7).is_empty());
}

#[test]
fn decimal_rendering() {
    assert_eq!(u64_to_dec(0), "0");
    assert_eq!(u64_to_dec(7), "7");
    assert_eq!(u64_to_dec(1234567890), "1234567890");
    assert_eq!(u64_to_dec(u64::MAX), "18446744073709551615");
}

#[test]
fn hex_rendering() {
    assert_eq!(bytes_to_hex(&vec![]), "");
    assert_eq!(bytes_to_hex(&vec![0x00, 0xff, 0x1a]), "00ff1a");
}

#[test]
fn string_equality_helper() {
    assert!(str_equal("abc", "abc"));
    assert!(!str_equal("abc", "abd"));
    assert!(!str_equal("abc", "ab"));
}

#[test]
fn digest_matches_known_vector() {
    // SHA-256("abc"), the classic known-answer vector
    let data = vec![b'a', b'b', b'c'];
    assert_eq!(
        calculate_hash(&data),
        "ba7816bf8f01cfea414140de5dae2223b00361a396177a9cb410ff61f20015ad"
    );
}

#[test]
fn key_manager_stores_and_returns_keys() {
    let mut km = peerstore::vault::KeyManager::new();
    assert!(km.get_key("f1").is_none());
    let kd = generate_key_iv();
    let key = kd.key.clone();
    km.store_key("f1".to_string(), kd);
    let got = km.get_key("f1").unwrap();
    assert_eq!(got.key, key);
    assert_eq!(got.key.len(), 16);
    assert_eq!(got.iv.len(), 16);
}

#[test]
fn node_space_bookkeeping() {
    let mut n = peerstore::p2p::Node::new(
        "n1".to_string(),
        "storage/n1".to_string(),
        "127.0.0.1:9000".to_string(),
        1_000,
    );
    assert_eq!(n.available_space, 1_000);
    n.update_available_space(250);
    assert_eq!(n.available_space, 750);
    n.update_available_space(1_000); // larger than what is free: unchanged
    assert_eq!(n.available_space, 750);
}

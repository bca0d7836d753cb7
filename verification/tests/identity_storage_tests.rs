use devilchain::identity::DevilIDRegistry;
use devilchain::storage::DevilStorageNode;
use sha2::{Digest, Sha256};

fn sha_hex(data: &[u8]) -> String {
    hex::encode(Sha256::digest(data))
}

#[test]
fn create_identity_and_resolve() {
    let mut reg = DevilIDRegistry::new();
    let did = reg.create_at("db1xalice", "alice", "Alice", "hello", "cid1", 1_700_000_000).unwrap();
    assert_eq!(did, "did:devil:db1xalice");
    let doc = reg.resolve("db1xalice").unwrap();
    assert_eq!(doc.id, "did:devil:db1xalice");
    assert_eq!(doc.controller, "db1xalice");
    assert_eq!(doc.username, "alice");
    assert_eq!(doc.display_name, "Alice");
    assert_eq!(doc.bio, "hello");
    assert_eq!(doc.avatar_cid, "cid1");
    assert_eq!(doc.created_at, 1_700_000_000);
    assert_eq!(doc.reputation, 0);
    assert!(!doc.dao_verified);
    assert!(doc.credentials.is_empty());
    assert_eq!(reg.resolve_username("alice").unwrap().controller, "db1xalice");
    assert!(reg.resolve("db1xbob").is_none());
    assert!(reg.resolve_username("bob").is_none());
}

#[test]
fn create_with_current_time() {
    let mut reg = DevilIDRegistry::new();
    assert_eq!(reg.create("db1xcarol", "carol", "", "", "").unwrap(), "did:devil:db1xcarol");
    assert!(reg.resolve("db1xcarol").unwrap().created_at > 1_600_000_000);
}

#[test]
fn create_errors_in_order() {
    let mut reg = DevilIDRegistry::new();
    reg.create_at("db1xalice", "alice", "", "", "", 1).unwrap();
    assert_eq!(reg.create_at("db1xalice", "al", "", "", "", 2), Err("Identity already exists".to_string()));
    assert_eq!(reg.create_at("db1xbob", "alice", "", "", "", 2), Err("Username taken".to_string()));
    assert_eq!(reg.create_at("db1xbob", "bo", "", "", "", 2), Err("Username too short".to_string()));
    assert!(reg.resolve("db1xbob").is_none());
    // Three bytes is long enough, even as one character and a letter.
    assert_eq!(reg.create_at("db1xbob", "é1", "", "", "", 2), Ok("did:devil:db1xbob".to_string()));
}

#[test]
fn username_stays_with_first_owner() {
    let mut reg = DevilIDRegistry::new();
    reg.create_at("db1xalice", "shared", "", "", "", 1).unwrap();
    assert!(reg.create_at("db1xbob", "shared", "", "", "", 2).is_err());
    assert_eq!(reg.resolve_username("shared").unwrap().controller, "db1xalice");
}

#[test]
fn dao_verification_adds_reputation() {
    let mut reg = DevilIDRegistry::new();
    reg.create_at("db1xalice", "alice", "", "", "", 1).unwrap();
    reg.dao_verify("db1xalice");
    reg.dao_verify("db1xalice");
    let doc = reg.resolve("db1xalice").unwrap();
    assert!(doc.dao_verified);
    assert_eq!(doc.reputation, 200);
    reg.dao_verify("db1xnobody");
    assert!(reg.resolve("db1xnobody").is_none());
}

#[test]
fn credentials_are_issued_and_revoked() {
    let mut reg = DevilIDRegistry::new();
    reg.create_at("db1xalice", "alice", "", "", "", 1).unwrap();
    let id = reg.issue_credential_at("db1xissuer", "db1xalice", "kyc", "passport", 99, 7);
    assert_eq!(id, sha_hex(b"db1xissuerdb1xalicekycpassport"));
    let doc = reg.resolve("db1xalice").unwrap();
    assert_eq!(doc.credentials.len(), 1);
    let c = &doc.credentials[0];
    assert_eq!(c.id, id);
    assert_eq!(c.issuer, "db1xissuer");
    assert_eq!(c.subject, "db1xalice");
    assert_eq!(c.credential_type, "kyc");
    assert_eq!(c.data_hash, sha_hex(b"passport"));
    assert_eq!(c.issued_at, 7);
    assert_eq!(c.expires_at, 99);
    assert!(!c.revoked);

    reg.revoke_credential("db1xalice", &id);
    assert!(reg.resolve("db1xalice").unwrap().credentials[0].revoked);
    reg.revoke_credential("db1xalice", "unknown");
    assert_eq!(reg.resolve("db1xalice").unwrap().credentials.len(), 1);
}

#[test]
fn credential_for_unknown_subject_is_not_stored() {
    let mut reg = DevilIDRegistry::new();
    let id = reg.issue_credential("db1xissuer", "db1xghost", "kyc", "x", 0);
    assert_eq!(id, sha_hex(b"db1xissuerdb1xghostkycx"));
    assert!(reg.resolve("db1xghost").is_none());
}

#[test]
fn cid_is_prefixed_sha256() {
    assert_eq!(DevilStorageNode::compute_cid(b"hello"), format!("dvl1{}", sha_hex(b"hello")));
    assert_eq!(
        DevilStorageNode::compute_cid(b""),
        "dvl1e3b0c44298fc1c149afbf4c8996fb92427ae41e4649b934ca495991b7852b855"
    );
}

#[test]
fn storage_node_capacity_in_gib() {
    let node = DevilStorageNode::new("db1xstorage001", "/data/devil-storage", 100);
    assert_eq!(node.capacity_bytes, 100 * 1024 * 1024 * 1024);
    assert_eq!(node.used_bytes, 0);
    assert_eq!(node.file_count(), 0);
    assert_eq!(node.node_address, "db1xstorage001");
    assert_eq!(node.storage_path, "/data/devil-storage");
}

#[test]
fn full_node_refuses_to_store() {
    let node = DevilStorageNode::new("n", "/tmp", 0);
    assert_eq!(node.plan_store(b"x"), Err("Storage node full"));
    assert_eq!(node.plan_store(b""), Ok(DevilStorageNode::compute_cid(b"")));
}

#[test]
fn store_lookup_and_delete_records() {
    let mut node = DevilStorageNode::new("n", "/tmp", 1);
    let cid = node.plan_store(b"abc").unwrap();
    node.commit_store(cid.clone(), 3, "a.txt", "db1xowner", true, 42);
    assert_eq!(node.used_bytes, 3);
    assert_eq!(node.file_count(), 1);
    let meta = node.lookup_file(&cid).unwrap();
    assert_eq!(meta.cid, cid);
    assert_eq!(meta.file_name, "a.txt");
    assert_eq!(meta.size_bytes, 3);
    assert_eq!(meta.owner, "db1xowner");
    assert_eq!(meta.uploaded_at, 42);
    assert!(meta.is_public);
    assert_eq!(meta.chunk_count, 1);
    assert_eq!(meta.replicas, 1);

    let removed = node.remove_record(&cid).unwrap();
    node.release_bytes(removed.size_bytes);
    assert_eq!(node.used_bytes, 0);
    assert_eq!(node.file_count(), 0);
    assert!(node.lookup_file(&cid).is_none());
    assert!(node.remove_record(&cid).is_none());
    node.release_bytes(10);
    assert_eq!(node.used_bytes, 0);
}

#[test]
fn usernames_keep_resolving_after_later_operations() {
    let mut reg = DevilIDRegistry::new();
    reg.create_at("db1xalice", "alice", "", "", "", 1).unwrap();
    reg.create_at("db1xbob", "bob", "", "", "", 2).unwrap();
    reg.dao_verify("db1xalice");
    let id = reg.issue_credential_at("db1xissuer", "db1xalice", "kyc", "p", 9, 3);
    reg.revoke_credential("db1xalice", &id);
    assert!(reg.create_at("db1xcarol", "alice", "", "", "", 4).is_err());
    let doc = reg.resolve_username("alice").unwrap();
    assert_eq!(doc.controller, "db1xalice");
    assert_eq!(doc.username, "alice");
    assert_eq!(reg.resolve_username("bob").unwrap().controller, "db1xbob");
    assert!(reg.resolve_username("carol").is_none());
    assert!(reg.resolve_username("nobody").is_none());
}

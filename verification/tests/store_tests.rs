use fileshare::data::{
    create_shared_file, ContentLocation, ShareDirectory, ShareDirectorySignature, SharedFile,
};
use fileshare::peer::PeerId;
use fileshare::store::{AppConfig, StoredConfig};

fn peer(tag: u128) -> PeerId {
    PeerId { hostname: format!("host{}", tag), uuid: tag }
}

fn dir(id: u128, stamp: i64, members: Vec<PeerId>, files: Vec<SharedFile>) -> ShareDirectory {
    ShareDirectory {
        signature: ShareDirectorySignature {
            name: "docs".to_string(),
            identifier: id,
            last_modified: stamp,
            shared_peers: members,
        },
        shared_files: files,
    }
}

fn file(id: u128, hash: u64, owners: Vec<PeerId>) -> SharedFile {
    SharedFile {
        name: format!("f{}", id),
        identifier: id,
        content_hash: hash,
        last_modified: 1,
        content_location: ContentLocation::NetworkOnly,
        owned_peers: owners,
        size: 10,
    }
}

fn store_with(dirs: Vec<ShareDirectory>) -> StoredConfig {
    let mut cfg = AppConfig::default();
    cfg.download_directory = "downloads".to_string();
    let s = StoredConfig::new(cfg, dirs);
    assert!(s.check_wf());
    s
}

#[test]
fn synchronize_adopts_strictly_newer_copies() {
    let a = peer(1);
    let b = peer(2);
    let mut store = store_with(vec![dir(7, 10, vec![a.clone(), b.clone()], vec![])]);

    let incoming = dir(
        7,
        20,
        vec![a.clone(), b.clone()],
        vec![file(100, 42, vec![a.clone()])],
    );
    let after = store.synchronize(vec![incoming], &b);

    assert_eq!(after.len(), 1);
    assert_eq!(after[0].shared_files.len(), 1);
    assert_eq!(after[0].shared_files[0].identifier, 100);
}

#[test]
fn synchronize_ignores_stale_copies() {
    let a = peer(1);
    let b = peer(2);
    let mut store = store_with(vec![dir(7, 30, vec![a.clone(), b.clone()], vec![])]);

    let incoming = dir(7, 20, vec![a.clone()], vec![file(100, 42, vec![a.clone()])]);
    let after = store.synchronize(vec![incoming], &b);

    assert_eq!(after.len(), 1);
    assert_eq!(after[0].shared_files.len(), 0);
    assert_eq!(after[0].signature.shared_peers.len(), 2);
}

#[test]
fn synchronize_keeps_locally_owned_additions() {
    let a = peer(1);
    let b = peer(2);
    let local_file = file(200, 9, vec![b.clone()]);
    let mut store = store_with(vec![dir(7, 10, vec![a.clone(), b.clone()], vec![local_file])]);

    let incoming = dir(7, 20, vec![a.clone(), b.clone()], vec![]);
    let after = store.synchronize(vec![incoming], &b);

    assert_eq!(after[0].shared_files.len(), 1);
    assert_eq!(after[0].shared_files[0].identifier, 200);
}

#[test]
fn shared_directory_rejects_a_second_copy() {
    let a = peer(1);
    let mut store = store_with(vec![]);
    assert!(store.shared_directory(dir(7, 1, vec![a.clone()], vec![])).is_ok());
    assert!(store.shared_directory(dir(7, 2, vec![a.clone()], vec![])).is_err());
}

#[test]
fn generate_filepath_yields_primary_and_fallback() {
    let a = peer(1);
    let store = store_with(vec![dir(7, 1, vec![a.clone()], vec![file(100, 5, vec![a.clone()])])]);
    let (primary, fallback) = store.generate_filepath(7, 100, 0).unwrap();
    assert_eq!(primary, "downloads/f100");
    assert_eq!(
        fallback,
        "downloads/f100/00000000-0000-0000-0000-000000000000"
    );
}

#[test]
fn created_entry_carries_the_payload_checksum() {
    let me = peer(1);
    let data = vec![1u8, 2, 3, 4];
    let entry = create_shared_file(
        "a.bin".to_string(),
        5,
        100,
        &me,
        "/tmp/a.bin".to_string(),
        &data,
    );
    assert_eq!(entry.size, 4);
    assert_eq!(entry.content_hash, cryptohelpers::crc::compute_slice(&data));

    let other = create_shared_file(
        "b.bin".to_string(),
        6,
        100,
        &me,
        "/tmp/b.bin".to_string(),
        &vec![9u8, 9, 9],
    );
    assert_ne!(entry.content_hash, other.content_hash);
}

#[test]
fn get_filepath_reports_only_local_payloads() {
    let a = peer(1);
    let mut f = file(100, 5, vec![a.clone()]);
    f.content_location = ContentLocation::LocalPath("/data/f100".to_string());
    let store = store_with(vec![dir(7, 1, vec![a.clone()], vec![f])]);
    assert_eq!(store.get_filepath(7, 100).unwrap(), "/data/f100");
    assert!(store.get_filepath(7, 999).is_none());
}

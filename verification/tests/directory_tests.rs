use fileshare::data::{ContentLocation, ShareDirectory, ShareDirectorySignature, SharedFile};
use fileshare::peer::PeerId;

const HOSTNAME: &str = "test";
const PEER_UUID: u128 = 0;
const NOW: i64 = 1000;

fn peer_from_bytes(hostname: &str, bytes: [u8; 16]) -> PeerId {
    PeerId { hostname: hostname.to_string(), uuid: u128::from_be_bytes(bytes) }
}

fn setup() -> ShareDirectory {
    let now = NOW;
    let peer = PeerId { hostname: HOSTNAME.to_string(), uuid: PEER_UUID };

    let signature = ShareDirectorySignature {
        name: "test".to_string(),
        identifier: 0xfeed,
        last_modified: now,
        shared_peers: vec![peer.clone()],
    };

    let shared_file = SharedFile {
        name: "test file".to_string(),
        identifier: 0,
        content_hash: 0,
        last_modified: now,
        content_location: ContentLocation::NetworkOnly,
        owned_peers: vec![peer],
        size: 0,
    };

    ShareDirectory { signature, shared_files: vec![shared_file] }
}

fn file_by_id(dir: &ShareDirectory, id: u128) -> Option<&SharedFile> {
    dir.shared_files.iter().find(|f| f.identifier == id)
}

fn owners_contain(file: &SharedFile, p: &PeerId) -> bool {
    file.owned_peers.iter().any(|q| q.eq_peer(p))
}

#[test]
fn add_owner_should_contain_new_peer_id() {
    let mut directory = setup();
    let mod_date = NOW + 1;
    let peer_id_bytes = [0, 1, 2, 3, 4, 5, 6, 7, 8, 9, 10, 11, 12, 13, 14, 15];
    let new_peer = peer_from_bytes("owner", peer_id_bytes);
    let file_ids = vec![0u128];

    directory.add_owner(&new_peer, mod_date, file_ids, None);

    assert!(directory.signature.last_modified == mod_date);
    assert!(owners_contain(file_by_id(&directory, 0).unwrap(), &new_peer));
}

#[test]
fn add_owner_should_not_add_twice() {
    let mut directory = setup();
    let mod_date = NOW + 1;
    let new_peer = PeerId { hostname: HOSTNAME.to_string(), uuid: PEER_UUID };
    let file_ids = vec![0u128];

    directory.add_owner(&new_peer, mod_date, file_ids, None);

    assert!(directory.signature.last_modified == mod_date);
    assert_eq!(file_by_id(&directory, 0).unwrap().owned_peers.len(), 1);
}

#[test]
fn add_owner_should_contain_new_peer_id_and_local_path() {
    let expected_path = "C:\\".to_string();
    let mut directory = setup();
    let mod_date = NOW + 1;
    let peer_id_bytes = [0, 1, 2, 3, 4, 5, 6, 7, 8, 9, 10, 11, 12, 13, 14, 15];
    let new_peer = peer_from_bytes("owner", peer_id_bytes);
    let file_ids = vec![0u128];

    directory.add_owner(&new_peer, mod_date, file_ids, Some(expected_path.clone()));

    assert!(directory.signature.last_modified == mod_date);
    assert!(owners_contain(file_by_id(&directory, 0).unwrap(), &new_peer));

    let file = file_by_id(&directory, 0).unwrap();

    match &file.content_location {
        ContentLocation::NetworkOnly => assert!(false),
        ContentLocation::LocalPath(path) => assert_eq!(path, &expected_path),
    }
}

#[test]
fn add_files_should_contain_new_file() {
    let mut directory = setup();
    let mod_date = NOW + 1;
    let myself = PeerId { hostname: HOSTNAME.to_string(), uuid: PEER_UUID };
    let file_id = u128::from_be_bytes([1; 16]);
    let files = vec![SharedFile {
        name: "file 1".to_string(),
        identifier: file_id,
        content_hash: 1,
        last_modified: mod_date,
        content_location: ContentLocation::NetworkOnly,
        owned_peers: vec![myself],
        size: 1,
    }];

    let result = directory.add_files(files, mod_date);

    assert!(directory.signature.last_modified == mod_date);
    assert_eq!(directory.shared_files.len(), 2);
    assert_eq!(file_by_id(&directory, file_id).unwrap().name, "file 1");
    assert!(result.is_ok());
}

#[test]
fn add_files_should_return_error_when_identifier_already_exists() {
    let mut directory = setup();
    let mod_date = NOW + 1;
    let myself = PeerId { hostname: HOSTNAME.to_string(), uuid: PEER_UUID };
    let file_id = 0u128;
    let files = vec![SharedFile {
        name: "file 1".to_string(),
        identifier: file_id,
        content_hash: 1,
        last_modified: mod_date,
        content_location: ContentLocation::NetworkOnly,
        owned_peers: vec![myself],
        size: 1,
    }];

    let result = directory.add_files(files, mod_date);

    assert!(directory.signature.last_modified != mod_date);
    assert_eq!(directory.shared_files.len(), 1);
    assert!(result.is_err());
}

#[test]
fn add_files_should_return_error_when_file_with_same_content_hash_exists() {
    let mut directory = setup();
    let mod_date = NOW + 1;
    let myself = PeerId { hostname: HOSTNAME.to_string(), uuid: PEER_UUID };
    let file_id = u128::from_be_bytes([1; 16]);
    let files = vec![SharedFile {
        name: "file 2".to_string(),
        identifier: file_id,
        content_hash: 0,
        last_modified: mod_date,
        content_location: ContentLocation::NetworkOnly,
        owned_peers: vec![myself],
        size: 1,
    }];

    let result = directory.add_files(files, mod_date);

    assert!(directory.signature.last_modified != mod_date);
    assert_eq!(directory.shared_files.len(), 1);
    assert!(result.is_err());
}

#[test]
fn remove_files_no_files_should_remain() {
    let mut directory = setup();
    let mod_date = NOW + 1;
    let myself = PeerId { hostname: HOSTNAME.to_string(), uuid: PEER_UUID };
    let file_id = 0u128;

    directory.remove_files(&myself, mod_date, vec![file_id]);

    assert!(directory.signature.last_modified == mod_date);
    assert_eq!(directory.shared_files.len(), 0);
}

#[test]
fn remove_files_file_should_remain_with_fewer_owners() {
    let mut directory = setup();
    let mod_date = NOW + 1;
    let myself = PeerId { hostname: HOSTNAME.to_string(), uuid: PEER_UUID };
    let file_id = 0u128;
    let new_peer = peer_from_bytes("test 2", [1; 16]);
    directory.shared_files[0].owned_peers.push(new_peer.clone());

    directory.remove_files(&myself, mod_date, vec![file_id]);

    assert!(directory.signature.last_modified == mod_date);
    assert_eq!(directory.shared_files.len(), 1);
    assert!(file_by_id(&directory, file_id).unwrap().owned_peers[0].eq_peer(&new_peer));
}

#[test]
fn remove_peer_no_files_should_remain() {
    let mut directory = setup();
    let mod_date = NOW + 1;
    let myself = PeerId { hostname: HOSTNAME.to_string(), uuid: PEER_UUID };

    directory.remove_peer(&myself, mod_date);

    assert!(directory.signature.last_modified == mod_date);
    assert_eq!(directory.shared_files.len(), 0);
}

#[test]
fn remove_peer_single_file_should_remain() {
    let mut directory = setup();
    let mod_date = NOW + 1;
    let myself = PeerId { hostname: HOSTNAME.to_string(), uuid: PEER_UUID };
    let new_peer = peer_from_bytes("test 2", [1; 16]);
    directory.signature.shared_peers.push(new_peer.clone());
    directory.shared_files[0].owned_peers.push(new_peer.clone());

    directory.remove_peer(&myself, mod_date);

    assert!(directory.signature.last_modified == mod_date);
    assert!(directory.signature.shared_peers.iter().any(|p| p.eq_peer(&new_peer)));
    assert!(owners_contain(file_by_id(&directory, 0).unwrap(), &new_peer));
    assert_eq!(directory.shared_files.len(), 1);
}

#[test]
fn remove_peer_only_shared_peers_should_change() {
    let mut directory = setup();
    let mod_date = NOW + 1;
    let myself = PeerId { hostname: HOSTNAME.to_string(), uuid: PEER_UUID };
    let new_peer = peer_from_bytes("test 2", [1; 16]);
    directory.signature.shared_peers.push(new_peer.clone());

    directory.remove_peer(&new_peer, mod_date);

    assert!(directory.signature.last_modified == mod_date);
    assert!(directory.signature.shared_peers.iter().any(|p| p.eq_peer(&myself)));
    assert_eq!(directory.signature.shared_peers.len(), 1);
    assert_eq!(directory.shared_files.len(), 1);
    assert!(file_by_id(&directory, 0).unwrap().owned_peers[0].eq_peer(&myself));
}

#[test]
fn add_peers_contains_new_peers() {
    let mut directory = setup();
    let mod_date = NOW + 1;
    let myself = PeerId { hostname: HOSTNAME.to_string(), uuid: PEER_UUID };
    let new_peer = peer_from_bytes("test 2", [1; 16]);

    directory.add_peers(vec![new_peer.clone()], mod_date);

    assert_eq!(directory.signature.last_modified, mod_date);
    assert!(directory.signature.shared_peers.iter().any(|p| p.eq_peer(&new_peer)));
    assert!(directory.signature.shared_peers.iter().any(|p| p.eq_peer(&myself)));
}

#[test]
fn add_peers_twice_keeps_one_occurrence() {
    let mut directory = setup();
    let new_peer = peer_from_bytes("test 2", [1; 16]);

    directory.add_peers(vec![new_peer.clone()], NOW + 1);
    directory.add_peers(vec![new_peer.clone()], NOW + 2);

    let occurrences = directory
        .signature
        .shared_peers
        .iter()
        .filter(|p| p.eq_peer(&new_peer))
        .count();
    assert_eq!(occurrences, 1);
}

#[test]
fn add_then_remove_restores_the_directory() {
    let mut directory = setup();
    let myself = PeerId { hostname: HOSTNAME.to_string(), uuid: PEER_UUID };
    let file_id = u128::from_be_bytes([2; 16]);
    let file = SharedFile {
        name: "fresh".to_string(),
        identifier: file_id,
        content_hash: 77,
        last_modified: NOW + 1,
        content_location: ContentLocation::NetworkOnly,
        owned_peers: vec![myself.clone()],
        size: 9,
    };

    assert!(directory.add_files(vec![file], NOW + 1).is_ok());
    assert_eq!(directory.shared_files.len(), 2);
    directory.remove_files(&myself, NOW + 2, vec![file_id]);

    assert_eq!(directory.shared_files.len(), 1);
    assert_eq!(directory.shared_files[0].identifier, 0);
    assert_eq!(directory.shared_files[0].name, "test file");
}

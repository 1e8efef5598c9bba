use fileshare::data::{ContentLocation, ShareDirectory, ShareDirectorySignature, SharedFile};
use fileshare::peer::PeerId;
use fileshare::server::{
    add_local_files, handle_command, supervisor_step, MessageToServer, SupervisorEffect,
};
use fileshare::session::{handle_tcp_message, SessionCommand, SessionEffect, SessionState};
use fileshare::store::{AppConfig, StoredConfig};
use fileshare::window::{WindowRequest, WindowResponse};

fn peer(tag: u128) -> PeerId {
    PeerId { hostname: format!("host{}", tag), uuid: tag }
}

fn empty_store(download_dir: &str) -> StoredConfig {
    let mut cfg = AppConfig::default();
    cfg.download_directory = download_dir.to_string();
    let s = StoredConfig::new(cfg, Vec::new());
    assert!(s.check_wf());
    s
}

fn file(id: u128, hash: u64, owners: Vec<PeerId>) -> SharedFile {
    SharedFile {
        name: format!("f{}", id),
        identifier: id,
        content_hash: hash,
        last_modified: 1,
        content_location: ContentLocation::NetworkOnly,
        owned_peers: owners,
        size: 120 * 1024,
    }
}

const DIR_TEXT: &str = "00000000-0000-0000-0000-000000000007";

#[test]
fn create_and_invite_updates_membership_and_fans_out() {
    let a = peer(1);
    let b = peer(2);
    let mut store = empty_store("downloads");

    // A creates "docs": the store holds it and the user sees the new folder.
    let effects = handle_command(
        &mut store,
        &a,
        &vec![b.clone()],
        WindowResponse::CreateShareDirectory("docs".to_string()),
        7,
        100,
    );
    assert_eq!(store.cached_data.len(), 1);
    assert_eq!(store.cached_data[0].signature.name, "docs");
    assert_eq!(store.cached_data[0].signature.shared_peers.len(), 1);
    assert!(matches!(
        &effects[..],
        [SupervisorEffect::Ui(WindowRequest::NewShareDirectory(_))]
    ));

    // A invites B: membership grows and the new listing goes to every member.
    let effects = handle_command(
        &mut store,
        &a,
        &vec![b.clone()],
        WindowResponse::ShareDirectoryToPeers {
            directory_identifier: DIR_TEXT.to_string(),
            peers: vec![b.clone()],
        },
        8,
        200,
    );
    assert_eq!(store.cached_data[0].signature.shared_peers.len(), 2);
    assert_eq!(store.cached_data[0].signature.last_modified, 200);
    match &effects[..] {
        [SupervisorEffect::Broadcast(members, SessionCommand::SendDirectories(ds)), SupervisorEffect::Ui(WindowRequest::UpdateDirectory(_))] =>
        {
            assert_eq!(members.len(), 2);
            assert_eq!(ds.len(), 1);
            assert!(ds[0].signature.shared_peers.iter().any(|p| p.eq_peer(&b)));
        }
        _ => panic!("wrong effects"),
    }
}

#[test]
fn add_local_files_broadcasts_to_members() {
    let a = peer(1);
    let b = peer(2);
    let mut store = empty_store("downloads");
    let _ = handle_command(
        &mut store,
        &a,
        &vec![],
        WindowResponse::CreateShareDirectory("docs".to_string()),
        7,
        100,
    );
    let _ = handle_command(
        &mut store,
        &a,
        &vec![],
        WindowResponse::ShareDirectoryToPeers {
            directory_identifier: DIR_TEXT.to_string(),
            peers: vec![b.clone()],
        },
        8,
        200,
    );

    let effects = add_local_files(&mut store, &a, 7, vec![file(100, 42, vec![a.clone()])], 300);
    assert_eq!(store.cached_data[0].shared_files.len(), 1);
    assert_eq!(store.cached_data[0].signature.last_modified, 300);
    match &effects[..] {
        [SupervisorEffect::Ui(WindowRequest::UpdateDirectory(d)), SupervisorEffect::Broadcast(members, SessionCommand::AddedFiles(sig, files))] =>
        {
            assert_eq!(d.shared_files.len(), 1);
            assert_eq!(members.len(), 2);
            assert_eq!(sig.last_modified, 300);
            assert_eq!(files.len(), 1);
            assert_eq!(files[0].content_hash, 42);
        }
        _ => panic!("wrong effects"),
    }

    // A second add of the same content is refused and reported.
    let effects = add_local_files(&mut store, &a, 7, vec![file(101, 42, vec![a.clone()])], 400);
    assert_eq!(store.cached_data[0].shared_files.len(), 1);
    assert!(matches!(
        &effects[..],
        [SupervisorEffect::Ui(WindowRequest::Error(_))]
    ));
}

#[test]
fn leave_directory_announces_and_forgets() {
    let a = peer(1);
    let b = peer(2);
    let mut store = empty_store("downloads");
    let _ = handle_command(
        &mut store,
        &a,
        &vec![],
        WindowResponse::CreateShareDirectory("docs".to_string()),
        7,
        100,
    );
    let _ = handle_command(
        &mut store,
        &a,
        &vec![],
        WindowResponse::ShareDirectoryToPeers {
            directory_identifier: DIR_TEXT.to_string(),
            peers: vec![b.clone()],
        },
        8,
        200,
    );

    let effects = handle_command(
        &mut store,
        &a,
        &vec![b.clone()],
        WindowResponse::LeaveDirectory { directory_identifier: DIR_TEXT.to_string() },
        9,
        300,
    );
    assert_eq!(store.cached_data.len(), 0);
    match &effects[..] {
        [SupervisorEffect::Broadcast(members, SessionCommand::LeftDirectory { directory_identifier, date_modified }), SupervisorEffect::Ui(WindowRequest::UpdateShareDirectories(rest))] =>
        {
            assert_eq!(members.len(), 2);
            assert_eq!(*directory_identifier, 7);
            assert_eq!(*date_modified, 300);
            assert!(rest.is_empty());
        }
        _ => panic!("wrong effects"),
    }
}

#[test]
fn left_directory_event_prunes_the_leaver() {
    // B's store has "docs" with a file owned by both peers; A leaves.
    let a = peer(1);
    let b = peer(2);
    let dir = ShareDirectory {
        signature: ShareDirectorySignature {
            name: "docs".to_string(),
            identifier: 7,
            last_modified: 100,
            shared_peers: vec![a.clone(), b.clone()],
        },
        shared_files: vec![file(100, 42, vec![a.clone(), b.clone()])],
    };
    let mut store = StoredConfig::new(AppConfig::default(), vec![dir]);
    assert!(store.check_wf());

    let effects = supervisor_step(
        &mut store,
        &b,
        &vec![],
        MessageToServer::LeftDirectory {
            directory_identifier: 7,
            peer_id: a.clone(),
            date_modified: 500,
        },
    );
    let d = &store.cached_data[0];
    assert_eq!(d.signature.shared_peers.len(), 1);
    assert!(d.signature.shared_peers[0].eq_peer(&b));
    assert_eq!(d.shared_files.len(), 1);
    assert_eq!(d.shared_files[0].owned_peers.len(), 1);
    assert!(d.shared_files[0].owned_peers[0].eq_peer(&b));
    assert!(matches!(
        &effects[..],
        [SupervisorEffect::Ui(WindowRequest::UpdateDirectory(_))]
    ));
}

#[test]
fn request_peer_id_is_answered_with_identity() {
    let me = peer(1);
    let mut store = empty_store("downloads");
    let mut state = SessionState::new(None);
    let effects = handle_tcp_message(
        &mut state,
        &mut store,
        fileshare::codec::TcpMessage::RequestPeerId,
        &me,
        100,
    );
    match &effects[..] {
        [SessionEffect::SendTcp(fileshare::codec::TcpMessage::ReceivePeerId(p))] => {
            assert!(p.eq_peer(&me));
        }
        _ => panic!("wrong effects"),
    }
}

#[test]
fn download_file_picks_a_connected_owner() {
    let a = peer(1);
    let b = peer(2);
    let mut store = empty_store("downloads");
    let _ = handle_command(
        &mut store,
        &b,
        &vec![],
        WindowResponse::CreateShareDirectory("docs".to_string()),
        7,
        100,
    );
    let _ = add_local_files(&mut store, &b, 7, vec![file(5, 42, vec![a.clone()])], 200);

    let effects = handle_command(
        &mut store,
        &b,
        &vec![a.clone()],
        WindowResponse::DownloadFile {
            directory_identifier: DIR_TEXT.to_string(),
            file_identifier: "00000000-0000-0000-0000-000000000005".to_string(),
        },
        99,
        300,
    );
    match &effects[..] {
        [SupervisorEffect::BeginDownload { peer: p, download_id, size, primary, .. }] => {
            assert!(p.eq_peer(&a));
            assert_eq!(*download_id, 99);
            assert_eq!(*size, 120 * 1024);
            assert_eq!(primary, "downloads/f5");
        }
        _ => panic!("wrong effects"),
    }
}

use fileshare::codec::TcpMessage;
use fileshare::data::{ContentLocation, ShareDirectory, ShareDirectorySignature, SharedFile};
use fileshare::discovery::{handle_mdns_event, DiscoveryEffect, DiscoveryState, MdnsEvent};
use fileshare::peer::PeerId;
use fileshare::session::{
    disconnect_session, handle_supervisor_command, handle_tcp_message, part_written,
    upload_open_result, upload_step, SessionCommand, SessionEffect, SessionState,
};
use fileshare::store::{AppConfig, StoredConfig};

fn peer(tag: u128) -> PeerId {
    PeerId { hostname: format!("host{}", tag), uuid: tag }
}

fn store_with_docs(me: &PeerId, other: &PeerId) -> StoredConfig {
    let dir = ShareDirectory {
        signature: ShareDirectorySignature {
            name: "docs".to_string(),
            identifier: 7,
            last_modified: 100,
            shared_peers: vec![me.clone(), other.clone()],
        },
        shared_files: vec![SharedFile {
            name: "f5".to_string(),
            identifier: 5,
            content_hash: 42,
            last_modified: 100,
            content_location: ContentLocation::NetworkOnly,
            owned_peers: vec![other.clone()],
            size: 120 * 1024,
        }],
    };
    let s = StoredConfig::new(AppConfig::default(), vec![dir]);
    assert!(s.check_wf());
    s
}

fn begin_download(state: &mut SessionState, remote: &PeerId, id: u128) {
    state.remote_id = Some(remote.clone());
    let effects = handle_supervisor_command(
        state,
        SessionCommand::StartDownload {
            download_id: id,
            file_identifier: 5,
            directory_identifier: 7,
            destination: "/tmp/f5".to_string(),
            file_name: "f5".to_string(),
            size: 120 * 1024,
        },
    );
    assert_eq!(effects.len(), 2);
    assert!(matches!(
        effects[0],
        SessionEffect::SendTcp(TcpMessage::StartDownload { download_id: i, .. }) if i == id
    ));
    assert!(matches!(effects[1], SessionEffect::NotifyStartedDownload(_)));
}

#[test]
fn upload_pump_chunks_then_ends() {
    let mut state = SessionState::new(Some(peer(2)));
    let effects = upload_open_result(&mut state, 9, true);
    assert!(effects.is_empty());
    assert!(state.uploading);

    // A 120 KiB payload goes out as three parts, then the end marker.
    for chunk in [50 * 1024usize, 50 * 1024, 20 * 1024] {
        let effects = upload_step(&mut state, 9, Ok(vec![7u8; chunk]));
        match &effects[..] {
            [SessionEffect::SendTcp(TcpMessage::ReceiveFilePart { download_id, data })] => {
                assert_eq!(*download_id, 9);
                assert_eq!(data.len(), chunk);
            }
            _ => panic!("expected one part"),
        }
    }
    let effects = upload_step(&mut state, 9, Ok(Vec::new()));
    assert!(matches!(
        &effects[..],
        [SessionEffect::SendTcp(TcpMessage::ReceiveFileEnd { download_id: 9 })]
    ));
    assert!(state.uploads.is_empty());
    assert!(!state.uploading);
}

#[test]
fn canceled_upload_reports_and_stops() {
    let me = peer(1);
    let other = peer(2);
    let mut state = SessionState::new(Some(other));
    let mut store = store_with_docs(&me, &peer(3));
    let _ = upload_open_result(&mut state, 9, true);

    let effects =
        handle_tcp_message(&mut state, &mut store, TcpMessage::CancelDownload { download_id: 9 }, &me, 0);
    assert!(effects.is_empty());
    assert!(state.uploads[0].canceled);

    let effects = upload_step(&mut state, 9, Ok(vec![1u8]));
    match &effects[..] {
        [SessionEffect::SendTcp(TcpMessage::DownloadError { error, download_id })] => {
            assert_eq!(*error, fileshare::codec::DownloadError::Canceled);
            assert_eq!(*download_id, 9);
        }
        _ => panic!("expected a cancellation"),
    }
    assert!(state.uploads.is_empty());
}

#[test]
fn progress_reports_are_nondecreasing_and_capped() {
    let me = peer(1);
    let other = peer(2);
    let mut state = SessionState::new(Some(other.clone()));
    begin_download(&mut state, &other, 9);

    let mut last = 0u64;
    for _ in 0..3 {
        let effects = part_written(&mut state, 9, 40 * 1024, true);
        match &effects[..] {
            [SessionEffect::NotifyDownloadUpdate(9, p)] => {
                assert!(*p >= last);
                last = *p;
            }
            _ => panic!("expected a progress report"),
        }
    }
    assert_eq!(last, 100);

    // More bytes than announced cancel the transfer and drop the file.
    let effects = part_written(&mut state, 9, 40 * 1024, true);
    match &effects[..] {
        [SessionEffect::RemoveFile(p), SessionEffect::NotifyCanceledDownload(9, reason)] => {
            assert_eq!(p, "/tmp/f5");
            assert_eq!(
                reason,
                &fileshare::codec::DownloadError::FileTooLarge.to_string()
            );
        }
        _ => panic!("expected a cancellation"),
    }
    assert!(state.downloads.is_empty());
    let _ = me;
}

#[test]
fn file_end_grants_ownership_and_reports() {
    let me = peer(1);
    let other = peer(2);
    let mut state = SessionState::new(Some(other.clone()));
    let mut store = store_with_docs(&me, &other);
    begin_download(&mut state, &other, 9);

    let effects = handle_tcp_message(
        &mut state,
        &mut store,
        TcpMessage::ReceiveFileEnd { download_id: 9 },
        &me,
        777,
    );
    assert!(matches!(
        &effects[..],
        [SessionEffect::NotifyFinishedDownload(9, 7, 5)]
    ));
    assert!(state.downloads.is_empty());
    let f = &store.cached_data[0].shared_files[0];
    assert_eq!(f.owned_peers.len(), 2);
    assert!(f.owned_peers.iter().any(|p| p.eq_peer(&me)));
    match &f.content_location {
        ContentLocation::LocalPath(p) => assert_eq!(p, "/tmp/f5"),
        _ => panic!("the finished download must be local"),
    }
    assert_eq!(store.cached_data[0].signature.last_modified, 777);
}

#[test]
fn teardown_deletes_partials_and_reports() {
    let other = peer(2);
    let mut state = SessionState::new(Some(other.clone()));
    begin_download(&mut state, &other, 9);

    let effects = disconnect_session(&mut state);
    match &effects[..] {
        [SessionEffect::RemoveFile(p), SessionEffect::NotifyCanceledDownload(9, reason)] => {
            assert_eq!(p, "/tmp/f5");
            assert_eq!(
                reason,
                &fileshare::codec::DownloadError::Disconnected.to_string()
            );
        }
        _ => panic!("expected cleanup effects"),
    }
    assert!(state.downloads.is_empty());
    assert!(!state.uploading);
}

#[test]
fn start_download_errors_tell_what_is_missing() {
    let me = peer(1);
    let other = peer(2);
    let mut state = SessionState::new(Some(other.clone()));
    let mut store = store_with_docs(&me, &other);

    let missing_dir = handle_tcp_message(
        &mut state,
        &mut store,
        TcpMessage::StartDownload { download_id: 1, file_id: 5, dir_id: 999 },
        &me,
        0,
    );
    assert!(matches!(
        &missing_dir[..],
        [SessionEffect::SendTcp(TcpMessage::DownloadError {
            error: fileshare::codec::DownloadError::DirectoryMissing,
            ..
        })]
    ));

    let missing_file = handle_tcp_message(
        &mut state,
        &mut store,
        TcpMessage::StartDownload { download_id: 1, file_id: 999, dir_id: 7 },
        &me,
        0,
    );
    assert!(matches!(
        &missing_file[..],
        [SessionEffect::SendTcp(TcpMessage::DownloadError {
            error: fileshare::codec::DownloadError::FileMissing,
            ..
        })]
    ));

    let not_owned = handle_tcp_message(
        &mut state,
        &mut store,
        TcpMessage::StartDownload { download_id: 1, file_id: 5, dir_id: 7 },
        &me,
        0,
    );
    assert!(matches!(
        &not_owned[..],
        [SessionEffect::SendTcp(TcpMessage::DownloadError {
            error: fileshare::codec::DownloadError::FileNotOwned,
            ..
        })]
    ));
}

#[test]
fn resolved_services_are_reported_once_and_retried() {
    let mut state = DiscoveryState::new();
    let resolved = MdnsEvent::ServiceResolved {
        fullname: "a._ktu_fileshare._tcp.local.".to_string(),
        hostname: "a.local.".to_string(),
    };
    let effects = handle_mdns_event(&mut state, resolved);
    assert!(matches!(&effects[..], [DiscoveryEffect::EmitFound(_)]));

    // Once connected, a second resolution is deduplicated.
    let _ = handle_mdns_event(
        &mut state,
        MdnsEvent::ConnectedService { fullname: "a._ktu_fileshare._tcp.local.".to_string() },
    );
    let again = MdnsEvent::ServiceResolved {
        fullname: "a._ktu_fileshare._tcp.local.".to_string(),
        hostname: "a.local.".to_string(),
    };
    assert!(handle_mdns_event(&mut state, again).is_empty());

    // A disconnected service is re-reported only after the retry delay.
    let _ = handle_mdns_event(
        &mut state,
        MdnsEvent::RemoveService {
            fullname: "a._ktu_fileshare._tcp.local.".to_string(),
            now: 1000,
        },
    );
    assert!(handle_mdns_event(&mut state, MdnsEvent::Tick { now: 2000 }).is_empty());
    let due = handle_mdns_event(&mut state, MdnsEvent::Tick { now: 1000 + 15000 });
    assert!(matches!(&due[..], [DiscoveryEffect::EmitFound(_)]));
}

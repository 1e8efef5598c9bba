use fileshare::codec::{
    decode_message, encode_message, DownloadError, FrameOutcome, MessageCodec, TcpMessage,
};
use fileshare::data::{ContentLocation, ShareDirectory, ShareDirectorySignature, SharedFile};
use fileshare::peer::PeerId;

fn sample_dir() -> ShareDirectory {
    let peer = PeerId { hostname: "alpha".to_string(), uuid: 7 };
    ShareDirectory {
        signature: ShareDirectorySignature {
            name: "docs".to_string(),
            identifier: 42,
            last_modified: 123456789,
            shared_peers: vec![peer.clone()],
        },
        shared_files: vec![SharedFile {
            name: "notes.txt".to_string(),
            identifier: 9,
            content_hash: 0xdeadbeef,
            last_modified: 123456789,
            content_location: ContentLocation::NetworkOnly,
            owned_peers: vec![peer],
            size: 120 * 1024,
        }],
    }
}

fn assert_roundtrip(m: &TcpMessage) -> TcpMessage {
    let bytes = encode_message(m);
    decode_message(bytes.as_slice()).expect("well-formed message must decode")
}

#[test]
fn message_roundtrip_simple_variants() {
    match assert_roundtrip(&TcpMessage::RequestPeerId) {
        TcpMessage::RequestPeerId => {},
        _ => panic!("wrong variant"),
    }
    match assert_roundtrip(&TcpMessage::Synchronize) {
        TcpMessage::Synchronize => {},
        _ => panic!("wrong variant"),
    }
    match assert_roundtrip(&TcpMessage::CancelDownload { download_id: 5 }) {
        TcpMessage::CancelDownload { download_id } => assert_eq!(download_id, 5),
        _ => panic!("wrong variant"),
    }
    match assert_roundtrip(
        &TcpMessage::DownloadError { error: DownloadError::FileMissing, download_id: 77 },
    ) {
        TcpMessage::DownloadError { error, download_id } => {
            assert_eq!(error, DownloadError::FileMissing);
            assert_eq!(download_id, 77);
        },
        _ => panic!("wrong variant"),
    }
}

#[test]
fn message_roundtrip_peer_and_chunk() {
    let p = PeerId { hostname: "host".to_string(), uuid: 0xabcdef };
    match assert_roundtrip(&TcpMessage::ReceivePeerId(p.clone())) {
        TcpMessage::ReceivePeerId(q) => assert!(q.eq_peer(&p)),
        _ => panic!("wrong variant"),
    }
    let data = vec![1u8, 2, 3, 4, 5];
    match assert_roundtrip(&TcpMessage::ReceiveFilePart { download_id: 8, data: data.clone() }) {
        TcpMessage::ReceiveFilePart { download_id, data: d } => {
            assert_eq!(download_id, 8);
            assert_eq!(d, data);
        },
        _ => panic!("wrong variant"),
    }
}

#[test]
fn message_roundtrip_directories() {
    let dir = sample_dir();
    match assert_roundtrip(&TcpMessage::ReceiveDirectories(vec![dir])) {
        TcpMessage::ReceiveDirectories(ds) => {
            assert_eq!(ds.len(), 1);
            assert_eq!(ds[0].signature.name, "docs");
            assert_eq!(ds[0].signature.identifier, 42);
            assert_eq!(ds[0].shared_files.len(), 1);
            assert_eq!(ds[0].shared_files[0].name, "notes.txt");
            assert_eq!(ds[0].shared_files[0].size, 120 * 1024);
            match ds[0].shared_files[0].content_location {
                ContentLocation::NetworkOnly => {},
                _ => panic!("wire entries must be network-only"),
            }
        },
        _ => panic!("wrong variant"),
    }
}

#[test]
fn wire_strips_local_paths() {
    let mut dir = sample_dir();
    dir.shared_files[0].content_location = ContentLocation::LocalPath("/tmp/x".to_string());
    match assert_roundtrip(&TcpMessage::SharedDirectory(dir)) {
        TcpMessage::SharedDirectory(d) => match d.shared_files[0].content_location {
            ContentLocation::NetworkOnly => {},
            _ => panic!("a local path crossed the wire"),
        },
        _ => panic!("wrong variant"),
    }
}

#[test]
fn frame_roundtrip_and_partial_input() {
    let codec = MessageCodec {};
    let msg = TcpMessage::StartDownload { download_id: 1, file_id: 2, dir_id: 3 };
    let mut frame: Vec<u8> = Vec::new();
    codec.encode(&msg, &mut frame).expect("frame fits the cap");

    match codec.decode(frame.as_slice()) {
        FrameOutcome::Frame(m, consumed) => {
            assert_eq!(consumed, frame.len());
            match m {
                TcpMessage::StartDownload { download_id, file_id, dir_id } => {
                    assert_eq!((download_id, file_id, dir_id), (1, 2, 3));
                },
                _ => panic!("wrong variant"),
            }
        },
        _ => panic!("expected a whole frame"),
    }

    for cut in 0..frame.len() {
        match codec.decode(&frame[..cut]) {
            FrameOutcome::NeedMoreData => {},
            _ => panic!("a shorter buffer than the declared length must ask for more data"),
        }
    }
}

#[test]
fn oversized_length_prefix_is_corrupt() {
    let codec = MessageCodec {};
    let huge: u32 = 104857601;
    let mut buf = huge.to_be_bytes().to_vec();
    buf.push(1);
    match codec.decode(buf.as_slice()) {
        FrameOutcome::Corrupt => {},
        _ => panic!("an oversized frame must be refused"),
    }
}

#[test]
fn error_text_matches() {
    assert_eq!(DownloadError::Canceled.to_string(), "Download was manually canceled.");
    assert_eq!(DownloadError::WriteError.to_string(), "Could not write file.");
}

//! The wire codec: length-prefixed framing around a tagged binary message
//! encoding, with a proved decode-encode round trip.
//!
//! A frame is a 4-byte big-endian payload length followed by the payload;
//! a payload is a tag byte followed by the variant's fields. Integers ride
//! big-endian, strings as a byte count followed by UTF-8, lists as an
//! element count followed by the elements. A file entry's content location
//! never rides the wire: decoded entries are always network-only.

use vstd::prelude::*;
use vstd::utf8::{valid_utf8, decode_utf8, encode_utf8};
use vstd::string::StringSliceAdditionalSpecFns;
use crate::peer::{PeerId, PeerIdV};
use crate::data::{
    ShareDirectory, ShareDirectoryV, ShareDirectorySignature, ShareDirectorySignatureV,
    SharedFile, SharedFileV, ContentLocation, ContentLocationV,
};

verus! {

/// The hard cap on a frame's payload: 100 MiB.
pub const MAX_MESSAGE_SIZE: usize = 104857600;

/// The number of bytes of the frame's length prefix.
pub const LENGTH_MARKER_SIZE: usize = 4;

/// Big-endian bytes of a 32-bit value.
pub open spec fn enc_u32(x: u32) -> Seq<u8> {
    seq![(x >> 24) as u8, (x >> 16) as u8, (x >> 8) as u8, x as u8]
}

/// Big-endian bytes of a 64-bit value.
pub open spec fn enc_u64(x: u64) -> Seq<u8> {
    seq![
        (x >> 56) as u8,
        (x >> 48) as u8,
        (x >> 40) as u8,
        (x >> 32) as u8,
        (x >> 24) as u8,
        (x >> 16) as u8,
        (x >> 8) as u8,
        x as u8,
    ]
}

/// Big-endian bytes of a 128-bit value.
pub open spec fn enc_u128(x: u128) -> Seq<u8> {
    enc_u64((x >> 64) as u64) + enc_u64(x as u64)
}

/// A signed 64-bit value rides as its two's-complement bits.
pub open spec fn enc_i64(x: i64) -> Seq<u8> {
    enc_u64(x as u64)
}

/// The 32-bit value read back from four big-endian bytes.
pub open spec fn dec_u32_val(b: Seq<u8>, i: int) -> u32 {
    (((b[i] as u32) << 24) | ((b[i + 1] as u32) << 16) | ((b[i + 2] as u32) << 8) | (b[i
        + 3] as u32)) as u32
}

/// The 64-bit value read back from eight big-endian bytes.
pub open spec fn dec_u64_val(b: Seq<u8>, i: int) -> u64 {
    (((b[i] as u64) << 56) | ((b[i + 1] as u64) << 48) | ((b[i + 2] as u64) << 40) | ((b[i
        + 3] as u64) << 32) | ((b[i + 4] as u64) << 24) | ((b[i + 5] as u64) << 16) | ((b[i
        + 6] as u64) << 8) | (b[i + 7] as u64)) as u64
}

/// The 128-bit value read back from sixteen big-endian bytes.
pub open spec fn dec_u128_val(b: Seq<u8>, i: int) -> u128 {
    ((dec_u64_val(b, i) as u128) << 64 | (dec_u64_val(b, i + 8) as u128)) as u128
}

/// Reading four bytes undoes writing a 32-bit value.
pub proof fn lemma_u32_roundtrip(b: Seq<u8>, i: int, x: u32)
    requires
        0 <= i,
        i + 4 <= b.len(),
        b.subrange(i, i + 4) == enc_u32(x),
    ensures
        dec_u32_val(b, i) == x,
{
    assert(b[i] == enc_u32(x)[0] && b[i + 1] == enc_u32(x)[1] && b[i + 2] == enc_u32(x)[2] && b[i
        + 3] == enc_u32(x)[3]) by {
        assert(b.subrange(i, i + 4)[0] == b[i]);
        assert(b.subrange(i, i + 4)[1] == b[i + 1]);
        assert(b.subrange(i, i + 4)[2] == b[i + 2]);
        assert(b.subrange(i, i + 4)[3] == b[i + 3]);
    }
    assert((((((x >> 24) as u8) as u32) << 24) | ((((x >> 16) as u8) as u32) << 16) | ((((x
        >> 8) as u8) as u32) << 8) | ((x as u8) as u32)) as u32 == x) by (bit_vector);
}

/// Reading eight bytes undoes writing a 64-bit value.
pub proof fn lemma_u64_roundtrip(b: Seq<u8>, i: int, x: u64)
    requires
        0 <= i,
        i + 8 <= b.len(),
        b.subrange(i, i + 8) == enc_u64(x),
    ensures
        dec_u64_val(b, i) == x,
{
    assert forall|k: int| 0 <= k < 8 implies b[i + k] == enc_u64(x)[k] by {
        assert(b.subrange(i, i + 8)[k] == b[i + k]);
    }
    assert((((((x >> 56) as u8) as u64) << 56) | ((((x >> 48) as u8) as u64) << 48) | ((((x
        >> 40) as u8) as u64) << 40) | ((((x >> 32) as u8) as u64) << 32) | ((((x
        >> 24) as u8) as u64) << 24) | ((((x >> 16) as u8) as u64) << 16) | ((((x
        >> 8) as u8) as u64) << 8) | ((x as u8) as u64)) as u64 == x) by (bit_vector);
}

/// Reading sixteen bytes undoes writing a 128-bit value.
pub proof fn lemma_u128_roundtrip(b: Seq<u8>, i: int, x: u128)
    requires
        0 <= i,
        i + 16 <= b.len(),
        b.subrange(i, i + 16) == enc_u128(x),
    ensures
        dec_u128_val(b, i) == x,
{
    let hi = (x >> 64) as u64;
    let lo = (x as u64) as u64;
    assert forall|k: int| 0 <= k < 16 implies b[i + k] == enc_u128(x)[k] by {
        assert(b.subrange(i, i + 16)[k] == b[i + k]);
    }
    assert forall|k: int| 0 <= k < 8 implies b.subrange(i, i + 8)[k] == enc_u64(hi)[k] by {
        assert(b.subrange(i, i + 8)[k] == b[i + k]);
        assert(enc_u128(x)[k] == enc_u64(hi)[k]);
    }
    assert(b.subrange(i, i + 8) =~= enc_u64(hi));
    assert forall|k: int| 0 <= k < 8 implies b.subrange(i + 8, i + 16)[k] == enc_u64(lo)[k] by {
        assert(b.subrange(i + 8, i + 16)[k] == b[i + 8 + k]);
        assert(enc_u128(x)[8 + k] == enc_u64(lo)[k]);
    }
    assert(b.subrange(i + 8, i + 16) =~= enc_u64(lo));
    lemma_u64_roundtrip(b, i, hi);
    lemma_u64_roundtrip(b, i + 8, lo);
    assert((((((x >> 64) as u64) as u128) << 64) | ((x as u64) as u128)) as u128 == x)
        by (bit_vector);
}

/// Push the big-endian bytes of a 32-bit value.
pub fn push_u32(buf: &mut Vec<u8>, x: u32)
    ensures
        final(buf)@ == old(buf)@ + enc_u32(x),
{
    let ghost prev = buf@;
    buf.push((x >> 24) as u8);
    buf.push((x >> 16) as u8);
    buf.push((x >> 8) as u8);
    buf.push(x as u8);
    proof {
        assert(buf@ =~= prev + enc_u32(x));
    }
}

/// Push the big-endian bytes of a 64-bit value.
pub fn push_u64(buf: &mut Vec<u8>, x: u64)
    ensures
        final(buf)@ == old(buf)@ + enc_u64(x),
{
    let ghost prev = buf@;
    buf.push((x >> 56) as u8);
    buf.push((x >> 48) as u8);
    buf.push((x >> 40) as u8);
    buf.push((x >> 32) as u8);
    buf.push((x >> 24) as u8);
    buf.push((x >> 16) as u8);
    buf.push((x >> 8) as u8);
    buf.push(x as u8);
    proof {
        assert(buf@ =~= prev + enc_u64(x));
    }
}

/// Push the big-endian bytes of a 128-bit value.
pub fn push_u128(buf: &mut Vec<u8>, x: u128)
    ensures
        final(buf)@ == old(buf)@ + enc_u128(x),
{
    let ghost prev = buf@;
    push_u64(buf, (x >> 64) as u64);
    push_u64(buf, x as u64);
    proof {
        assert(buf@ =~= prev + enc_u128(x));
    }
}

/// Read a 32-bit value at the offset, advancing it.
pub fn read_u32(buf: &[u8], at: usize) -> (r: Option<(u32, usize)>)
    ensures
        buf@.len() <= usize::MAX,
        at + 4 <= buf@.len() ==> r == Some((dec_u32_val(buf@, at as int), (at + 4) as usize)),
        at + 4 > buf@.len() ==> r is None,
{
    if buf.len() < 4 || at > buf.len() - 4 {
        return None;
    }
    let x = ((buf[at] as u32) << 24) | ((buf[at + 1] as u32) << 16) | ((buf[at + 2] as u32) << 8)
        | (buf[at + 3] as u32);
    Some((x, at + 4))
}

/// Read a 64-bit value at the offset, advancing it.
pub fn read_u64(buf: &[u8], at: usize) -> (r: Option<(u64, usize)>)
    ensures
        buf@.len() <= usize::MAX,
        at + 8 <= buf@.len() ==> r == Some((dec_u64_val(buf@, at as int), (at + 8) as usize)),
        at + 8 > buf@.len() ==> r is None,
{
    if buf.len() < 8 || at > buf.len() - 8 {
        return None;
    }
    let x = ((buf[at] as u64) << 56) | ((buf[at + 1] as u64) << 48) | ((buf[at + 2] as u64) << 40)
        | ((buf[at + 3] as u64) << 32) | ((buf[at + 4] as u64) << 24) | ((buf[at + 5] as u64)
        << 16) | ((buf[at + 6] as u64) << 8) | (buf[at + 7] as u64);
    Some((x, at + 8))
}

/// Read a 128-bit value at the offset, advancing it.
pub fn read_u128(buf: &[u8], at: usize) -> (r: Option<(u128, usize)>)
    ensures
        buf@.len() <= usize::MAX,
        at + 16 <= buf@.len() ==> r == Some((dec_u128_val(buf@, at as int), (at + 16) as usize)),
        at + 16 > buf@.len() ==> r is None,
{
    let n = buf.len();
    proof {
        assert(n == buf@.len());
    }
    match read_u64(buf, at) {
        None => None,
        Some((hi, at2)) => match read_u64(buf, at2) {
            None => None,
            Some((lo, at3)) => {
                let x = ((hi as u128) << 64) | (lo as u128);
                Some((x, at3))
            },
        },
    }
}

/// Why a transfer failed, as carried on the wire.
#[derive(Clone, Copy, Debug, PartialEq, Eq, Structural)]
pub enum DownloadError {
    NoClientsConnected,
    DirectoryMissing,
    FileMissing,
    FileNotOwned,
    FileTooLarge,
    Disconnected,
    Canceled,
    ReadError,
    WriteError,
}

/// One structured message of the peer-to-peer protocol.
pub enum TcpMessage {
    RequestPeerId,
    ReceivePeerId(PeerId),
    Synchronize,
    ReceiveDirectories(Vec<ShareDirectory>),
    DeleteFile { peer_id: PeerId, directory: ShareDirectorySignature, file: u128 },
    AddedFiles { directory: ShareDirectorySignature, files: Vec<SharedFile> },
    DownloadedFile {
        peer_id: PeerId,
        directory_identifier: u128,
        file_identifier: u128,
        date_modified: i64,
    },
    StartDownload { download_id: u128, file_id: u128, dir_id: u128 },
    CancelDownload { download_id: u128 },
    ReceiveFilePart { download_id: u128, data: Vec<u8> },
    ReceiveFileEnd { download_id: u128 },
    DownloadError { error: DownloadError, download_id: u128 },
    SharedDirectory(ShareDirectory),
    LeftDirectory { directory_identifier: u128, date_modified: i64 },
}

/// Mathematical value of a [`TcpMessage`].
pub enum TcpMessageV {
    RequestPeerId,
    ReceivePeerId(PeerIdV),
    Synchronize,
    ReceiveDirectories(Seq<ShareDirectoryV>),
    DeleteFile { peer_id: PeerIdV, directory: ShareDirectorySignatureV, file: u128 },
    AddedFiles { directory: ShareDirectorySignatureV, files: Seq<SharedFileV> },
    DownloadedFile {
        peer_id: PeerIdV,
        directory_identifier: u128,
        file_identifier: u128,
        date_modified: i64,
    },
    StartDownload { download_id: u128, file_id: u128, dir_id: u128 },
    CancelDownload { download_id: u128 },
    ReceiveFilePart { download_id: u128, data: Seq<u8> },
    ReceiveFileEnd { download_id: u128 },
    DownloadError { error: DownloadError, download_id: u128 },
    SharedDirectory(ShareDirectoryV),
    LeftDirectory { directory_identifier: u128, date_modified: i64 },
}

impl View for TcpMessage {
    type V = TcpMessageV;

    open spec fn view(&self) -> TcpMessageV {
        match self {
            TcpMessage::RequestPeerId => TcpMessageV::RequestPeerId,
            TcpMessage::ReceivePeerId(p) => TcpMessageV::ReceivePeerId(p@),
            TcpMessage::Synchronize => TcpMessageV::Synchronize,
            TcpMessage::ReceiveDirectories(ds) => TcpMessageV::ReceiveDirectories(ds.deep_view()),
            TcpMessage::DeleteFile { peer_id, directory, file } => TcpMessageV::DeleteFile {
                peer_id: peer_id@,
                directory: directory@,
                file: *file,
            },
            TcpMessage::AddedFiles { directory, files } => TcpMessageV::AddedFiles {
                directory: directory@,
                files: files.deep_view(),
            },
            TcpMessage::DownloadedFile {
                peer_id,
                directory_identifier,
                file_identifier,
                date_modified,
            } => TcpMessageV::DownloadedFile {
                peer_id: peer_id@,
                directory_identifier: *directory_identifier,
                file_identifier: *file_identifier,
                date_modified: *date_modified,
            },
            TcpMessage::StartDownload { download_id, file_id, dir_id } => TcpMessageV::StartDownload {
                download_id: *download_id,
                file_id: *file_id,
                dir_id: *dir_id,
            },
            TcpMessage::CancelDownload { download_id } => TcpMessageV::CancelDownload {
                download_id: *download_id,
            },
            TcpMessage::ReceiveFilePart { download_id, data } => TcpMessageV::ReceiveFilePart {
                download_id: *download_id,
                data: data@,
            },
            TcpMessage::ReceiveFileEnd { download_id } => TcpMessageV::ReceiveFileEnd {
                download_id: *download_id,
            },
            TcpMessage::DownloadError { error, download_id } => TcpMessageV::DownloadError {
                error: *error,
                download_id: *download_id,
            },
            TcpMessage::SharedDirectory(d) => TcpMessageV::SharedDirectory(d@),
            TcpMessage::LeftDirectory { directory_identifier, date_modified } => TcpMessageV::LeftDirectory {
                directory_identifier: *directory_identifier,
                date_modified: *date_modified,
            },
        }
    }
}

/// The tag byte of each message variant.
pub open spec fn msg_tag(m: TcpMessageV) -> u8 {
    match m {
        TcpMessageV::RequestPeerId => 1,
        TcpMessageV::ReceivePeerId(..) => 2,
        TcpMessageV::Synchronize => 3,
        TcpMessageV::ReceiveDirectories(..) => 4,
        TcpMessageV::DeleteFile { .. } => 5,
        TcpMessageV::AddedFiles { .. } => 6,
        TcpMessageV::DownloadedFile { .. } => 7,
        TcpMessageV::StartDownload { .. } => 8,
        TcpMessageV::CancelDownload { .. } => 9,
        TcpMessageV::ReceiveFilePart { .. } => 10,
        TcpMessageV::ReceiveFileEnd { .. } => 11,
        TcpMessageV::DownloadError { .. } => 12,
        TcpMessageV::SharedDirectory(..) => 13,
        TcpMessageV::LeftDirectory { .. } => 14,
    }
}

/// The byte standing for a transfer error.
pub open spec fn enc_err(e: DownloadError) -> u8 {
    match e {
        DownloadError::NoClientsConnected => 0,
        DownloadError::DirectoryMissing => 1,
        DownloadError::FileMissing => 2,
        DownloadError::FileNotOwned => 3,
        DownloadError::FileTooLarge => 4,
        DownloadError::Disconnected => 5,
        DownloadError::Canceled => 6,
        DownloadError::ReadError => 7,
        DownloadError::WriteError => 8,
    }
}

/// The transfer error a byte stands for.
pub open spec fn dec_err_val(b: u8) -> Option<DownloadError> {
    if b == 0 {
        Some(DownloadError::NoClientsConnected)
    } else if b == 1 {
        Some(DownloadError::DirectoryMissing)
    } else if b == 2 {
        Some(DownloadError::FileMissing)
    } else if b == 3 {
        Some(DownloadError::FileNotOwned)
    } else if b == 4 {
        Some(DownloadError::FileTooLarge)
    } else if b == 5 {
        Some(DownloadError::Disconnected)
    } else if b == 6 {
        Some(DownloadError::Canceled)
    } else if b == 7 {
        Some(DownloadError::ReadError)
    } else if b == 8 {
        Some(DownloadError::WriteError)
    } else {
        None
    }
}

/// A string rides as a byte count followed by its UTF-8 bytes.
pub open spec fn enc_str(s: Seq<char>) -> Seq<u8> {
    enc_u32(encode_utf8(s).len() as u32) + encode_utf8(s)
}

/// A byte buffer rides as a count followed by the raw bytes.
pub open spec fn enc_bytes(d: Seq<u8>) -> Seq<u8> {
    enc_u32(d.len() as u32) + d
}

/// A peer identity rides as its hostname and its 128-bit identifier.
pub open spec fn enc_peer(p: PeerIdV) -> Seq<u8> {
    enc_str(p.hostname) + enc_u128(p.uuid)
}

/// The elements of a peer list, in order.
pub open spec fn enc_peer_seq(ps: Seq<PeerIdV>) -> Seq<u8>
    decreases ps.len(),
{
    if ps.len() == 0 {
        Seq::empty()
    } else {
        enc_peer(ps[0]) + enc_peer_seq(ps.drop_first())
    }
}

/// A peer list rides as a count followed by its elements.
pub open spec fn enc_peers(ps: Seq<PeerIdV>) -> Seq<u8> {
    enc_u32(ps.len() as u32) + enc_peer_seq(ps)
}

/// A file entry rides without its content location, which is local only.
pub open spec fn enc_file(f: SharedFileV) -> Seq<u8> {
    enc_str(f.name) + enc_u128(f.identifier) + enc_u64(f.content_hash) + enc_i64(f.last_modified)
        + enc_peers(f.owned_peers) + enc_u64(f.size)
}

/// The elements of a file list, in order.
pub open spec fn enc_file_seq(fs: Seq<SharedFileV>) -> Seq<u8>
    decreases fs.len(),
{
    if fs.len() == 0 {
        Seq::empty()
    } else {
        enc_file(fs[0]) + enc_file_seq(fs.drop_first())
    }
}

/// A file list rides as a count followed by its elements.
pub open spec fn enc_files(fs: Seq<SharedFileV>) -> Seq<u8> {
    enc_u32(fs.len() as u32) + enc_file_seq(fs)
}

/// A directory signature: name, identifier, stamp, membership.
pub open spec fn enc_sig(s: ShareDirectorySignatureV) -> Seq<u8> {
    enc_str(s.name) + enc_u128(s.identifier) + enc_i64(s.last_modified) + enc_peers(
        s.shared_peers,
    )
}

/// A directory: its signature followed by its file entries.
pub open spec fn enc_dir(d: ShareDirectoryV) -> Seq<u8> {
    enc_sig(d.signature) + enc_files(d.shared_files)
}

/// The elements of a directory list, in order.
pub open spec fn enc_dir_seq(ds: Seq<ShareDirectoryV>) -> Seq<u8>
    decreases ds.len(),
{
    if ds.len() == 0 {
        Seq::empty()
    } else {
        enc_dir(ds[0]) + enc_dir_seq(ds.drop_first())
    }
}

/// A directory list rides as a count followed by its elements.
pub open spec fn enc_dirs(ds: Seq<ShareDirectoryV>) -> Seq<u8> {
    enc_u32(ds.len() as u32) + enc_dir_seq(ds)
}

/// The payload of a message: its tag byte followed by its fields.
pub open spec fn enc_msg(m: TcpMessageV) -> Seq<u8> {
    seq![msg_tag(m)] + match m {
        TcpMessageV::RequestPeerId => Seq::<u8>::empty(),
        TcpMessageV::ReceivePeerId(p) => enc_peer(p),
        TcpMessageV::Synchronize => Seq::<u8>::empty(),
        TcpMessageV::ReceiveDirectories(ds) => enc_dirs(ds),
        TcpMessageV::DeleteFile { peer_id, directory, file } => enc_peer(peer_id) + enc_sig(
            directory,
        ) + enc_u128(file),
        TcpMessageV::AddedFiles { directory, files } => enc_sig(directory) + enc_files(files),
        TcpMessageV::DownloadedFile {
            peer_id,
            directory_identifier,
            file_identifier,
            date_modified,
        } => enc_peer(peer_id) + enc_u128(directory_identifier) + enc_u128(file_identifier)
            + enc_i64(date_modified),
        TcpMessageV::StartDownload { download_id, file_id, dir_id } => enc_u128(download_id)
            + enc_u128(file_id) + enc_u128(dir_id),
        TcpMessageV::CancelDownload { download_id } => enc_u128(download_id),
        TcpMessageV::ReceiveFilePart { download_id, data } => enc_u128(download_id) + enc_bytes(
            data,
        ),
        TcpMessageV::ReceiveFileEnd { download_id } => enc_u128(download_id),
        TcpMessageV::DownloadError { error, download_id } => seq![enc_err(error)] + enc_u128(
            download_id,
        ),
        TcpMessageV::SharedDirectory(d) => enc_dir(d),
        TcpMessageV::LeftDirectory { directory_identifier, date_modified } => enc_u128(
            directory_identifier,
        ) + enc_i64(date_modified),
    }
}

/// Encodability: every length field of the message fits its 32 bits.
pub open spec fn str_encodable(s: Seq<char>) -> bool {
    encode_utf8(s).len() < 0x100000000
}

pub open spec fn peer_encodable(p: PeerIdV) -> bool {
    str_encodable(p.hostname)
}

pub open spec fn peers_encodable(ps: Seq<PeerIdV>) -> bool {
    ps.len() < 0x100000000 && forall|i: int| 0 <= i < ps.len() ==> peer_encodable(#[trigger] ps[i])
}

pub open spec fn file_encodable(f: SharedFileV) -> bool {
    str_encodable(f.name) && peers_encodable(f.owned_peers)
}

pub open spec fn files_encodable(fs: Seq<SharedFileV>) -> bool {
    fs.len() < 0x100000000 && forall|i: int|
        0 <= i < fs.len() ==> file_encodable(#[trigger] fs[i])
}

pub open spec fn sig_encodable(s: ShareDirectorySignatureV) -> bool {
    str_encodable(s.name) && peers_encodable(s.shared_peers)
}

pub open spec fn dir_encodable(d: ShareDirectoryV) -> bool {
    sig_encodable(d.signature) && files_encodable(d.shared_files)
}

pub open spec fn dirs_encodable(ds: Seq<ShareDirectoryV>) -> bool {
    ds.len() < 0x100000000 && forall|i: int| 0 <= i < ds.len() ==> dir_encodable(#[trigger] ds[i])
}

/// A message whose every length field fits the wire format.
pub open spec fn msg_encodable(m: TcpMessageV) -> bool {
    match m {
        TcpMessageV::RequestPeerId => true,
        TcpMessageV::ReceivePeerId(p) => peer_encodable(p),
        TcpMessageV::Synchronize => true,
        TcpMessageV::ReceiveDirectories(ds) => dirs_encodable(ds),
        TcpMessageV::DeleteFile { peer_id, directory, .. } => peer_encodable(peer_id)
            && sig_encodable(directory),
        TcpMessageV::AddedFiles { directory, files } => sig_encodable(directory)
            && files_encodable(files),
        TcpMessageV::DownloadedFile { peer_id, .. } => peer_encodable(peer_id),
        TcpMessageV::StartDownload { .. } => true,
        TcpMessageV::CancelDownload { .. } => true,
        TcpMessageV::ReceiveFilePart { data, .. } => data.len() < 0x100000000,
        TcpMessageV::ReceiveFileEnd { .. } => true,
        TcpMessageV::DownloadError { .. } => true,
        TcpMessageV::SharedDirectory(d) => dir_encodable(d),
        TcpMessageV::LeftDirectory { .. } => true,
    }
}

/// Read a 32-bit value, where four bytes stand at the offset.
pub open spec fn dec_u32(b: Seq<u8>, i: int) -> Option<(u32, int)> {
    if 0 <= i && i + 4 <= b.len() {
        Some((dec_u32_val(b, i), i + 4))
    } else {
        None
    }
}

/// Read a 64-bit value, where eight bytes stand at the offset.
pub open spec fn dec_u64(b: Seq<u8>, i: int) -> Option<(u64, int)> {
    if 0 <= i && i + 8 <= b.len() {
        Some((dec_u64_val(b, i), i + 8))
    } else {
        None
    }
}

/// Read a 128-bit value, where sixteen bytes stand at the offset.
pub open spec fn dec_u128(b: Seq<u8>, i: int) -> Option<(u128, int)> {
    if 0 <= i && i + 16 <= b.len() {
        Some((dec_u128_val(b, i), i + 16))
    } else {
        None
    }
}

/// Read a signed 64-bit value from its two's-complement bits.
pub open spec fn dec_i64(b: Seq<u8>, i: int) -> Option<(i64, int)> {
    match dec_u64(b, i) {
        Some((v, j)) => Some((v as i64, j)),
        None => None,
    }
}

/// Read one byte.
pub open spec fn dec_byte(b: Seq<u8>, i: int) -> Option<(u8, int)> {
    if 0 <= i && i + 1 <= b.len() {
        Some((b[i], i + 1))
    } else {
        None
    }
}

/// Read a counted string; the bytes must be valid UTF-8.
#[verifier::opaque]
pub open spec fn dec_str(b: Seq<u8>, i: int) -> Option<(Seq<char>, int)> {
    match dec_u32(b, i) {
        None => None,
        Some((n, j)) => if j + n <= b.len() && valid_utf8(b.subrange(j, j + n)) {
            Some((decode_utf8(b.subrange(j, j + n)), j + n))
        } else {
            None
        },
    }
}

/// Read a counted raw byte buffer.
pub open spec fn dec_bytes(b: Seq<u8>, i: int) -> Option<(Seq<u8>, int)> {
    match dec_u32(b, i) {
        None => None,
        Some((n, j)) => if j + n <= b.len() {
            Some((b.subrange(j, j + n), j + n))
        } else {
            None
        },
    }
}

/// Read a peer identity.
#[verifier::opaque]
pub open spec fn dec_peer(b: Seq<u8>, i: int) -> Option<(PeerIdV, int)> {
    match dec_str(b, i) {
        None => None,
        Some((h, j)) => match dec_u128(b, j) {
            None => None,
            Some((u, k)) => Some((PeerIdV { hostname: h, uuid: u }, k)),
        },
    }
}

/// Read `n` peer identities.
pub open spec fn dec_peer_seq(b: Seq<u8>, i: int, n: nat) -> Option<(Seq<PeerIdV>, int)>
    decreases n,
{
    if n == 0 {
        Some((Seq::empty(), i))
    } else {
        match dec_peer(b, i) {
            None => None,
            Some((p, j)) => match dec_peer_seq(b, j, (n - 1) as nat) {
                None => None,
                Some((ps, k)) => Some((seq![p] + ps, k)),
            },
        }
    }
}

/// Read a counted peer list.
pub open spec fn dec_peers(b: Seq<u8>, i: int) -> Option<(Seq<PeerIdV>, int)> {
    match dec_u32(b, i) {
        None => None,
        Some((n, j)) => dec_peer_seq(b, j, n as nat),
    }
}

/// Read a file entry; its content location is always network-only.
#[verifier::opaque]
pub open spec fn dec_file(b: Seq<u8>, i: int) -> Option<(SharedFileV, int)> {
    match dec_str(b, i) {
        None => None,
        Some((name, i1)) => match dec_u128(b, i1) {
            None => None,
            Some((ident, i2)) => match dec_u64(b, i2) {
                None => None,
                Some((hash, i3)) => match dec_i64(b, i3) {
                    None => None,
                    Some((lm, i4)) => match dec_peers(b, i4) {
                        None => None,
                        Some((owners, i5)) => match dec_u64(b, i5) {
                            None => None,
                            Some((size, i6)) => Some(
                                (
                                    SharedFileV {
                                        name,
                                        identifier: ident,
                                        content_hash: hash,
                                        last_modified: lm,
                                        content_location: ContentLocationV::NetworkOnly,
                                        owned_peers: owners,
                                        size,
                                    },
                                    i6,
                                ),
                            ),
                        },
                    },
                },
            },
        },
    }
}

/// Read `n` file entries.
pub open spec fn dec_file_seq(b: Seq<u8>, i: int, n: nat) -> Option<(Seq<SharedFileV>, int)>
    decreases n,
{
    if n == 0 {
        Some((Seq::empty(), i))
    } else {
        match dec_file(b, i) {
            None => None,
            Some((f, j)) => match dec_file_seq(b, j, (n - 1) as nat) {
                None => None,
                Some((fs, k)) => Some((seq![f] + fs, k)),
            },
        }
    }
}

/// Read a counted file list.
pub open spec fn dec_files(b: Seq<u8>, i: int) -> Option<(Seq<SharedFileV>, int)> {
    match dec_u32(b, i) {
        None => None,
        Some((n, j)) => dec_file_seq(b, j, n as nat),
    }
}

/// Read a directory signature.
#[verifier::opaque]
pub open spec fn dec_sig(b: Seq<u8>, i: int) -> Option<(ShareDirectorySignatureV, int)> {
    match dec_str(b, i) {
        None => None,
        Some((name, i1)) => match dec_u128(b, i1) {
            None => None,
            Some((ident, i2)) => match dec_i64(b, i2) {
                None => None,
                Some((lm, i3)) => match dec_peers(b, i3) {
                    None => None,
                    Some((ps, i4)) => Some(
                        (
                            ShareDirectorySignatureV {
                                name,
                                identifier: ident,
                                last_modified: lm,
                                shared_peers: ps,
                            },
                            i4,
                        ),
                    ),
                },
            },
        },
    }
}

/// Read a directory.
#[verifier::opaque]
pub open spec fn dec_dir(b: Seq<u8>, i: int) -> Option<(ShareDirectoryV, int)> {
    match dec_sig(b, i) {
        None => None,
        Some((sig, j)) => match dec_files(b, j) {
            None => None,
            Some((fs, k)) => Some((ShareDirectoryV { signature: sig, shared_files: fs }, k)),
        },
    }
}

/// Read `n` directories.
pub open spec fn dec_dir_seq(b: Seq<u8>, i: int, n: nat) -> Option<(Seq<ShareDirectoryV>, int)>
    decreases n,
{
    if n == 0 {
        Some((Seq::empty(), i))
    } else {
        match dec_dir(b, i) {
            None => None,
            Some((d, j)) => match dec_dir_seq(b, j, (n - 1) as nat) {
                None => None,
                Some((ds, k)) => Some((seq![d] + ds, k)),
            },
        }
    }
}

/// Read a counted directory list.
pub open spec fn dec_dirs(b: Seq<u8>, i: int) -> Option<(Seq<ShareDirectoryV>, int)> {
    match dec_u32(b, i) {
        None => None,
        Some((n, j)) => dec_dir_seq(b, j, n as nat),
    }
}

/// Read the message body after the tag.
#[verifier::opaque]
pub open spec fn dec_body(tag: u8, b: Seq<u8>, i: int) -> Option<(TcpMessageV, int)> {
    if tag == 1 {
        Some((TcpMessageV::RequestPeerId, i))
    } else if tag == 2 {
        match dec_peer(b, i) {
            None => None,
            Some((p, j)) => Some((TcpMessageV::ReceivePeerId(p), j)),
        }
    } else if tag == 3 {
        Some((TcpMessageV::Synchronize, i))
    } else if tag == 4 {
        match dec_dirs(b, i) {
            None => None,
            Some((ds, j)) => Some((TcpMessageV::ReceiveDirectories(ds), j)),
        }
    } else if tag == 5 {
        match dec_peer(b, i) {
            None => None,
            Some((p, i1)) => match dec_sig(b, i1) {
                None => None,
                Some((sig, i2)) => match dec_u128(b, i2) {
                    None => None,
                    Some((file, i3)) => Some(
                        (TcpMessageV::DeleteFile { peer_id: p, directory: sig, file }, i3),
                    ),
                },
            },
        }
    } else if tag == 6 {
        match dec_sig(b, i) {
            None => None,
            Some((sig, i1)) => match dec_files(b, i1) {
                None => None,
                Some((fs, i2)) => Some(
                    (TcpMessageV::AddedFiles { directory: sig, files: fs }, i2),
                ),
            },
        }
    } else if tag == 7 {
        match dec_peer(b, i) {
            None => None,
            Some((p, i1)) => match dec_u128(b, i1) {
                None => None,
                Some((d, i2)) => match dec_u128(b, i2) {
                    None => None,
                    Some((f, i3)) => match dec_i64(b, i3) {
                        None => None,
                        Some((t, i4)) => Some(
                            (
                                TcpMessageV::DownloadedFile {
                                    peer_id: p,
                                    directory_identifier: d,
                                    file_identifier: f,
                                    date_modified: t,
                                },
                                i4,
                            ),
                        ),
                    },
                },
            },
        }
    } else if tag == 8 {
        match dec_u128(b, i) {
            None => None,
            Some((dl, i1)) => match dec_u128(b, i1) {
                None => None,
                Some((f, i2)) => match dec_u128(b, i2) {
                    None => None,
                    Some((d, i3)) => Some(
                        (
                            TcpMessageV::StartDownload {
                                download_id: dl,
                                file_id: f,
                                dir_id: d,
                            },
                            i3,
                        ),
                    ),
                },
            },
        }
    } else if tag == 9 {
        match dec_u128(b, i) {
            None => None,
            Some((dl, i1)) => Some((TcpMessageV::CancelDownload { download_id: dl }, i1)),
        }
    } else if tag == 10 {
        match dec_u128(b, i) {
            None => None,
            Some((dl, i1)) => match dec_bytes(b, i1) {
                None => None,
                Some((d, i2)) => Some(
                    (TcpMessageV::ReceiveFilePart { download_id: dl, data: d }, i2),
                ),
            },
        }
    } else if tag == 11 {
        match dec_u128(b, i) {
            None => None,
            Some((dl, i1)) => Some((TcpMessageV::ReceiveFileEnd { download_id: dl }, i1)),
        }
    } else if tag == 12 {
        match dec_byte(b, i) {
            None => None,
            Some((eb, i1)) => match dec_err_val(eb) {
                None => None,
                Some(e) => match dec_u128(b, i1) {
                    None => None,
                    Some((dl, i2)) => Some(
                        (TcpMessageV::DownloadError { error: e, download_id: dl }, i2),
                    ),
                },
            },
        }
    } else if tag == 13 {
        match dec_dir(b, i) {
            None => None,
            Some((d, i1)) => Some((TcpMessageV::SharedDirectory(d), i1)),
        }
    } else if tag == 14 {
        match dec_u128(b, i) {
            None => None,
            Some((d, i1)) => match dec_i64(b, i1) {
                None => None,
                Some((t, i2)) => Some(
                    (
                        TcpMessageV::LeftDirectory {
                            directory_identifier: d,
                            date_modified: t,
                        },
                        i2,
                    ),
                ),
            },
        }
    } else {
        None
    }
}

/// Read a whole payload: a tag, its body, and nothing after it.
pub open spec fn dec_msg(b: Seq<u8>) -> Option<TcpMessageV> {
    match dec_byte(b, 0) {
        None => None,
        Some((tag, i)) => match dec_body(tag, b, i) {
            None => None,
            Some((m, j)) => if j == b.len() {
                Some(m)
            } else {
                None
            },
        },
    }
}

/// A signed 64-bit value survives the trip through its unsigned bits.
pub proof fn lemma_i64_cast(x: i64)
    ensures
        (x as u64) as i64 == x,
{
    assert((x as u64) as i64 == x) by (bit_vector);
}

/// Split a decoded window into its two concatenated parts.
pub proof fn lemma_concat_at(b: Seq<u8>, i: int, x: Seq<u8>, y: Seq<u8>)
    requires
        0 <= i,
        i + x.len() + y.len() <= b.len(),
        b.subrange(i, i + x.len() + y.len()) == x + y,
    ensures
        b.subrange(i, i + x.len()) == x,
        b.subrange(i + x.len(), i + x.len() + y.len()) == y,
{
    assert forall|k: int| 0 <= k < x.len() + y.len() implies b[i + k] == (x + y)[k] by {
        assert(b.subrange(i, i + x.len() + y.len())[k] == b[i + k]);
    }
    assert forall|k: int| 0 <= k < x.len() implies b.subrange(i, i + x.len())[k] == x[k] by {
        assert(b.subrange(i, i + x.len())[k] == b[i + k]);
        assert((x + y)[k] == x[k]);
    }
    assert(b.subrange(i, i + x.len()) =~= x);
    assert forall|k: int|
        0 <= k < y.len() implies b.subrange(i + x.len(), i + x.len() + y.len())[k] == y[k] by {
        assert(b.subrange(i + x.len(), i + x.len() + y.len())[k] == b[i + x.len() + k]);
        assert((x + y)[x.len() + k] == y[k]);
    }
    assert(b.subrange(i + x.len(), i + x.len() + y.len()) =~= y);
}

/// Split a decoded window into three concatenated parts.
pub proof fn lemma_concat3_at(b: Seq<u8>, i: int, x: Seq<u8>, y: Seq<u8>, z: Seq<u8>)
    requires
        0 <= i,
        i + x.len() + y.len() + z.len() <= b.len(),
        b.subrange(i, i + x.len() + y.len() + z.len()) == x + (y + z),
    ensures
        b.subrange(i, i + x.len()) == x,
        b.subrange(i + x.len(), i + x.len() + y.len()) == y,
        b.subrange(i + x.len() + y.len(), i + x.len() + y.len() + z.len()) == z,
{
    lemma_concat_at(b, i, x, y + z);
    lemma_concat_at(b, i + x.len(), y, z);
}

/// Split a decoded window into four concatenated parts.
pub proof fn lemma_concat4_at(b: Seq<u8>, i: int, x: Seq<u8>, y: Seq<u8>, z: Seq<u8>, w: Seq<u8>)
    requires
        0 <= i,
        i + x.len() + y.len() + z.len() + w.len() <= b.len(),
        b.subrange(i, i + x.len() + y.len() + z.len() + w.len()) == x + (y + (z + w)),
    ensures
        b.subrange(i, i + x.len()) == x,
        b.subrange(i + x.len(), i + x.len() + y.len()) == y,
        b.subrange(i + x.len() + y.len(), i + x.len() + y.len() + z.len()) == z,
        b.subrange(
            i + x.len() + y.len() + z.len(),
            i + x.len() + y.len() + z.len() + w.len(),
        ) == w,
{
    lemma_concat_at(b, i, x, y + (z + w));
    lemma_concat_at(b, i + x.len(), y, z + w);
    lemma_concat_at(b, i + x.len() + y.len(), z, w);
}

/// Reading a counted string undoes writing one.
pub proof fn lemma_dec_str_at(b: Seq<u8>, i: int, v: Seq<char>)
    requires
        0 <= i,
        i + enc_str(v).len() <= b.len(),
        b.subrange(i, i + enc_str(v).len()) == enc_str(v),
        str_encodable(v),
    ensures
        dec_str(b, i) == Some((v, i + enc_str(v).len())),
{
    reveal(dec_str);
    let u = encode_utf8(v);
    lemma_concat_at(b, i, enc_u32(u.len() as u32), u);
    lemma_u32_roundtrip(b, i, u.len() as u32);
    assert(dec_u32(b, i) == Some((u.len() as u32, i + 4)));
    vstd::utf8::encode_utf8_valid_utf8(v);
    vstd::utf8::encode_utf8_decode_utf8(v);
    assert(b.subrange(i + 4, i + 4 + u.len()) == u);
}

/// Reading a counted raw buffer undoes writing one.
pub proof fn lemma_dec_bytes_at(b: Seq<u8>, i: int, v: Seq<u8>)
    requires
        0 <= i,
        i + enc_bytes(v).len() <= b.len(),
        b.subrange(i, i + enc_bytes(v).len()) == enc_bytes(v),
        v.len() < 0x100000000,
    ensures
        dec_bytes(b, i) == Some((v, i + enc_bytes(v).len())),
{
    reveal(dec_str);
    lemma_concat_at(b, i, enc_u32(v.len() as u32), v);
    lemma_u32_roundtrip(b, i, v.len() as u32);
}

/// Reading a peer identity undoes writing one.
pub proof fn lemma_dec_peer_at(b: Seq<u8>, i: int, v: PeerIdV)
    requires
        0 <= i,
        i + enc_peer(v).len() <= b.len(),
        b.subrange(i, i + enc_peer(v).len()) == enc_peer(v),
        peer_encodable(v),
    ensures
        dec_peer(b, i) == Some((v, i + enc_peer(v).len())),
{
    reveal(dec_peer);
    lemma_concat_at(b, i, enc_str(v.hostname), enc_u128(v.uuid));
    lemma_dec_str_at(b, i, v.hostname);
    let j = i + enc_str(v.hostname).len();
    lemma_u128_roundtrip(b, j, v.uuid);
}

/// Reading a run of peer identities undoes writing one.
pub proof fn lemma_dec_peer_seq_at(b: Seq<u8>, i: int, ps: Seq<PeerIdV>)
    requires
        0 <= i,
        i + enc_peer_seq(ps).len() <= b.len(),
        b.subrange(i, i + enc_peer_seq(ps).len()) == enc_peer_seq(ps),
        forall|k: int| 0 <= k < ps.len() ==> peer_encodable(#[trigger] ps[k]),
    ensures
        dec_peer_seq(b, i, ps.len() as nat) == Some((ps, i + enc_peer_seq(ps).len())),
    decreases ps.len(),
{
    if ps.len() == 0 {
        assert(dec_peer_seq(b, i, 0) == Some((Seq::<PeerIdV>::empty(), i)));
        assert(ps =~= Seq::<PeerIdV>::empty());
    } else {
        lemma_concat_at(b, i, enc_peer(ps[0]), enc_peer_seq(ps.drop_first()));
        lemma_dec_peer_at(b, i, ps[0]);
        let j = i + enc_peer(ps[0]).len();
        assert(forall|k: int|
            0 <= k < ps.drop_first().len() ==> peer_encodable(#[trigger] ps.drop_first()[k]));
        lemma_dec_peer_seq_at(b, j, ps.drop_first());
        assert(seq![ps[0]] + ps.drop_first() =~= ps);
    }
}

/// Reading a counted peer list undoes writing one.
pub proof fn lemma_dec_peers_at(b: Seq<u8>, i: int, ps: Seq<PeerIdV>)
    requires
        0 <= i,
        i + enc_peers(ps).len() <= b.len(),
        b.subrange(i, i + enc_peers(ps).len()) == enc_peers(ps),
        peers_encodable(ps),
    ensures
        dec_peers(b, i) == Some((ps, i + enc_peers(ps).len())),
{
    lemma_concat_at(b, i, enc_u32(ps.len() as u32), enc_peer_seq(ps));
    lemma_u32_roundtrip(b, i, ps.len() as u32);
    lemma_dec_peer_seq_at(b, i + 4, ps);
}

/// Reading a file entry undoes writing one; the location is network-only.
#[verifier::spinoff_prover]
#[verifier::rlimit(100)]
pub proof fn lemma_dec_file_at(b: Seq<u8>, i: int, v: SharedFileV)
    requires
        0 <= i,
        i + enc_file(v).len() <= b.len(),
        b.subrange(i, i + enc_file(v).len()) == enc_file(v),
        file_encodable(v),
        v.content_location is NetworkOnly,
    ensures
        dec_file(b, i) == Some((v, i + enc_file(v).len())),
{
    reveal(dec_file);
    let a1 = enc_str(v.name);
    let a2 = enc_u128(v.identifier);
    let a3 = enc_u64(v.content_hash);
    let a4 = enc_i64(v.last_modified);
    let a5 = enc_peers(v.owned_peers);
    let a6 = enc_u64(v.size);
    let i1 = i + (a1.len() as int);
    let i2 = i1 + (a2.len() as int);
    let i3 = i2 + (a3.len() as int);
    let i4 = i3 + (a4.len() as int);
    let i5 = i4 + (a5.len() as int);
    let i6 = i5 + (a6.len() as int);
    assert(enc_file(v) =~= a1 + (a2 + (a3 + (a4 + (a5 + a6)))));
    lemma_concat_at(b, i, a1, a2 + (a3 + (a4 + (a5 + a6))));
    lemma_concat_at(b, i1, a2, a3 + (a4 + (a5 + a6)));
    lemma_concat_at(b, i2, a3, a4 + (a5 + a6));
    lemma_concat_at(b, i3, a4, a5 + a6);
    lemma_concat_at(b, i4, a5, a6);
    lemma_dec_str_at(b, i, v.name);
    lemma_u128_roundtrip(b, i1, v.identifier);
    lemma_u64_roundtrip(b, i2, v.content_hash);
    lemma_u64_roundtrip(b, i3, v.last_modified as u64);
    lemma_dec_peers_at(b, i4, v.owned_peers);
    lemma_u64_roundtrip(b, i5, v.size);
    lemma_i64_cast(v.last_modified);
}

/// Reading a run of file entries undoes writing one.
#[verifier::spinoff_prover]
#[verifier::rlimit(100)]
pub proof fn lemma_dec_file_seq_at(b: Seq<u8>, i: int, fs: Seq<SharedFileV>)
    requires
        0 <= i,
        i + enc_file_seq(fs).len() <= b.len(),
        b.subrange(i, i + enc_file_seq(fs).len()) == enc_file_seq(fs),
        forall|k: int| 0 <= k < fs.len() ==> file_encodable(#[trigger] fs[k]),
        forall|k: int| 0 <= k < fs.len() ==> (#[trigger] fs[k]).content_location is NetworkOnly,
    ensures
        dec_file_seq(b, i, fs.len() as nat) == Some((fs, i + enc_file_seq(fs).len())),
    decreases fs.len(),
{
    if fs.len() == 0 {
        assert(fs =~= Seq::<SharedFileV>::empty());
    } else {
        lemma_concat_at(b, i, enc_file(fs[0]), enc_file_seq(fs.drop_first()));
        lemma_dec_file_at(b, i, fs[0]);
        let j = i + enc_file(fs[0]).len();
        lemma_dec_file_seq_at(b, j, fs.drop_first());
        assert(seq![fs[0]] + fs.drop_first() =~= fs);
    }
}

/// Reading a counted file list undoes writing one.
#[verifier::spinoff_prover]
#[verifier::rlimit(100)]
pub proof fn lemma_dec_files_at(b: Seq<u8>, i: int, fs: Seq<SharedFileV>)
    requires
        0 <= i,
        i + enc_files(fs).len() <= b.len(),
        b.subrange(i, i + enc_files(fs).len()) == enc_files(fs),
        files_encodable(fs),
        forall|k: int| 0 <= k < fs.len() ==> (#[trigger] fs[k]).content_location is NetworkOnly,
    ensures
        dec_files(b, i) == Some((fs, i + enc_files(fs).len())),
{
    lemma_concat_at(b, i, enc_u32(fs.len() as u32), enc_file_seq(fs));
    lemma_u32_roundtrip(b, i, fs.len() as u32);
    lemma_dec_file_seq_at(b, i + 4, fs);
}

/// Reading a signature undoes writing one.
#[verifier::spinoff_prover]
#[verifier::rlimit(100)]
pub proof fn lemma_dec_sig_at(b: Seq<u8>, i: int, v: ShareDirectorySignatureV)
    requires
        0 <= i,
        i + enc_sig(v).len() <= b.len(),
        b.subrange(i, i + enc_sig(v).len()) == enc_sig(v),
        sig_encodable(v),
    ensures
        dec_sig(b, i) == Some((v, i + enc_sig(v).len())),
{
    reveal(dec_sig);
    let a1 = enc_str(v.name);
    let a2 = enc_u128(v.identifier);
    let a3 = enc_i64(v.last_modified);
    let a4 = enc_peers(v.shared_peers);
    let i1 = i + (a1.len() as int);
    let i2 = i1 + (a2.len() as int);
    let i3 = i2 + (a3.len() as int);
    assert(enc_sig(v) =~= a1 + (a2 + (a3 + a4)));
    lemma_concat_at(b, i, a1, a2 + (a3 + a4));
    lemma_concat_at(b, i1, a2, a3 + a4);
    lemma_concat_at(b, i2, a3, a4);
    lemma_dec_str_at(b, i, v.name);
    lemma_u128_roundtrip(b, i1, v.identifier);
    lemma_u64_roundtrip(b, i2, v.last_modified as u64);
    lemma_dec_peers_at(b, i3, v.shared_peers);
    lemma_i64_cast(v.last_modified);
}

/// Reading a directory undoes writing one.
#[verifier::spinoff_prover]
#[verifier::rlimit(100)]
pub proof fn lemma_dec_dir_at(b: Seq<u8>, i: int, v: ShareDirectoryV)
    requires
        0 <= i,
        i + enc_dir(v).len() <= b.len(),
        b.subrange(i, i + enc_dir(v).len()) == enc_dir(v),
        dir_encodable(v),
        forall|k: int|
            0 <= k < v.shared_files.len() ==> (
            #[trigger] v.shared_files[k]).content_location is NetworkOnly,
    ensures
        dec_dir(b, i) == Some((v, i + enc_dir(v).len())),
{
    reveal(dec_dir);
    lemma_concat_at(b, i, enc_sig(v.signature), enc_files(v.shared_files));
    lemma_dec_sig_at(b, i, v.signature);
    lemma_dec_files_at(b, i + enc_sig(v.signature).len(), v.shared_files);
}

/// Every file of every directory is network-only.
pub open spec fn dirs_net_only(ds: Seq<ShareDirectoryV>) -> bool {
    forall|k: int, j: int|
        0 <= k < ds.len() && 0 <= j < ds[k].shared_files.len() ==> (
        #[trigger] ds[k].shared_files[j]).content_location is NetworkOnly
}

/// Reading a run of directories undoes writing one.
#[verifier::spinoff_prover]
#[verifier::rlimit(100)]
pub proof fn lemma_dec_dir_seq_at(b: Seq<u8>, i: int, ds: Seq<ShareDirectoryV>)
    requires
        0 <= i,
        i + enc_dir_seq(ds).len() <= b.len(),
        b.subrange(i, i + enc_dir_seq(ds).len()) == enc_dir_seq(ds),
        forall|k: int| 0 <= k < ds.len() ==> dir_encodable(#[trigger] ds[k]),
        dirs_net_only(ds),
    ensures
        dec_dir_seq(b, i, ds.len() as nat) == Some((ds, i + enc_dir_seq(ds).len())),
    decreases ds.len(),
{
    if ds.len() == 0 {
        assert(ds =~= Seq::<ShareDirectoryV>::empty());
    } else {
        lemma_concat_at(b, i, enc_dir(ds[0]), enc_dir_seq(ds.drop_first()));
        assert forall|j: int|
            0 <= j < ds[0].shared_files.len() implies (
        #[trigger] ds[0].shared_files[j]).content_location is NetworkOnly by {
            assert(ds[0].shared_files[j] == ds[0].shared_files[j]);
        }
        lemma_dec_dir_at(b, i, ds[0]);
        let j = i + enc_dir(ds[0]).len();
        assert forall|k: int, l: int|
            0 <= k < ds.drop_first().len() && 0 <= l < ds.drop_first()[k].shared_files.len()
            implies (#[trigger] ds.drop_first()[k].shared_files[l]).content_location
            is NetworkOnly by {
            assert(ds.drop_first()[k] == ds[k + 1]);
        }
        lemma_dec_dir_seq_at(b, j, ds.drop_first());
        assert(seq![ds[0]] + ds.drop_first() =~= ds);
    }
}

/// Reading a counted directory list undoes writing one.
#[verifier::spinoff_prover]
#[verifier::rlimit(100)]
pub proof fn lemma_dec_dirs_at(b: Seq<u8>, i: int, ds: Seq<ShareDirectoryV>)
    requires
        0 <= i,
        i + enc_dirs(ds).len() <= b.len(),
        b.subrange(i, i + enc_dirs(ds).len()) == enc_dirs(ds),
        dirs_encodable(ds),
        dirs_net_only(ds),
    ensures
        dec_dirs(b, i) == Some((ds, i + enc_dirs(ds).len())),
{
    lemma_concat_at(b, i, enc_u32(ds.len() as u32), enc_dir_seq(ds));
    lemma_u32_roundtrip(b, i, ds.len() as u32);
    lemma_dec_dir_seq_at(b, i + 4, ds);
}

/// Only network-only locations stand in the message's file entries; the
/// codec never carries a local path.
pub open spec fn msg_net_only(m: TcpMessageV) -> bool {
    match m {
        TcpMessageV::ReceiveDirectories(ds) => dirs_net_only(ds),
        TcpMessageV::AddedFiles { files, .. } => forall|k: int|
            0 <= k < files.len() ==> (#[trigger] files[k]).content_location is NetworkOnly,
        TcpMessageV::SharedDirectory(d) => forall|k: int|
            0 <= k < d.shared_files.len() ==> (
            #[trigger] d.shared_files[k]).content_location is NetworkOnly,
        _ => true,
    }
}


#[verifier::spinoff_prover]
#[verifier::rlimit(100)]
proof fn lemma_roundtrip_dirs(m: TcpMessageV, ds: Seq<ShareDirectoryV>)
    requires
        m == TcpMessageV::ReceiveDirectories(ds),
        msg_encodable(m),
        msg_net_only(m),
    ensures
        dec_msg(enc_msg(m)) == Some(m),
{
    reveal(dec_body);
    let b = enc_msg(m);
    assert(b[0] == msg_tag(m));
    assert(dec_byte(b, 0int) == Some((msg_tag(m), 1int)));
    assert(b.subrange(1, 1 + enc_dirs(ds).len() as int) =~= enc_dirs(ds));
    lemma_dec_dirs_at(b, 1int, ds);
}


#[verifier::spinoff_prover]
proof fn lemma_body_delete(
    b: Seq<u8>,
    peer_id: PeerIdV,
    directory: ShareDirectorySignatureV,
    file: u128,
    i1: int,
    i2: int,
)
    requires
        dec_peer(b, 1) == Some((peer_id, i1)),
        dec_sig(b, i1) == Some((directory, i2)),
        dec_u128(b, i2) == Some((file, b.len() as int)),
    ensures
        dec_body(5, b, 1) == Some(
            (TcpMessageV::DeleteFile { peer_id, directory, file }, b.len() as int),
        ),
{
    reveal(dec_body);
}

#[verifier::spinoff_prover]
proof fn lemma_body_downloaded(
    b: Seq<u8>,
    peer_id: PeerIdV,
    directory_identifier: u128,
    file_identifier: u128,
    date_modified: i64,
    i1: int,
    i2: int,
    i3: int,
)
    requires
        dec_peer(b, 1) == Some((peer_id, i1)),
        dec_u128(b, i1) == Some((directory_identifier, i2)),
        dec_u128(b, i2) == Some((file_identifier, i3)),
        dec_i64(b, i3) == Some((date_modified, b.len() as int)),
    ensures
        dec_body(7, b, 1) == Some(
            (
                TcpMessageV::DownloadedFile {
                    peer_id,
                    directory_identifier,
                    file_identifier,
                    date_modified,
                },
                b.len() as int,
            ),
        ),
{
    reveal(dec_body);
}

#[verifier::spinoff_prover]
#[verifier::rlimit(100)]
proof fn lemma_roundtrip_delete(
    m: TcpMessageV,
    peer_id: PeerIdV,
    directory: ShareDirectorySignatureV,
    file: u128,
)
    requires
        m == (TcpMessageV::DeleteFile { peer_id, directory, file }),
        msg_encodable(m),
    ensures
        dec_msg(enc_msg(m)) == Some(m),
{
    let b = enc_msg(m);
    assert(b[0] == msg_tag(m));
    assert(dec_byte(b, 0int) == Some((msg_tag(m), 1int)));
    let a1 = enc_peer(peer_id);
    let a2 = enc_sig(directory);
    let a3 = enc_u128(file);
    let body = a1 + (a2 + a3);
    assert(b.subrange(0, b.len() as int) =~= b);
    assert(b == seq![msg_tag(m)] + body);
    lemma_concat_at(b, 0int, seq![msg_tag(m)], body);
    lemma_concat3_at(b, 1int, a1, a2, a3);
    lemma_dec_peer_at(b, 1int, peer_id);
    lemma_dec_sig_at(b, 1 + (a1.len() as int), directory);
    lemma_u128_roundtrip(b, 1 + (a1.len() as int) + (a2.len() as int), file);
    lemma_body_delete(
        b,
        peer_id,
        directory,
        file,
        1 + (a1.len() as int),
        1 + (a1.len() as int) + (a2.len() as int),
    );
}

#[verifier::spinoff_prover]
#[verifier::rlimit(100)]
proof fn lemma_roundtrip_added(
    m: TcpMessageV,
    directory: ShareDirectorySignatureV,
    files: Seq<SharedFileV>,
)
    requires
        m == (TcpMessageV::AddedFiles { directory, files }),
        msg_encodable(m),
        msg_net_only(m),
    ensures
        dec_msg(enc_msg(m)) == Some(m),
{
    reveal(dec_body);
    let b = enc_msg(m);
    assert(b[0] == msg_tag(m));
    assert(dec_byte(b, 0int) == Some((msg_tag(m), 1int)));
    let a1 = enc_sig(directory);
    let a2 = enc_files(files);
    assert(b.subrange(1, 1 + (a1.len() as int) + (a2.len() as int)) =~= a1 + a2);
    lemma_concat_at(b, 1int, a1, a2);
    lemma_dec_sig_at(b, 1int, directory);
    lemma_dec_files_at(b, 1 + (a1.len() as int), files);
}

#[verifier::spinoff_prover]
#[verifier::rlimit(100)]
proof fn lemma_roundtrip_downloaded(
    m: TcpMessageV,
    peer_id: PeerIdV,
    directory_identifier: u128,
    file_identifier: u128,
    date_modified: i64,
)
    requires
        m == (TcpMessageV::DownloadedFile {
            peer_id,
            directory_identifier,
            file_identifier,
            date_modified,
        }),
        msg_encodable(m),
    ensures
        dec_msg(enc_msg(m)) == Some(m),
{
    let b = enc_msg(m);
    assert(b[0] == msg_tag(m));
    assert(dec_byte(b, 0int) == Some((msg_tag(m), 1int)));
    let a1 = enc_peer(peer_id);
    let a2 = enc_u128(directory_identifier);
    let a3 = enc_u128(file_identifier);
    let a4 = enc_i64(date_modified);
    let body = a1 + (a2 + (a3 + a4));
    assert(b.subrange(0, b.len() as int) =~= b);
    assert(b == seq![msg_tag(m)] + body);
    lemma_concat_at(b, 0int, seq![msg_tag(m)], body);
    lemma_concat4_at(b, 1int, a1, a2, a3, a4);
    lemma_dec_peer_at(b, 1int, peer_id);
    lemma_u128_roundtrip(b, 1 + (a1.len() as int), directory_identifier);
    lemma_u128_roundtrip(b, 1 + (a1.len() as int) + (a2.len() as int), file_identifier);
    lemma_u64_roundtrip(
        b,
        1 + (a1.len() as int) + (a2.len() as int) + (a3.len() as int),
        date_modified as u64,
    );
    lemma_i64_cast(date_modified);
    lemma_body_downloaded(
        b,
        peer_id,
        directory_identifier,
        file_identifier,
        date_modified,
        1 + (a1.len() as int),
        1 + (a1.len() as int) + (a2.len() as int),
        1 + (a1.len() as int) + (a2.len() as int) + (a3.len() as int),
    );
}

#[verifier::spinoff_prover]
#[verifier::rlimit(100)]
proof fn lemma_roundtrip_shared(m: TcpMessageV, d: ShareDirectoryV)
    requires
        m == TcpMessageV::SharedDirectory(d),
        msg_encodable(m),
        msg_net_only(m),
    ensures
        dec_msg(enc_msg(m)) == Some(m),
{
    reveal(dec_body);
    let b = enc_msg(m);
    assert(b[0] == msg_tag(m));
    assert(dec_byte(b, 0int) == Some((msg_tag(m), 1int)));
    assert(b.subrange(1, 1 + enc_dir(d).len() as int) =~= enc_dir(d));
    lemma_dec_dir_at(b, 1int, d);
}

/// Decoding undoes encoding, for every message the wire format can carry.
#[verifier::spinoff_prover]
#[verifier::rlimit(100)]
pub proof fn lemma_msg_roundtrip(m: TcpMessageV)
    requires
        msg_encodable(m),
        msg_net_only(m),
    ensures
        dec_msg(enc_msg(m)) == Some(m),
{
    reveal(dec_body);
    let b = enc_msg(m);
    
    assert(b[0] == msg_tag(m));
    assert(dec_byte(b, 0int) == Some((msg_tag(m), 1int)));
    match m {
        TcpMessageV::RequestPeerId => {},
        TcpMessageV::ReceivePeerId(p) => {
            assert(b.subrange(1, 1 + enc_peer(p).len() as int) =~= enc_peer(p));
            lemma_dec_peer_at(b, 1int, p);
        },
        TcpMessageV::Synchronize => {},
        TcpMessageV::ReceiveDirectories(ds) => {
            lemma_roundtrip_dirs(m, ds);
        },
        TcpMessageV::DeleteFile { peer_id, directory, file } => {
            lemma_roundtrip_delete(m, peer_id, directory, file);
        },
        TcpMessageV::AddedFiles { directory, files } => {
            lemma_roundtrip_added(m, directory, files);
        },
        TcpMessageV::DownloadedFile {
            peer_id,
            directory_identifier,
            file_identifier,
            date_modified,
        } => {
            lemma_roundtrip_downloaded(
                m,
                peer_id,
                directory_identifier,
                file_identifier,
                date_modified,
            );
        },
        TcpMessageV::StartDownload { download_id, file_id, dir_id } => {
            assert(b.subrange(1, 49) =~= enc_u128(download_id) + (enc_u128(file_id) + enc_u128(
                dir_id,
            )));
            lemma_concat3_at(b, 1int, enc_u128(download_id), enc_u128(file_id), enc_u128(dir_id));
            lemma_u128_roundtrip(b, 1int, download_id);
            lemma_u128_roundtrip(b, 17int, file_id);
            lemma_u128_roundtrip(b, 33int, dir_id);
        },
        TcpMessageV::CancelDownload { download_id } => {
            assert(b.subrange(1int, 17int) =~= enc_u128(download_id));
            lemma_u128_roundtrip(b, 1int, download_id);
        },
        TcpMessageV::ReceiveFilePart { download_id, data } => {
            let a1 = enc_u128(download_id);
            let a2 = enc_bytes(data);
            assert(b.subrange(1, 1 + (a1.len() as int) + (a2.len() as int)) =~= a1 + a2);
            lemma_concat_at(b, 1int, a1, a2);
            lemma_u128_roundtrip(b, 1int, download_id);
            lemma_dec_bytes_at(b, 1 + (a1.len() as int), data);
        },
        TcpMessageV::ReceiveFileEnd { download_id } => {
            assert(b.subrange(1int, 17int) =~= enc_u128(download_id));
            lemma_u128_roundtrip(b, 1int, download_id);
        },
        TcpMessageV::DownloadError { error, download_id } => {
            assert(b[1] == enc_err(error));
            assert(dec_err_val(enc_err(error)) == Some(error));
            assert(b.subrange(2int, 18int) =~= enc_u128(download_id));
            lemma_u128_roundtrip(b, 2int, download_id);
        },
        TcpMessageV::SharedDirectory(d) => {
            lemma_roundtrip_shared(m, d);
        },
        TcpMessageV::LeftDirectory { directory_identifier, date_modified } => {
            let a1 = enc_u128(directory_identifier);
            let a2 = enc_i64(date_modified);
            assert(b.subrange(1, 1 + (a1.len() as int) + (a2.len() as int)) =~= a1 + a2);
            lemma_concat_at(b, 1int, a1, a2);
            lemma_u128_roundtrip(b, 1int, directory_identifier);
            lemma_u64_roundtrip(b, 1 + (a1.len() as int), date_modified as u64);
            lemma_i64_cast(date_modified);
        },
    }
}

/// Push a counted string.
pub fn push_str(buf: &mut Vec<u8>, v: &String)
    ensures
        final(buf)@ == old(buf)@ + enc_str(v@),
{
    let ghost prev = buf@;
    let bytes = v.as_str().as_bytes();
    proof {
        assert(bytes@ == encode_utf8(v@));
    }
    push_u32(buf, bytes.len() as u32);
    let ghost mid = buf@;
    buf.extend_from_slice(bytes);
    proof {
        assert forall|k: int| 0 <= k < bytes@.len() implies buf@[mid.len() + k] == bytes@[k] by {
            assert(vstd::pervasive::cloned::<u8>(bytes@[k], buf@[mid.len() + k]));
        }
        assert(buf@ =~= prev + enc_str(v@));
    }
}

/// Push a counted raw buffer.
pub fn push_bytes(buf: &mut Vec<u8>, v: &Vec<u8>)
    ensures
        final(buf)@ == old(buf)@ + enc_bytes(v@),
{
    let ghost prev = buf@;
    push_u32(buf, v.len() as u32);
    let ghost mid = buf@;
    buf.extend_from_slice(v.as_slice());
    proof {
        assert forall|k: int| 0 <= k < v@.len() implies buf@[mid.len() + k] == v@[k] by {
            assert(vstd::pervasive::cloned::<u8>(v@[k], buf@[mid.len() + k]));
        }
        assert(buf@ =~= prev + enc_bytes(v@));
    }
}

/// Push a peer identity.
pub fn push_peer(buf: &mut Vec<u8>, v: &PeerId)
    ensures
        final(buf)@ == old(buf)@ + enc_peer(v@),
{
    let ghost prev = buf@;
    push_str(buf, &v.hostname);
    push_u128(buf, v.uuid);
    proof {
        assert(buf@ =~= prev + enc_peer(v@));
    }
}

/// Push a counted peer list.
pub fn push_peers(buf: &mut Vec<u8>, v: &Vec<PeerId>)
    ensures
        final(buf)@ == old(buf)@ + enc_peers(v.deep_view()),
{
    let ghost prev = buf@;
    push_u32(buf, v.len() as u32);
    let mut i: usize = 0;
    while i < v.len()
        invariant
            i <= v@.len(),
            buf@ == prev + enc_u32(v.deep_view().len() as u32) + enc_peer_seq(
                v.deep_view().take(i as int),
            ),
        decreases v@.len() - i,
    {
        push_peer(buf, &v[i]);
        proof {
            lemma_enc_peer_seq_snoc(v.deep_view(), i as int);
        }
        i = i + 1;
    }
    proof {
        assert(v.deep_view().take(v.deep_view().len() as int) =~= v.deep_view());
        assert(buf@ =~= prev + enc_peers(v.deep_view()));
    }
}

/// Appending one element extends an encoded run at its end.
#[verifier::spinoff_prover]
#[verifier::rlimit(100)]
proof fn lemma_enc_peer_seq_snoc(ps: Seq<PeerIdV>, i: int)
    requires
        0 <= i < ps.len(),
    ensures
        enc_peer_seq(ps.take(i + 1)) == enc_peer_seq(ps.take(i)) + enc_peer(ps[i]),
    decreases i,
{
    reveal_with_fuel(enc_peer_seq, 3);
    if i == 0 {
        assert(ps.take(1)[0] == ps[0]);
        assert(ps.take(1).drop_first() =~= Seq::<PeerIdV>::empty());
        assert(enc_peer_seq(ps.take(1)) =~= enc_peer(ps[0]));
        assert(ps.take(0) =~= Seq::<PeerIdV>::empty());
        assert(enc_peer_seq(ps.take(0)) + enc_peer(ps[0]) =~= enc_peer(ps[0]));
    } else {
        lemma_enc_peer_seq_snoc(ps.drop_first(), i - 1);
        assert(ps.take(i + 1).drop_first() =~= ps.drop_first().take(i));
        assert(ps.take(i).drop_first() =~= ps.drop_first().take(i - 1));
        assert(ps.take(i + 1)[0] == ps[0]);
        assert(ps.take(i)[0] == ps[0]);
        assert(ps.drop_first()[i - 1] == ps[i]);
        assert(enc_peer_seq(ps.take(i + 1)) == enc_peer(ps[0]) + enc_peer_seq(
            ps.drop_first().take(i),
        ));
        assert(enc_peer_seq(ps.take(i)) == enc_peer(ps[0]) + enc_peer_seq(
            ps.drop_first().take(i - 1),
        ));
        assert(enc_peer(ps[0]) + (enc_peer_seq(ps.drop_first().take(i - 1)) + enc_peer(ps[i]))
            =~= (enc_peer(ps[0]) + enc_peer_seq(ps.drop_first().take(i - 1))) + enc_peer(ps[i]));
    }
}

/// Push a file entry.
pub fn push_file(buf: &mut Vec<u8>, v: &SharedFile)
    ensures
        final(buf)@ == old(buf)@ + enc_file(v@),
{
    let ghost prev = buf@;
    push_str(buf, &v.name);
    push_u128(buf, v.identifier);
    push_u64(buf, v.content_hash);
    push_u64(buf, v.last_modified as u64);
    push_peers(buf, &v.owned_peers);
    push_u64(buf, v.size);
    proof {
        assert(buf@ =~= prev + enc_file(v@));
    }
}

/// Push a counted file list.
pub fn push_files(buf: &mut Vec<u8>, v: &Vec<SharedFile>)
    ensures
        final(buf)@ == old(buf)@ + enc_files(v.deep_view()),
{
    let ghost prev = buf@;
    push_u32(buf, v.len() as u32);
    let mut i: usize = 0;
    while i < v.len()
        invariant
            i <= v@.len(),
            buf@ == prev + enc_u32(v.deep_view().len() as u32) + enc_file_seq(
                v.deep_view().take(i as int),
            ),
        decreases v@.len() - i,
    {
        push_file(buf, &v[i]);
        proof {
            lemma_enc_file_seq_snoc(v.deep_view(), i as int);
        }
        i = i + 1;
    }
    proof {
        assert(v.deep_view().take(v.deep_view().len() as int) =~= v.deep_view());
        assert(buf@ =~= prev + enc_files(v.deep_view()));
    }
}

#[verifier::spinoff_prover]
#[verifier::rlimit(100)]
proof fn lemma_enc_file_seq_snoc(fs: Seq<SharedFileV>, i: int)
    requires
        0 <= i < fs.len(),
    ensures
        enc_file_seq(fs.take(i + 1)) == enc_file_seq(fs.take(i)) + enc_file(fs[i]),
    decreases i,
{
    reveal_with_fuel(enc_file_seq, 3);
    if i == 0 {
        assert(fs.take(1)[0] == fs[0]);
        assert(fs.take(1).drop_first() =~= Seq::<SharedFileV>::empty());
        assert(enc_file_seq(fs.take(1)) =~= enc_file(fs[0]));
        assert(fs.take(0) =~= Seq::<SharedFileV>::empty());
        assert(enc_file_seq(fs.take(0)) + enc_file(fs[0]) =~= enc_file(fs[0]));
    } else {
        lemma_enc_file_seq_snoc(fs.drop_first(), i - 1);
        assert(fs.take(i + 1).drop_first() =~= fs.drop_first().take(i));
        assert(fs.take(i).drop_first() =~= fs.drop_first().take(i - 1));
        assert(fs.take(i + 1)[0] == fs[0]);
        assert(fs.take(i)[0] == fs[0]);
        assert(fs.drop_first()[i - 1] == fs[i]);
        assert(enc_file_seq(fs.take(i + 1)) == enc_file(fs[0]) + enc_file_seq(
            fs.drop_first().take(i),
        ));
        assert(enc_file_seq(fs.take(i)) == enc_file(fs[0]) + enc_file_seq(
            fs.drop_first().take(i - 1),
        ));
        assert(enc_file(fs[0]) + (enc_file_seq(fs.drop_first().take(i - 1)) + enc_file(fs[i]))
            =~= (enc_file(fs[0]) + enc_file_seq(fs.drop_first().take(i - 1))) + enc_file(fs[i]));
    }
}

/// Push a directory signature.
pub fn push_sig(buf: &mut Vec<u8>, v: &ShareDirectorySignature)
    ensures
        final(buf)@ == old(buf)@ + enc_sig(v@),
{
    let ghost prev = buf@;
    push_str(buf, &v.name);
    push_u128(buf, v.identifier);
    push_u64(buf, v.last_modified as u64);
    push_peers(buf, &v.shared_peers);
    proof {
        assert(buf@ =~= prev + enc_sig(v@));
    }
}

/// Push a directory.
pub fn push_dir(buf: &mut Vec<u8>, v: &ShareDirectory)
    ensures
        final(buf)@ == old(buf)@ + enc_dir(v@),
{
    let ghost prev = buf@;
    push_sig(buf, &v.signature);
    push_files(buf, &v.shared_files);
    proof {
        assert(buf@ =~= prev + enc_dir(v@));
    }
}

/// Push a counted directory list.
pub fn push_dirs(buf: &mut Vec<u8>, v: &Vec<ShareDirectory>)
    ensures
        final(buf)@ == old(buf)@ + enc_dirs(v.deep_view()),
{
    let ghost prev = buf@;
    push_u32(buf, v.len() as u32);
    let mut i: usize = 0;
    while i < v.len()
        invariant
            i <= v@.len(),
            buf@ == prev + enc_u32(v.deep_view().len() as u32) + enc_dir_seq(
                v.deep_view().take(i as int),
            ),
        decreases v@.len() - i,
    {
        push_dir(buf, &v[i]);
        proof {
            lemma_enc_dir_seq_snoc(v.deep_view(), i as int);
        }
        i = i + 1;
    }
    proof {
        assert(v.deep_view().take(v.deep_view().len() as int) =~= v.deep_view());
        assert(buf@ =~= prev + enc_dirs(v.deep_view()));
    }
}

#[verifier::spinoff_prover]
#[verifier::rlimit(100)]
proof fn lemma_enc_dir_seq_snoc(ds: Seq<ShareDirectoryV>, i: int)
    requires
        0 <= i < ds.len(),
    ensures
        enc_dir_seq(ds.take(i + 1)) == enc_dir_seq(ds.take(i)) + enc_dir(ds[i]),
    decreases i,
{
    reveal_with_fuel(enc_dir_seq, 3);
    if i == 0 {
        assert(ds.take(1)[0] == ds[0]);
        assert(ds.take(1).drop_first() =~= Seq::<ShareDirectoryV>::empty());
        assert(enc_dir_seq(ds.take(1)) =~= enc_dir(ds[0]));
        assert(ds.take(0) =~= Seq::<ShareDirectoryV>::empty());
        assert(enc_dir_seq(ds.take(0)) + enc_dir(ds[0]) =~= enc_dir(ds[0]));
    } else {
        lemma_enc_dir_seq_snoc(ds.drop_first(), i - 1);
        assert(ds.take(i + 1).drop_first() =~= ds.drop_first().take(i));
        assert(ds.take(i).drop_first() =~= ds.drop_first().take(i - 1));
        assert(ds.take(i + 1)[0] == ds[0]);
        assert(ds.take(i)[0] == ds[0]);
        assert(ds.drop_first()[i - 1] == ds[i]);
        assert(enc_dir_seq(ds.take(i + 1)) == enc_dir(ds[0]) + enc_dir_seq(
            ds.drop_first().take(i),
        ));
        assert(enc_dir_seq(ds.take(i)) == enc_dir(ds[0]) + enc_dir_seq(
            ds.drop_first().take(i - 1),
        ));
        assert(enc_dir(ds[0]) + (enc_dir_seq(ds.drop_first().take(i - 1)) + enc_dir(ds[i])) =~= (
        enc_dir(ds[0]) + enc_dir_seq(ds.drop_first().take(i - 1))) + enc_dir(ds[i]));
    }
}

/// The payload of a message.
#[verifier::spinoff_prover]
#[verifier::rlimit(100)]
pub fn encode_message(m: &TcpMessage) -> (r: Vec<u8>)
    ensures
        r@ == enc_msg(m@),
{
    let mut buf: Vec<u8> = Vec::new();
    match m {
        TcpMessage::RequestPeerId => {
            buf.push(1);
        },
        TcpMessage::ReceivePeerId(p) => {
            buf.push(2);
            push_peer(&mut buf, p);
        },
        TcpMessage::Synchronize => {
            buf.push(3);
        },
        TcpMessage::ReceiveDirectories(ds) => {
            buf.push(4);
            push_dirs(&mut buf, ds);
        },
        TcpMessage::DeleteFile { peer_id, directory, file } => {
            buf.push(5);
            push_peer(&mut buf, peer_id);
            push_sig(&mut buf, directory);
            push_u128(&mut buf, *file);
        },
        TcpMessage::AddedFiles { directory, files } => {
            buf.push(6);
            push_sig(&mut buf, directory);
            push_files(&mut buf, files);
        },
        TcpMessage::DownloadedFile {
            peer_id,
            directory_identifier,
            file_identifier,
            date_modified,
        } => {
            buf.push(7);
            push_peer(&mut buf, peer_id);
            push_u128(&mut buf, *directory_identifier);
            push_u128(&mut buf, *file_identifier);
            push_u64(&mut buf, *date_modified as u64);
        },
        TcpMessage::StartDownload { download_id, file_id, dir_id } => {
            buf.push(8);
            push_u128(&mut buf, *download_id);
            push_u128(&mut buf, *file_id);
            push_u128(&mut buf, *dir_id);
        },
        TcpMessage::CancelDownload { download_id } => {
            buf.push(9);
            push_u128(&mut buf, *download_id);
        },
        TcpMessage::ReceiveFilePart { download_id, data } => {
            buf.push(10);
            push_u128(&mut buf, *download_id);
            push_bytes(&mut buf, data);
        },
        TcpMessage::ReceiveFileEnd { download_id } => {
            buf.push(11);
            push_u128(&mut buf, *download_id);
        },
        TcpMessage::DownloadError { error, download_id } => {
            buf.push(12);
            let eb: u8 = match error {
                DownloadError::NoClientsConnected => 0,
                DownloadError::DirectoryMissing => 1,
                DownloadError::FileMissing => 2,
                DownloadError::FileNotOwned => 3,
                DownloadError::FileTooLarge => 4,
                DownloadError::Disconnected => 5,
                DownloadError::Canceled => 6,
                DownloadError::ReadError => 7,
                DownloadError::WriteError => 8,
            };
            buf.push(eb);
            push_u128(&mut buf, *download_id);
        },
        TcpMessage::SharedDirectory(d) => {
            buf.push(13);
            push_dir(&mut buf, d);
        },
        TcpMessage::LeftDirectory { directory_identifier, date_modified } => {
            buf.push(14);
            push_u128(&mut buf, *directory_identifier);
            push_u64(&mut buf, *date_modified as u64);
        },
    }
    proof {
        assert(buf@ =~= enc_msg(m@));
    }
    buf
}

/// Prefix a run already read onto the outcome of reading the rest.
pub open spec fn prepends<T>(pre: Seq<T>, o: Option<(Seq<T>, int)>) -> Option<(Seq<T>, int)> {
    match o {
        Some((s, e)) => Some((pre + s, e)),
        None => None,
    }
}

/// Read a counted string.
pub fn read_str(buf: &[u8], at: usize) -> (r: Option<(String, usize)>)
    ensures
        match (r, dec_str(buf@, at as int)) {
            (Some((v, e)), Some((sv, se))) => v@ == sv && e == se,
            (None, None) => true,
            _ => false,
        },
{
    reveal(dec_str);
    match read_u32(buf, at) {
        None => None,
        Some((n, j)) => {
            let n = n as usize;
            if n > buf.len() || j > buf.len() - n {
                return None;
            }
            let part = vstd::slice::slice_subrange(buf, j, j + n);
            match core::str::from_utf8(part) {
                Err(_) => None,
                Ok(sl) => {
                    proof {
                        vstd::utf8::decode_utf8_encode_utf8(part@);
                        vstd::utf8::encode_utf8_decode_utf8(sl@);
                        assert(encode_utf8(sl@) =~= part@);
                    }
                    Some((sl.to_owned(), j + n))
                },
            }
        },
    }
}

/// Read a counted raw buffer.
pub fn read_bytes(buf: &[u8], at: usize) -> (r: Option<(Vec<u8>, usize)>)
    ensures
        match (r, dec_bytes(buf@, at as int)) {
            (Some((v, e)), Some((sv, se))) => v@ == sv && e == se,
            (None, None) => true,
            _ => false,
        },
{
    match read_u32(buf, at) {
        None => None,
        Some((n, j)) => {
            let n = n as usize;
            if n > buf.len() || j > buf.len() - n {
                return None;
            }
            let part = vstd::slice::slice_subrange(buf, j, j + n);
            let mut out: Vec<u8> = Vec::new();
            out.extend_from_slice(part);
            proof {
                assert forall|k: int| 0 <= k < part@.len() implies out@[k] == part@[k] by {
                    assert(vstd::pervasive::cloned::<u8>(part@[k], out@[k]));
                }
                assert(out@ =~= part@);
            }
            Some((out, j + n))
        },
    }
}

/// Read a peer identity.
pub fn read_peer(buf: &[u8], at: usize) -> (r: Option<(PeerId, usize)>)
    ensures
        match (r, dec_peer(buf@, at as int)) {
            (Some((v, e)), Some((sv, se))) => v@ == sv && e == se,
            (None, None) => true,
            _ => false,
        },
{
    reveal(dec_peer);
    match read_str(buf, at) {
        None => {
            proof {
                assert(dec_str(buf@, at as int) is None);
                assert(dec_peer(buf@, at as int) is None);
            }
            None
        },
        Some((h, j)) => {
            proof {
                assert(dec_str(buf@, at as int) == Some((h@, j as int)));
            }
            match read_u128(buf, j) {
                None => {
                    proof {
                        assert(dec_u128(buf@, j as int) is None);
                        assert(dec_peer(buf@, at as int) is None);
                    }
                    None
                },
                Some((u, k)) => {
                    proof {
                        assert(dec_u128(buf@, j as int) == Some((u, k as int)));
                        assert(dec_peer(buf@, at as int) == Some(
                            (PeerIdV { hostname: h@, uuid: u }, k as int),
                        ));
                    }
                    Some((PeerId { hostname: h, uuid: u }, k))
                },
            }
        },
    }
}

/// Read a counted peer list.
pub fn read_peers(buf: &[u8], at: usize) -> (r: Option<(Vec<PeerId>, usize)>)
    ensures
        match (r, dec_peers(buf@, at as int)) {
            (Some((v, e)), Some((sv, se))) => v.deep_view() == sv && e == se,
            (None, None) => true,
            _ => false,
        },
{
    let (n, mut pos) = match read_u32(buf, at) {
        None => {
            return None;
        },
        Some(p) => p,
    };
    let ghost i0 = pos as int;
    let mut out: Vec<PeerId> = Vec::new();
    let mut k: u32 = 0;
    while k < n
        invariant
            k <= n,
            dec_u32(buf@, at as int) == Some((n, i0)),
            dec_peer_seq(buf@, i0, n as nat) == prepends(
                out.deep_view(),
                dec_peer_seq(buf@, pos as int, (n - k) as nat),
            ),
        decreases n - k,
    {
        let ghost pre = out.deep_view();
        let ghost m = (n - k) as nat;
        match read_peer(buf, pos) {
            None => {
                proof {
                    assert(dec_peer_seq(buf@, pos as int, m) is None);
                }
                return None;
            },
            Some((p, at2)) => {
                proof {
                    lemma_prepends_peer(buf@, pos as int, m, pre, p@, at2 as int);
                }
                out.push(p);
                proof {
                    assert(out.deep_view() =~= pre.push(p@));
                }
                pos = at2;
            },
        }
        k = k + 1;
    }
    proof {
        assert(dec_peer_seq(buf@, pos as int, 0) == Some(
            (Seq::<PeerIdV>::empty(), pos as int),
        ));
        assert(out.deep_view() + Seq::<PeerIdV>::empty() =~= out.deep_view());
    }
    Some((out, pos))
}

proof fn lemma_prepends_peer(b: Seq<u8>, at: int, m: nat, pre: Seq<PeerIdV>, p: PeerIdV, at2: int)
    requires
        m > 0,
        dec_peer(b, at) == Some((p, at2)),
    ensures
        prepends(pre, dec_peer_seq(b, at, m)) == prepends(
            pre.push(p),
            dec_peer_seq(b, at2, (m - 1) as nat),
        ),
{
    match dec_peer_seq(b, at2, (m - 1) as nat) {
        Some((ps, e)) => {
            assert(pre + (seq![p] + ps) =~= pre.push(p) + ps);
        },
        None => {},
    }
}

/// Read a file entry.
pub fn read_file(buf: &[u8], at: usize) -> (r: Option<(SharedFile, usize)>)
    ensures
        match (r, dec_file(buf@, at as int)) {
            (Some((v, e)), Some((sv, se))) => v@ == sv && e == se,
            (None, None) => true,
            _ => false,
        },
{
    reveal(dec_file);
    let (name, i1) = match read_str(buf, at) {
        None => {
            return None;
        },
        Some(p) => p,
    };
    let (ident, i2) = match read_u128(buf, i1) {
        None => {
            return None;
        },
        Some(p) => p,
    };
    let (hash, i3) = match read_u64(buf, i2) {
        None => {
            return None;
        },
        Some(p) => p,
    };
    let (lm, i4) = match read_u64(buf, i3) {
        None => {
            return None;
        },
        Some(p) => p,
    };
    let (owners, i5) = match read_peers(buf, i4) {
        None => {
            return None;
        },
        Some(p) => p,
    };
    let (size, i6) = match read_u64(buf, i5) {
        None => {
            return None;
        },
        Some(p) => p,
    };
    Some(
        (
            SharedFile {
                name,
                identifier: ident,
                content_hash: hash,
                last_modified: lm as i64,
                content_location: ContentLocation::NetworkOnly,
                owned_peers: owners,
                size,
            },
            i6,
        ),
    )
}

/// Read a counted file list.
pub fn read_files(buf: &[u8], at: usize) -> (r: Option<(Vec<SharedFile>, usize)>)
    ensures
        match (r, dec_files(buf@, at as int)) {
            (Some((v, e)), Some((sv, se))) => v.deep_view() == sv && e == se,
            (None, None) => true,
            _ => false,
        },
{
    let (n, mut pos) = match read_u32(buf, at) {
        None => {
            return None;
        },
        Some(p) => p,
    };
    let ghost i0 = pos as int;
    let mut out: Vec<SharedFile> = Vec::new();
    let mut k: u32 = 0;
    while k < n
        invariant
            k <= n,
            dec_u32(buf@, at as int) == Some((n, i0)),
            dec_file_seq(buf@, i0, n as nat) == prepends(
                out.deep_view(),
                dec_file_seq(buf@, pos as int, (n - k) as nat),
            ),
        decreases n - k,
    {
        let ghost pre = out.deep_view();
        let ghost m = (n - k) as nat;
        match read_file(buf, pos) {
            None => {
                proof {
                    assert(dec_file_seq(buf@, pos as int, m) is None);
                }
                return None;
            },
            Some((f, at2)) => {
                proof {
                    lemma_prepends_file(buf@, pos as int, m, pre, f@, at2 as int);
                }
                out.push(f);
                proof {
                    assert(out.deep_view() =~= pre.push(out@[out@.len() - 1]@));
                }
                pos = at2;
            },
        }
        k = k + 1;
    }
    proof {
        assert(dec_file_seq(buf@, pos as int, 0) == Some(
            (Seq::<SharedFileV>::empty(), pos as int),
        ));
        assert(out.deep_view() + Seq::<SharedFileV>::empty() =~= out.deep_view());
    }
    Some((out, pos))
}

proof fn lemma_prepends_file(
    b: Seq<u8>,
    at: int,
    m: nat,
    pre: Seq<SharedFileV>,
    f: SharedFileV,
    at2: int,
)
    requires
        m > 0,
        dec_file(b, at) == Some((f, at2)),
    ensures
        prepends(pre, dec_file_seq(b, at, m)) == prepends(
            pre.push(f),
            dec_file_seq(b, at2, (m - 1) as nat),
        ),
{
    match dec_file_seq(b, at2, (m - 1) as nat) {
        Some((fs, e)) => {
            assert(pre + (seq![f] + fs) =~= pre.push(f) + fs);
        },
        None => {},
    }
}

/// Read a directory signature.
pub fn read_sig(buf: &[u8], at: usize) -> (r: Option<(ShareDirectorySignature, usize)>)
    ensures
        match (r, dec_sig(buf@, at as int)) {
            (Some((v, e)), Some((sv, se))) => v@ == sv && e == se,
            (None, None) => true,
            _ => false,
        },
{
    reveal(dec_sig);
    let (name, i1) = match read_str(buf, at) {
        None => {
            return None;
        },
        Some(p) => p,
    };
    let (ident, i2) = match read_u128(buf, i1) {
        None => {
            return None;
        },
        Some(p) => p,
    };
    let (lm, i3) = match read_u64(buf, i2) {
        None => {
            return None;
        },
        Some(p) => p,
    };
    let (ps, i4) = match read_peers(buf, i3) {
        None => {
            return None;
        },
        Some(p) => p,
    };
    Some(
        (
            ShareDirectorySignature {
                name,
                identifier: ident,
                last_modified: lm as i64,
                shared_peers: ps,
            },
            i4,
        ),
    )
}

/// Read a directory.
pub fn read_dir(buf: &[u8], at: usize) -> (r: Option<(ShareDirectory, usize)>)
    ensures
        match (r, dec_dir(buf@, at as int)) {
            (Some((v, e)), Some((sv, se))) => v@ == sv && e == se,
            (None, None) => true,
            _ => false,
        },
{
    reveal(dec_dir);
    let (sig, j) = match read_sig(buf, at) {
        None => {
            return None;
        },
        Some(p) => p,
    };
    let (fs, k) = match read_files(buf, j) {
        None => {
            return None;
        },
        Some(p) => p,
    };
    Some((ShareDirectory { signature: sig, shared_files: fs }, k))
}

/// Read a counted directory list.
pub fn read_dirs(buf: &[u8], at: usize) -> (r: Option<(Vec<ShareDirectory>, usize)>)
    ensures
        match (r, dec_dirs(buf@, at as int)) {
            (Some((v, e)), Some((sv, se))) => v.deep_view() == sv && e == se,
            (None, None) => true,
            _ => false,
        },
{
    let (n, mut pos) = match read_u32(buf, at) {
        None => {
            return None;
        },
        Some(p) => p,
    };
    let ghost i0 = pos as int;
    let mut out: Vec<ShareDirectory> = Vec::new();
    let mut k: u32 = 0;
    while k < n
        invariant
            k <= n,
            dec_u32(buf@, at as int) == Some((n, i0)),
            dec_dir_seq(buf@, i0, n as nat) == prepends(
                out.deep_view(),
                dec_dir_seq(buf@, pos as int, (n - k) as nat),
            ),
        decreases n - k,
    {
        let ghost pre = out.deep_view();
        let ghost m = (n - k) as nat;
        match read_dir(buf, pos) {
            None => {
                proof {
                    assert(dec_dir_seq(buf@, pos as int, m) is None);
                }
                return None;
            },
            Some((d, at2)) => {
                proof {
                    lemma_prepends_dir(buf@, pos as int, m, pre, d@, at2 as int);
                }
                out.push(d);
                proof {
                    assert(out.deep_view() =~= pre.push(out@[out@.len() - 1]@));
                }
                pos = at2;
            },
        }
        k = k + 1;
    }
    proof {
        assert(dec_dir_seq(buf@, pos as int, 0) == Some(
            (Seq::<ShareDirectoryV>::empty(), pos as int),
        ));
        assert(out.deep_view() + Seq::<ShareDirectoryV>::empty() =~= out.deep_view());
    }
    Some((out, pos))
}

proof fn lemma_prepends_dir(
    b: Seq<u8>,
    at: int,
    m: nat,
    pre: Seq<ShareDirectoryV>,
    d: ShareDirectoryV,
    at2: int,
)
    requires
        m > 0,
        dec_dir(b, at) == Some((d, at2)),
    ensures
        prepends(pre, dec_dir_seq(b, at, m)) == prepends(
            pre.push(d),
            dec_dir_seq(b, at2, (m - 1) as nat),
        ),
{
    match dec_dir_seq(b, at2, (m - 1) as nat) {
        Some((ds, e)) => {
            assert(pre + (seq![d] + ds) =~= pre.push(d) + ds);
        },
        None => {},
    }
}

/// Decode one whole payload into a message.
#[verifier::spinoff_prover]
#[verifier::rlimit(100)]
pub fn decode_message(buf: &[u8]) -> (r: Option<TcpMessage>)
    ensures
        match (r, dec_msg(buf@)) {
            (Some(m), Some(mv)) => m@ == mv,
            (None, None) => true,
            _ => false,
        },
{
    reveal(dec_body);
    if buf.len() < 1 {
        return None;
    }
    let tag = buf[0];
    let n = buf.len();
    let (m, end): (TcpMessage, usize) = if tag == 1 {
        (TcpMessage::RequestPeerId, 1)
    } else if tag == 2 {
        match read_peer(buf, 1) {
            None => {
                return None;
            },
            Some((p, e)) => (TcpMessage::ReceivePeerId(p), e),
        }
    } else if tag == 3 {
        (TcpMessage::Synchronize, 1)
    } else if tag == 4 {
        match read_dirs(buf, 1) {
            None => {
                return None;
            },
            Some((ds, e)) => (TcpMessage::ReceiveDirectories(ds), e),
        }
    } else if tag == 5 {
        match read_peer(buf, 1) {
            None => {
                return None;
            },
            Some((p, i1)) => match read_sig(buf, i1) {
                None => {
                    return None;
                },
                Some((sig, i2)) => match read_u128(buf, i2) {
                    None => {
                        return None;
                    },
                    Some((file, i3)) => (
                        TcpMessage::DeleteFile { peer_id: p, directory: sig, file },
                        i3,
                    ),
                },
            },
        }
    } else if tag == 6 {
        match read_sig(buf, 1) {
            None => {
                return None;
            },
            Some((sig, i1)) => match read_files(buf, i1) {
                None => {
                    return None;
                },
                Some((fs, i2)) => (TcpMessage::AddedFiles { directory: sig, files: fs }, i2),
            },
        }
    } else if tag == 7 {
        match read_peer(buf, 1) {
            None => {
                return None;
            },
            Some((p, i1)) => match read_u128(buf, i1) {
                None => {
                    return None;
                },
                Some((d, i2)) => match read_u128(buf, i2) {
                    None => {
                        return None;
                    },
                    Some((f, i3)) => match read_u64(buf, i3) {
                        None => {
                            return None;
                        },
                        Some((t, i4)) => (
                            TcpMessage::DownloadedFile {
                                peer_id: p,
                                directory_identifier: d,
                                file_identifier: f,
                                date_modified: t as i64,
                            },
                            i4,
                        ),
                    },
                },
            },
        }
    } else if tag == 8 {
        match read_u128(buf, 1) {
            None => {
                return None;
            },
            Some((dl, i1)) => match read_u128(buf, i1) {
                None => {
                    return None;
                },
                Some((f, i2)) => match read_u128(buf, i2) {
                    None => {
                        return None;
                    },
                    Some((d, i3)) => (
                        TcpMessage::StartDownload { download_id: dl, file_id: f, dir_id: d },
                        i3,
                    ),
                },
            },
        }
    } else if tag == 9 {
        match read_u128(buf, 1) {
            None => {
                return None;
            },
            Some((dl, i1)) => (TcpMessage::CancelDownload { download_id: dl }, i1),
        }
    } else if tag == 10 {
        match read_u128(buf, 1) {
            None => {
                return None;
            },
            Some((dl, i1)) => match read_bytes(buf, i1) {
                None => {
                    return None;
                },
                Some((d, i2)) => (TcpMessage::ReceiveFilePart { download_id: dl, data: d }, i2),
            },
        }
    } else if tag == 11 {
        match read_u128(buf, 1) {
            None => {
                return None;
            },
            Some((dl, i1)) => (TcpMessage::ReceiveFileEnd { download_id: dl }, i1),
        }
    } else if tag == 12 {
        if n < 2 {
            return None;
        }
        let eb = buf[1];
        let e = if eb == 0 {
            DownloadError::NoClientsConnected
        } else if eb == 1 {
            DownloadError::DirectoryMissing
        } else if eb == 2 {
            DownloadError::FileMissing
        } else if eb == 3 {
            DownloadError::FileNotOwned
        } else if eb == 4 {
            DownloadError::FileTooLarge
        } else if eb == 5 {
            DownloadError::Disconnected
        } else if eb == 6 {
            DownloadError::Canceled
        } else if eb == 7 {
            DownloadError::ReadError
        } else if eb == 8 {
            DownloadError::WriteError
        } else {
            return None;
        };
        match read_u128(buf, 2) {
            None => {
                return None;
            },
            Some((dl, i2)) => (TcpMessage::DownloadError { error: e, download_id: dl }, i2),
        }
    } else if tag == 13 {
        match read_dir(buf, 1) {
            None => {
                return None;
            },
            Some((d, i1)) => (TcpMessage::SharedDirectory(d), i1),
        }
    } else if tag == 14 {
        match read_u128(buf, 1) {
            None => {
                return None;
            },
            Some((d, i1)) => match read_u64(buf, i1) {
                None => {
                    return None;
                },
                Some((t, i2)) => (
                    TcpMessage::LeftDirectory {
                        directory_identifier: d,
                        date_modified: t as i64,
                    },
                    i2,
                ),
            },
        }
    } else {
        return None;
    };
    if end != n {
        return None;
    }
    Some(m)
}

/// What a transfer error tells the user.
pub open spec fn error_text(e: DownloadError) -> Seq<char> {
    match e {
        DownloadError::NoClientsConnected => "No clients to download from. Reconnect other devices to network"@,
        DownloadError::DirectoryMissing => "Download directory is missing. File might have been removed while being downloaded."@,
        DownloadError::FileMissing => "Download file is missing. File might have been removed while downloading."@,
        DownloadError::FileNotOwned => "Client does not have this file locally."@,
        DownloadError::FileTooLarge => "Download file size might have changed while it was being downloaded."@,
        DownloadError::Disconnected => "Download was canceled since one of the clients disconnected"@,
        DownloadError::Canceled => "Download was manually canceled."@,
        DownloadError::ReadError => "Could not read file to download."@,
        DownloadError::WriteError => "Could not write file."@,
    }
}

impl DownloadError {
    /// The message shown to the user for this error.
    pub fn to_string(&self) -> (r: String)
        ensures
            r@ == error_text(*self),
    {
        let msg: &str = match self {
            DownloadError::NoClientsConnected => "No clients to download from. Reconnect other devices to network",
            DownloadError::DirectoryMissing => "Download directory is missing. File might have been removed while being downloaded.",
            DownloadError::FileMissing => "Download file is missing. File might have been removed while downloading.",
            DownloadError::FileNotOwned => "Client does not have this file locally.",
            DownloadError::FileTooLarge => "Download file size might have changed while it was being downloaded.",
            DownloadError::Disconnected => "Download was canceled since one of the clients disconnected",
            DownloadError::Canceled => "Download was manually canceled.",
            DownloadError::ReadError => "Could not read file to download.",
            DownloadError::WriteError => "Could not write file.",
        };
        msg.to_owned()
    }
}

/// Why a frame could not be handled.
#[derive(Clone, Copy, Debug, PartialEq, Eq, Structural)]
pub enum CodecError {
    MessageTooLarge,
}

/// The outcome of reading a frame from the front of a buffer.
pub enum FrameOutcome {
    /// The buffer does not yet hold a whole frame; nothing is consumed.
    NeedMoreData,
    /// The frame is unusable: an oversized length or an undecodable payload.
    Corrupt,
    /// A message, and how many bytes of the buffer it occupied.
    Frame(TcpMessage, usize),
}

/// The framed stream codec: a 4-byte big-endian payload length, then the
/// payload, capped at 100 MiB.
pub struct MessageCodec {}

impl MessageCodec {
    /// Append one frame carrying the message; a message whose payload would
    /// pass the cap is refused and nothing is written.
    pub fn encode(&self, item: &TcpMessage, dst: &mut Vec<u8>) -> (r: Result<(), CodecError>)
        ensures
            enc_msg(item@).len() <= MAX_MESSAGE_SIZE ==> r is Ok
                && final(dst)@ == old(dst)@ + enc_u32(enc_msg(item@).len() as u32) + enc_msg(
                item@,
            ),
            enc_msg(item@).len() > MAX_MESSAGE_SIZE ==> r
                == Err::<(), CodecError>(CodecError::MessageTooLarge)
                && final(dst)@ == old(dst)@,
    {
        let ghost prev = dst@;
        let payload = encode_message(item);
        if payload.len() > MAX_MESSAGE_SIZE {
            return Err(CodecError::MessageTooLarge);
        }
        push_u32(dst, payload.len() as u32);
        let ghost mid = dst@;
        dst.extend_from_slice(payload.as_slice());
        proof {
            assert forall|k: int| 0 <= k < payload@.len() implies dst@[mid.len() + k]
                == payload@[k] by {
                assert(vstd::pervasive::cloned::<u8>(payload@[k], dst@[mid.len() + k]));
            }
            assert(dst@ =~= prev + enc_u32(enc_msg(item@).len() as u32) + enc_msg(item@));
        }
        Ok(())
    }

    /// Read one frame from the front of the buffer.
    pub fn decode(&self, src: &[u8]) -> (r: FrameOutcome)
        ensures
            src@.len() < LENGTH_MARKER_SIZE ==> r is NeedMoreData,
            src@.len() >= LENGTH_MARKER_SIZE ==> ({
                let len = dec_u32_val(src@, 0) as int;
                if len > MAX_MESSAGE_SIZE {
                    r is Corrupt
                } else if src@.len() < LENGTH_MARKER_SIZE + len {
                    r is NeedMoreData
                } else {
                    match dec_msg(src@.subrange(4, 4 + len)) {
                        Some(mv) => r matches FrameOutcome::Frame(m, c) && m@ == mv && c == 4
                            + len,
                        None => r is Corrupt,
                    }
                }
            }),
    {
        let (len, _) = match read_u32(src, 0) {
            None => {
                return FrameOutcome::NeedMoreData;
            },
            Some(p) => p,
        };
        let len = len as usize;
        if len > MAX_MESSAGE_SIZE {
            return FrameOutcome::Corrupt;
        }
        if src.len() - 4 < len {
            return FrameOutcome::NeedMoreData;
        }
        let payload = vstd::slice::slice_subrange(src, 4, 4 + len);
        match decode_message(payload) {
            Some(m) => FrameOutcome::Frame(m, 4 + len),
            None => FrameOutcome::Corrupt,
        }
    }
}

} // verus!

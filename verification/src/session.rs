//! The session actor's decisions: one peer connection's protocol state and
//! the pure transition functions that say, for every inbound message,
//! supervisor command or transfer event, how the state and the store change
//! and exactly which effects the surrounding runtime must perform. The
//! runtime only performs the listed effects and feeds their outcomes back.

use vstd::prelude::*;
use crate::peer::{PeerId, PeerIdV};
use crate::data::{
    ShareDirectory, ShareDirectoryV, ShareDirectorySignature, ShareDirectorySignatureV,
    SharedFile, SharedFileV, ContentLocation, dir_wf_check, files_all_wf, dir_wf,
    add_files_result, remove_files_seq, add_owner_seq,
};
use crate::store::{StoredConfig, store_wf, has_dir, dir_idx, has_file, file_idx, net_file};
use crate::codec::{TcpMessage, DownloadError, error_text};
use crate::window::Download;

verus! {

/// One inbound transfer in flight.
pub struct DownloadHandle {
    pub download_id: u128,
    pub canceled: bool,
    pub bytes_total: u64,
    pub bytes_done: u64,
    pub output_path: String,
    pub file_id: u128,
    pub dir_id: u128,
}

/// One outbound transfer in flight.
pub struct UploadHandle {
    pub download_id: u128,
    pub canceled: bool,
}

/// The per-connection protocol state.
pub struct SessionState {
    pub remote_id: Option<PeerId>,
    pub downloads: Vec<DownloadHandle>,
    pub uploads: Vec<UploadHandle>,
    pub uploading: bool,
}

/// A command the supervisor hands into one session.
#[derive(Clone)]
pub enum SessionCommand {
    GetPeerId,
    Synchronize,
    SendDirectories(Vec<ShareDirectory>),
    AddedFiles(ShareDirectorySignature, Vec<SharedFile>),
    DeleteFile(PeerId, ShareDirectorySignature, u128),
    StartDownload {
        download_id: u128,
        file_identifier: u128,
        directory_identifier: u128,
        destination: String,
        file_name: String,
        size: u64,
    },
    CancelDownload { download_id: u128 },
    UpdateOwners {
        peer_id: PeerId,
        directory_identifier: u128,
        file_identifier: u128,
        date_modified: i64,
    },
    LeftDirectory { directory_identifier: u128, date_modified: i64 },
}

/// What the runtime must do for the session: write a frame, tell the
/// supervisor something, or perform one piece of file work.
pub enum SessionEffect {
    /// Write this message to the peer's framed stream.
    SendTcp(TcpMessage),
    /// Tell the supervisor the peer's identity is now known.
    NotifySetPeerId(PeerId),
    /// Hand the supervisor a directory listing to merge.
    NotifySyncDirectories(Vec<ShareDirectory>, PeerId),
    /// Hand the supervisor a directory another peer shared.
    NotifySharedDirectory(ShareDirectory),
    /// Tell the supervisor a peer left a directory.
    NotifyLeftDirectory(u128, PeerId, i64),
    /// Tell the supervisor a directory changed here.
    NotifyUpdatedDirectory(u128),
    /// Report a transfer that just began.
    NotifyStartedDownload(Download),
    /// Report transfer progress, in whole percent.
    NotifyDownloadUpdate(u128, u64),
    /// Report a transfer that ended early, with the reason's text.
    NotifyCanceledDownload(u128, String),
    /// Report a finished transfer: transfer, directory, file.
    NotifyFinishedDownload(u128, u128, u128),
    /// Open the named file for reading, to serve this transfer.
    OpenUploadSource(u128, String),
    /// Append these bytes to the transfer's destination file.
    WriteFilePart(u128, Vec<u8>),
    /// Delete the file at this path.
    RemoveFile(String),
    /// The peer broke the protocol: tear the session down.
    ProtocolError,
}

/// Whether some inbound transfer carries this identifier.
pub open spec fn has_dl(s: Seq<DownloadHandle>, id: u128) -> bool {
    exists|i: int| 0 <= i < s.len() && s[i].download_id == id
}

/// The position of the inbound transfer with this identifier.
pub open spec fn dl_idx(s: Seq<DownloadHandle>, id: u128) -> int {
    choose|i: int| 0 <= i < s.len() && s[i].download_id == id
}

/// Whether some outbound transfer carries this identifier.
pub open spec fn has_ul(s: Seq<UploadHandle>, id: u128) -> bool {
    exists|i: int| 0 <= i < s.len() && s[i].download_id == id
}

/// The position of the outbound transfer with this identifier.
pub open spec fn ul_idx(s: Seq<UploadHandle>, id: u128) -> int {
    choose|i: int| 0 <= i < s.len() && s[i].download_id == id
}

/// The session's invariant: transfer identifiers key the two tables.
pub open spec fn session_wf(s: SessionState) -> bool {
    &&& forall|i: int, j: int|
        0 <= i < j < s.downloads@.len() ==> s.downloads@[i].download_id
            != s.downloads@[j].download_id
    &&& forall|i: int, j: int|
        0 <= i < j < s.uploads@.len() ==> s.uploads@[i].download_id != s.uploads@[j].download_id
}

impl SessionState {
    /// A fresh session; the identity is known up front only when the peer
    /// was found through discovery.
    pub fn new(remote_id: Option<PeerId>) -> (r: SessionState)
        ensures
            r.remote_id == remote_id,
            r.downloads@.len() == 0,
            r.uploads@.len() == 0,
            !r.uploading,
            session_wf(r),
    {
        SessionState { remote_id, downloads: Vec::new(), uploads: Vec::new(), uploading: false }
    }
}

proof fn lemma_dl_idx_unique(s: Seq<DownloadHandle>, id: u128, i: int)
    requires
        forall|a: int, b: int| 0 <= a < b < s.len() ==> s[a].download_id != s[b].download_id,
        0 <= i < s.len(),
        s[i].download_id == id,
    ensures
        dl_idx(s, id) == i,
        has_dl(s, id),
{
    assert(has_dl(s, id));
    let w = dl_idx(s, id);
    if w != i {
        if w < i {
            assert(s[w].download_id != s[i].download_id);
        } else {
            assert(s[i].download_id != s[w].download_id);
        }
    }
}

proof fn lemma_ul_idx_unique(s: Seq<UploadHandle>, id: u128, i: int)
    requires
        forall|a: int, b: int| 0 <= a < b < s.len() ==> s[a].download_id != s[b].download_id,
        0 <= i < s.len(),
        s[i].download_id == id,
    ensures
        ul_idx(s, id) == i,
        has_ul(s, id),
{
    assert(has_ul(s, id));
    let w = ul_idx(s, id);
    if w != i {
        if w < i {
            assert(s[w].download_id != s[i].download_id);
        } else {
            assert(s[i].download_id != s[w].download_id);
        }
    }
}

/// The whole-percent progress of a transfer, rounded half away from zero;
/// more bytes than announced read as over-full.
pub open spec fn percent_of(done: u64, total: u64) -> u64 {
    if total == 0 {
        if done == 0 {
            0
        } else {
            u64::MAX
        }
    } else if (200 * done + total) / (2 * total) > u64::MAX {
        u64::MAX
    } else {
        ((200 * done + total) / (2 * total)) as u64
    }
}

/// Compute a transfer's whole-percent progress.
pub fn percent(done: u64, total: u64) -> (r: u64)
    ensures
        r == percent_of(done, total),
{
    if total == 0 {
        if done == 0 {
            0
        } else {
            u64::MAX
        }
    } else {
        let n: u128 = 200 * (done as u128) + (total as u128);
        let d: u128 = 2 * (total as u128);
        let q = n / d;
        if q > u64::MAX as u128 {
            u64::MAX
        } else {
            q as u64
        }
    }
}

/// Progress never falls as bytes arrive: with the total fixed, the
/// whole-percent value is monotone in the bytes received, so the updates a
/// downloader reports for one transfer are non-decreasing.
pub proof fn lemma_percent_monotone(d1: u64, d2: u64, total: u64)
    requires
        d1 <= d2,
    ensures
        percent_of(d1, total) <= percent_of(d2, total),
{
    if total != 0 {
        vstd::arithmetic::div_mod::lemma_div_is_ordered(
            200 * d1 + total,
            200 * d2 + total,
            2 * total,
        );
    }
}

/// Find a transfer by its identifier.
pub fn find_download(v: &Vec<DownloadHandle>, id: u128) -> (r: Option<usize>)
    ensures
        match r {
            Some(i) => i < v@.len() && v@[i as int].download_id == id,
            None => forall|j: int| 0 <= j < v@.len() ==> (#[trigger] v@[j]).download_id != id,
        },
{
    let mut i: usize = 0;
    while i < v.len()
        invariant
            i <= v@.len(),
            forall|j: int| 0 <= j < i ==> (#[trigger] v@[j]).download_id != id,
        decreases v@.len() - i,
    {
        if v[i].download_id == id {
            return Some(i);
        }
        i = i + 1;
    }
    None
}

/// Find an upload by its transfer identifier.
pub fn find_upload(v: &Vec<UploadHandle>, id: u128) -> (r: Option<usize>)
    ensures
        match r {
            Some(i) => i < v@.len() && v@[i as int].download_id == id,
            None => forall|j: int| 0 <= j < v@.len() ==> (#[trigger] v@[j]).download_id != id,
        },
{
    let mut i: usize = 0;
    while i < v.len()
        invariant
            i <= v@.len(),
            forall|j: int| 0 <= j < i ==> (#[trigger] v@[j]).download_id != id,
        decreases v@.len() - i,
    {
        if v[i].download_id == id {
            return Some(i);
        }
        i = i + 1;
    }
    None
}

/// Turning a file entry network-only.
pub open spec fn net_file_fn() -> spec_fn(SharedFileV) -> SharedFileV {
    |f: SharedFileV| net_file(f)
}

/// A directory with every content location scrubbed off.
pub open spec fn scrub_dir(d: ShareDirectoryV) -> ShareDirectoryV {
    ShareDirectoryV {
        signature: d.signature,
        shared_files: d.shared_files.map_values(net_file_fn()),
    }
}

/// Scrubbing, as a function on directories.
pub open spec fn scrub_dir_fn() -> spec_fn(ShareDirectoryV) -> ShareDirectoryV {
    |d: ShareDirectoryV| scrub_dir(d)
}

/// Membership of the given peer.
pub open spec fn member_fn(remote: PeerIdV) -> spec_fn(ShareDirectoryV) -> bool {
    |d: ShareDirectoryV| d.signature.shared_peers.contains(remote)
}

/// Exactly the directories the peer belongs to, each scrubbed.
pub open spec fn scrub_for(dirs: Seq<ShareDirectoryV>, remote: PeerIdV) -> Seq<ShareDirectoryV> {
    dirs.filter(member_fn(remote)).map_values(scrub_dir_fn())
}

/// Owned, scrubbed copies of a list of files.
pub fn scrub_files(files: &Vec<SharedFile>) -> (r: Vec<SharedFile>)
    ensures
        r.deep_view() == files.deep_view().map_values(net_file_fn()),
{
    let mut out: Vec<SharedFile> = Vec::new();
    let mut j: usize = 0;
    while j < files.len()
        invariant
            j <= files@.len(),
            out.deep_view() =~= files.deep_view().take(j as int).map_values(net_file_fn()),
        decreases files@.len() - j,
    {
        let f = &files[j];
        let ghost prev = out.deep_view();
        let g = SharedFile {
            name: f.name.clone(),
            identifier: f.identifier,
            content_hash: f.content_hash,
            last_modified: f.last_modified,
            content_location: ContentLocation::NetworkOnly,
            owned_peers: crate::data::clone_peers(&f.owned_peers),
            size: f.size,
        };
        proof {
            assert(g@ == net_file(files.deep_view()[j as int]));
        }
        out.push(g);
        proof {
            assert(out.deep_view() =~= prev.push(out@[out@.len() - 1].deep_view()));
            assert(out.deep_view() =~= files.deep_view().take(j as int + 1).map_values(
                net_file_fn(),
            ));
        }
        j = j + 1;
    }
    proof {
        assert(files.deep_view().take(files.deep_view().len() as int) =~= files.deep_view());
    }
    out
}

/// An owned, scrubbed copy of one directory.
pub fn scrub_directory(d: &ShareDirectory) -> (r: ShareDirectory)
    ensures
        r@ == scrub_dir(d@),
{
    let files = scrub_files(&d.shared_files);
    ShareDirectory { signature: d.signature.clone(), shared_files: files }
}

/// Owned, scrubbed copies of all the listed directories.
pub fn scrub_directories(dirs: &Vec<ShareDirectory>) -> (r: Vec<ShareDirectory>)
    ensures
        r.deep_view() == dirs.deep_view().map_values(scrub_dir_fn()),
{
    let mut out: Vec<ShareDirectory> = Vec::new();
    let mut i: usize = 0;
    while i < dirs.len()
        invariant
            i <= dirs@.len(),
            out.deep_view() =~= dirs.deep_view().take(i as int).map_values(scrub_dir_fn()),
        decreases dirs@.len() - i,
    {
        let ghost prev = out.deep_view();
        let s = scrub_directory(&dirs[i]);
        out.push(s);
        proof {
            assert(out.deep_view() =~= prev.push(out@[out@.len() - 1].deep_view()));
            assert(out.deep_view() =~= dirs.deep_view().take(i as int + 1).map_values(
                scrub_dir_fn(),
            ));
        }
        i = i + 1;
    }
    proof {
        assert(dirs.deep_view().take(dirs.deep_view().len() as int) =~= dirs.deep_view());
    }
    out
}

/// All the directories the remote peer belongs to, scrubbed: exactly the
/// listing the handshake owes it.
pub fn directories_for_peer(store: &StoredConfig, remote: &PeerId) -> (r: Vec<ShareDirectory>)
    ensures
        r.deep_view() == scrub_for(store.cached_data.deep_view(), remote@),
{
    let ghost dirs0 = store.cached_data.deep_view();
    let ghost member = member_fn(remote@);
    let mut picked: Vec<ShareDirectory> = Vec::new();
    let mut i: usize = 0;
    while i < store.cached_data.len()
        invariant
            i <= store.cached_data@.len(),
            store.cached_data.deep_view() == dirs0,
            member == member_fn(remote@),
            picked.deep_view() == dirs0.take(i as int).filter(member),
        decreases store.cached_data@.len() - i,
    {
        let ghost prev = picked.deep_view();
        proof {
            crate::data::lemma_filter_take_step(dirs0, member, i as int);
        }
        if crate::data::contains_peer(&store.cached_data[i].signature.shared_peers, remote) {
            picked.push(store.cached_data[i].clone());
            proof {
                assert(picked.deep_view() =~= prev.push(dirs0[i as int]));
            }
        }
        i = i + 1;
    }
    proof {
        assert(dirs0.take(dirs0.len() as int) =~= dirs0);
    }
    scrub_directories(&picked)
}

/// The directory with new file entries and a new stamp; everything else
/// stands.
pub open spec fn dir_with_files(d: ShareDirectoryV, files: Seq<SharedFileV>, stamp: i64) -> ShareDirectoryV {
    ShareDirectoryV {
        signature: ShareDirectorySignatureV {
            name: d.signature.name,
            identifier: d.signature.identifier,
            last_modified: stamp,
            shared_peers: d.signature.shared_peers,
        },
        shared_files: files,
    }
}

/// Decide what one inbound protocol message means: per message, exactly
/// how the store and the session state change and which effects follow.
/// Malformed data from the wire yields a protocol error and changes
/// nothing; `now` stamps the ownership a finished download grants.
#[verifier::rlimit(100)]
pub fn handle_tcp_message(
    state: &mut SessionState,
    store: &mut StoredConfig,
    msg: TcpMessage,
    self_peer: &PeerId,
    now: i64,
) -> (effects: Vec<SessionEffect>)
    requires
        store_wf(old(store).cached_data.deep_view()),
        session_wf(*old(state)),
    ensures
        store_wf(final(store).cached_data.deep_view()),
        session_wf(*final(state)),
        final(store).app_config == old(store).app_config,
        final(state).uploading == old(state).uploading,
        ({
            let sv0 = old(store).cached_data.deep_view();
            let sv1 = final(store).cached_data.deep_view();
            let st0 = *old(state);
            let st1 = *final(state);
            let e = effects@;
            &&& (msg matches TcpMessage::RequestPeerId ==> st1 == st0 && sv1
                == sv0 && e.len() == 1 && (e[0] matches SessionEffect::SendTcp(m) && m
                matches TcpMessage::ReceivePeerId(p) && p@ == self_peer@))
            &&& (msg matches TcpMessage::ReceivePeerId(id) ==> sv1 == sv0 && st1.downloads@ == st0.downloads@ && st1.uploads@ == st0.uploads@
                && (st1.remote_id matches Some(q) && q@ == id@) && e.len() == 2 && (e[0]
                matches SessionEffect::SendTcp(m) && m is Synchronize) && (e[1]
                matches SessionEffect::NotifySetPeerId(p) && p@ == id@))
            &&& (msg matches TcpMessage::Synchronize ==> st1 == st0 && sv1 == sv0
                && (match st0.remote_id {
                Some(pid) => {
                    let scr = scrub_for(sv0, pid@);
                    if scr.len() > 0 {
                        e.len() == 1 && (e[0] matches SessionEffect::SendTcp(m) && m
                            matches TcpMessage::ReceiveDirectories(ds) && ds.deep_view() == scr)
                    } else {
                        e.len() == 0
                    }
                },
                None => e.len() == 0,
            }))
            &&& (msg matches TcpMessage::ReceiveDirectories(directories) ==> st1 == st0 && sv1 == sv0 && (match st0.remote_id {
                Some(pid) => if forall|k: int|
                    0 <= k < directories.deep_view().len() ==> dir_wf(
                        #[trigger] directories.deep_view()[k],
                    ) {
                    e.len() == 1 && (e[0] matches SessionEffect::NotifySyncDirectories(ds, p)
                        && ds.deep_view() == directories.deep_view() && p@ == pid@)
                } else {
                    e.len() == 1 && e[0] is ProtocolError
                },
                None => e.len() == 0,
            }))
            &&& (msg matches TcpMessage::SharedDirectory(directory) ==> st1 == st0 && sv1 == sv0 && if dir_wf(directory@) {
                e.len() == 1 && (e[0] matches SessionEffect::NotifySharedDirectory(d) && d@
                    == directory@)
            } else {
                e.len() == 1 && e[0] is ProtocolError
            })
            &&& (msg matches TcpMessage::LeftDirectory { directory_identifier, date_modified }
                ==> st1 == st0 && sv1 == sv0 && (match st0.remote_id {
                Some(pid) => e.len() == 1 && (e[0] matches SessionEffect::NotifyLeftDirectory(
                    d,
                    p,
                    t,
                ) && d == directory_identifier && p@ == pid@ && t == date_modified),
                None => e.len() == 0,
            }))
            &&& (msg matches TcpMessage::AddedFiles { directory, files } ==> st1 == st0 && (if !files_all_wf(files.deep_view()) {
                sv1 == sv0 && e.len() == 1 && e[0] is ProtocolError
            } else if !has_dir(sv0, directory@.identifier) {
                sv1 == sv0 && e.len() == 0
            } else {
                let i = dir_idx(sv0, directory@.identifier);
                match add_files_result(sv0[i].shared_files, files.deep_view()) {
                    Ok(fs) => sv1 == sv0.update(
                        i,
                        dir_with_files(sv0[i], fs, directory@.last_modified),
                    ) && e.len() == 1 && (e[0] matches SessionEffect::NotifyUpdatedDirectory(d)
                        && d == directory@.identifier),
                    Err(_) => sv1 == sv0 && e.len() == 0,
                }
            }))
            &&& (msg matches TcpMessage::DeleteFile { peer_id, directory, file } ==> st1
                == st0 && (if !has_dir(sv0, directory@.identifier) {
                sv1 == sv0 && e.len() == 0
            } else {
                let i = dir_idx(sv0, directory@.identifier);
                sv1 == sv0.update(
                    i,
                    dir_with_files(
                        sv0[i],
                        remove_files_seq(sv0[i].shared_files, peer_id@, seq![file]),
                        directory@.last_modified,
                    ),
                ) && e.len() == 1 && (e[0] matches SessionEffect::NotifyUpdatedDirectory(d) && d
                    == directory@.identifier)
            }))
            &&& (msg matches TcpMessage::StartDownload { download_id, file_id, dir_id } ==> st1 == st0 && sv1 == sv0 && e.len() == 1 && (if !has_dir(sv0, dir_id) {
                e[0] matches SessionEffect::SendTcp(m) && m matches TcpMessage::DownloadError {
                    error,
                    download_id: d,
                } && error == DownloadError::DirectoryMissing && d == download_id
            } else if !has_file(sv0[dir_idx(sv0, dir_id)].shared_files, file_id) {
                e[0] matches SessionEffect::SendTcp(m) && m matches TcpMessage::DownloadError {
                    error,
                    download_id: d,
                } && error == DownloadError::FileMissing && d == download_id
            } else {
                match sv0[dir_idx(sv0, dir_id)].shared_files[file_idx(
                    sv0[dir_idx(sv0, dir_id)].shared_files,
                    file_id,
                )].content_location {
                    crate::data::ContentLocationV::NetworkOnly => e[0]
                        matches SessionEffect::SendTcp(m) && m
                        matches TcpMessage::DownloadError { error, download_id: d } && error
                        == DownloadError::FileNotOwned && d == download_id,
                    crate::data::ContentLocationV::LocalPath(p) => e[0]
                        matches SessionEffect::OpenUploadSource(d, path) && d == download_id
                        && path@ == p,
                }
            }))
            &&& (msg matches TcpMessage::CancelDownload { download_id } ==> sv1 == sv0 && st1.downloads@ == st0.downloads@ && st1.remote_id == st0.remote_id && e.len() == 0 && (if has_ul(st0.uploads@, download_id) {
                st1.uploads@ == st0.uploads@.update(
                    ul_idx(st0.uploads@, download_id),
                    UploadHandle { download_id, canceled: true },
                )
            } else {
                st1.uploads@ == st0.uploads@
            }))
            &&& (msg matches TcpMessage::ReceiveFilePart { download_id, data } ==> st1
                == st0 && sv1 == sv0 && (if has_dl(st0.downloads@, download_id) {
                e.len() == 1 && (e[0] matches SessionEffect::WriteFilePart(d, bytes) && d
                    == download_id && bytes@ == data@)
            } else {
                e.len() == 0
            }))
            &&& (msg matches TcpMessage::DownloadError { error, download_id } ==> sv1 == sv0
                && st1.uploads@ == st0.uploads@ && st1.remote_id == st0.remote_id && (if has_dl(st0.downloads@, download_id) {
                let i = dl_idx(st0.downloads@, download_id);
                st1.downloads@ == st0.downloads@.remove(i) && e.len() == 2 && (e[0]
                    matches SessionEffect::RemoveFile(p) && p@ == st0.downloads@[i].output_path@) && (e[1]
                    matches SessionEffect::NotifyCanceledDownload(d, r) && d == download_id && r@
                    == error_text(error))
            } else {
                st1.downloads@ == st0.downloads@ && e.len() == 0
            }))
            &&& (msg matches TcpMessage::ReceiveFileEnd { download_id } ==> st1.uploads@
                == st0.uploads@ && st1.remote_id == st0.remote_id && (
            if has_dl(st0.downloads@, download_id) {
                let i = dl_idx(st0.downloads@, download_id);
                let h = st0.downloads@[i];
                st1.downloads@ == st0.downloads@.remove(i) && (if has_dir(
                    sv0,
                    h.dir_id,
                ) {
                    let di = dir_idx(sv0, h.dir_id);
                    sv1 == sv0.update(
                        di,
                        dir_with_files(
                            sv0[di],
                            add_owner_seq(
                                sv0[di].shared_files,
                                self_peer@,
                                seq![h.file_id],
                                Some(h.output_path@),
                            ),
                            now,
                        ),
                    ) && e.len() == 1 && (e[0] matches SessionEffect::NotifyFinishedDownload(
                        d,
                        dr,
                        f,
                    ) && d == download_id && dr == h.dir_id && f == h.file_id)
                } else {
                    sv1 == sv0 && e.len() == 1 && (e[0]
                        matches SessionEffect::NotifyCanceledDownload(d, r) && d == download_id
                        && r@ == error_text(DownloadError::DirectoryMissing))
                })
            } else {
                st1 == st0 && sv1 == sv0 && e.len() == 0
            }))
            &&& (msg matches TcpMessage::DownloadedFile {
                peer_id,
                directory_identifier,
                file_identifier,
                date_modified,
            } ==> st1 == st0 && (if !has_dir(sv0, directory_identifier) {
                sv1 == sv0 && e.len() == 0
            } else {
                let i = dir_idx(sv0, directory_identifier);
                sv1 == sv0.update(
                    i,
                    dir_with_files(
                        sv0[i],
                        add_owner_seq(
                            sv0[i].shared_files,
                            peer_id@,
                            seq![file_identifier],
                            None,
                        ),
                        date_modified,
                    ),
                ) && e.len() == 1 && (e[0] matches SessionEffect::NotifyUpdatedDirectory(d) && d
                    == directory_identifier)
            }))
        }),
{
    let ghost sv0 = store.cached_data.deep_view();
    let mut effects: Vec<SessionEffect> = Vec::new();
    match msg {
        TcpMessage::RequestPeerId => {
            effects.push(SessionEffect::SendTcp(TcpMessage::ReceivePeerId(self_peer.clone())));
        },
        TcpMessage::ReceivePeerId(id) => {
            effects.push(SessionEffect::SendTcp(TcpMessage::Synchronize));
            effects.push(SessionEffect::NotifySetPeerId(id.clone()));
            state.remote_id = Some(id);
        },
        TcpMessage::ReceiveDirectories(directories) => {
            match &state.remote_id {
                Some(pid) => {
                    let mut k: usize = 0;
                    let mut all_ok = true;
                    while k < directories.len()
                        invariant
                            k <= directories@.len(),
                            all_ok == forall|j: int|
                                0 <= j < k ==> dir_wf(#[trigger] directories.deep_view()[j]),
                        decreases directories@.len() - k,
                    {
                        if !dir_wf_check(&directories[k]) {
                            proof {
                                assert(!dir_wf(directories.deep_view()[k as int]));
                            }
                            all_ok = false;
                        }
                        k = k + 1;
                    }
                    if all_ok {
                        let p = pid.clone();
                        effects.push(SessionEffect::NotifySyncDirectories(directories, p));
                    } else {
                        effects.push(SessionEffect::ProtocolError);
                    }
                },
                None => {},
            }
        },
        TcpMessage::SharedDirectory(directory) => {
            if dir_wf_check(&directory) {
                effects.push(SessionEffect::NotifySharedDirectory(directory));
            } else {
                effects.push(SessionEffect::ProtocolError);
            }
        },
        TcpMessage::LeftDirectory { directory_identifier, date_modified } => {
            match &state.remote_id {
                Some(pid) => {
                    effects.push(
                        SessionEffect::NotifyLeftDirectory(
                            directory_identifier,
                            pid.clone(),
                            date_modified,
                        ),
                    );
                },
                None => {},
            }
        },
        TcpMessage::Synchronize => {
            match &state.remote_id {
                Some(pid) => {
                    let directories = directories_for_peer(store, pid);
                    if directories.len() > 0 {
                        effects.push(
                            SessionEffect::SendTcp(TcpMessage::ReceiveDirectories(directories)),
                        );
                    }
                },
                None => {},
            }
        },
        TcpMessage::AddedFiles { directory, files } => {
            let mut ok = true;
            let mut k: usize = 0;
            while k < files.len()
                invariant
                    k <= files@.len(),
                    ok == forall|j: int|
                        0 <= j < k ==> crate::data::file_wf(#[trigger] files.deep_view()[j]),
                decreases files@.len() - k,
            {
                if files[k].owned_peers.len() == 0 {
                    proof {
                        assert(!crate::data::file_wf(files.deep_view()[k as int]));
                    }
                    ok = false;
                }
                k = k + 1;
            }
            if !ok {
                effects.push(SessionEffect::ProtocolError);
            } else {
                proof {
                    assert(files_all_wf(files.deep_view()));
                }
                match crate::store::find_dir_index(&store.cached_data, directory.identifier) {
                    None => {},
                    Some(i) => {
                        proof {
                            crate::store::lemma_dir_idx_unique(
                                sv0,
                                directory@.identifier,
                                i as int,
                            );
                        }
                        let mut d = store.cached_data.remove(i);
                        proof {
                            assert(dir_wf(d@));
                        }
                        let res = d.add_files(files, directory.last_modified);
                        if res.is_ok() {
                            proof {
                                assert(d@ == dir_with_files(
                                    sv0[i as int],
                                    d@.shared_files,
                                    directory@.last_modified,
                                ));
                            }
                            effects.push(
                                SessionEffect::NotifyUpdatedDirectory(directory.identifier),
                            );
                        }
                        store.cached_data.insert(i, d);
                        proof {
                            assert(store.cached_data.deep_view() =~= sv0.update(
                                i as int,
                                store.cached_data.deep_view()[i as int],
                            ));
                            if !(res is Ok) {
                                assert(store.cached_data.deep_view() =~= sv0);
                            }
                            lemma_put_back_wf(sv0, store.cached_data.deep_view(), i as int);
                        }
                    },
                }
            }
        },
        TcpMessage::DeleteFile { peer_id, directory, file } => {
            match crate::store::find_dir_index(&store.cached_data, directory.identifier) {
                None => {},
                Some(i) => {
                    proof {
                        crate::store::lemma_dir_idx_unique(sv0, directory@.identifier, i as int);
                    }
                    let mut d = store.cached_data.remove(i);
                    proof {
                        assert(dir_wf(d@));
                    }
                    let mut ids: Vec<u128> = Vec::new();
                    ids.push(file);
                    proof {
                        assert(ids@ =~= seq![file]);
                    }
                    d.remove_files(&peer_id, directory.last_modified, ids);
                    store.cached_data.insert(i, d);
                    proof {
                        assert(store.cached_data.deep_view() =~= sv0.update(
                            i as int,
                            store.cached_data.deep_view()[i as int],
                        ));
                        lemma_put_back_wf(sv0, store.cached_data.deep_view(), i as int);
                    }
                    effects.push(SessionEffect::NotifyUpdatedDirectory(directory.identifier));
                },
            }
        },
        TcpMessage::StartDownload { download_id, file_id, dir_id } => {
            match crate::store::find_dir_index(&store.cached_data, dir_id) {
                None => {
                    effects.push(
                        SessionEffect::SendTcp(
                            TcpMessage::DownloadError {
                                error: DownloadError::DirectoryMissing,
                                download_id,
                            },
                        ),
                    );
                },
                Some(i) => {
                    proof {
                        crate::store::lemma_dir_idx_unique(sv0, dir_id, i as int);
                    }
                    match find_file_in(&store.cached_data[i], file_id) {
                        None => {
                            effects.push(
                                SessionEffect::SendTcp(
                                    TcpMessage::DownloadError {
                                        error: DownloadError::FileMissing,
                                        download_id,
                                    },
                                ),
                            );
                        },
                        Some(j) => {
                            proof {
                                crate::store::lemma_file_idx_unique(
                                    sv0[i as int].shared_files,
                                    file_id,
                                    j as int,
                                );
                            }
                            match &store.cached_data[i].shared_files[j].content_location {
                                ContentLocation::NetworkOnly => {
                                    effects.push(
                                        SessionEffect::SendTcp(
                                            TcpMessage::DownloadError {
                                                error: DownloadError::FileNotOwned,
                                                download_id,
                                            },
                                        ),
                                    );
                                },
                                ContentLocation::LocalPath(p) => {
                                    effects.push(
                                        SessionEffect::OpenUploadSource(download_id, p.clone()),
                                    );
                                },
                            }
                        },
                    }
                },
            }
        },
        TcpMessage::CancelDownload { download_id } => {
            match find_upload(&state.uploads, download_id) {
                None => {
                    proof {
                        if has_ul(state.uploads@, download_id) {
                            let w = ul_idx(state.uploads@, download_id);
                            assert(state.uploads@[w].download_id != download_id);
                        }
                    }
                },
                Some(i) => {
                    proof {
                        lemma_ul_idx_unique(old(state).uploads@, download_id, i as int);
                    }
                    let _ = state.uploads.remove(i);
                    state.uploads.insert(i, UploadHandle { download_id, canceled: true });
                    proof {
                        assert(state.uploads@ =~= old(state).uploads@.update(
                            i as int,
                            UploadHandle { download_id, canceled: true },
                        ));
                    }
                },
            }
        },
        TcpMessage::ReceiveFilePart { download_id, data } => {
            match find_download(&state.downloads, download_id) {
                None => {
                    proof {
                        if has_dl(state.downloads@, download_id) {
                            let w = dl_idx(state.downloads@, download_id);
                            assert(state.downloads@[w].download_id != download_id);
                        }
                    }
                },
                Some(_) => {
                    proof {
                        assert(has_dl(state.downloads@, download_id));
                    }
                    effects.push(SessionEffect::WriteFilePart(download_id, data));
                },
            }
        },
        TcpMessage::DownloadError { error, download_id } => {
            match find_download(&state.downloads, download_id) {
                None => {
                    proof {
                        if has_dl(state.downloads@, download_id) {
                            let w = dl_idx(state.downloads@, download_id);
                            assert(state.downloads@[w].download_id != download_id);
                        }
                    }
                },
                Some(i) => {
                    proof {
                        lemma_dl_idx_unique(old(state).downloads@, download_id, i as int);
                    }
                    let d = state.downloads.remove(i);
                    effects.push(SessionEffect::RemoveFile(d.output_path));
                    effects.push(
                        SessionEffect::NotifyCanceledDownload(download_id, error.to_string()),
                    );
                },
            }
        },
        TcpMessage::ReceiveFileEnd { download_id } => {
            match find_download(&state.downloads, download_id) {
                None => {
                    proof {
                        if has_dl(state.downloads@, download_id) {
                            let w = dl_idx(state.downloads@, download_id);
                            assert(state.downloads@[w].download_id != download_id);
                        }
                    }
                },
                Some(i) => {
                    proof {
                        lemma_dl_idx_unique(old(state).downloads@, download_id, i as int);
                    }
                    let d = state.downloads.remove(i);
                    match crate::store::find_dir_index(&store.cached_data, d.dir_id) {
                        None => {
                            effects.push(
                                SessionEffect::NotifyCanceledDownload(
                                    download_id,
                                    DownloadError::DirectoryMissing.to_string(),
                                ),
                            );
                        },
                        Some(di) => {
                            proof {
                                crate::store::lemma_dir_idx_unique(
                                    sv0,
                                    old(state).downloads@[i as int].dir_id,
                                    di as int,
                                );
                            }
                            let mut dir = store.cached_data.remove(di);
                            proof {
                                assert(dir_wf(dir@));
                            }
                            let mut ids: Vec<u128> = Vec::new();
                            ids.push(d.file_id);
                            proof {
                                assert(ids@ =~= seq![old(state).downloads@[i as int].file_id]);
                            }
                            dir.add_owner(self_peer, now, ids, Some(d.output_path));
                            store.cached_data.insert(di, dir);
                            proof {
                                assert(store.cached_data.deep_view() =~= sv0.update(
                                    di as int,
                                    store.cached_data.deep_view()[di as int],
                                ));
                                lemma_put_back_wf(sv0, store.cached_data.deep_view(), di as int);
                            }
                            effects.push(
                                SessionEffect::NotifyFinishedDownload(
                                    download_id,
                                    d.dir_id,
                                    d.file_id,
                                ),
                            );
                        },
                    }
                },
            }
        },
        TcpMessage::DownloadedFile {
            peer_id,
            directory_identifier,
            file_identifier,
            date_modified,
        } => {
            match crate::store::find_dir_index(&store.cached_data, directory_identifier) {
                None => {},
                Some(i) => {
                    proof {
                        crate::store::lemma_dir_idx_unique(sv0, directory_identifier, i as int);
                    }
                    let mut d = store.cached_data.remove(i);
                    proof {
                        assert(dir_wf(d@));
                    }
                    let mut ids: Vec<u128> = Vec::new();
                    ids.push(file_identifier);
                    proof {
                        assert(ids@ =~= seq![file_identifier]);
                    }
                    d.add_owner(&peer_id, date_modified, ids, None);
                    store.cached_data.insert(i, d);
                    proof {
                        assert(store.cached_data.deep_view() =~= sv0.update(
                            i as int,
                            store.cached_data.deep_view()[i as int],
                        ));
                        lemma_put_back_wf(sv0, store.cached_data.deep_view(), i as int);
                    }
                    effects.push(SessionEffect::NotifyUpdatedDirectory(directory_identifier));
                },
            }
        },
    }
    effects
}

/// Look up a file entry inside one directory.
fn find_file_in(d: &ShareDirectory, file_id: u128) -> (r: Option<usize>)
    ensures
        match r {
            Some(j) => j < d@.shared_files.len() && d@.shared_files[j as int].identifier
                == file_id,
            None => !has_file(d@.shared_files, file_id),
        },
{
    let r = crate::data::find_file_index(&d.shared_files, file_id);
    proof {
        if r is None && has_file(d@.shared_files, file_id) {
            let w = file_idx(d@.shared_files, file_id);
            assert(d@.shared_files[w].identifier != file_id);
        }
    }
    r
}

/// A directory taken out, mutated under its own invariant with its
/// identifier kept, and put back leaves the store well-formed.
proof fn lemma_put_back_wf(
    before: Seq<ShareDirectoryV>,
    after: Seq<ShareDirectoryV>,
    i: int,
)
    requires
        store_wf(before),
        0 <= i < before.len(),
        after.len() == before.len(),
        dir_wf(after[i]),
        after[i].signature.identifier == before[i].signature.identifier,
        forall|j: int| 0 <= j < after.len() && j != i ==> after[j] == before[j],
    ensures
        store_wf(after),
{
    assert forall|a: int, b: int| 0 <= a < b < after.len() implies after[a].signature.identifier
        != after[b].signature.identifier by {
        assert(before[a].signature.identifier != before[b].signature.identifier);
    }
    assert forall|a: int| 0 <= a < after.len() implies dir_wf(#[trigger] after[a]) by {
        if a != i {
            assert(after[a] == before[a]);
        }
    }
}

/// Record the result of opening an upload source: a failed open is
/// reported to the downloader as a write-side error, an open one starts
/// the pump.
pub fn upload_open_result(state: &mut SessionState, download_id: u128, opened: bool) -> (effects:
    Vec<SessionEffect>)
    requires
        session_wf(*old(state)),
        !has_ul(old(state).uploads@, download_id),
    ensures
        session_wf(*final(state)),
        final(state).downloads@ == old(state).downloads@,
        final(state).remote_id == old(state).remote_id,
        opened ==> final(state).uploading && final(state).uploads@ == old(state).uploads@.push(
            UploadHandle { download_id, canceled: false },
        ) && effects@.len() == 0,
        !opened ==> *final(state) == *old(state) && effects@.len() == 1 && (effects@[0]
            matches SessionEffect::SendTcp(m) && m matches TcpMessage::DownloadError {
            error,
            download_id: d,
        } && error == DownloadError::WriteError && d == download_id),
{
    let mut effects: Vec<SessionEffect> = Vec::new();
    if opened {
        state.uploads.push(UploadHandle { download_id, canceled: false });
        state.uploading = true;
        proof {
            assert forall|a: int, b: int|
                0 <= a < b < state.uploads@.len() implies state.uploads@[a].download_id
                != state.uploads@[b].download_id by {
                if b == state.uploads@.len() - 1 {
                    if state.uploads@[a].download_id == download_id {
                        assert(has_ul(old(state).uploads@, download_id));
                    }
                }
            }
        }
    } else {
        effects.push(
            SessionEffect::SendTcp(
                TcpMessage::DownloadError { error: DownloadError::WriteError, download_id },
            ),
        );
    }
    effects
}

/// One step of serving an upload: the runtime's read from the source file
/// (one chunk of at most 50 KiB) decides the message that goes out and
/// whether the transfer is done. The pump stops when no upload remains.
pub fn upload_step(
    state: &mut SessionState,
    download_id: u128,
    read: Result<Vec<u8>, ()>,
) -> (effects: Vec<SessionEffect>)
    requires
        session_wf(*old(state)),
        read matches Ok(data) ==> data@.len() <= 51200,
    ensures
        session_wf(*final(state)),
        final(state).remote_id == old(state).remote_id,
        final(state).downloads@ == old(state).downloads@,
        ({
            let ups = old(state).uploads@;
            if !has_ul(ups, download_id) {
                final(state).uploads@ == ups && effects@.len() == 0
            } else {
                let i = ul_idx(ups, download_id);
                if ups[i].canceled {
                    final(state).uploads@ == ups.remove(i) && effects@.len() == 1 && (effects@[0]
                        matches SessionEffect::SendTcp(m) && m
                        matches TcpMessage::DownloadError { error, download_id: d } && error
                        == DownloadError::Canceled && d == download_id)
                } else {
                    match read {
                        Err(_) => final(state).uploads@ == ups.remove(i) && effects@.len() == 1
                            && (effects@[0] matches SessionEffect::SendTcp(m) && m
                            matches TcpMessage::DownloadError { error, download_id: d } && error
                            == DownloadError::ReadError && d == download_id),
                        Ok(data) => if data@.len() == 0 {
                            final(state).uploads@ == ups.remove(i) && effects@.len() == 1 && (
                            effects@[0] matches SessionEffect::SendTcp(m) && m
                                matches TcpMessage::ReceiveFileEnd { download_id: d } && d
                                == download_id)
                        } else {
                            final(state).uploads@ == ups && effects@.len() == 1 && (effects@[0]
                                matches SessionEffect::SendTcp(m) && m
                                matches TcpMessage::ReceiveFilePart { download_id: d, data: b }
                                && d == download_id && b@ == data@ && b@.len() <= 51200)
                        },
                    }
                }
            }
        }),
        final(state).uploads@.len() == 0 ==> !final(state).uploading,
        final(state).uploads@.len() > 0 ==> final(state).uploading == old(state).uploading,
{
    let mut effects: Vec<SessionEffect> = Vec::new();
    let idx = match find_upload(&state.uploads, download_id) {
        None => {
            proof {
                if has_ul(state.uploads@, download_id) {
                    let w = ul_idx(state.uploads@, download_id);
                    assert(state.uploads@[w].download_id != download_id);
                }
            }
            if state.uploads.len() == 0 {
                state.uploading = false;
            }
            return effects;
        },
        Some(i) => i,
    };
    proof {
        lemma_ul_idx_unique(old(state).uploads@, download_id, idx as int);
    }
    if state.uploads[idx].canceled {
        let _ = state.uploads.remove(idx);
        effects.push(
            SessionEffect::SendTcp(
                TcpMessage::DownloadError { error: DownloadError::Canceled, download_id },
            ),
        );
    } else {
        match read {
            Err(_) => {
                let _ = state.uploads.remove(idx);
                effects.push(
                    SessionEffect::SendTcp(
                        TcpMessage::DownloadError {
                            error: DownloadError::ReadError,
                            download_id,
                        },
                    ),
                );
            },
            Ok(data) => {
                if data.len() == 0 {
                    let _ = state.uploads.remove(idx);
                    effects.push(
                        SessionEffect::SendTcp(TcpMessage::ReceiveFileEnd { download_id }),
                    );
                } else {
                    effects.push(
                        SessionEffect::SendTcp(
                            TcpMessage::ReceiveFilePart { download_id, data },
                        ),
                    );
                }
            },
        }
    }
    if state.uploads.len() == 0 {
        state.uploading = false;
    }
    effects
}

/// Account for one chunk written to a download's destination: bytes are
/// added saturating, progress is reported, a failed write or more bytes
/// than announced cancel the transfer and delete the partial file.
pub fn part_written(state: &mut SessionState, download_id: u128, n: u64, write_ok: bool) -> (
    effects: Vec<SessionEffect>)
    requires
        session_wf(*old(state)),
    ensures
        session_wf(*final(state)),
        final(state).remote_id == old(state).remote_id,
        final(state).uploads@ == old(state).uploads@,
        final(state).uploading == old(state).uploading,
        ({
            let dls = old(state).downloads@;
            if !has_dl(dls, download_id) {
                *final(state) == *old(state) && effects@.len() == 0
            } else {
                let i = dl_idx(dls, download_id);
                let h = dls[i];
                if !write_ok {
                    final(state).downloads@ == dls.remove(i) && effects@.len() == 2 && (effects@[0]
                        matches SessionEffect::RemoveFile(p) && p@ == h.output_path@) && (
                    effects@[1] matches SessionEffect::NotifyCanceledDownload(d, r) && d
                        == download_id && r@ == error_text(DownloadError::WriteError))
                } else {
                    let nb = if h.bytes_done + n <= u64::MAX {
                        (h.bytes_done + n) as u64
                    } else {
                        u64::MAX
                    };
                    let p = percent_of(nb, h.bytes_total);
                    if p > 100 {
                        final(state).downloads@ == dls.remove(i) && effects@.len() == 2 && (
                        effects@[0] matches SessionEffect::RemoveFile(q) && q@
                            == h.output_path@) && (effects@[1]
                            matches SessionEffect::NotifyCanceledDownload(d, r) && d
                            == download_id && r@ == error_text(DownloadError::FileTooLarge))
                    } else {
                        final(state).downloads@.len() == dls.len() && final(state).downloads@[i]
                            == DownloadHandle {
                            bytes_done: nb,
                            ..h
                        } && (forall|j: int|
                            0 <= j < dls.len() && j != i ==> final(state).downloads@[j] == dls[j])
                            && effects@.len() == 1 && (effects@[0]
                            matches SessionEffect::NotifyDownloadUpdate(d, pr) && d == download_id
                            && pr == p)
                    }
                }
            }
        }),
{
    let mut effects: Vec<SessionEffect> = Vec::new();
    let idx = match find_download(&state.downloads, download_id) {
        None => {
            proof {
                if has_dl(state.downloads@, download_id) {
                    let w = dl_idx(state.downloads@, download_id);
                    assert(state.downloads@[w].download_id != download_id);
                }
            }
            return effects;
        },
        Some(i) => i,
    };
    proof {
        lemma_dl_idx_unique(old(state).downloads@, download_id, idx as int);
    }
    if !write_ok {
        let d = state.downloads.remove(idx);
        effects.push(SessionEffect::RemoveFile(d.output_path));
        effects.push(
            SessionEffect::NotifyCanceledDownload(
                download_id,
                DownloadError::WriteError.to_string(),
            ),
        );
        return effects;
    }
    let mut d = state.downloads.remove(idx);
    if n <= u64::MAX - d.bytes_done {
        d.bytes_done = d.bytes_done + n;
    } else {
        d.bytes_done = u64::MAX;
    }
    let p = percent(d.bytes_done, d.bytes_total);
    if p > 100 {
        effects.push(SessionEffect::RemoveFile(d.output_path));
        effects.push(
            SessionEffect::NotifyCanceledDownload(
                download_id,
                DownloadError::FileTooLarge.to_string(),
            ),
        );
    } else {
        state.downloads.insert(idx, d);
        proof {
            assert(state.downloads@ =~= old(state).downloads@.update(
                idx as int,
                state.downloads@[idx as int],
            ));
        }
        effects.push(SessionEffect::NotifyDownloadUpdate(download_id, p));
    }
    effects
}

/// The session is being torn down: for every inbound transfer, its partial
/// destination file is deleted and a disconnect cancellation reported, in
/// table order; uploads stop.
pub fn disconnect_session(state: &mut SessionState) -> (effects: Vec<SessionEffect>)
    ensures
        final(state).downloads@.len() == 0,
        final(state).uploads@.len() == 0,
        !final(state).uploading,
        session_wf(*final(state)),
        effects@.len() == 2 * old(state).downloads@.len(),
        forall|k: int|
            0 <= k < old(state).downloads@.len() ==> (#[trigger] effects@[2 * k]
                matches SessionEffect::RemoveFile(p) && p@ == old(
                state,
            ).downloads@[k].output_path@),
        forall|k: int|
            0 <= k < old(state).downloads@.len() ==> (#[trigger] effects@[2 * k + 1]
                matches SessionEffect::NotifyCanceledDownload(d, r) && d == old(
                state,
            ).downloads@[k].download_id && r@ == error_text(DownloadError::Disconnected)),
{
    let ghost dls = state.downloads@;
    let mut effects: Vec<SessionEffect> = Vec::new();
    let mut k: usize = 0;
    while k < state.downloads.len()
        invariant
            k <= dls.len(),
            state.downloads@ == dls,
            effects@.len() == 2 * k,
            forall|j: int|
                0 <= j < k ==> (#[trigger] effects@[2 * j] matches SessionEffect::RemoveFile(p)
                    && p@ == dls[j].output_path@),
            forall|j: int|
                0 <= j < k ==> (#[trigger] effects@[2 * j + 1]
                    matches SessionEffect::NotifyCanceledDownload(d, r) && d
                    == dls[j].download_id && r@ == error_text(DownloadError::Disconnected)),
        decreases dls.len() - k,
    {
        let path = state.downloads[k].output_path.clone();
        effects.push(SessionEffect::RemoveFile(path));
        effects.push(
            SessionEffect::NotifyCanceledDownload(
                state.downloads[k].download_id,
                DownloadError::Disconnected.to_string(),
            ),
        );
        k = k + 1;
    }
    state.downloads = Vec::new();
    state.uploads = Vec::new();
    state.uploading = false;
    effects
}

/// Carry out one command the supervisor handed into this session: pure
/// sends, with outbound listings and file batches scrubbed of every local
/// path, and the start of an inbound transfer.
#[verifier::rlimit(60)]
pub fn handle_supervisor_command(state: &mut SessionState, cmd: SessionCommand) -> (effects: Vec<
    SessionEffect,
>)
    requires
        session_wf(*old(state)),
    ensures
        session_wf(*final(state)),
        ({
            let e = effects@;
            let st0 = *old(state);
            let st1 = *final(state);
            &&& (cmd matches SessionCommand::GetPeerId ==> st1 == st0 && e.len() == 1 && (e[0]
                matches SessionEffect::SendTcp(m) && m is RequestPeerId))
            &&& (cmd matches SessionCommand::Synchronize ==> st1 == st0 && e.len() == 1 && (e[0]
                matches SessionEffect::SendTcp(m) && m is Synchronize))
            &&& (cmd matches SessionCommand::SendDirectories(dirs) ==> st1 == st0 && e.len() == 1
                && (e[0] matches SessionEffect::SendTcp(m) && m
                matches TcpMessage::ReceiveDirectories(ds) && ds.deep_view()
                == dirs.deep_view().map_values(scrub_dir_fn())))
            &&& (cmd matches SessionCommand::AddedFiles(sig, files) ==> st1 == st0 && e.len() == 1
                && (e[0] matches SessionEffect::SendTcp(m) && m matches TcpMessage::AddedFiles {
                directory,
                files: fs,
            } && directory@ == sig@ && fs.deep_view() == files.deep_view().map_values(
                net_file_fn(),
            )))
            &&& (cmd matches SessionCommand::DeleteFile(p, sig, f) ==> st1 == st0 && e.len() == 1
                && (e[0] matches SessionEffect::SendTcp(m) && m matches TcpMessage::DeleteFile {
                peer_id,
                directory,
                file,
            } && peer_id@ == p@ && directory@ == sig@ && file == f))
            &&& (cmd matches SessionCommand::CancelDownload { download_id } ==> st1 == st0
                && e.len() == 1 && (e[0] matches SessionEffect::SendTcp(m) && m
                matches TcpMessage::CancelDownload { download_id: d } && d == download_id))
            &&& (cmd matches SessionCommand::UpdateOwners {
                peer_id,
                directory_identifier,
                file_identifier,
                date_modified,
            } ==> st1 == st0 && e.len() == 1 && (e[0] matches SessionEffect::SendTcp(m) && m
                matches TcpMessage::DownloadedFile {
                peer_id: p,
                directory_identifier: dr,
                file_identifier: f,
                date_modified: t,
            } && p@ == peer_id@ && dr == directory_identifier && f == file_identifier && t
                == date_modified))
            &&& (cmd matches SessionCommand::LeftDirectory {
                directory_identifier,
                date_modified,
            } ==> st1 == st0 && e.len() == 1 && (e[0] matches SessionEffect::SendTcp(m) && m
                matches TcpMessage::LeftDirectory { directory_identifier: d, date_modified: t }
                && d == directory_identifier && t == date_modified))
            &&& (cmd matches SessionCommand::StartDownload {
                download_id,
                file_identifier,
                directory_identifier,
                destination,
                file_name,
                size,
            } ==> (match st0.remote_id {
                None => st1 == st0 && e.len() == 1 && e[0] is ProtocolError,
                Some(rp) => {
                    &&& st1.remote_id == st0.remote_id
                    &&& st1.uploads@ == st0.uploads@
                    &&& st1.uploading == st0.uploading
                    &&& st1.downloads@.len() == (if has_dl(st0.downloads@, download_id) {
                        st0.downloads@.len()
                    } else {
                        st0.downloads@.len() + 1
                    })
                    &&& has_dl(st1.downloads@, download_id)
                    &&& ({
                        let nh = st1.downloads@[st1.downloads@.len() - 1];
                        nh.download_id == download_id && !nh.canceled && nh.bytes_total == size
                            && nh.bytes_done == 0 && nh.output_path@ == destination@ && nh.file_id
                            == file_identifier && nh.dir_id == directory_identifier
                    })
                    &&& e.len() == 2
                    &&& (e[0] matches SessionEffect::SendTcp(m) && m
                        matches TcpMessage::StartDownload { download_id: d, file_id, dir_id } && d
                        == download_id && file_id == file_identifier && dir_id
                        == directory_identifier)
                    &&& (e[1] matches SessionEffect::NotifyStartedDownload(dl) && dl.peer@ == rp@
                        && dl.download_id == download_id && dl.file_identifier == file_identifier
                        && dl.directory_identifier == directory_identifier && dl.progress == 0
                        && dl.file_name@ == file_name@ && dl.file_path@ == destination@)
                },
            }))
        }),
{
    let mut effects: Vec<SessionEffect> = Vec::new();
    match cmd {
        SessionCommand::GetPeerId => {
            effects.push(SessionEffect::SendTcp(TcpMessage::RequestPeerId));
        },
        SessionCommand::Synchronize => {
            effects.push(SessionEffect::SendTcp(TcpMessage::Synchronize));
        },
        SessionCommand::SendDirectories(dirs) => {
            let scrubbed = scrub_directories(&dirs);
            effects.push(SessionEffect::SendTcp(TcpMessage::ReceiveDirectories(scrubbed)));
        },
        SessionCommand::AddedFiles(sig, files) => {
            let scrubbed = scrub_files(&files);
            effects.push(
                SessionEffect::SendTcp(
                    TcpMessage::AddedFiles { directory: sig, files: scrubbed },
                ),
            );
        },
        SessionCommand::DeleteFile(p, sig, f) => {
            effects.push(
                SessionEffect::SendTcp(
                    TcpMessage::DeleteFile { peer_id: p, directory: sig, file: f },
                ),
            );
        },
        SessionCommand::CancelDownload { download_id } => {
            effects.push(SessionEffect::SendTcp(TcpMessage::CancelDownload { download_id }));
        },
        SessionCommand::UpdateOwners {
            peer_id,
            directory_identifier,
            file_identifier,
            date_modified,
        } => {
            effects.push(
                SessionEffect::SendTcp(
                    TcpMessage::DownloadedFile {
                        peer_id,
                        directory_identifier,
                        file_identifier,
                        date_modified,
                    },
                ),
            );
        },
        SessionCommand::LeftDirectory { directory_identifier, date_modified } => {
            effects.push(
                SessionEffect::SendTcp(
                    TcpMessage::LeftDirectory { directory_identifier, date_modified },
                ),
            );
        },
        SessionCommand::StartDownload {
            download_id,
            file_identifier,
            directory_identifier,
            destination,
            file_name,
            size,
        } => {
            match &state.remote_id {
                None => {
                    effects.push(SessionEffect::ProtocolError);
                },
                Some(rp) => {
                    let report = Download {
                        peer: rp.clone(),
                        download_id,
                        file_identifier,
                        directory_identifier,
                        progress: 0,
                        file_name,
                        file_path: destination.clone(),
                    };
                    match find_download(&state.downloads, download_id) {
                        None => {},
                        Some(i) => {
                            proof {
                                lemma_dl_idx_unique(state.downloads@, download_id, i as int);
                            }
                            let _ = state.downloads.remove(i);
                        },
                    }
                    proof {
                        if has_dl(state.downloads@, download_id) {
                            let w = dl_idx(state.downloads@, download_id);
                            assert(state.downloads@[w].download_id == download_id);
                            assert(false);
                        }
                    }
                    let ghost pre = state.downloads@;
                    state.downloads.push(
                        DownloadHandle {
                            download_id,
                            canceled: false,
                            bytes_total: size,
                            bytes_done: 0,
                            output_path: destination,
                            file_id: file_identifier,
                            dir_id: directory_identifier,
                        },
                    );
                    proof {
                        assert(state.downloads@[state.downloads@.len() - 1].download_id
                            == download_id);
                        assert forall|a: int, b: int|
                            0 <= a < b < state.downloads@.len() implies state.downloads@[
                        a].download_id != state.downloads@[b].download_id by {
                            if b == state.downloads@.len() - 1 {
                                if pre[a].download_id == download_id {
                                    assert(has_dl(pre, download_id));
                                }
                            }
                        }
                    }
                    effects.push(
                        SessionEffect::SendTcp(
                            TcpMessage::StartDownload {
                                download_id,
                                file_id: file_identifier,
                                dir_id: directory_identifier,
                            },
                        ),
                    );
                    effects.push(SessionEffect::NotifyStartedDownload(report));
                },
            }
        },
    }
    effects
}

} // verus!

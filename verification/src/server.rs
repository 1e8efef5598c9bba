//! The supervisor's decisions: what each session event and each user
//! command does to the store, which sessions hear about it, and what the
//! user interface is told. The runtime owns the socket registry and the
//! channels; it performs the effects listed here and nothing more.

use vstd::prelude::*;
use crate::peer::PeerId;
use crate::data::{
    ShareDirectory, ShareDirectoryV, ShareDirectorySignature, ShareDirectorySignatureV,
    SharedFile, SharedFileV, ContentLocation, ContentLocationV, dir_wf, dir_wf_check,
    files_all_wf, files_ids_unique, file_wf, add_files_result, remove_files_seq, without_peer,
    remove_peer_files, push_new_peers, clone_peers, contains_peer,
};
use crate::store::{
    StoredConfig, store_wf, has_dir, dir_idx, has_file, file_idx, sync_seq, upsert_dir,
    find_dir_index, lemma_dir_idx_unique, lemma_file_idx_unique,
};
use crate::session::SessionCommand;
use crate::window::{
    WindowRequest, WindowResponse, Download, DownloadUpdate, DownloadCanceled, BackendError,
};
use crate::codec::{DownloadError, error_text};
use crate::text::{parse_uuid, parse_uuid_text};

verus! {

/// One event a session reports to the supervisor.
pub enum MessageToServer {
    SetPeerId(PeerId),
    SynchronizeDirectories(Vec<ShareDirectory>, PeerId),
    UpdatedDirectory(u128),
    StartedDownload(Download),
    FinishedDownload { download_id: u128, directory_identifier: u128, file_identifier: u128 },
    DownloadUpdate { download_id: u128, new_progress: u64 },
    CanceledDownload { download_id: u128, cancel_reason: String },
    SharedDirectory(ShareDirectory),
    LeftDirectory { directory_identifier: u128, peer_id: PeerId, date_modified: i64 },
}

/// What the runtime must do for the supervisor: hand a command into one
/// session, into every session of the listed peers, raise a user-interface
/// event, begin a transfer, hash local files, or unlink a payload.
pub enum SupervisorEffect {
    /// Hand this command into the session of the named peer.
    ToSession(PeerId, SessionCommand),
    /// Hand this command into the session of every listed peer.
    Broadcast(Vec<PeerId>, SessionCommand),
    /// Raise this event to the user interface.
    Ui(WindowRequest),
    /// Open a destination (the primary path, or the fallback where the
    /// primary already exists on disk) and start this transfer at the
    /// named peer's session.
    BeginDownload {
        peer: PeerId,
        download_id: u128,
        file_identifier: u128,
        directory_identifier: u128,
        file_name: String,
        size: u64,
        primary: String,
        fallback: String,
    },
    /// Read and hash the listed local files, then hand the entries to
    /// [`add_local_files`].
    PrepareFiles { directory_identifier: u128, file_paths: Vec<String> },
    /// Delete the file at this path.
    RemoveFile(String),
}

/// Decide what one session event means: how the store changes and which
/// sessions and user-interface events hear of it. Incoming listings are
/// merged with this host's own identity as the surviving-owner test, per
/// the store's convergent merge.
#[verifier::rlimit(100)]
pub fn supervisor_step(
    store: &mut StoredConfig,
    self_peer: &PeerId,
    connected: &Vec<PeerId>,
    msg: MessageToServer,
) -> (effects: Vec<SupervisorEffect>)
    requires
        store_wf(old(store).cached_data.deep_view()),
    ensures
        store_wf(final(store).cached_data.deep_view()),
        final(store).app_config == old(store).app_config,
        ({
            let sv0 = old(store).cached_data.deep_view();
            let sv1 = final(store).cached_data.deep_view();
            let e = effects@;
            &&& (msg matches MessageToServer::SetPeerId(id) ==> sv1 == sv0 && e.len() == 2 && (e[0]
                matches SupervisorEffect::Ui(w) && w matches WindowRequest::GetPeers(ps)
                && ps.deep_view() == connected.deep_view()) && (e[1]
                matches SupervisorEffect::ToSession(p, c) && p@ == id@ && c is Synchronize))
            &&& (msg matches MessageToServer::SynchronizeDirectories(dirs, sender) ==> (if forall|
                k: int,
            |
                0 <= k < dirs.deep_view().len() ==> dir_wf(#[trigger] dirs.deep_view()[k]) {
                sv1 == sync_seq(sv0, dirs.deep_view(), self_peer@) && e.len() == 1 && (e[0]
                    matches SupervisorEffect::Ui(w) && w
                    matches WindowRequest::UpdateShareDirectories(ds) && ds.deep_view() == sv1)
            } else {
                sv1 == sv0 && e.len() == 0
            }))
            &&& (msg matches MessageToServer::UpdatedDirectory(id) ==> sv1 == sv0 && (if has_dir(
                sv0,
                id,
            ) {
                e.len() == 1 && (e[0] matches SupervisorEffect::Ui(w) && w
                    matches WindowRequest::UpdateDirectory(d) && d@ == sv0[dir_idx(sv0, id)])
            } else {
                e.len() == 0
            }))
            &&& (msg matches MessageToServer::StartedDownload(d) ==> sv1 == sv0 && e.len() == 1
                && (e[0] matches SupervisorEffect::Ui(w) && w
                matches WindowRequest::DownloadStarted(x) && x == d))
            &&& (msg matches MessageToServer::DownloadUpdate { download_id, new_progress } ==> sv1
                == sv0 && e.len() == 1 && (e[0] matches SupervisorEffect::Ui(w) && w
                matches WindowRequest::DownloadUpdate(u) && u.download_id == download_id
                && u.progress == new_progress))
            &&& (msg matches MessageToServer::CanceledDownload { download_id, cancel_reason }
                ==> sv1 == sv0 && e.len() == 1 && (e[0] matches SupervisorEffect::Ui(w) && w
                matches WindowRequest::DownloadCanceled(c) && c.download_id == download_id
                && c.reason == cancel_reason))
            &&& (msg matches MessageToServer::FinishedDownload {
                download_id,
                directory_identifier,
                file_identifier,
            } ==> sv1 == sv0 && (if has_dir(sv0, directory_identifier) {
                let d = sv0[dir_idx(sv0, directory_identifier)];
                e.len() == 3 && (e[0] matches SupervisorEffect::Broadcast(ps, c)
                    && ps.deep_view() == d.signature.shared_peers && (c
                    matches SessionCommand::UpdateOwners {
                    peer_id,
                    directory_identifier: dr,
                    file_identifier: f,
                    date_modified: t,
                } && peer_id@ == self_peer@ && dr == directory_identifier && f == file_identifier
                    && t == d.signature.last_modified)) && (e[1] matches SupervisorEffect::Ui(w)
                    && w matches WindowRequest::UpdateDirectory(x) && x@ == d) && (e[2]
                    matches SupervisorEffect::Ui(w) && w matches WindowRequest::DownloadUpdate(u)
                    && u.download_id == download_id && u.progress == 100)
            } else {
                e.len() == 1 && (e[0] matches SupervisorEffect::Ui(w) && w
                    matches WindowRequest::DownloadCanceled(c) && c.download_id == download_id
                    && c.reason@ == "Could not update other clients."@)
            }))
            &&& (msg matches MessageToServer::SharedDirectory(dir) ==> (if !dir_wf(dir@) {
                sv1 == sv0 && e.len() == 0
            } else if has_dir(sv0, dir@.signature.identifier) {
                sv1 == sv0 && e.len() == 0
            } else {
                sv1 == sv0.push(dir@) && e.len() == 1 && (e[0] matches SupervisorEffect::Ui(w)
                    && w matches WindowRequest::UpdateDirectory(d) && d@ == dir@)
            }))
            &&& (msg matches MessageToServer::LeftDirectory {
                directory_identifier,
                peer_id,
                date_modified,
            } ==> (if has_dir(sv0, directory_identifier) {
                let i = dir_idx(sv0, directory_identifier);
                let d0 = sv0[i];
                let d1 = ShareDirectoryV {
                    signature: ShareDirectorySignatureV {
                        name: d0.signature.name,
                        identifier: d0.signature.identifier,
                        last_modified: date_modified,
                        shared_peers: without_peer(d0.signature.shared_peers, peer_id@),
                    },
                    shared_files: remove_peer_files(d0.shared_files, peer_id@),
                };
                sv1 == sv0.update(i, d1) && e.len() == 1 && (e[0]
                    matches SupervisorEffect::Ui(w) && w matches WindowRequest::UpdateDirectory(
                    d,
                ) && d@ == d1)
            } else {
                sv1 == sv0 && e.len() == 0
            }))
        }),
{
    let ghost sv0 = store.cached_data.deep_view();
    let mut effects: Vec<SupervisorEffect> = Vec::new();
    match msg {
        MessageToServer::SetPeerId(id) => {
            effects.push(SupervisorEffect::Ui(WindowRequest::GetPeers(clone_peers(connected))));
            effects.push(SupervisorEffect::ToSession(id, SessionCommand::Synchronize));
        },
        MessageToServer::SynchronizeDirectories(dirs, _sender) => {
            let mut k: usize = 0;
            let mut all_ok = true;
            while k < dirs.len()
                invariant
                    k <= dirs@.len(),
                    all_ok == forall|j: int|
                        0 <= j < k ==> dir_wf(#[trigger] dirs.deep_view()[j]),
                decreases dirs@.len() - k,
            {
                if !dir_wf_check(&dirs[k]) {
                    proof {
                        assert(!dir_wf(dirs.deep_view()[k as int]));
                    }
                    all_ok = false;
                }
                k = k + 1;
            }
            if all_ok {
                let after = store.synchronize(dirs, self_peer);
                effects.push(
                    SupervisorEffect::Ui(WindowRequest::UpdateShareDirectories(after)),
                );
            }
        },
        MessageToServer::UpdatedDirectory(id) => {
            match store.get_directory(id) {
                None => {},
                Some(d) => {
                    effects.push(SupervisorEffect::Ui(WindowRequest::UpdateDirectory(d)));
                },
            }
        },
        MessageToServer::StartedDownload(d) => {
            effects.push(SupervisorEffect::Ui(WindowRequest::DownloadStarted(d)));
        },
        MessageToServer::DownloadUpdate { download_id, new_progress } => {
            effects.push(
                SupervisorEffect::Ui(
                    WindowRequest::DownloadUpdate(
                        DownloadUpdate { progress: new_progress, download_id },
                    ),
                ),
            );
        },
        MessageToServer::CanceledDownload { download_id, cancel_reason } => {
            effects.push(
                SupervisorEffect::Ui(
                    WindowRequest::DownloadCanceled(
                        DownloadCanceled { reason: cancel_reason, download_id },
                    ),
                ),
            );
        },
        MessageToServer::FinishedDownload {
            download_id,
            directory_identifier,
            file_identifier,
        } => {
            match store.get_directory(directory_identifier) {
                None => {
                    proof {
                        reveal_strlit("Could not update other clients.");
                    }
                    effects.push(
                        SupervisorEffect::Ui(
                            WindowRequest::DownloadCanceled(
                                DownloadCanceled {
                                    reason: "Could not update other clients.".to_owned(),
                                    download_id,
                                },
                            ),
                        ),
                    );
                },
                Some(d) => {
                    effects.push(
                        SupervisorEffect::Broadcast(
                            clone_peers(&d.signature.shared_peers),
                            SessionCommand::UpdateOwners {
                                peer_id: self_peer.clone(),
                                directory_identifier,
                                file_identifier,
                                date_modified: d.signature.last_modified,
                            },
                        ),
                    );
                    effects.push(SupervisorEffect::Ui(WindowRequest::UpdateDirectory(d)));
                    effects.push(
                        SupervisorEffect::Ui(
                            WindowRequest::DownloadUpdate(
                                DownloadUpdate { progress: 100, download_id },
                            ),
                        ),
                    );
                },
            }
        },
        MessageToServer::SharedDirectory(dir) => {
            if dir_wf_check(&dir) {
                let copy = dir.clone();
                match store.shared_directory(dir) {
                    Ok(_) => {
                        effects.push(
                            SupervisorEffect::Ui(WindowRequest::UpdateDirectory(copy)),
                        );
                    },
                    Err(_) => {},
                }
            }
        },
        MessageToServer::LeftDirectory { directory_identifier, peer_id, date_modified } => {
            match find_dir_index(&store.cached_data, directory_identifier) {
                None => {},
                Some(i) => {
                    proof {
                        lemma_dir_idx_unique(sv0, directory_identifier, i as int);
                    }
                    let mut d = store.cached_data.remove(i);
                    proof {
                        assert(dir_wf(d@));
                    }
                    d.remove_peer(&peer_id, date_modified);
                    let copy = d.clone();
                    store.cached_data.insert(i, d);
                    proof {
                        assert(store.cached_data.deep_view() =~= sv0.update(
                            i as int,
                            store.cached_data.deep_view()[i as int],
                        ));
                        lemma_left_put_back_wf(sv0, store.cached_data.deep_view(), i as int);
                    }
                    effects.push(SupervisorEffect::Ui(WindowRequest::UpdateDirectory(copy)));
                },
            }
        },
    }
    effects
}

/// A directory taken out, mutated under its own invariant with its
/// identifier kept, and put back leaves the store well-formed.
proof fn lemma_left_put_back_wf(
    before: Seq<ShareDirectoryV>,
    after: Seq<ShareDirectoryV>,
    i: int,
)
    requires
        store_wf(before),
        0 <= i < before.len(),
        after.len() == before.len(),
        dir_wf(after[i]),
        after[i].signature.identifier == before[i].signature.identifier,
        forall|j: int| 0 <= j < after.len() && j != i ==> after[j] == before[j],
    ensures
        store_wf(after),
{
    assert forall|a: int, b: int| 0 <= a < b < after.len() implies after[a].signature.identifier
        != after[b].signature.identifier by {
        assert(before[a].signature.identifier != before[b].signature.identifier);
    }
    assert forall|a: int| 0 <= a < after.len() implies dir_wf(#[trigger] after[a]) by {
        if a != i {
            assert(after[a] == before[a]);
        }
    }
}

/// Owned copies of a list of file entries.
fn clone_files(files: &Vec<SharedFile>) -> (r: Vec<SharedFile>)
    ensures
        r.deep_view() == files.deep_view(),
{
    let mut out: Vec<SharedFile> = Vec::new();
    let mut i: usize = 0;
    while i < files.len()
        invariant
            i <= files@.len(),
            out.deep_view() =~= files.deep_view().take(i as int),
        decreases files@.len() - i,
    {
        let ghost prev = out.deep_view();
        out.push(files[i].clone());
        proof {
            assert(out.deep_view() =~= prev.push(files@[i as int].deep_view()));
            assert(out.deep_view() =~= files.deep_view().take(i as int + 1));
        }
        i = i + 1;
    }
    proof {
        assert(out.deep_view() =~= files.deep_view());
    }
    out
}

/// Add entries a user shared from this host to the named directory and
/// say who hears of it: the entries arrive already hashed (the runtime
/// reads and sums the payloads), the batch is applied atomically, and on
/// success every member's session broadcasts the addition.
#[verifier::rlimit(100)]
pub fn add_local_files(
    store: &mut StoredConfig,
    self_peer: &PeerId,
    directory_identifier: u128,
    files: Vec<SharedFile>,
    now: i64,
) -> (effects: Vec<SupervisorEffect>)
    requires
        store_wf(old(store).cached_data.deep_view()),
    ensures
        store_wf(final(store).cached_data.deep_view()),
        final(store).app_config == old(store).app_config,
        ({
            let sv0 = old(store).cached_data.deep_view();
            let sv1 = final(store).cached_data.deep_view();
            let e = effects@;
            if !files_all_wf(files.deep_view()) {
                sv1 == sv0 && e.len() == 0
            } else if !has_dir(sv0, directory_identifier) {
                sv1 == sv0 && e.len() == 1 && (e[0] matches SupervisorEffect::Ui(w) && w
                    matches WindowRequest::Error(b) && b.title@ == "File Error"@ && b.error@
                    == "File has already been added to this directory"@)
            } else {
                let i = dir_idx(sv0, directory_identifier);
                match add_files_result(sv0[i].shared_files, files.deep_view()) {
                    Ok(fs) => sv1 == sv0.update(
                        i,
                        crate::session::dir_with_files(sv0[i], fs, now),
                    ) && e.len() == 2 && (e[0] matches SupervisorEffect::Ui(w) && w
                        matches WindowRequest::UpdateDirectory(d) && d@ == sv1[i]) && (e[1]
                        matches SupervisorEffect::Broadcast(ps, c) && ps.deep_view() == sv1[
                        i
                    ].signature.shared_peers && (c matches SessionCommand::AddedFiles(sig, fv)
                        && sig@ == sv1[i].signature && fv.deep_view() == files.deep_view())),
                    Err(_) => sv1 == sv0 && e.len() == 1 && (e[0]
                        matches SupervisorEffect::Ui(w) && w matches WindowRequest::Error(b)
                        && b.title@ == "File Error"@ && b.error@
                        == "File has already been added to this directory"@),
                }
            }
        }),
{
    let ghost sv0 = store.cached_data.deep_view();
    let mut effects: Vec<SupervisorEffect> = Vec::new();
    let mut ok = true;
    let mut k: usize = 0;
    while k < files.len()
        invariant
            k <= files@.len(),
            ok == forall|j: int|
                0 <= j < k ==> file_wf(#[trigger] files.deep_view()[j]),
        decreases files@.len() - k,
    {
        if files[k].owned_peers.len() == 0 {
            proof {
                assert(!file_wf(files.deep_view()[k as int]));
            }
            ok = false;
        }
        k = k + 1;
    }
    if !ok {
        return effects;
    }
    proof {
        assert(files_all_wf(files.deep_view()));
    }
    match find_dir_index(&store.cached_data, directory_identifier) {
        None => {
            effects.push(
                SupervisorEffect::Ui(
                    WindowRequest::Error(
                        BackendError {
                            error: "File has already been added to this directory".to_owned(),
                            title: "File Error".to_owned(),
                        },
                    ),
                ),
            );
        },
        Some(i) => {
            proof {
                lemma_dir_idx_unique(sv0, directory_identifier, i as int);
            }
            let copies = clone_files(&files);
            let mut d = store.cached_data.remove(i);
            proof {
                assert(dir_wf(d@));
            }
            let res = d.add_files(files, now);
            if res.is_ok() {
                let shown = d.clone();
                let members = clone_peers(&d.signature.shared_peers);
                let sig = d.signature.clone();
                store.cached_data.insert(i, d);
                proof {
                    assert(store.cached_data.deep_view() =~= sv0.update(
                        i as int,
                        store.cached_data.deep_view()[i as int],
                    ));
                    lemma_left_put_back_wf(sv0, store.cached_data.deep_view(), i as int);
                }
                effects.push(SupervisorEffect::Ui(WindowRequest::UpdateDirectory(shown)));
                effects.push(
                    SupervisorEffect::Broadcast(
                        members,
                        SessionCommand::AddedFiles(sig, copies),
                    ),
                );
            } else {
                store.cached_data.insert(i, d);
                proof {
                    assert(store.cached_data.deep_view() =~= sv0);
                }
                effects.push(
                    SupervisorEffect::Ui(
                        WindowRequest::Error(
                            BackendError {
                                error: "File has already been added to this directory".to_owned(),
                                title: "File Error".to_owned(),
                            },
                        ),
                    ),
                );
            }
        },
    }
    effects
}

/// Whether some connected peer owns the file.
pub open spec fn some_connected_owner(conn: Seq<crate::peer::PeerIdV>, owners: Seq<crate::peer::PeerIdV>) -> bool {
    exists|k: int| 0 <= k < conn.len() && owners.contains(#[trigger] conn[k])
}

/// Decide one user command: what it does to the store, which sessions it
/// fans out to, and what the user interface hears. The caller supplies a
/// fresh identifier and the clock; directory and file arguments arrive as
/// canonical identifier text and commands with unreadable identifiers are
/// dropped.
#[verifier::spinoff_prover]
#[verifier::rlimit(100)]
pub fn handle_command(
    store: &mut StoredConfig,
    self_peer: &PeerId,
    connected: &Vec<PeerId>,
    cmd: WindowResponse,
    fresh_id: u128,
    now: i64,
) -> (effects: Vec<SupervisorEffect>)
    requires
        store_wf(old(store).cached_data.deep_view()),
    ensures
        store_wf(final(store).cached_data.deep_view()),
        final(store).app_config == old(store).app_config,
        ({
            let sv0 = old(store).cached_data.deep_view();
            let sv1 = final(store).cached_data.deep_view();
            let e = effects@;
            &&& (cmd matches WindowResponse::CreateShareDirectory(name) ==> ({
                let nd = ShareDirectoryV {
                    signature: ShareDirectorySignatureV {
                        name: name@,
                        identifier: fresh_id,
                        last_modified: now,
                        shared_peers: seq![self_peer@],
                    },
                    shared_files: Seq::empty(),
                };
                sv1 == upsert_dir(sv0, nd) && e.len() == 1 && (e[0]
                    matches SupervisorEffect::Ui(w) && w matches WindowRequest::NewShareDirectory(
                    sig,
                ) && sig@ == nd.signature)
            }))
            &&& (cmd matches WindowResponse::GetAllShareDirectoryData(_) ==> sv1 == sv0 && e.len()
                == 1 && (e[0] matches SupervisorEffect::Ui(w) && w
                matches WindowRequest::UpdateShareDirectories(ds) && ds.deep_view() == sv0))
            &&& (cmd matches WindowResponse::GetPeers(_) ==> sv1 == sv0 && e.len() == 1 && (e[0]
                matches SupervisorEffect::Ui(w) && w matches WindowRequest::GetPeers(ps)
                && ps.deep_view() == connected.deep_view()))
            &&& (cmd matches WindowResponse::AddFiles { directory_identifier, file_paths } ==> sv1
                == sv0 && (match parse_uuid_text(directory_identifier@) {
                Some(did) => e.len() == 1 && (e[0] matches SupervisorEffect::PrepareFiles {
                    directory_identifier: d,
                    file_paths: fp,
                } && d == did && fp == file_paths),
                None => e.len() == 0,
            }))
            &&& (cmd matches WindowResponse::ShareDirectoryToPeers {
                directory_identifier,
                peers,
            } ==> (match parse_uuid_text(directory_identifier@) {
                Some(did) => if has_dir(sv0, did) {
                    let i = dir_idx(sv0, did);
                    let d0 = sv0[i];
                    let d1 = ShareDirectoryV {
                        signature: ShareDirectorySignatureV {
                            name: d0.signature.name,
                            identifier: d0.signature.identifier,
                            last_modified: now,
                            shared_peers: crate::data::push_new_peers(
                                d0.signature.shared_peers,
                                peers.deep_view(),
                            ),
                        },
                        shared_files: d0.shared_files,
                    };
                    sv1 == sv0.update(i, d1) && e.len() == 2 && (e[0]
                        matches SupervisorEffect::Broadcast(ps, c) && ps.deep_view()
                        == d1.signature.shared_peers && (c
                        matches SessionCommand::SendDirectories(ds) && ds.deep_view() == seq![
                        d1
                    ])) && (e[1] matches SupervisorEffect::Ui(w) && w
                        matches WindowRequest::UpdateDirectory(x) && x@ == d1)
                } else {
                    sv1 == sv0 && e.len() == 0
                },
                None => sv1 == sv0 && e.len() == 0,
            }))
            &&& (cmd matches WindowResponse::CancelDownload { peer, download_identifier } ==> sv1
                == sv0 && (match parse_uuid_text(download_identifier@) {
                Some(dl) => e.len() == 2 && (e[0] matches SupervisorEffect::ToSession(p, c) && p@
                    == peer@ && (c matches SessionCommand::CancelDownload { download_id } &&
                download_id == dl)) && (e[1] matches SupervisorEffect::Ui(w) && w
                    matches WindowRequest::DownloadCanceled(dc) && dc.download_id == dl
                    && dc.reason@ == error_text(DownloadError::Canceled)),
                None => e.len() == 0,
            }))
            &&& (cmd matches WindowResponse::LeaveDirectory { directory_identifier } ==> (
            match parse_uuid_text(directory_identifier@) {
                Some(did) => if has_dir(sv0, did) {
                    let i = dir_idx(sv0, did);
                    sv1 == sv0.remove(i) && e.len() == 2 && (e[0]
                        matches SupervisorEffect::Broadcast(ps, c) && ps.deep_view() == sv0[
                        i
                    ].signature.shared_peers && (c matches SessionCommand::LeftDirectory {
                        directory_identifier: d,
                        date_modified: t,
                    } && d == did && t == now)) && (e[1] matches SupervisorEffect::Ui(w) && w
                        matches WindowRequest::UpdateShareDirectories(ds) && ds.deep_view()
                        == sv1)
                } else {
                    sv1 == sv0 && e.len() == 0
                },
                None => sv1 == sv0 && e.len() == 0,
            }))
            &&& (cmd matches WindowResponse::DownloadFile {
                directory_identifier,
                file_identifier,
            } ==> sv1 == sv0 && (match (
                parse_uuid_text(directory_identifier@),
                parse_uuid_text(file_identifier@),
            ) {
                (Some(did), Some(fid)) => if !has_dir(sv0, did) || !has_file(
                    sv0[dir_idx(sv0, did)].shared_files,
                    fid,
                ) {
                    e.len() == 1 && (e[0] matches SupervisorEffect::Ui(w) && w
                        matches WindowRequest::Error(b) && b.title@ == "Could not start download"@
                        && b.error@ == error_text(DownloadError::FileMissing))
                } else {
                    let f = sv0[dir_idx(sv0, did)].shared_files[file_idx(
                        sv0[dir_idx(sv0, did)].shared_files,
                        fid,
                    )];
                    if !some_connected_owner(connected.deep_view(), f.owned_peers) {
                        e.len() == 1 && (e[0] matches SupervisorEffect::Ui(w) && w
                            matches WindowRequest::Error(b) && b.title@
                            == "Could not start download"@ && b.error@ == error_text(
                            DownloadError::NoClientsConnected,
                        ))
                    } else {
                        e.len() == 1 && (e[0] matches SupervisorEffect::BeginDownload {
                            peer,
                            download_id,
                            file_identifier: ef,
                            directory_identifier: ed,
                            file_name,
                            size,
                            primary,
                            fallback,
                        } && connected.deep_view().contains(peer@) && f.owned_peers.contains(
                            peer@,
                        ) && download_id == fresh_id && ef == fid && ed == did && file_name@
                            == f.name && size == f.size && primary@
                            == old(store).app_config.download_directory@ + "/"@ + f.name
                            && fallback@ == primary@ + "/"@ + crate::text::uuid_text(fresh_id))
                    }
                },
                _ => e.len() == 0,
            }))
            &&& (cmd matches WindowResponse::DeleteFile {
                directory_identifier,
                file_identifier,
            } ==> (match (
                parse_uuid_text(directory_identifier@),
                parse_uuid_text(file_identifier@),
            ) {
                (Some(did), Some(fid)) => if !has_dir(sv0, did) || !has_file(
                    sv0[dir_idx(sv0, did)].shared_files,
                    fid,
                ) {
                    sv1 == sv0 && e.len() == 0
                } else {
                    let i = dir_idx(sv0, did);
                    let d0 = sv0[i];
                    let j = file_idx(d0.shared_files, fid);
                    let files1 = d0.shared_files.update(
                        j,
                        crate::store::net_file(d0.shared_files[j]),
                    );
                    let d1 = crate::session::dir_with_files(
                        d0,
                        remove_files_seq(files1, self_peer@, seq![fid]),
                        now,
                    );
                    sv1 == sv0.update(i, d1) && (match d0.shared_files[j].content_location {
                        ContentLocationV::LocalPath(p) => e.len() == 3 && (e[0]
                            matches SupervisorEffect::RemoveFile(q) && q@ == p) && (e[1]
                            matches SupervisorEffect::Broadcast(ps, c) && ps.deep_view()
                            == d1.signature.shared_peers && (c
                            matches SessionCommand::DeleteFile(pp, sg, ff) && pp@ == self_peer@
                            && sg@ == d1.signature && ff == fid)) && (e[2]
                            matches SupervisorEffect::Ui(w) && w
                            matches WindowRequest::UpdateDirectory(x) && x@ == d1),
                        ContentLocationV::NetworkOnly => e.len() == 2 && (e[0]
                            matches SupervisorEffect::Broadcast(ps, c) && ps.deep_view()
                            == d1.signature.shared_peers && (c
                            matches SessionCommand::DeleteFile(pp, sg, ff) && pp@ == self_peer@
                            && sg@ == d1.signature && ff == fid)) && (e[1]
                            matches SupervisorEffect::Ui(w) && w
                            matches WindowRequest::UpdateDirectory(x) && x@ == d1),
                    })
                },
                _ => sv1 == sv0 && e.len() == 0,
            }))
        }),
{
    let ghost sv0 = store.cached_data.deep_view();
    let mut effects: Vec<SupervisorEffect> = Vec::new();
    match cmd {
        WindowResponse::CreateShareDirectory(name) => {
            let signature = ShareDirectorySignature {
                name,
                identifier: fresh_id,
                last_modified: now,
                shared_peers: vec![self_peer.clone()],
            };
            let sd = ShareDirectory {
                signature: signature.clone(),
                shared_files: Vec::new(),
            };
            proof {
                assert(sd@.signature.shared_peers =~= seq![self_peer@]);
                assert(sd@.shared_files =~= Seq::<SharedFileV>::empty());
                assert(dir_wf(sd@));
            }
            store.add_directory(sd);
            effects.push(SupervisorEffect::Ui(WindowRequest::NewShareDirectory(signature)));
        },
        WindowResponse::GetAllShareDirectoryData(_) => {
            let ds = store.get_directories();
            effects.push(SupervisorEffect::Ui(WindowRequest::UpdateShareDirectories(ds)));
        },
        WindowResponse::GetPeers(_) => {
            effects.push(SupervisorEffect::Ui(WindowRequest::GetPeers(clone_peers(connected))));
        },
        WindowResponse::AddFiles { directory_identifier, file_paths } => {
            match parse_uuid(directory_identifier.as_str()) {
                None => {},
                Some(did) => {
                    effects.push(
                        SupervisorEffect::PrepareFiles {
                            directory_identifier: did,
                            file_paths,
                        },
                    );
                },
            }
        },
        WindowResponse::ShareDirectoryToPeers { directory_identifier, peers } => {
            match parse_uuid(directory_identifier.as_str()) {
                None => {},
                Some(did) => {
                    match find_dir_index(&store.cached_data, did) {
                        None => {},
                        Some(i) => {
                            proof {
                                lemma_dir_idx_unique(sv0, did, i as int);
                            }
                            let mut d = store.cached_data.remove(i);
                            proof {
                                assert(dir_wf(d@));
                            }
                            d.add_peers(peers, now);
                            let copy = d.clone();
                            let members = clone_peers(&d.signature.shared_peers);
                            store.cached_data.insert(i, d);
                            proof {
                                assert(store.cached_data.deep_view() =~= sv0.update(
                                    i as int,
                                    store.cached_data.deep_view()[i as int],
                                ));
                                lemma_left_put_back_wf(
                                    sv0,
                                    store.cached_data.deep_view(),
                                    i as int,
                                );
                            }
                            let single = vec![copy.clone()];
                            proof {
                                assert(single.deep_view() =~= seq![copy@]);
                            }
                            effects.push(
                                SupervisorEffect::Broadcast(
                                    members,
                                    SessionCommand::SendDirectories(single),
                                ),
                            );
                            effects.push(
                                SupervisorEffect::Ui(WindowRequest::UpdateDirectory(copy)),
                            );
                        },
                    }
                },
            }
        },
        WindowResponse::CancelDownload { peer, download_identifier } => {
            match parse_uuid(download_identifier.as_str()) {
                None => {},
                Some(dl) => {
                    effects.push(
                        SupervisorEffect::ToSession(
                            peer,
                            SessionCommand::CancelDownload { download_id: dl },
                        ),
                    );
                    effects.push(
                        SupervisorEffect::Ui(
                            WindowRequest::DownloadCanceled(
                                DownloadCanceled {
                                    reason: DownloadError::Canceled.to_string(),
                                    download_id: dl,
                                },
                            ),
                        ),
                    );
                },
            }
        },
        WindowResponse::LeaveDirectory { directory_identifier } => {
            match parse_uuid(directory_identifier.as_str()) {
                None => {},
                Some(did) => {
                    match store.remove_directory(did) {
                        None => {},
                        Some(dir) => {
                            let members = clone_peers(&dir.signature.shared_peers);
                            effects.push(
                                SupervisorEffect::Broadcast(
                                    members,
                                    SessionCommand::LeftDirectory {
                                        directory_identifier: did,
                                        date_modified: now,
                                    },
                                ),
                            );
                            let rest = store.get_directories();
                            effects.push(
                                SupervisorEffect::Ui(
                                    WindowRequest::UpdateShareDirectories(rest),
                                ),
                            );
                        },
                    }
                },
            }
        },
        WindowResponse::DownloadFile { directory_identifier, file_identifier } => {
            let did = match parse_uuid(directory_identifier.as_str()) {
                None => {
                    return effects;
                },
                Some(v) => v,
            };
            let fid = match parse_uuid(file_identifier.as_str()) {
                None => {
                    return effects;
                },
                Some(v) => v,
            };
            match find_dir_index(&store.cached_data, did) {
                None => {
                    effects.push(
                        SupervisorEffect::Ui(
                            WindowRequest::Error(
                                BackendError {
                                    error: DownloadError::FileMissing.to_string(),
                                    title: "Could not start download".to_owned(),
                                },
                            ),
                        ),
                    );
                },
                Some(i) => {
                    proof {
                        lemma_dir_idx_unique(sv0, did, i as int);
                    }
                    match crate::data::find_file_index(&store.cached_data[i].shared_files, fid) {
                        None => {
                            proof {
                                if has_file(sv0[i as int].shared_files, fid) {
                                    let w = file_idx(sv0[i as int].shared_files, fid);
                                    assert(sv0[i as int].shared_files[w].identifier != fid);
                                }
                            }
                            effects.push(
                                SupervisorEffect::Ui(
                                    WindowRequest::Error(
                                        BackendError {
                                            error: DownloadError::FileMissing.to_string(),
                                            title: "Could not start download".to_owned(),
                                        },
                                    ),
                                ),
                            );
                        },
                        Some(j) => {
                            proof {
                                lemma_file_idx_unique(
                                    sv0[i as int].shared_files,
                                    fid,
                                    j as int,
                                );
                            }
                            let mut chosen: Option<usize> = None;
                            let mut k: usize = 0;
                            while k < connected.len() && chosen.is_none()
                                invariant
                                    k <= connected@.len(),
                                    i < store.cached_data@.len(),
                                    j < store.cached_data@[i as int].shared_files@.len(),
                                    store.cached_data.deep_view() == sv0,
                                    match chosen {
                                        Some(kk) => kk < connected@.len() && sv0[
                                        i as int].shared_files[j as int].owned_peers.contains(
                                            connected.deep_view()[kk as int],
                                        ),
                                        None => forall|a: int|
                                            0 <= a < k ==> !sv0[
                                        i as int].shared_files[j as int].owned_peers.contains(
                                            #[trigger] connected.deep_view()[a],
                                        ),
                                    },
                                decreases connected@.len() - k,
                            {
                                if contains_peer(
                                    &store.cached_data[i].shared_files[j].owned_peers,
                                    &connected[k],
                                ) {
                                    chosen = Some(k);
                                }
                                k = k + 1;
                            }
                            match chosen {
                                None => {
                                    proof {
                                        if some_connected_owner(
                                            connected.deep_view(),
                                            sv0[i as int].shared_files[j as int].owned_peers,
                                        ) {
                                            let w = choose|w: int|
                                                0 <= w < connected.deep_view().len() && sv0[
                                            i as int].shared_files[j as int].owned_peers.contains(
                                                #[trigger] connected.deep_view()[w],
                                            );
                                            assert(!sv0[
                                            i as int].shared_files[j as int].owned_peers.contains(
                                                connected.deep_view()[w],
                                            ));
                                        }
                                    }
                                    effects.push(
                                        SupervisorEffect::Ui(
                                            WindowRequest::Error(
                                                BackendError {
                                                    error: DownloadError::NoClientsConnected.to_string(),
                                                    title: "Could not start download".to_owned(),
                                                },
                                            ),
                                        ),
                                    );
                                },
                                Some(kk) => {
                                    let paths = store.generate_filepath(did, fid, fresh_id);
                                    match paths {
                                        None => {
                                            proof {
                                                assert(false);
                                            }
                                        },
                                        Some((primary, fallback)) => {
                                            effects.push(
                                                SupervisorEffect::BeginDownload {
                                                    peer: connected[kk].clone(),
                                                    download_id: fresh_id,
                                                    file_identifier: fid,
                                                    directory_identifier: did,
                                                    file_name: store.cached_data[i].shared_files[
                                                        j
                                                    ].name.clone(),
                                                    size: store.cached_data[i].shared_files[j].size,
                                                    primary,
                                                    fallback,
                                                },
                                            );
                                        },
                                    }
                                },
                            }
                        },
                    }
                },
            }
        },
        WindowResponse::DeleteFile { directory_identifier, file_identifier } => {
            let did = match parse_uuid(directory_identifier.as_str()) {
                None => {
                    return effects;
                },
                Some(v) => v,
            };
            let fid = match parse_uuid(file_identifier.as_str()) {
                None => {
                    return effects;
                },
                Some(v) => v,
            };
            match find_dir_index(&store.cached_data, did) {
                None => {},
                Some(i) => {
                    proof {
                        lemma_dir_idx_unique(sv0, did, i as int);
                    }
                    match crate::data::find_file_index(&store.cached_data[i].shared_files, fid) {
                        None => {
                            proof {
                                if has_file(sv0[i as int].shared_files, fid) {
                                    let w = file_idx(sv0[i as int].shared_files, fid);
                                    assert(sv0[i as int].shared_files[w].identifier != fid);
                                }
                            }
                        },
                        Some(j) => {
                            proof {
                                lemma_file_idx_unique(
                                    sv0[i as int].shared_files,
                                    fid,
                                    j as int,
                                );
                            }
                            let mut d = store.cached_data.remove(i);
                            proof {
                                assert(dir_wf(d@));
                            }
                            let f = d.shared_files.remove(j);
                            let SharedFile {
                                name,
                                identifier,
                                content_hash,
                                last_modified,
                                content_location,
                                owned_peers,
                                size,
                            } = f;
                            let mut removed_path: Option<String> = None;
                            match content_location {
                                ContentLocation::LocalPath(p) => {
                                    removed_path = Some(p);
                                },
                                ContentLocation::NetworkOnly => {},
                            }
                            let g = SharedFile {
                                name,
                                identifier,
                                content_hash,
                                last_modified,
                                content_location: ContentLocation::NetworkOnly,
                                owned_peers,
                                size,
                            };
                            proof {
                                assert(g@ == crate::store::net_file(
                                    sv0[i as int].shared_files[j as int],
                                ));
                            }
                            d.shared_files.insert(j, g);
                            proof {
                                assert(d.shared_files.deep_view() =~= sv0[
                                i as int].shared_files.update(
                                    j as int,
                                    crate::store::net_file(sv0[i as int].shared_files[j as int]),
                                ));
                                assert(dir_wf(d@)) by {
                                    assert forall|a: int, b: int|
                                        0 <= a < b < d.shared_files.deep_view().len() implies (
                                    #[trigger] d.shared_files.deep_view()[a]).identifier != (
                                    #[trigger] d.shared_files.deep_view()[b]).identifier by {
                                        assert(sv0[i as int].shared_files[a].identifier != sv0[
                                        i as int].shared_files[b].identifier);
                                    }
                                    assert forall|a: int|
                                        0 <= a < d.shared_files.deep_view().len() implies file_wf(
                                        #[trigger] d.shared_files.deep_view()[a],
                                    ) by {
                                        assert(file_wf(sv0[i as int].shared_files[a]));
                                    }
                                }
                            }
                            let mut ids: Vec<u128> = Vec::new();
                            ids.push(fid);
                            proof {
                                assert(ids@ =~= seq![fid]);
                            }
                            d.remove_files(self_peer, now, ids);
                            let copy = d.clone();
                            let members = clone_peers(&d.signature.shared_peers);
                            let sig = d.signature.clone();
                            store.cached_data.insert(i, d);
                            proof {
                                assert(store.cached_data.deep_view() =~= sv0.update(
                                    i as int,
                                    store.cached_data.deep_view()[i as int],
                                ));
                                lemma_left_put_back_wf(
                                    sv0,
                                    store.cached_data.deep_view(),
                                    i as int,
                                );
                            }
                            match removed_path {
                                Some(p) => {
                                    effects.push(SupervisorEffect::RemoveFile(p));
                                },
                                None => {},
                            }
                            effects.push(
                                SupervisorEffect::Broadcast(
                                    members,
                                    SessionCommand::DeleteFile(self_peer.clone(), sig, fid),
                                ),
                            );
                            effects.push(
                                SupervisorEffect::Ui(WindowRequest::UpdateDirectory(copy)),
                            );
                        },
                    }
                },
            }
        },
    }
    effects
}

} // verus!

//! The process-wide directory store: every replicated directory this peer
//! holds, the persisted application settings, and the convergent merge
//! that reconciles directory listings received from other peers.

use vstd::prelude::*;
use vstd::string::StringExecFns;
use crate::data::{
    ShareDirectory, ShareDirectoryV, ShareDirectorySignatureV, SharedFile, SharedFileV,
    ContentLocation, ContentLocationV, dir_wf, file_wf, files_ids_unique, files_all_wf, sig_wf,
    find_file_index, contains_peer, clone_peers,
};
use crate::peer::{PeerId, PeerIdV};
use crate::text::{uuid_text, format_uuid};

verus! {

/// The persisted application settings.
pub struct AppConfig {
    pub peer_id: Option<PeerId>,
    pub hide_on_close: bool,
    pub download_directory: String,
    pub theme: String,
}

impl Default for AppConfig {
    /// A first-launch configuration: no identity yet, dark theme, and a
    /// download folder still to be chosen.
    fn default() -> (r: Self)
        ensures
            r.peer_id is None,
            !r.hide_on_close,
            r.download_directory@.len() == 0,
            r.theme@ == "dark"@,
    {
        proof {
            reveal_strlit("dark");
        }
        AppConfig {
            peer_id: None,
            hide_on_close: false,
            download_directory: String::new(),
            theme: "dark".to_owned(),
        }
    }
}

/// The settings as shown to and edited by the user.
pub struct Settings {
    pub minimize_on_close: bool,
    pub theme: String,
    pub download_directory: String,
}

/// Everything this process keeps across restarts: the settings and the
/// cached copy of every share directory.
pub struct StoredConfig {
    pub app_config: AppConfig,
    pub cached_data: Vec<ShareDirectory>,
}

/// The store's invariant: directory identifiers are unique keys and every
/// directory is well-formed.
pub open spec fn store_wf(dirs: Seq<ShareDirectoryV>) -> bool {
    &&& forall|i: int, j: int|
        0 <= i < j < dirs.len() ==> dirs[i].signature.identifier != dirs[j].signature.identifier
    &&& forall|i: int| 0 <= i < dirs.len() ==> dir_wf(#[trigger] dirs[i])
}

/// Whether some directory carries this identifier.
pub open spec fn has_dir(dirs: Seq<ShareDirectoryV>, id: u128) -> bool {
    exists|i: int| 0 <= i < dirs.len() && dirs[i].signature.identifier == id
}

/// The position of the directory with this identifier.
pub open spec fn dir_idx(dirs: Seq<ShareDirectoryV>, id: u128) -> int {
    choose|i: int| 0 <= i < dirs.len() && dirs[i].signature.identifier == id
}

/// Whether some file of the directory carries this identifier.
pub open spec fn has_file(files: Seq<SharedFileV>, id: u128) -> bool {
    exists|i: int| 0 <= i < files.len() && files[i].identifier == id
}

/// The position of the file with this identifier.
pub open spec fn file_idx(files: Seq<SharedFileV>, id: u128) -> int {
    choose|i: int| 0 <= i < files.len() && files[i].identifier == id
}

/// Look up a directory by its identifier.
pub fn find_dir_index(dirs: &Vec<ShareDirectory>, id: u128) -> (r: Option<usize>)
    ensures
        match r {
            Some(i) => i < dirs.deep_view().len() && dirs.deep_view()[
                i as int
            ].signature.identifier == id,
            None => !has_dir(dirs.deep_view(), id),
        },
{
    let mut i: usize = 0;
    while i < dirs.len()
        invariant
            i <= dirs@.len(),
            forall|j: int|
                0 <= j < i ==> (#[trigger] dirs.deep_view()[j]).signature.identifier != id,
        decreases dirs@.len() - i,
    {
        if dirs[i].signature.identifier == id {
            assert(dirs.deep_view()[i as int].signature.identifier == id);
            return Some(i);
        }
        i = i + 1;
    }
    proof {
        if has_dir(dirs.deep_view(), id) {
            let j = dir_idx(dirs.deep_view(), id);
            assert(dirs.deep_view()[j].signature.identifier != id);
        }
    }
    None
}

impl StoredConfig {
    /// Wrap the loaded settings and directory cache.
    pub fn new(app_config: AppConfig, cached_data: Vec<ShareDirectory>) -> (r: StoredConfig)
        ensures
            r.cached_data.deep_view() == cached_data.deep_view(),
            r.app_config == app_config,
    {
        StoredConfig { app_config, cached_data }
    }

    /// Whether the cached directories satisfy the store's invariant; data
    /// read back from disk is only adopted when this holds.
    pub fn check_wf(&self) -> (r: bool)
        ensures
            r == store_wf(self.cached_data.deep_view()),
    {
        let mut i: usize = 0;
        while i < self.cached_data.len()
            invariant
                i <= self.cached_data@.len(),
                forall|a: int, b: int|
                    0 <= a < b < i ==> (#[trigger] self.cached_data.deep_view()[a]).signature.identifier
                        != (#[trigger] self.cached_data.deep_view()[b]).signature.identifier,
                forall|a: int|
                    0 <= a < i ==> dir_wf(#[trigger] self.cached_data.deep_view()[a]),
            decreases self.cached_data@.len() - i,
        {
            if !crate::data::dir_wf_check(&self.cached_data[i]) {
                proof {
                    assert(!dir_wf(self.cached_data.deep_view()[i as int]));
                }
                return false;
            }
            let mut j: usize = 0;
            while j < i
                invariant
                    j <= i,
                    i < self.cached_data@.len(),
                    forall|a: int|
                        0 <= a < j ==> (#[trigger] self.cached_data.deep_view()[a]).signature.identifier
                            != self.cached_data.deep_view()[i as int].signature.identifier,
                decreases i - j,
            {
                if self.cached_data[j].signature.identifier
                    == self.cached_data[i].signature.identifier {
                    assert(self.cached_data.deep_view()[j as int].signature.identifier
                        == self.cached_data.deep_view()[i as int].signature.identifier);
                    return false;
                }
                j = j + 1;
            }
            i = i + 1;
        }
        proof {
            if !store_wf(self.cached_data.deep_view()) {
                assert(false);
            }
        }
        true
    }

    /// The settings as the user sees them.
    pub fn get_settings(&self) -> (r: Settings)
        ensures
            r.minimize_on_close == self.app_config.hide_on_close,
            r.theme@ == self.app_config.theme@,
            r.download_directory@ == self.app_config.download_directory@,
    {
        Settings {
            minimize_on_close: self.app_config.hide_on_close,
            theme: self.app_config.theme.clone(),
            download_directory: self.app_config.download_directory.clone(),
        }
    }

    /// Adopt edited settings.
    pub fn set_settings(&mut self, new_settings: Settings)
        ensures
            final(self).app_config.hide_on_close == new_settings.minimize_on_close,
            final(self).app_config.theme@ == new_settings.theme@,
            final(self).app_config.download_directory@ == new_settings.download_directory@,
            final(self).app_config.peer_id == old(self).app_config.peer_id,
            final(self).cached_data.deep_view() == old(self).cached_data.deep_view(),
    {
        self.app_config.hide_on_close = new_settings.minimize_on_close;
        self.app_config.theme = new_settings.theme;
        self.app_config.download_directory = new_settings.download_directory;
    }

    /// Owned copies of every directory.
    pub fn get_directories(&self) -> (r: Vec<ShareDirectory>)
        ensures
            r.deep_view() == self.cached_data.deep_view(),
    {
        let mut out: Vec<ShareDirectory> = Vec::new();
        let mut i: usize = 0;
        while i < self.cached_data.len()
            invariant
                i <= self.cached_data@.len(),
                out.deep_view() =~= self.cached_data.deep_view().take(i as int),
            decreases self.cached_data@.len() - i,
        {
            let ghost prev = out.deep_view();
            out.push(self.cached_data[i].clone());
            proof {
                assert(out.deep_view() =~= prev.push(self.cached_data@[i as int].deep_view()));
                assert(out.deep_view() =~= self.cached_data.deep_view().take(i as int + 1));
            }
            i = i + 1;
        }
        proof {
            assert(out.deep_view() =~= self.cached_data.deep_view());
        }
        out
    }

    /// An owned copy of the directory with this identifier, if any.
    pub fn get_directory(&self, dir_id: u128) -> (r: Option<ShareDirectory>)
        requires
            store_wf(self.cached_data.deep_view()),
        ensures
            match r {
                Some(d) => has_dir(self.cached_data.deep_view(), dir_id) && d@
                    == self.cached_data.deep_view()[dir_idx(self.cached_data.deep_view(), dir_id)]
                    && d@.signature.identifier == dir_id,
                None => !has_dir(self.cached_data.deep_view(), dir_id),
            },
    {
        let ghost dirs = self.cached_data.deep_view();
        match find_dir_index(&self.cached_data, dir_id) {
            None => None,
            Some(i) => {
                let d = self.cached_data[i].clone();
                proof {
                    assert(dirs[i as int].signature.identifier == dir_id);
                    lemma_dir_idx_unique(dirs, dir_id, i as int);
                }
                Some(d)
            },
        }
    }
}

/// Under the store invariant, the directory with a given identifier has
/// exactly one position.
pub proof fn lemma_dir_idx_unique(dirs: Seq<ShareDirectoryV>, id: u128, i: int)
    requires
        store_wf(dirs),
        0 <= i < dirs.len(),
        dirs[i].signature.identifier == id,
    ensures
        dir_idx(dirs, id) == i,
        has_dir(dirs, id),
{
    assert(has_dir(dirs, id));
    let w = dir_idx(dirs, id);
    if w != i {
        if w < i {
            assert(dirs[w].signature.identifier != dirs[i].signature.identifier);
        } else {
            assert(dirs[i].signature.identifier != dirs[w].signature.identifier);
        }
    }
}

/// Under a directory's invariant, the file with a given identifier has
/// exactly one position.
pub proof fn lemma_file_idx_unique(files: Seq<SharedFileV>, id: u128, i: int)
    requires
        files_ids_unique(files),
        0 <= i < files.len(),
        files[i].identifier == id,
    ensures
        file_idx(files, id) == i,
        has_file(files, id),
{
    assert(has_file(files, id));
    let w = file_idx(files, id);
    if w != i {
        if w < i {
            assert(files[w].identifier != files[i].identifier);
        } else {
            assert(files[i].identifier != files[w].identifier);
        }
    }
}

/// The store with `d` written under its identifier: the directory with
/// the same identifier is replaced, or `d` is appended as new.
pub open spec fn upsert_dir(dirs: Seq<ShareDirectoryV>, d: ShareDirectoryV) -> Seq<
    ShareDirectoryV,
> {
    if has_dir(dirs, d.signature.identifier) {
        dirs.update(dir_idx(dirs, d.signature.identifier), d)
    } else {
        dirs.push(d)
    }
}

/// Errors the store reports to the user.
#[derive(Clone, Copy, Debug, PartialEq, Eq, Structural)]
pub enum StoreError {
    AlreadyShared,
}

impl StoredConfig {
    /// The local path of a file, where this peer holds its payload.
    pub fn get_filepath(&self, dir_id: u128, file_id: u128) -> (r: Option<String>)
        requires
            store_wf(self.cached_data.deep_view()),
        ensures
            ({
                let dirs = self.cached_data.deep_view();
                match r {
                    Some(p) => has_dir(dirs, dir_id) && has_file(
                        dirs[dir_idx(dirs, dir_id)].shared_files,
                        file_id,
                    ) && dirs[dir_idx(dirs, dir_id)].shared_files[file_idx(
                        dirs[dir_idx(dirs, dir_id)].shared_files,
                        file_id,
                    )].content_location == ContentLocationV::LocalPath(p@),
                    None => !has_dir(dirs, dir_id) || !has_file(
                        dirs[dir_idx(dirs, dir_id)].shared_files,
                        file_id,
                    ) || dirs[dir_idx(dirs, dir_id)].shared_files[file_idx(
                        dirs[dir_idx(dirs, dir_id)].shared_files,
                        file_id,
                    )].content_location is NetworkOnly,
                }
            }),
    {
        let ghost dirs = self.cached_data.deep_view();
        match find_dir_index(&self.cached_data, dir_id) {
            None => None,
            Some(i) => {
                proof {
                    lemma_dir_idx_unique(dirs, dir_id, i as int);
                }
                let d = &self.cached_data[i];
                match find_file_index(&d.shared_files, file_id) {
                    None => None,
                    Some(j) => {
                        proof {
                            lemma_file_idx_unique(dirs[i as int].shared_files, file_id, j as int);
                        }
                        match &d.shared_files[j].content_location {
                            ContentLocation::NetworkOnly => None,
                            ContentLocation::LocalPath(path) => Some(path.clone()),
                        }
                    },
                }
            },
        }
    }

    /// The owners of a file, where the directory and the file exist.
    pub fn get_owners(&self, dir_id: u128, file_id: u128) -> (r: Option<Vec<PeerId>>)
        requires
            store_wf(self.cached_data.deep_view()),
        ensures
            ({
                let dirs = self.cached_data.deep_view();
                match r {
                    Some(owners) => has_dir(dirs, dir_id) && has_file(
                        dirs[dir_idx(dirs, dir_id)].shared_files,
                        file_id,
                    ) && owners.deep_view() == dirs[dir_idx(dirs, dir_id)].shared_files[file_idx(
                        dirs[dir_idx(dirs, dir_id)].shared_files,
                        file_id,
                    )].owned_peers,
                    None => !has_dir(dirs, dir_id) || !has_file(
                        dirs[dir_idx(dirs, dir_id)].shared_files,
                        file_id,
                    ),
                }
            }),
    {
        let ghost dirs = self.cached_data.deep_view();
        match find_dir_index(&self.cached_data, dir_id) {
            None => None,
            Some(i) => {
                proof {
                    lemma_dir_idx_unique(dirs, dir_id, i as int);
                }
                let d = &self.cached_data[i];
                match find_file_index(&d.shared_files, file_id) {
                    None => None,
                    Some(j) => {
                        proof {
                            lemma_file_idx_unique(dirs[i as int].shared_files, file_id, j as int);
                        }
                        Some(clone_peers(&d.shared_files[j].owned_peers))
                    },
                }
            },
        }
    }

    /// Write a directory into the store, replacing any previous one with
    /// the same identifier.
    pub fn add_directory(&mut self, dir: ShareDirectory)
        requires
            store_wf(old(self).cached_data.deep_view()),
            dir_wf(dir@),
        ensures
            final(self).cached_data.deep_view() == upsert_dir(
                old(self).cached_data.deep_view(),
                dir@,
            ),
            final(self).app_config == old(self).app_config,
            store_wf(final(self).cached_data.deep_view()),
    {
        let ghost dirs = self.cached_data.deep_view();
        let ghost dv = dir@;
        match find_dir_index(&self.cached_data, dir.signature.identifier) {
            None => {
                self.cached_data.push(dir);
                proof {
                    assert(self.cached_data.deep_view() =~= dirs.push(dv));
                    assert forall|a: int, b: int|
                        0 <= a < b < self.cached_data.deep_view().len() implies (
                    #[trigger] self.cached_data.deep_view()[a]).signature.identifier != (
                    #[trigger] self.cached_data.deep_view()[b]).signature.identifier by {
                        if b == dirs.len() {
                            assert(!has_dir(dirs, dv.signature.identifier));
                            assert(dirs[a].signature.identifier != dv.signature.identifier);
                        }
                    }
                }
            },
            Some(i) => {
                proof {
                    lemma_dir_idx_unique(dirs, dir.signature.identifier, i as int);
                }
                let _ = self.cached_data.remove(i);
                self.cached_data.insert(i, dir);
                proof {
                    assert(self.cached_data.deep_view() =~= dirs.update(i as int, dv));
                    assert forall|a: int, b: int|
                        0 <= a < b < self.cached_data.deep_view().len() implies (
                    #[trigger] self.cached_data.deep_view()[a]).signature.identifier != (
                    #[trigger] self.cached_data.deep_view()[b]).signature.identifier by {
                        assert(self.cached_data.deep_view() =~= dirs.update(i as int, dv));
                    }
                }
            },
        }
    }

    /// Take the directory with this identifier out of the store.
    pub fn remove_directory(&mut self, dir_id: u128) -> (r: Option<ShareDirectory>)
        requires
            store_wf(old(self).cached_data.deep_view()),
        ensures
            ({
                let dirs = old(self).cached_data.deep_view();
                match r {
                    Some(d) => has_dir(dirs, dir_id) && d@ == dirs[dir_idx(dirs, dir_id)]
                        && final(self).cached_data.deep_view() == dirs.remove(
                        dir_idx(dirs, dir_id),
                    ),
                    None => !has_dir(dirs, dir_id) && final(self).cached_data.deep_view() == dirs,
                }
            }),
            final(self).app_config == old(self).app_config,
            store_wf(final(self).cached_data.deep_view()),
    {
        let ghost dirs = self.cached_data.deep_view();
        match find_dir_index(&self.cached_data, dir_id) {
            None => None,
            Some(i) => {
                proof {
                    lemma_dir_idx_unique(dirs, dir_id, i as int);
                }
                let d = self.cached_data.remove(i);
                proof {
                    assert(self.cached_data.deep_view() =~= dirs.remove(i as int));
                    assert forall|a: int, b: int|
                        0 <= a < b < self.cached_data.deep_view().len() implies (
                    #[trigger] self.cached_data.deep_view()[a]).signature.identifier != (
                    #[trigger] self.cached_data.deep_view()[b]).signature.identifier by {
                        assert(self.cached_data.deep_view() =~= dirs.remove(i as int));
                    }
                    assert forall|a: int|
                        0 <= a < self.cached_data.deep_view().len() implies dir_wf(
                        #[trigger] self.cached_data.deep_view()[a],
                    ) by {
                        assert(self.cached_data.deep_view() =~= dirs.remove(i as int));
                    }
                }
                Some(d)
            },
        }
    }

    /// Accept a directory another peer shared with us; a directory with
    /// the same identifier may not already be present.
    pub fn shared_directory(&mut self, dir: ShareDirectory) -> (r: Result<(), StoreError>)
        requires
            store_wf(old(self).cached_data.deep_view()),
            dir_wf(dir@),
        ensures
            ({
                let dirs = old(self).cached_data.deep_view();
                if has_dir(dirs, dir@.signature.identifier) {
                    r == Err::<(), StoreError>(StoreError::AlreadyShared)
                        && final(self).cached_data.deep_view() == dirs
                } else {
                    r is Ok && final(self).cached_data.deep_view() == dirs.push(dir@)
                }
            }),
            final(self).app_config == old(self).app_config,
            store_wf(final(self).cached_data.deep_view()),
    {
        let ghost dirs = self.cached_data.deep_view();
        let ghost dv = dir@;
        match find_dir_index(&self.cached_data, dir.signature.identifier) {
            Some(i) => {
                proof {
                    lemma_dir_idx_unique(dirs, dir.signature.identifier, i as int);
                }
                Err(StoreError::AlreadyShared)
            },
            None => {
                self.cached_data.push(dir);
                proof {
                    assert(self.cached_data.deep_view() =~= dirs.push(dv));
                    assert forall|a: int, b: int|
                        0 <= a < b < self.cached_data.deep_view().len() implies (
                    #[trigger] self.cached_data.deep_view()[a]).signature.identifier != (
                    #[trigger] self.cached_data.deep_view()[b]).signature.identifier by {
                        if b == dirs.len() {
                            assert(dirs[a].signature.identifier != dv.signature.identifier);
                        }
                    }
                }
                Ok(())
            },
        }
    }

    /// The two candidate destinations for a download: the file's name
    /// under the download folder, and, should that path already be taken,
    /// a file named by the transfer inside it.
    pub fn generate_filepath(&self, dir_id: u128, file_id: u128, download_id: u128) -> (r: Option<
        (String, String),
    >)
        requires
            store_wf(self.cached_data.deep_view()),
        ensures
            ({
                let dirs = self.cached_data.deep_view();
                match r {
                    Some(pair) => has_dir(dirs, dir_id) && has_file(
                        dirs[dir_idx(dirs, dir_id)].shared_files,
                        file_id,
                    ) && pair.0@ == self.app_config.download_directory@ + "/"@ + dirs[dir_idx(
                        dirs,
                        dir_id,
                    )].shared_files[file_idx(dirs[dir_idx(dirs, dir_id)].shared_files, file_id)].name
                        && pair.1@ == pair.0@ + "/"@ + uuid_text(download_id),
                    None => !has_dir(dirs, dir_id) || !has_file(
                        dirs[dir_idx(dirs, dir_id)].shared_files,
                        file_id,
                    ),
                }
            }),
    {
        let ghost dirs = self.cached_data.deep_view();
        match find_dir_index(&self.cached_data, dir_id) {
            None => None,
            Some(i) => {
                proof {
                    lemma_dir_idx_unique(dirs, dir_id, i as int);
                }
                let d = &self.cached_data[i];
                match find_file_index(&d.shared_files, file_id) {
                    None => None,
                    Some(j) => {
                        proof {
                            lemma_file_idx_unique(dirs[i as int].shared_files, file_id, j as int);
                        }
                        let mut primary = self.app_config.download_directory.clone();
                        primary.append("/");
                        primary.append(d.shared_files[j].name.as_str());
                        let mut fallback = primary.clone();
                        fallback.append("/");
                        let u = format_uuid(download_id);
                        fallback.append(u.as_str());
                        Some((primary, fallback))
                    },
                }
            },
        }
    }
}

/// A local entry as the merge rewrites it: where the incoming listing
/// also carries the entry, its owners replace the local ones.
pub open spec fn overwrite_by(inc: Seq<SharedFileV>) -> spec_fn(SharedFileV) -> SharedFileV {
    |f: SharedFileV|
        if has_file(inc, f.identifier) {
            SharedFileV {
                name: f.name,
                identifier: f.identifier,
                content_hash: f.content_hash,
                last_modified: f.last_modified,
                content_location: f.content_location,
                owned_peers: inc[file_idx(inc, f.identifier)].owned_peers,
                size: f.size,
            }
        } else {
            f
        }
}

/// The test that a local entry survives the merge: the sender still lists
/// it, or this host itself owns it (a local addition the sender has not
/// heard of yet).
pub open spec fn kept_by(inc: Seq<SharedFileV>, host: PeerIdV) -> spec_fn(SharedFileV) -> bool {
    |f: SharedFileV| has_file(inc, f.identifier) || f.owned_peers.contains(host)
}

/// The test that an incoming entry is new here.
pub open spec fn fresh_in(loc: Seq<SharedFileV>) -> spec_fn(SharedFileV) -> bool {
    |g: SharedFileV| !has_file(loc, g.identifier)
}

/// The file entries after merging an incoming listing: surviving local
/// entries, their owners overwritten by the sender's, followed by the
/// entries only the sender knows.
pub open spec fn merge_files(loc: Seq<SharedFileV>, inc: Seq<SharedFileV>, host: PeerIdV) -> Seq<
    SharedFileV,
> {
    loc.map_values(overwrite_by(inc)).filter(kept_by(inc, host)) + inc.filter(fresh_in(loc))
}

/// Reconcile a local directory with an incoming copy: a strictly newer
/// copy replaces the membership (this host stays a member) and reshapes
/// the file entries; anything else leaves the local copy untouched.
pub open spec fn merge_dir(local: ShareDirectoryV, incoming: ShareDirectoryV, host: PeerIdV) -> ShareDirectoryV {
    if incoming.signature.last_modified > local.signature.last_modified {
        ShareDirectoryV {
            signature: ShareDirectorySignatureV {
                name: local.signature.name,
                identifier: local.signature.identifier,
                last_modified: local.signature.last_modified,
                shared_peers: if incoming.signature.shared_peers.contains(host) {
                    incoming.signature.shared_peers
                } else {
                    incoming.signature.shared_peers.push(host)
                },
            },
            shared_files: merge_files(local.shared_files, incoming.shared_files, host),
        }
    } else {
        local
    }
}

/// One incoming directory folded into the store: merged into its local
/// counterpart, or inserted verbatim when it is new here.
pub open spec fn sync_one(dirs: Seq<ShareDirectoryV>, d: ShareDirectoryV, host: PeerIdV) -> Seq<
    ShareDirectoryV,
> {
    if has_dir(dirs, d.signature.identifier) {
        dirs.update(
            dir_idx(dirs, d.signature.identifier),
            merge_dir(dirs[dir_idx(dirs, d.signature.identifier)], d, host),
        )
    } else {
        dirs.push(d)
    }
}

/// The store after an incoming listing is folded in, one directory at a
/// time, in the order sent.
pub open spec fn sync_seq(
    dirs: Seq<ShareDirectoryV>,
    incoming: Seq<ShareDirectoryV>,
    host: PeerIdV,
) -> Seq<ShareDirectoryV>
    decreases incoming.len(),
{
    if incoming.len() == 0 {
        dirs
    } else {
        sync_seq(sync_one(dirs, incoming[0], host), incoming.drop_first(), host)
    }
}

/// Merged file entries keep unique identifiers and owners.
pub proof fn lemma_merge_files_wf(loc: Seq<SharedFileV>, inc: Seq<SharedFileV>, host: PeerIdV)
    requires
        files_ids_unique(loc),
        files_all_wf(loc),
        files_ids_unique(inc),
        files_all_wf(inc),
    ensures
        files_ids_unique(merge_files(loc, inc, host)),
        files_all_wf(merge_files(loc, inc, host)),
{
    let ow = overwrite_by(inc);
    let kept = kept_by(inc, host);
    let fresh = fresh_in(loc);
    let mapped = loc.map_values(ow);
    let a = mapped.filter(kept);
    let b = inc.filter(fresh);
    let m = merge_files(loc, inc, host);
    assert(forall|i: int| 0 <= i < mapped.len() ==> (#[trigger] mapped[i]).identifier == loc[i].identifier);
    assert(files_ids_unique(mapped));
    crate::data::lemma_filter_keeps_uniqueness(mapped, kept);
    crate::data::lemma_filter_keeps_uniqueness(inc, fresh);
    assert forall|i: int| 0 <= i < a.len() implies has_file(loc, (#[trigger] a[i]).identifier)
        && file_wf(a[i]) by {
        crate::data::lemma_filter_elem_from(mapped, kept, i);
        let w = choose|w: int| 0 <= w < mapped.len() && mapped[w] == a[i];
        assert(mapped[w] == ow(loc[w]));
        assert(a[i].identifier == loc[w].identifier);
        assert(has_file(loc, a[i].identifier));
        if has_file(inc, loc[w].identifier) {
            let j = file_idx(inc, loc[w].identifier);
            assert(file_wf(inc[j]));
        } else {
            assert(a[i] == loc[w]);
            assert(file_wf(loc[w]));
        }
    }
    assert forall|i: int| 0 <= i < b.len() implies !has_file(loc, (#[trigger] b[i]).identifier)
        && file_wf(b[i]) by {
        inc.lemma_filter_pred(fresh, i);
        crate::data::lemma_filter_elem_from(inc, fresh, i);
        let w = choose|w: int| 0 <= w < inc.len() && inc[w] == b[i];
        assert(file_wf(inc[w]));
    }
    assert forall|i: int, j: int| 0 <= i < j < m.len() implies (#[trigger] m[i]).identifier != (
    #[trigger] m[j]).identifier by {
        if i < a.len() && j >= a.len() {
            assert(m[i] == a[i]);
            assert(m[j] == b[j - a.len()]);
            assert(has_file(loc, a[i].identifier));
            assert(!has_file(loc, b[j - a.len()].identifier));
        } else if i < a.len() {
            assert(m[i] == a[i] && m[j] == a[j]);
        } else {
            assert(m[i] == b[i - a.len()] && m[j] == b[j - a.len()]);
        }
    }
    assert forall|i: int| 0 <= i < m.len() implies file_wf(#[trigger] m[i]) by {
        if i < a.len() {
            assert(m[i] == a[i]);
        } else {
            assert(m[i] == b[i - a.len()]);
        }
    }
}

/// A merge keeps the directory well-formed and its identity.
pub proof fn lemma_merge_dir_wf(local: ShareDirectoryV, incoming: ShareDirectoryV, host: PeerIdV)
    requires
        dir_wf(local),
        dir_wf(incoming),
    ensures
        dir_wf(merge_dir(local, incoming, host)),
        merge_dir(local, incoming, host).signature.identifier == local.signature.identifier,
        merge_dir(local, incoming, host).signature.name == local.signature.name,
        merge_dir(local, incoming, host).signature.last_modified
            == local.signature.last_modified,
{
    if incoming.signature.last_modified > local.signature.last_modified {
        lemma_merge_files_wf(local.shared_files, incoming.shared_files, host);
        let ip = incoming.signature.shared_peers;
        if !ip.contains(host) {
            assert forall|i: int, j: int| 0 <= i < j < ip.push(host).len() implies ip.push(host)[i]
                != ip.push(host)[j] by {
                if j == ip.len() {
                    assert(ip[i] != host);
                }
            }
        }
    }
}

/// Reconcile a local directory with an incoming copy of it.
pub fn merge_directory(local: &mut ShareDirectory, incoming: &ShareDirectory, host: &PeerId)
    requires
        dir_wf(old(local)@),
        dir_wf(incoming@),
    ensures
        final(local)@ == merge_dir(old(local)@, incoming@, host@),
        dir_wf(final(local)@),
        final(local)@.signature.identifier == old(local)@.signature.identifier,
{
    let ghost loc_dir = local@;
    let ghost inc = incoming@.shared_files;
    let ghost ow = overwrite_by(inc);
    let ghost kept = kept_by(inc, host@);
    let ghost fresh = fresh_in(loc_dir.shared_files);
    proof {
        lemma_merge_dir_wf(loc_dir, incoming@, host@);
    }
    if incoming.signature.last_modified > local.signature.last_modified {
        let mut peers = clone_peers(&incoming.signature.shared_peers);
        if !contains_peer(&peers, host) {
            let ghost prev = peers.deep_view();
            peers.push(host.clone());
            proof {
                assert(peers.deep_view() =~= prev.push(host@));
            }
        }
        local.signature.shared_peers = peers;
        let mut out: Vec<SharedFile> = Vec::new();
        let mut i: usize = 0;
        while i < local.shared_files.len()
            invariant
                i <= local.shared_files@.len(),
                local.shared_files.deep_view() == loc_dir.shared_files,
                incoming@.shared_files == inc,
                dir_wf(incoming@),
                ow == overwrite_by(inc),
                kept == kept_by(inc, host@),
                out.deep_view() == loc_dir.shared_files.take(i as int).map_values(ow).filter(
                    kept,
                ),
            decreases local.shared_files@.len() - i,
        {
            let ghost prev = out.deep_view();
            let f = &local.shared_files[i];
            let ghost fv = loc_dir.shared_files[i as int];
            proof {
                assert(loc_dir.shared_files.take(i as int + 1).map_values(ow) =~= loc_dir
                    .shared_files.take(i as int).map_values(ow).push(ow(fv)));
                crate::data::lemma_filter_take_step(
                    loc_dir.shared_files.map_values(ow),
                    kept,
                    i as int,
                );
                assert(loc_dir.shared_files.map_values(ow).take(i as int + 1) =~= loc_dir
                    .shared_files.take(i as int + 1).map_values(ow));
                assert(loc_dir.shared_files.map_values(ow).take(i as int) =~= loc_dir
                    .shared_files.take(i as int).map_values(ow));
            }
            match find_file_index(&incoming.shared_files, f.identifier) {
                Some(j) => {
                    proof {
                        lemma_file_idx_unique(inc, fv.identifier, j as int);
                        assert(has_file(inc, fv.identifier));
                    }
                    let g = SharedFile {
                        name: f.name.clone(),
                        identifier: f.identifier,
                        content_hash: f.content_hash,
                        last_modified: f.last_modified,
                        content_location: f.content_location.clone(),
                        owned_peers: clone_peers(&incoming.shared_files[j].owned_peers),
                        size: f.size,
                    };
                    proof {
                        assert(g@ == ow(fv));
                        assert(kept(ow(fv)));
                    }
                    out.push(g);
                    proof {
                        assert(out.deep_view() =~= prev.push(ow(fv)));
                    }
                },
                None => {
                    proof {
                        assert(!has_file(inc, fv.identifier));
                        assert(ow(fv) == fv);
                    }
                    if contains_peer(&f.owned_peers, host) {
                        out.push(f.clone());
                        proof {
                            assert(kept(ow(fv)));
                            assert(out.deep_view() =~= prev.push(ow(fv)));
                        }
                    } else {
                        proof {
                            assert(!kept(ow(fv)));
                        }
                    }
                },
            }
            i = i + 1;
        }
        proof {
            assert(loc_dir.shared_files.take(loc_dir.shared_files.len() as int) =~= loc_dir
                .shared_files);
        }
        let ghost retained = loc_dir.shared_files.map_values(ow).filter(kept);
        let mut k: usize = 0;
        while k < incoming.shared_files.len()
            invariant
                k <= incoming.shared_files@.len(),
                local.shared_files.deep_view() == loc_dir.shared_files,
                incoming@.shared_files == inc,
                fresh == fresh_in(loc_dir.shared_files),
                retained == loc_dir.shared_files.map_values(overwrite_by(inc)).filter(
                    kept_by(inc, host@),
                ),
                out.deep_view() == retained + inc.take(k as int).filter(fresh),
            decreases incoming.shared_files@.len() - k,
        {
            let ghost prev = out.deep_view();
            let ghost gv = inc[k as int];
            proof {
                crate::data::lemma_filter_take_step(inc, fresh, k as int);
            }
            match find_file_index(&local.shared_files, incoming.shared_files[k].identifier) {
                Some(_) => {
                    proof {
                        assert(has_file(loc_dir.shared_files, gv.identifier));
                        assert(!fresh(gv));
                        assert(retained + inc.take(k as int + 1).filter(fresh) =~= prev);
                    }
                },
                None => {
                    proof {
                        assert(!has_file(loc_dir.shared_files, gv.identifier));
                        assert(fresh(gv));
                    }
                    out.push(incoming.shared_files[k].clone());
                    proof {
                        assert(out.deep_view() =~= prev.push(gv));
                        assert(prev.push(gv) =~= retained + inc.take(k as int + 1).filter(
                            fresh,
                        ));
                    }
                },
            }
            k = k + 1;
        }
        proof {
            assert(inc.take(inc.len() as int) =~= inc);
        }
        local.shared_files = out;
        proof {
            assert(local@ =~~= merge_dir(loc_dir, incoming@, host@));
        }
    } else {
        proof {
            assert(local@ == merge_dir(loc_dir, incoming@, host@));
        }
    }
}

impl StoredConfig {
    /// Fold an incoming directory listing into the store and hand back an
    /// owned copy of everything it now holds.
    pub fn synchronize(&mut self, dirs: Vec<ShareDirectory>, host: &PeerId) -> (r: Vec<
        ShareDirectory,
    >)
        requires
            store_wf(old(self).cached_data.deep_view()),
            forall|k: int|
                0 <= k < dirs.deep_view().len() ==> dir_wf(#[trigger] dirs.deep_view()[k]),
        ensures
            final(self).cached_data.deep_view() == sync_seq(
                old(self).cached_data.deep_view(),
                dirs.deep_view(),
                host@,
            ),
            store_wf(final(self).cached_data.deep_view()),
            r.deep_view() == final(self).cached_data.deep_view(),
            final(self).app_config == old(self).app_config,
    {
        let ghost old_dirs = self.cached_data.deep_view();
        let ghost inc_dv = dirs.deep_view();
        proof {
            assert(inc_dv.skip(0) =~= inc_dv);
        }
        let mut k: usize = 0;
        while k < dirs.len()
            invariant
                k <= inc_dv.len(),
                dirs.deep_view() == inc_dv,
                forall|j: int| 0 <= j < inc_dv.len() ==> dir_wf(#[trigger] inc_dv[j]),
                sync_seq(old_dirs, inc_dv, host@) == sync_seq(
                    self.cached_data.deep_view(),
                    inc_dv.skip(k as int),
                    host@,
                ),
                store_wf(self.cached_data.deep_view()),
                self.app_config == old(self).app_config,
            decreases inc_dv.len() - k,
        {
            let ghost cur = self.cached_data.deep_view();
            let ghost rest = inc_dv.skip(k as int);
            proof {
                assert(rest.len() > 0);
                assert(rest[0] == inc_dv[k as int]);
                assert(rest.drop_first() =~= inc_dv.skip(k as int + 1));
            }
            let id = dirs[k].signature.identifier;
            match find_dir_index(&self.cached_data, id) {
                Some(i) => {
                    proof {
                        lemma_dir_idx_unique(cur, id, i as int);
                    }
                    let mut d = self.cached_data.remove(i);
                    merge_directory(&mut d, &dirs[k], host);
                    self.cached_data.insert(i, d);
                    proof {
                        assert(self.cached_data.deep_view() =~= cur.update(
                            i as int,
                            merge_dir(cur[i as int], inc_dv[k as int], host@),
                        ));
                        lemma_merge_dir_wf(cur[i as int], inc_dv[k as int], host@);
                        assert forall|a: int, b: int|
                            0 <= a < b < self.cached_data.deep_view().len() implies (
                        #[trigger] self.cached_data.deep_view()[a]).signature.identifier != (
                        #[trigger] self.cached_data.deep_view()[b]).signature.identifier by {
                            assert(self.cached_data.deep_view() =~= cur.update(
                                i as int,
                                merge_dir(cur[i as int], inc_dv[k as int], host@),
                            ));
                        }
                    }
                },
                None => {
                    self.cached_data.push(dirs[k].clone());
                    proof {
                        assert(self.cached_data.deep_view() =~= cur.push(inc_dv[k as int]));
                        assert forall|a: int, b: int|
                            0 <= a < b < self.cached_data.deep_view().len() implies (
                        #[trigger] self.cached_data.deep_view()[a]).signature.identifier != (
                        #[trigger] self.cached_data.deep_view()[b]).signature.identifier by {
                            if b == cur.len() {
                                assert(cur[a].signature.identifier != inc_dv[
                                    k as int
                                ].signature.identifier);
                            }
                        }
                    }
                },
            }
            k = k + 1;
        }
        proof {
            assert(inc_dv.skip(inc_dv.len() as int) =~= Seq::<ShareDirectoryV>::empty());
        }
        self.get_directories()
    }
}

/// A merge with an incoming copy that is not strictly newer changes
/// nothing: last-writer-wins never moves a directory backwards.
pub proof fn lemma_merge_ignores_stale(
    local: ShareDirectoryV,
    incoming: ShareDirectoryV,
    host: PeerIdV,
)
    requires
        incoming.signature.last_modified <= local.signature.last_modified,
    ensures
        merge_dir(local, incoming, host) == local,
{
}

/// The replicated fields a merge is meant to converge on: everything but
/// the local content locations and the merge stamp itself.
pub open spec fn net_file(f: SharedFileV) -> SharedFileV {
    SharedFileV {
        name: f.name,
        identifier: f.identifier,
        content_hash: f.content_hash,
        last_modified: f.last_modified,
        content_location: ContentLocationV::NetworkOnly,
        owned_peers: f.owned_peers,
        size: f.size,
    }
}

/// The file entries as a map from identifier to location-erased entry.
pub open spec fn net_map(files: Seq<SharedFileV>) -> Map<u128, SharedFileV> {
    Map::new(|id: u128| has_file(files, id), |id: u128| net_file(files[file_idx(files, id)]))
}

/// Two entries that agree on everything a mutation can never change.
pub open spec fn file_agrees(a: SharedFileV, b: SharedFileV) -> bool {
    a.name == b.name && a.content_hash == b.content_hash && a.size == b.size && a.last_modified
        == b.last_modified
}

/// Merge convergence: a peer that receives a strictly newer copy of a
/// directory adopts the sender's membership and, up to content location,
/// exactly the sender's file entries, provided it has no local-only owned
/// additions the sender has not heard of and the immutable fields of
/// common entries agree.
pub proof fn lemma_merge_convergence(
    local: ShareDirectoryV,
    incoming: ShareDirectoryV,
    host: PeerIdV,
)
    requires
        dir_wf(local),
        dir_wf(incoming),
        incoming.signature.last_modified > local.signature.last_modified,
        incoming.signature.shared_peers.contains(host),
        forall|i: int|
            0 <= i < local.shared_files.len() ==> has_file(
                incoming.shared_files,
                (#[trigger] local.shared_files[i]).identifier,
            ) || !local.shared_files[i].owned_peers.contains(host),
        forall|i: int|
            0 <= i < local.shared_files.len() && has_file(
                incoming.shared_files,
                (#[trigger] local.shared_files[i]).identifier,
            ) ==> file_agrees(
                local.shared_files[i],
                incoming.shared_files[file_idx(
                    incoming.shared_files,
                    local.shared_files[i].identifier,
                )],
            ),
    ensures
        merge_dir(local, incoming, host).signature.shared_peers
            == incoming.signature.shared_peers,
        net_map(merge_dir(local, incoming, host).shared_files) == net_map(incoming.shared_files),
{
    let loc = local.shared_files;
    let inc = incoming.shared_files;
    let ow = overwrite_by(inc);
    let kept = kept_by(inc, host);
    let fresh = fresh_in(loc);
    let mapped = loc.map_values(ow);
    let a = mapped.filter(kept);
    let b = inc.filter(fresh);
    let m = merge_files(loc, inc, host);
    lemma_merge_files_wf(loc, inc, host);
    assert forall|i: int|
        0 <= i < a.len() implies has_file(inc, (#[trigger] a[i]).identifier) && net_file(a[i])
        == net_file(inc[file_idx(inc, a[i].identifier)]) by {
        mapped.lemma_filter_pred(kept, i);
        crate::data::lemma_filter_elem_from(mapped, kept, i);
        let w = choose|w: int| 0 <= w < mapped.len() && mapped[w] == a[i];
        assert(mapped[w] == ow(loc[w]));
        assert(a[i].identifier == loc[w].identifier);
        if !has_file(inc, loc[w].identifier) {
            assert(a[i] == loc[w]);
            assert(kept(a[i]));
            assert(a[i].owned_peers.contains(host));
            assert(loc[w].owned_peers.contains(host));
            assert(false);
        }
        let j = file_idx(inc, loc[w].identifier);
        assert(file_agrees(loc[w], inc[j]));
        assert(a[i].owned_peers == inc[j].owned_peers);
    }
    assert forall|i: int|
        0 <= i < b.len() implies has_file(inc, (#[trigger] b[i]).identifier) && net_file(b[i])
        == net_file(inc[file_idx(inc, b[i].identifier)]) by {
        crate::data::lemma_filter_elem_from(inc, fresh, i);
        let w = choose|w: int| 0 <= w < inc.len() && inc[w] == b[i];
        lemma_file_idx_unique(inc, b[i].identifier, w);
    }
    assert forall|id: u128| #[trigger] has_file(inc, id) implies has_file(m, id) by {
        let j = file_idx(inc, id);
        if has_file(loc, id) {
            let w = file_idx(loc, id);
            assert(mapped[w] == ow(loc[w]));
            assert(kept(mapped[w]));
            mapped.lemma_filter_contains(kept, w);
            let ai = choose|ai: int| 0 <= ai < a.len() && a[ai] == mapped[w];
            assert(m[ai] == a[ai]);
            assert(m[ai].identifier == id);
        } else {
            assert(fresh(inc[j]));
            inc.lemma_filter_contains(fresh, j);
            let bi = choose|bi: int| 0 <= bi < b.len() && b[bi] == inc[j];
            assert(m[a.len() + bi] == b[bi]);
            assert(m[a.len() + bi].identifier == id);
        }
    }
    assert forall|id: u128| #[trigger] has_file(m, id) implies has_file(inc, id) by {
        let i = file_idx(m, id);
        if i < a.len() {
            assert(m[i] == a[i]);
        } else {
            assert(m[i] == b[i - a.len()]);
        }
    }
    assert forall|id: u128| #[trigger] has_file(m, id) implies net_file(m[file_idx(m, id)])
        == net_file(inc[file_idx(inc, id)]) by {
        let i = file_idx(m, id);
        assert(m[i].identifier == id);
        if i < a.len() {
            assert(m[i] == a[i]);
        } else {
            assert(m[i] == b[i - a.len()]);
        }
    }
    assert(net_map(m) =~= net_map(inc));
}

/// Relies on `chrono::Utc::now`: the wall clock, in milliseconds since the
/// epoch. Nothing can be promised of the time.
#[verifier::external_body]
pub fn now_millis() -> i64 {
    chrono::Utc::now().timestamp_millis()
}

} // verus!

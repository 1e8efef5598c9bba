//! The replicated directory model: share directories, their file entries,
//! and the five mutation primitives every peer applies to its own copy.

use vstd::prelude::*;
use crate::peer::{PeerId, PeerIdV};

verus! {

/// Where a file's payload lives on this host.
pub enum ContentLocation {
    LocalPath(String),
    NetworkOnly,
}

/// Mathematical value of a [`ContentLocation`].
pub enum ContentLocationV {
    LocalPath(Seq<char>),
    NetworkOnly,
}

impl View for ContentLocation {
    type V = ContentLocationV;

    open spec fn view(&self) -> ContentLocationV {
        match self {
            ContentLocation::LocalPath(p) => ContentLocationV::LocalPath(p@),
            ContentLocation::NetworkOnly => ContentLocationV::NetworkOnly,
        }
    }
}

impl Clone for ContentLocation {
    fn clone(&self) -> (r: Self)
        ensures
            r@ == self@,
    {
        match self {
            ContentLocation::LocalPath(p) => ContentLocation::LocalPath(p.clone()),
            ContentLocation::NetworkOnly => ContentLocation::NetworkOnly,
        }
    }
}

/// A logical file entry replicated within a share directory.
pub struct SharedFile {
    pub name: String,
    pub identifier: u128,
    pub content_hash: u64,
    pub last_modified: i64,
    pub content_location: ContentLocation,
    pub owned_peers: Vec<PeerId>,
    pub size: u64,
}

/// Mathematical value of a [`SharedFile`].
pub struct SharedFileV {
    pub name: Seq<char>,
    pub identifier: u128,
    pub content_hash: u64,
    pub last_modified: i64,
    pub content_location: ContentLocationV,
    pub owned_peers: Seq<PeerIdV>,
    pub size: u64,
}

impl View for SharedFile {
    type V = SharedFileV;

    open spec fn view(&self) -> SharedFileV {
        SharedFileV {
            name: self.name@,
            identifier: self.identifier,
            content_hash: self.content_hash,
            last_modified: self.last_modified,
            content_location: self.content_location@,
            owned_peers: self.owned_peers.deep_view(),
            size: self.size,
        }
    }
}

impl DeepView for SharedFile {
    type V = SharedFileV;

    open spec fn deep_view(&self) -> SharedFileV {
        self@
    }
}

impl Clone for SharedFile {
    fn clone(&self) -> (r: Self)
        ensures
            r@ == self@,
    {
        let r = SharedFile {
            name: self.name.clone(),
            identifier: self.identifier,
            content_hash: self.content_hash,
            last_modified: self.last_modified,
            content_location: self.content_location.clone(),
            owned_peers: clone_peers(&self.owned_peers),
            size: self.size,
        };
        r
    }
}

/// The replicated metadata of a directory: its name, identity, last
/// mutation time, and membership.
pub struct ShareDirectorySignature {
    pub name: String,
    pub identifier: u128,
    pub last_modified: i64,
    pub shared_peers: Vec<PeerId>,
}

/// Mathematical value of a [`ShareDirectorySignature`].
pub struct ShareDirectorySignatureV {
    pub name: Seq<char>,
    pub identifier: u128,
    pub last_modified: i64,
    pub shared_peers: Seq<PeerIdV>,
}

impl View for ShareDirectorySignature {
    type V = ShareDirectorySignatureV;

    open spec fn view(&self) -> ShareDirectorySignatureV {
        ShareDirectorySignatureV {
            name: self.name@,
            identifier: self.identifier,
            last_modified: self.last_modified,
            shared_peers: self.shared_peers.deep_view(),
        }
    }
}

impl DeepView for ShareDirectorySignature {
    type V = ShareDirectorySignatureV;

    open spec fn deep_view(&self) -> ShareDirectorySignatureV {
        self@
    }
}

impl Clone for ShareDirectorySignature {
    fn clone(&self) -> (r: Self)
        ensures
            r@ == self@,
    {
        ShareDirectorySignature {
            name: self.name.clone(),
            identifier: self.identifier,
            last_modified: self.last_modified,
            shared_peers: clone_peers(&self.shared_peers),
        }
    }
}

/// A replicated folder: its signature plus its file entries, keyed by the
/// files' identifiers.
pub struct ShareDirectory {
    pub signature: ShareDirectorySignature,
    pub shared_files: Vec<SharedFile>,
}

/// Mathematical value of a [`ShareDirectory`].
pub struct ShareDirectoryV {
    pub signature: ShareDirectorySignatureV,
    pub shared_files: Seq<SharedFileV>,
}

impl View for ShareDirectory {
    type V = ShareDirectoryV;

    open spec fn view(&self) -> ShareDirectoryV {
        ShareDirectoryV {
            signature: self.signature@,
            shared_files: self.shared_files.deep_view(),
        }
    }
}

impl DeepView for ShareDirectory {
    type V = ShareDirectoryV;

    open spec fn deep_view(&self) -> ShareDirectoryV {
        self@
    }
}

impl Clone for ShareDirectory {
    fn clone(&self) -> (r: Self)
        ensures
            r@ == self@,
    {
        let mut files: Vec<SharedFile> = Vec::new();
        let mut i: usize = 0;
        while i < self.shared_files.len()
            invariant
                i <= self.shared_files@.len(),
                files.deep_view() =~= self.shared_files.deep_view().take(i as int),
            decreases self.shared_files@.len() - i,
        {
            let ghost prev = files.deep_view();
            files.push(self.shared_files[i].clone());
            proof {
                assert(files.deep_view() =~= prev.push(self.shared_files@[i as int].deep_view()));
                assert(files.deep_view() =~= self.shared_files.deep_view().take(i as int + 1));
            }
            i = i + 1;
        }
        proof {
            assert(files.deep_view() =~= self.shared_files.deep_view());
        }
        ShareDirectory { signature: self.signature.clone(), shared_files: files }
    }
}

/// Copy a membership list.
pub fn clone_peers(v: &Vec<PeerId>) -> (r: Vec<PeerId>)
    ensures
        r.deep_view() == v.deep_view(),
{
    let mut out: Vec<PeerId> = Vec::new();
    let mut i: usize = 0;
    while i < v.len()
        invariant
            i <= v@.len(),
            out.deep_view() =~= v.deep_view().take(i as int),
        decreases v@.len() - i,
    {
        let ghost prev = out.deep_view();
        out.push(v[i].clone());
        proof {
            assert(out.deep_view() =~= prev.push(v@[i as int].deep_view()));
            assert(out.deep_view() =~= v.deep_view().take(i as int + 1));
        }
        i = i + 1;
    }
    proof {
        assert(out.deep_view() =~= v.deep_view());
    }
    out
}

/// Whether the membership list holds the given peer.
pub fn contains_peer(v: &Vec<PeerId>, p: &PeerId) -> (r: bool)
    ensures
        r == v.deep_view().contains(p@),
{
    let mut i: usize = 0;
    while i < v.len()
        invariant
            i <= v@.len(),
            forall|j: int| 0 <= j < i ==> v.deep_view()[j] != p@,
        decreases v@.len() - i,
    {
        if v[i].eq_peer(p) {
            assert(v.deep_view()[i as int] == p@);
            return true;
        }
        i = i + 1;
    }
    proof {
        if v.deep_view().contains(p@) {
            let j = choose|j: int| 0 <= j < v.deep_view().len() && v.deep_view()[j] == p@;
            assert(v.deep_view()[j] != p@);
        }
    }
    false
}

/// A file entry is well-formed when somebody owns it.
pub open spec fn file_wf(f: SharedFileV) -> bool {
    f.owned_peers.len() > 0
}

/// A signature is well-formed when its membership reads as a set.
pub open spec fn sig_wf(s: ShareDirectorySignatureV) -> bool {
    forall|i: int, j: int| 0 <= i < j < s.shared_peers.len() ==> s.shared_peers[i]
        != s.shared_peers[j]
}

/// File identifiers key the entries, so they may not repeat.
pub open spec fn files_ids_unique(files: Seq<SharedFileV>) -> bool {
    forall|i: int, j: int| 0 <= i < j < files.len() ==> files[i].identifier != files[j].identifier
}

/// A directory is well-formed when its signature is, its file keys are
/// unique, and every entry is owned by at least one peer.
pub open spec fn dir_wf(d: ShareDirectoryV) -> bool {
    &&& sig_wf(d.signature)
    &&& files_ids_unique(d.shared_files)
    &&& forall|i: int| 0 <= i < d.shared_files.len() ==> file_wf(#[trigger] d.shared_files[i])
}

/// The test that a peer differs from `p`.
pub open spec fn peer_neq(p: PeerIdV) -> spec_fn(PeerIdV) -> bool {
    |q: PeerIdV| q != p
}

/// The membership list with every occurrence of `p` dropped.
pub open spec fn without_peer(s: Seq<PeerIdV>, p: PeerIdV) -> Seq<PeerIdV> {
    s.filter(peer_neq(p))
}

/// Dropping `p` from a file's owners.
pub open spec fn drop_owner_fn(p: PeerIdV) -> spec_fn(SharedFileV) -> SharedFileV {
    |f: SharedFileV| file_without_owner(f, p)
}

/// The test that a file still has an owner.
pub open spec fn owned_nonempty_fn() -> spec_fn(SharedFileV) -> bool {
    |f: SharedFileV| f.owned_peers.len() > 0
}

/// The file with `p` dropped from its owners.
pub open spec fn file_without_owner(f: SharedFileV, p: PeerIdV) -> SharedFileV {
    SharedFileV {
        name: f.name,
        identifier: f.identifier,
        content_hash: f.content_hash,
        last_modified: f.last_modified,
        content_location: f.content_location,
        owned_peers: without_peer(f.owned_peers, p),
        size: f.size,
    }
}

/// The file entries after a peer left: it is dropped from every owner
/// list, and entries left without any owner disappear.
pub open spec fn remove_peer_files(files: Seq<SharedFileV>, p: PeerIdV) -> Seq<SharedFileV> {
    files.map_values(drop_owner_fn(p)).filter(owned_nonempty_fn())
}

/// Filtering one more element appends it exactly when it passes.
pub proof fn lemma_filter_take_step<A>(s: Seq<A>, pred: spec_fn(A) -> bool, i: int)
    requires
        0 <= i < s.len(),
    ensures
        s.take(i + 1).filter(pred) == if pred(s[i]) {
            s.take(i).filter(pred).push(s[i])
        } else {
            s.take(i).filter(pred)
        },
{
    reveal(Seq::filter);
    let t = s.take(i + 1);
    assert(t.drop_last() =~= s.take(i));
    assert(t.last() == s[i]);
}

/// A filter that every element passes changes nothing.
pub proof fn lemma_filter_all_true<A>(s: Seq<A>, pred: spec_fn(A) -> bool)
    requires
        forall|i: int| 0 <= i < s.len() ==> pred(#[trigger] s[i]),
    ensures
        s.filter(pred) == s,
    decreases s.len(),
{
    reveal(Seq::filter);
    if s.len() == 0 {
        assert(s.filter(pred) =~= s);
    } else {
        lemma_filter_all_true(s.drop_last(), pred);
        assert(s.filter(pred) =~= s);
    }
}

/// Drop every occurrence of a peer from a membership list.
pub fn filter_out_peer(v: &Vec<PeerId>, p: &PeerId) -> (r: Vec<PeerId>)
    ensures
        r.deep_view() == without_peer(v.deep_view(), p@),
{
    let ghost pred = peer_neq(p@);
    let mut out: Vec<PeerId> = Vec::new();
    let mut i: usize = 0;
    while i < v.len()
        invariant
            i <= v@.len(),
            out.deep_view() == v.deep_view().take(i as int).filter(pred),
            pred == peer_neq(p@),
        decreases v@.len() - i,
    {
        let ghost prev = out.deep_view();
        proof {
            lemma_filter_take_step(v.deep_view(), pred, i as int);
        }
        if !v[i].eq_peer(p) {
            out.push(v[i].clone());
            proof {
                assert(out.deep_view() =~= prev.push(v@[i as int].deep_view()));
            }
        }
        i = i + 1;
    }
    proof {
        assert(v.deep_view().take(v.deep_view().len() as int) =~= v.deep_view());
    }
    out
}

impl ShareDirectory {
    /// Remove a member: it leaves the membership list and every owner
    /// list, and files nobody owns any more disappear.
    pub fn remove_peer(&mut self, peer: &PeerId, date_modified: i64)
        ensures
            final(self)@.signature.name == old(self)@.signature.name,
            final(self)@.signature.identifier == old(self)@.signature.identifier,
            final(self)@.signature.last_modified == date_modified,
            final(self)@.signature.shared_peers == without_peer(
                old(self)@.signature.shared_peers,
                peer@,
            ),
            final(self)@.shared_files == remove_peer_files(old(self)@.shared_files, peer@),
            dir_wf(old(self)@) ==> dir_wf(final(self)@),
    {
        let ghost old_dir = self@;
        self.signature.last_modified = date_modified;
        let new_peers = filter_out_peer(&self.signature.shared_peers, peer);
        self.signature.shared_peers = new_peers;
        let ghost mapped = drop_owner_fn(peer@);
        let ghost keep = owned_nonempty_fn();
        let mut out: Vec<SharedFile> = Vec::new();
        let mut i: usize = 0;
        while i < self.shared_files.len()
            invariant
                i <= self.shared_files@.len(),
                self.shared_files.deep_view() == old_dir.shared_files,
                out.deep_view() == old_dir.shared_files.take(i as int).map_values(mapped).filter(
                    keep,
                ),
                mapped == drop_owner_fn(peer@),
                keep == owned_nonempty_fn(),
            decreases self.shared_files@.len() - i,
        {
            let ghost prev = out.deep_view();
            let f = &self.shared_files[i];
            let new_owners = filter_out_peer(&f.owned_peers, peer);
            proof {
                assert(old_dir.shared_files.take(i as int + 1).map_values(mapped) =~= old_dir
                    .shared_files.take(i as int).map_values(mapped).push(
                    mapped(old_dir.shared_files[i as int]),
                ));
                lemma_filter_take_step(
                    old_dir.shared_files.map_values(mapped),
                    keep,
                    i as int,
                );
                assert(old_dir.shared_files.map_values(mapped).take(i as int + 1)
                    =~= old_dir.shared_files.take(i as int + 1).map_values(mapped));
                assert(old_dir.shared_files.map_values(mapped).take(i as int) =~= old_dir
                    .shared_files.take(i as int).map_values(mapped));
            }
            if new_owners.len() > 0 {
                let g = SharedFile {
                    name: f.name.clone(),
                    identifier: f.identifier,
                    content_hash: f.content_hash,
                    last_modified: f.last_modified,
                    content_location: f.content_location.clone(),
                    owned_peers: new_owners,
                    size: f.size,
                };
                proof {
                    assert(g@ == mapped(old_dir.shared_files[i as int]));
                }
                out.push(g);
                proof {
                    assert(out.deep_view() =~= prev.push(
                        mapped(old_dir.shared_files[i as int]),
                    ));
                }
            } else {
                proof {
                    assert(!keep(mapped(old_dir.shared_files[i as int])));
                }
            }
            i = i + 1;
        }
        proof {
            assert(old_dir.shared_files.take(old_dir.shared_files.len() as int) =~= old_dir
                .shared_files);
        }
        self.shared_files = out;
        proof {
            if dir_wf(old_dir) {
                lemma_remove_peer_files_wf(old_dir.shared_files, peer@);
                lemma_without_peer_unique(old_dir.signature.shared_peers, peer@);
            }
        }
    }
}

/// The entries after a peer's removal are still uniquely keyed and owned.
proof fn lemma_remove_peer_files_wf(files: Seq<SharedFileV>, p: PeerIdV)
    requires
        files_ids_unique(files),
    ensures
        files_ids_unique(remove_peer_files(files, p)),
        forall|i: int|
            0 <= i < remove_peer_files(files, p).len() ==> file_wf(
                #[trigger] remove_peer_files(files, p)[i],
            ),
{
    let mapped = files.map_values(drop_owner_fn(p));
    let keep = owned_nonempty_fn();
    let out = remove_peer_files(files, p);
    assert forall|i: int| 0 <= i < out.len() implies file_wf(#[trigger] out[i]) by {
        mapped.lemma_filter_pred(keep, i);
    }
    lemma_filter_keeps_uniqueness(mapped, keep);
}

/// Every element of a filtered sequence stands in the original.
pub proof fn lemma_filter_elem_from<A>(s: Seq<A>, pred: spec_fn(A) -> bool, i: int)
    requires
        0 <= i < s.filter(pred).len(),
    ensures
        s.contains(s.filter(pred)[i]),
    decreases s.len(),
{
    reveal(Seq::filter);
    if s.len() > 0 {
        let sub = s.drop_last().filter(pred);
        if pred(s.last()) {
            if i < sub.len() {
                lemma_filter_elem_from(s.drop_last(), pred, i);
                let j = choose|j: int|
                    0 <= j < s.drop_last().len() && s.drop_last()[j] == sub[i];
                assert(s[j] == s.filter(pred)[i]);
            } else {
                assert(s.filter(pred)[i] == s.last());
                assert(s[s.len() - 1] == s.last());
            }
        } else {
            lemma_filter_elem_from(s.drop_last(), pred, i);
            let j = choose|j: int| 0 <= j < s.drop_last().len() && s.drop_last()[j] == sub[i];
            assert(s[j] == s.filter(pred)[i]);
        }
    }
}

/// Filtering keeps identifiers unique.
pub proof fn lemma_filter_keeps_uniqueness(s: Seq<SharedFileV>, pred: spec_fn(SharedFileV) -> bool)
    requires
        files_ids_unique(s),
    ensures
        files_ids_unique(s.filter(pred)),
    decreases s.len(),
{
    reveal(Seq::filter);
    if s.len() == 0 {
    } else {
        assert(s.drop_last() =~= s.take(s.len() - 1));
        lemma_filter_keeps_uniqueness(s.drop_last(), pred);
        let sub = s.drop_last().filter(pred);
        let out = s.filter(pred);
        if pred(s.last()) {
            assert(out == sub.push(s.last()));
            assert forall|i: int, j: int| 0 <= i < j < out.len() implies out[i].identifier
                != out[j].identifier by {
                if j < out.len() - 1 {
                    assert(sub[i] == out[i] && sub[j] == out[j]);
                } else {
                    lemma_filter_elem_from(s.drop_last(), pred, i);
                    let k = choose|k: int|
                        0 <= k < s.drop_last().len() && s.drop_last()[k] == sub[i];
                    assert(s[k] == out[i]);
                    assert(out[j] == s.last());
                    assert(s[s.len() - 1] == s.last());
                }
            }
        } else {
            assert(out == sub);
        }
    }
}

/// The membership list stays a set after a removal.
proof fn lemma_without_peer_unique(s: Seq<PeerIdV>, p: PeerIdV)
    requires
        forall|i: int, j: int| 0 <= i < j < s.len() ==> s[i] != s[j],
    ensures
        forall|i: int, j: int|
            0 <= i < j < without_peer(s, p).len() ==> without_peer(s, p)[i] != without_peer(
                s,
                p,
            )[j],
    decreases s.len(),
{
    reveal(Seq::filter);
    let pred = peer_neq(p);
    if s.len() == 0 {
    } else {
        assert(s.drop_last() =~= s.take(s.len() - 1));
        lemma_without_peer_unique(s.drop_last(), p);
        let sub = s.drop_last().filter(pred);
        let out = s.filter(pred);
        if pred(s.last()) {
            assert(out == sub.push(s.last()));
            assert forall|i: int, j: int| 0 <= i < j < out.len() implies out[i] != out[j] by {
                if j < out.len() - 1 {
                    assert(sub[i] == out[i] && sub[j] == out[j]);
                    assert(without_peer(s.drop_last(), p)[i] != without_peer(s.drop_last(), p)[j]);
                } else {
                    lemma_filter_elem_from(s.drop_last(), pred, i);
                    let k = choose|k: int|
                        0 <= k < s.drop_last().len() && s.drop_last()[k] == sub[i];
                    assert(s[k] == out[i]);
                    assert(out[j] == s.last());
                    assert(s[s.len() - 1] == s.last());
                }
            }
        } else {
            assert(out == sub);
            assert forall|i: int, j: int| 0 <= i < j < out.len() implies out[i] != out[j] by {
                assert(without_peer(s.drop_last(), p)[i] != without_peer(s.drop_last(), p)[j]);
            }
        }
    }
}

/// Membership after appending each peer of `new` not already present.
pub open spec fn push_new_peers(cur: Seq<PeerIdV>, new: Seq<PeerIdV>) -> Seq<PeerIdV>
    decreases new.len(),
{
    if new.len() == 0 {
        cur
    } else {
        let c2 = if cur.contains(new[0]) {
            cur
        } else {
            cur.push(new[0])
        };
        push_new_peers(c2, new.drop_first())
    }
}

/// The new membership holds exactly the old and the added peers.
pub proof fn lemma_push_new_peers_membership(cur: Seq<PeerIdV>, new: Seq<PeerIdV>, q: PeerIdV)
    ensures
        push_new_peers(cur, new).contains(q) <==> cur.contains(q) || new.contains(q),
    decreases new.len(),
{
    if new.len() == 0 {
    } else {
        let c2 = if cur.contains(new[0]) {
            cur
        } else {
            cur.push(new[0])
        };
        lemma_push_new_peers_membership(c2, new.drop_first(), q);
        assert(c2.contains(q) <==> cur.contains(q) || q == new[0]) by {
            if cur.contains(new[0]) {
            } else {
                if c2.contains(q) {
                    let i = choose|i: int| 0 <= i < c2.len() && c2[i] == q;
                    if i < cur.len() {
                        assert(cur[i] == q);
                    }
                }
                if cur.contains(q) {
                    let i = choose|i: int| 0 <= i < cur.len() && cur[i] == q;
                    assert(c2[i] == q);
                }
                assert(c2[c2.len() - 1] == new[0]);
            }
        }
        assert(new.drop_first().contains(q) || q == new[0] <==> new.contains(q)) by {
            if new.drop_first().contains(q) {
                let i = choose|i: int|
                    0 <= i < new.drop_first().len() && new.drop_first()[i] == q;
                assert(new[i + 1] == q);
            }
            if new.contains(q) {
                let i = choose|i: int| 0 <= i < new.len() && new[i] == q;
                if i > 0 {
                    assert(new.drop_first()[i - 1] == q);
                }
            }
        }
    }
}

/// Appending only absent peers keeps the membership a set.
pub proof fn lemma_push_new_peers_unique(cur: Seq<PeerIdV>, new: Seq<PeerIdV>)
    requires
        forall|i: int, j: int| 0 <= i < j < cur.len() ==> cur[i] != cur[j],
    ensures
        forall|i: int, j: int|
            0 <= i < j < push_new_peers(cur, new).len() ==> push_new_peers(cur, new)[i]
                != push_new_peers(cur, new)[j],
    decreases new.len(),
{
    reveal_with_fuel(push_new_peers, 2);
    if new.len() == 0 {
    } else {
        let c2 = if cur.contains(new[0]) {
            cur
        } else {
            cur.push(new[0])
        };
        assert(push_new_peers(cur, new) == push_new_peers(c2, new.drop_first()));
        assert forall|i: int, j: int| 0 <= i < j < c2.len() implies c2[i] != c2[j] by {
            if !cur.contains(new[0]) && j == c2.len() - 1 {
                assert(c2[j] == new[0]);
                if c2[i] == new[0] {
                    assert(cur[i] == new[0]);
                }
            }
        }
        lemma_push_new_peers_unique(c2, new.drop_first());
    }
}

/// How many times `p` stands in the list.
pub open spec fn count_peer(s: Seq<PeerIdV>, p: PeerIdV) -> int
    decreases s.len(),
{
    if s.len() == 0 {
        0
    } else {
        (if s[0] == p {
            1int
        } else {
            0int
        }) + count_peer(s.drop_first(), p)
    }
}

proof fn lemma_count_push(s: Seq<PeerIdV>, q: PeerIdV, p: PeerIdV)
    ensures
        count_peer(s.push(q), p) == count_peer(s, p) + (if q == p {
            1int
        } else {
            0int
        }),
    decreases s.len(),
{
    reveal_with_fuel(count_peer, 2);
    if s.len() == 0 {
        assert(s.push(q)[0] == q);
        assert(s.push(q).drop_first() =~= Seq::<PeerIdV>::empty());
        assert(count_peer(Seq::<PeerIdV>::empty(), p) == 0);
    } else {
        assert(s.push(q).drop_first() =~= s.drop_first().push(q));
        lemma_count_push(s.drop_first(), q, p);
        assert(s.push(q)[0] == s[0]);
        assert(count_peer(s.push(q), p) == (if s[0] == p { 1int } else { 0int }) + count_peer(
            s.drop_first().push(q),
            p,
        ));
    }
}

proof fn lemma_count_zero(s: Seq<PeerIdV>, p: PeerIdV)
    ensures
        count_peer(s, p) == 0 <==> !s.contains(p),
        count_peer(s, p) >= 0,
    decreases s.len(),
{
    if s.len() == 0 {
    } else {
        lemma_count_zero(s.drop_first(), p);
        if s.contains(p) {
            let i = choose|i: int| 0 <= i < s.len() && s[i] == p;
            if i > 0 {
                assert(s.drop_first()[i - 1] == p);
            }
        }
        if s.drop_first().contains(p) {
            let i = choose|i: int|
                0 <= i < s.drop_first().len() && s.drop_first()[i] == p;
            assert(s[i + 1] == p);
        }
    }
}

proof fn lemma_unique_count(s: Seq<PeerIdV>, p: PeerIdV)
    requires
        forall|i: int, j: int| 0 <= i < j < s.len() ==> s[i] != s[j],
        s.contains(p),
    ensures
        count_peer(s, p) == 1,
    decreases s.len(),
{
    if s.len() > 0 {
        if s[0] == p {
            assert(!s.drop_first().contains(p)) by {
                if s.drop_first().contains(p) {
                    let i = choose|i: int|
                        0 <= i < s.drop_first().len() && s.drop_first()[i] == p;
                    assert(s[i + 1] == p);
                    assert(s[0] != s[i + 1]);
                }
            }
            lemma_count_zero(s.drop_first(), p);
        } else {
            let i = choose|i: int| 0 <= i < s.len() && s[i] == p;
            assert(s.drop_first()[i - 1] == p);
            lemma_unique_count(s.drop_first(), p);
        }
    }
}

/// Adding a peer twice leaves one occurrence of it: membership reads as
/// a set, and a second add of the same peer changes nothing.
pub proof fn lemma_add_peers_idempotent(cur: Seq<PeerIdV>, p: PeerIdV)
    requires
        forall|i: int, j: int| 0 <= i < j < cur.len() ==> cur[i] != cur[j],
    ensures
        count_peer(push_new_peers(push_new_peers(cur, seq![p]), seq![p]), p) == 1,
        push_new_peers(push_new_peers(cur, seq![p]), seq![p]) == push_new_peers(cur, seq![p]),
{
    reveal_with_fuel(push_new_peers, 3);
    let once = push_new_peers(cur, seq![p]);
    assert(seq![p].drop_first() =~= Seq::<PeerIdV>::empty());
    assert(seq![p][0] == p);
    if cur.contains(p) {
        assert(once == cur);
        lemma_unique_count(cur, p);
    } else {
        assert(once == cur.push(p));
        assert(once[once.len() - 1] == p);
        assert(once.contains(p));
        lemma_count_zero(cur, p);
        lemma_count_push(cur, p, p);
    }
    assert(once.contains(p));
    assert(push_new_peers(once, seq![p]) == once);
}

impl ShareDirectory {
    /// Append the listed peers to the membership, skipping those already
    /// present, and stamp the mutation time.
    pub fn add_peers(&mut self, new_peers: Vec<PeerId>, date_modified: i64)
        ensures
            final(self)@.signature.name == old(self)@.signature.name,
            final(self)@.signature.identifier == old(self)@.signature.identifier,
            final(self)@.signature.last_modified == date_modified,
            final(self)@.signature.shared_peers == push_new_peers(
                old(self)@.signature.shared_peers,
                new_peers.deep_view(),
            ),
            final(self)@.shared_files == old(self)@.shared_files,
            dir_wf(old(self)@) ==> dir_wf(final(self)@),
    {
        let ghost old_dir = self@;
        let ghost new_dv = new_peers.deep_view();
        self.signature.last_modified = date_modified;
        proof {
            assert(new_dv.skip(0) =~= new_dv);
        }
        let mut k: usize = 0;
        while k < new_peers.len()
            invariant
                k <= new_dv.len(),
                new_peers.deep_view() == new_dv,
                push_new_peers(old_dir.signature.shared_peers, new_dv) == push_new_peers(
                    self.signature.shared_peers.deep_view(),
                    new_dv.skip(k as int),
                ),
                self.signature.name@ == old_dir.signature.name,
                self.signature.identifier == old_dir.signature.identifier,
                self.signature.last_modified == date_modified,
                self.shared_files.deep_view() == old_dir.shared_files,
            decreases new_dv.len() - k,
        {
            let ghost cur = self.signature.shared_peers.deep_view();
            let ghost rest = new_dv.skip(k as int);
            proof {
                assert(rest.len() > 0);
                assert(rest[0] == new_dv[k as int]);
                assert(rest.drop_first() =~= new_dv.skip(k as int + 1));
            }
            if !contains_peer(&self.signature.shared_peers, &new_peers[k]) {
                let ghost prev = self.signature.shared_peers.deep_view();
                self.signature.shared_peers.push(new_peers[k].clone());
                proof {
                    assert(self.signature.shared_peers.deep_view() =~= prev.push(
                        new_dv[k as int],
                    ));
                }
            }
            k = k + 1;
        }
        proof {
            assert(new_dv.skip(new_dv.len() as int) =~= Seq::<PeerIdV>::empty());
            if dir_wf(old_dir) {
                lemma_push_new_peers_unique(old_dir.signature.shared_peers, new_dv);
            }
        }
    }
}

/// Why a batch of files was refused.
#[derive(Clone, Copy, Debug, PartialEq, Eq, Structural)]
pub enum AddFilesError {
    DuplicateId,
    DuplicateHash,
}

/// The signature after a mutation at time `t`: same directory, same
/// membership, new stamp.
pub open spec fn sig_restamped(a: ShareDirectorySignatureV, b: ShareDirectorySignatureV, t: i64) -> bool {
    b.name == a.name && b.identifier == a.identifier && b.shared_peers == a.shared_peers
        && b.last_modified == t
}

/// Every file of the batch has an owner.
pub open spec fn files_all_wf(fs: Seq<SharedFileV>) -> bool {
    forall|i: int| 0 <= i < fs.len() ==> file_wf(#[trigger] fs[i])
}

/// The outcome of adding a batch of files: the batch is walked in order,
/// and a member whose identifier or payload hash is already present
/// refuses the whole batch.
pub open spec fn add_files_result(cur: Seq<SharedFileV>, new: Seq<SharedFileV>) -> Result<
    Seq<SharedFileV>,
    AddFilesError,
>
    decreases new.len(),
{
    if new.len() == 0 {
        Ok(cur)
    } else if exists|j: int| 0 <= j < cur.len() && cur[j].identifier == new[0].identifier {
        Err(AddFilesError::DuplicateId)
    } else if exists|j: int| 0 <= j < cur.len() && cur[j].content_hash == new[0].content_hash {
        Err(AddFilesError::DuplicateHash)
    } else {
        add_files_result(cur.push(new[0]), new.drop_first())
    }
}

/// An accepted batch is appended, in order, after the existing entries.
pub proof fn lemma_add_files_ok_appends(cur: Seq<SharedFileV>, new: Seq<SharedFileV>)
    requires
        add_files_result(cur, new) is Ok,
    ensures
        add_files_result(cur, new) == Ok::<Seq<SharedFileV>, AddFilesError>(cur + new),
    decreases new.len(),
{
    if new.len() == 0 {
        assert(cur + new =~= cur);
    } else {
        lemma_add_files_ok_appends(cur.push(new[0]), new.drop_first());
        assert(cur.push(new[0]) + new.drop_first() =~= cur + new);
    }
}

/// Look up a file entry by its identifier.
pub fn find_file_index(files: &Vec<SharedFile>, id: u128) -> (r: Option<usize>)
    ensures
        match r {
            Some(i) => i < files.deep_view().len() && files.deep_view()[i as int].identifier
                == id,
            None => forall|j: int|
                0 <= j < files.deep_view().len() ==> (#[trigger] files.deep_view()[j]).identifier
                    != id,
        },
{
    let mut i: usize = 0;
    while i < files.len()
        invariant
            i <= files@.len(),
            forall|j: int|
                0 <= j < i ==> (#[trigger] files.deep_view()[j]).identifier != id,
        decreases files@.len() - i,
    {
        if files[i].identifier == id {
            assert(files.deep_view()[i as int].identifier == id);
            return Some(i);
        }
        i = i + 1;
    }
    None
}

/// Whether some entry already carries this payload hash.
pub fn has_file_with_hash(files: &Vec<SharedFile>, h: u64) -> (r: bool)
    ensures
        r == exists|j: int|
            0 <= j < files.deep_view().len() && (#[trigger] files.deep_view()[j]).content_hash
                == h,
{
    let mut i: usize = 0;
    while i < files.len()
        invariant
            i <= files@.len(),
            forall|j: int| 0 <= j < i ==> (#[trigger] files.deep_view()[j]).content_hash != h,
        decreases files@.len() - i,
    {
        if files[i].content_hash == h {
            assert(files.deep_view()[i as int].content_hash == h);
            return true;
        }
        i = i + 1;
    }
    false
}

impl ShareDirectory {
    /// Insert a batch of new file entries. The whole batch is refused, and
    /// the directory left unchanged, if any member repeats an identifier
    /// or a payload hash already present (or one earlier in the batch).
    pub fn add_files(&mut self, files: Vec<SharedFile>, date_modified: i64) -> (r: Result<
        (),
        AddFilesError,
    >)
        requires
            dir_wf(old(self)@),
            files_all_wf(files.deep_view()),
        ensures
            match add_files_result(old(self)@.shared_files, files.deep_view()) {
                Ok(fs) => r is Ok && final(self)@.shared_files == fs && sig_restamped(
                    old(self)@.signature,
                    final(self)@.signature,
                    date_modified,
                ),
                Err(e) => r == Err::<(), AddFilesError>(e) && final(self)@ == old(self)@,
            },
            dir_wf(final(self)@),
    {
        let ghost old_dir = self@;
        let ghost new_dv = files.deep_view();
        proof {
            assert(new_dv.skip(0) =~= new_dv);
            assert(old_dir.shared_files + new_dv.take(0) =~= old_dir.shared_files);
        }
        let old_len = self.shared_files.len();
        let mut k: usize = 0;
        while k < files.len()
            invariant
                k <= new_dv.len(),
                files.deep_view() == new_dv,
                files_all_wf(new_dv),
                dir_wf(old_dir),
                old_dir == old(self)@,
                old_len == old_dir.shared_files.len(),
                self.signature@ == old_dir.signature,
                self.shared_files.deep_view() == old_dir.shared_files + new_dv.take(k as int),
                add_files_result(old_dir.shared_files, new_dv) == add_files_result(
                    self.shared_files.deep_view(),
                    new_dv.skip(k as int),
                ),
                files_ids_unique(self.shared_files.deep_view()),
                files_all_wf(self.shared_files.deep_view()),
            decreases new_dv.len() - k,
        {
            let ghost cur = self.shared_files.deep_view();
            let ghost rest = new_dv.skip(k as int);
            proof {
                assert(rest.len() > 0);
                assert(rest[0] == new_dv[k as int]);
                assert(rest.drop_first() =~= new_dv.skip(k as int + 1));
            }
            let id = files[k].identifier;
            let h = files[k].content_hash;
            let dup_id = find_file_index(&self.shared_files, id);
            if dup_id.is_some() {
                proof {
                    let i = dup_id.unwrap() as int;
                    assert(cur[i].identifier == rest[0].identifier);
                    assert(add_files_result(cur, rest) == Err::<Seq<SharedFileV>, AddFilesError>(
                        AddFilesError::DuplicateId,
                    ));
                }
                proof {
                    assert(cur.len() == old_len + k);
                    assert(forall|j: int|
                        0 <= j < old_len ==> cur[j] == old_dir.shared_files[j]);
                }
                self.shared_files.truncate(old_len);
                proof {
                    assert(self.shared_files@.len() == old_len);
                    assert forall|j: int|
                        0 <= j < old_len implies self.shared_files.deep_view()[j] == old_dir.shared_files[j] by {
                        assert(self.shared_files@[j].deep_view() == cur[j]);
                    }
                    assert(self.shared_files.deep_view() =~= old_dir.shared_files);
                    assert(self@.shared_files == old_dir.shared_files);
                    assert(self@.signature == old_dir.signature);
                    assert(self@ == old_dir);
                    assert(old_dir == old(self)@);
                    assert(add_files_result(old(self)@.shared_files, files.deep_view()) == Err::<
                        Seq<SharedFileV>,
                        AddFilesError,
                    >(AddFilesError::DuplicateId));
                }
                return Err(AddFilesError::DuplicateId);
            }
            if has_file_with_hash(&self.shared_files, h) {
                proof {
                    assert(add_files_result(cur, rest) == Err::<Seq<SharedFileV>, AddFilesError>(
                        AddFilesError::DuplicateHash,
                    ));
                }
                proof {
                    assert(cur.len() == old_len + k);
                    assert(forall|j: int|
                        0 <= j < old_len ==> cur[j] == old_dir.shared_files[j]);
                }
                self.shared_files.truncate(old_len);
                proof {
                    assert(self.shared_files@.len() == old_len);
                    assert forall|j: int|
                        0 <= j < old_len implies self.shared_files.deep_view()[j] == old_dir.shared_files[j] by {
                        assert(self.shared_files@[j].deep_view() == cur[j]);
                    }
                    assert(self.shared_files.deep_view() =~= old_dir.shared_files);
                    assert(self@.shared_files == old_dir.shared_files);
                    assert(self@.signature == old_dir.signature);
                    assert(self@ == old_dir);
                    assert(old_dir == old(self)@);
                    assert(add_files_result(old(self)@.shared_files, files.deep_view()) == Err::<
                        Seq<SharedFileV>,
                        AddFilesError,
                    >(AddFilesError::DuplicateHash));
                }
                return Err(AddFilesError::DuplicateHash);
            }
            let ghost prev = self.shared_files.deep_view();
            self.shared_files.push(files[k].clone());
            proof {
                assert(self.shared_files.deep_view() =~= prev.push(new_dv[k as int]));
                assert(self.shared_files.deep_view() =~= old_dir.shared_files + new_dv.take(
                    k as int + 1,
                ));
                assert(add_files_result(cur, rest) == add_files_result(
                    cur.push(rest[0]),
                    rest.drop_first(),
                ));
            }
            k = k + 1;
        }
        proof {
            assert(new_dv.skip(new_dv.len() as int) =~= Seq::<SharedFileV>::empty());
            assert(add_files_result(old_dir.shared_files, new_dv) == Ok::<
                Seq<SharedFileV>,
                AddFilesError,
            >(self.shared_files.deep_view()));
        }
        self.signature.last_modified = date_modified;
        Ok(())
    }
}

/// Changing a file's owners when it carries the named identifier.
pub open spec fn drop_owner_if_id(p: PeerIdV, id: u128) -> spec_fn(SharedFileV) -> SharedFileV {
    |f: SharedFileV|
        if f.identifier == id {
            file_without_owner(f, p)
        } else {
            f
        }
}

/// The test that an entry survives the removal aimed at `id`.
pub open spec fn keep_after_remove(id: u128) -> spec_fn(SharedFileV) -> bool {
    |f: SharedFileV| f.identifier != id || f.owned_peers.len() > 0
}

/// One removal step: the peer leaves the owners of the named entry, and
/// the entry disappears when nobody owns it any more.
pub open spec fn remove_one_file(files: Seq<SharedFileV>, p: PeerIdV, id: u128) -> Seq<
    SharedFileV,
> {
    files.map_values(drop_owner_if_id(p, id)).filter(keep_after_remove(id))
}

/// The file entries after the peer gave up the named files, in order.
pub open spec fn remove_files_seq(files: Seq<SharedFileV>, p: PeerIdV, ids: Seq<u128>) -> Seq<
    SharedFileV,
>
    decreases ids.len(),
{
    if ids.len() == 0 {
        files
    } else {
        remove_files_seq(remove_one_file(files, p, ids[0]), p, ids.drop_first())
    }
}

pub proof fn lemma_filter_single<A>(x: A, pred: spec_fn(A) -> bool)
    ensures
        seq![x].filter(pred) == if pred(x) {
            seq![x]
        } else {
            Seq::<A>::empty()
        },
{
    reveal(Seq::filter);
    assert(seq![x].drop_last() =~= Seq::<A>::empty());
    assert(Seq::<A>::empty().filter(pred) =~= Seq::<A>::empty());
    assert(seq![x].last() == x);
    if pred(x) {
        assert(seq![x].filter(pred) =~= seq![x]);
    }
}

/// All entries pass the keep test when none carries the identifier.
proof fn lemma_remove_one_absent(files: Seq<SharedFileV>, p: PeerIdV, id: u128)
    requires
        forall|j: int| 0 <= j < files.len() ==> (#[trigger] files[j]).identifier != id,
    ensures
        remove_one_file(files, p, id) == files,
{
    let g = drop_owner_if_id(p, id);
    let keep = keep_after_remove(id);
    assert(files.map_values(g) =~= files);
    lemma_filter_all_true(files, keep);
}

/// One removal step at the unique entry carrying the identifier.
proof fn lemma_remove_one_found(files: Seq<SharedFileV>, p: PeerIdV, id: u128, i: int)
    requires
        files_ids_unique(files),
        0 <= i < files.len(),
        files[i].identifier == id,
    ensures
        without_peer(files[i].owned_peers, p).len() > 0 ==> remove_one_file(files, p, id)
            == files.update(i, file_without_owner(files[i], p)),
        without_peer(files[i].owned_peers, p).len() == 0 ==> remove_one_file(files, p, id)
            == files.remove(i),
{
    let g = drop_owner_if_id(p, id);
    let keep = keep_after_remove(id);
    let f2 = file_without_owner(files[i], p);
    let mapped = files.map_values(g);
    assert(mapped =~= files.update(i, f2));
    if without_peer(files[i].owned_peers, p).len() > 0 {
        assert forall|j: int| 0 <= j < mapped.len() implies keep(#[trigger] mapped[j]) by {
            if j != i {
                assert(files[j].identifier != id);
            }
        }
        lemma_filter_all_true(mapped, keep);
    } else {
        let a = mapped.take(i);
        let b = mapped.skip(i + 1);
        assert(mapped =~= a + (seq![f2] + b));
        Seq::filter_distributes_over_add(a, seq![f2] + b, keep);
        Seq::filter_distributes_over_add(seq![f2], b, keep);
        assert forall|j: int| 0 <= j < a.len() implies keep(#[trigger] a[j]) by {
            assert(a[j] == mapped[j]);
            assert(files[j].identifier != id);
        }
        lemma_filter_all_true(a, keep);
        assert forall|j: int| 0 <= j < b.len() implies keep(#[trigger] b[j]) by {
            assert(b[j] == mapped[j + i + 1]);
            assert(files[j + i + 1].identifier != id);
        }
        lemma_filter_all_true(b, keep);
        lemma_filter_single(f2, keep);
        assert(!keep(f2));
        assert(remove_one_file(files, p, id) == a + (Seq::<SharedFileV>::empty() + b));
        assert(a + (Seq::<SharedFileV>::empty() + b) =~= files.remove(i));
    }
}

impl ShareDirectory {
    /// The peer gives up the named files: it leaves their owner lists, and
    /// an entry left without owners disappears.
    pub fn remove_files(&mut self, peer_id: &PeerId, date_modified: i64, file_ids: Vec<u128>)
        requires
            dir_wf(old(self)@),
        ensures
            sig_restamped(old(self)@.signature, final(self)@.signature, date_modified),
            final(self)@.shared_files == remove_files_seq(
                old(self)@.shared_files,
                peer_id@,
                file_ids@,
            ),
            dir_wf(final(self)@),
    {
        let ghost old_dir = self@;
        let ghost ids = file_ids@;
        self.signature.last_modified = date_modified;
        proof {
            assert(ids.skip(0) =~= ids);
        }
        let mut k: usize = 0;
        while k < file_ids.len()
            invariant
                k <= ids.len(),
                file_ids@ == ids,
                self.signature@.name == old_dir.signature.name,
                self.signature@.identifier == old_dir.signature.identifier,
                self.signature@.last_modified == date_modified,
                self.signature@.shared_peers == old_dir.signature.shared_peers,
                sig_wf(self.signature@),
                old_dir == old(self)@,
                dir_wf(old_dir),
                remove_files_seq(old_dir.shared_files, peer_id@, ids) == remove_files_seq(
                    self.shared_files.deep_view(),
                    peer_id@,
                    ids.skip(k as int),
                ),
                files_ids_unique(self.shared_files.deep_view()),
                files_all_wf(self.shared_files.deep_view()),
            decreases ids.len() - k,
        {
            let ghost cur = self.shared_files.deep_view();
            let ghost rest = ids.skip(k as int);
            proof {
                assert(rest.len() > 0);
                assert(rest[0] == ids[k as int]);
                assert(rest.drop_first() =~= ids.skip(k as int + 1));
            }
            let id = file_ids[k];
            match find_file_index(&self.shared_files, id) {
                None => {
                    proof {
                        lemma_remove_one_absent(cur, peer_id@, id);
                    }
                },
                Some(i) => {
                    proof {
                        assert forall|j: int|
                            0 <= j < cur.len() && j != i implies (#[trigger] cur[j]).identifier
                            != id by {
                            if j < i {
                                assert(cur[j].identifier != cur[i as int].identifier);
                            }
                        }
                        lemma_remove_one_found(cur, peer_id@, id, i as int);
                    }
                    let f = self.shared_files.remove(i);
                    let new_owners = filter_out_peer(&f.owned_peers, peer_id);
                    if new_owners.len() > 0 {
                        let g2 = SharedFile {
                            name: f.name,
                            identifier: f.identifier,
                            content_hash: f.content_hash,
                            last_modified: f.last_modified,
                            content_location: f.content_location,
                            owned_peers: new_owners,
                            size: f.size,
                        };
                        proof {
                            assert(g2@ == file_without_owner(cur[i as int], peer_id@));
                        }
                        self.shared_files.insert(i, g2);
                        proof {
                            assert(self.shared_files.deep_view() =~= cur.update(
                                i as int,
                                file_without_owner(cur[i as int], peer_id@),
                            ));
                        }
                    } else {
                        proof {
                            assert(self.shared_files.deep_view() =~= cur.remove(i as int));
                        }
                    }
                    proof {
                        assert forall|a: int, b: int|
                            0 <= a < b < self.shared_files.deep_view().len() implies (
                        #[trigger] self.shared_files.deep_view()[a]).identifier != (
                        #[trigger] self.shared_files.deep_view()[b]).identifier by {
                            let dv = self.shared_files.deep_view();
                            if new_owners.deep_view().len() > 0 {
                                assert(dv =~= cur.update(
                                    i as int,
                                    file_without_owner(cur[i as int], peer_id@),
                                ));
                            }
                        }
                    }
                },
            }
            k = k + 1;
        }
        proof {
            assert(ids.skip(ids.len() as int) =~= Seq::<u128>::empty());
        }
    }
}

/// One ownership grant: where the named entry exists and the peer is not
/// yet an owner, it is appended, and a pending local path (handed along
/// until first used) becomes the entry's content location.
pub open spec fn add_owner_one(
    files: Seq<SharedFileV>,
    owner: PeerIdV,
    id: u128,
    loc: Option<Seq<char>>,
) -> (Seq<SharedFileV>, Option<Seq<char>>) {
    if exists|i: int| 0 <= i < files.len() && files[i].identifier == id {
        let i = choose|i: int| 0 <= i < files.len() && files[i].identifier == id;
        if files[i].owned_peers.contains(owner) {
            (files, loc)
        } else {
            (files.update(i, file_with_owner(files[i], owner, loc)), None)
        }
    } else {
        (files, loc)
    }
}

/// The entry with a fresh owner appended and a possible new local path.
pub open spec fn file_with_owner(f: SharedFileV, owner: PeerIdV, loc: Option<Seq<char>>) -> SharedFileV {
    SharedFileV {
        name: f.name,
        identifier: f.identifier,
        content_hash: f.content_hash,
        last_modified: f.last_modified,
        content_location: match loc {
            Some(l) => ContentLocationV::LocalPath(l),
            None => f.content_location,
        },
        owned_peers: f.owned_peers.push(owner),
        size: f.size,
    }
}

/// The entries after granting ownership for each listed file in order.
pub open spec fn add_owner_seq(
    files: Seq<SharedFileV>,
    owner: PeerIdV,
    ids: Seq<u128>,
    loc: Option<Seq<char>>,
) -> Seq<SharedFileV>
    decreases ids.len(),
{
    if ids.len() == 0 {
        files
    } else {
        add_owner_seq(
            add_owner_one(files, owner, ids[0], loc).0,
            owner,
            ids.drop_first(),
            add_owner_one(files, owner, ids[0], loc).1,
        )
    }
}

impl ShareDirectory {
    /// Record a new owner for each listed file; the optional local path
    /// marks where the first such file now lies on this host.
    pub fn add_owner(
        &mut self,
        new_owner: &PeerId,
        date_modified: i64,
        file_ids: Vec<u128>,
        location: Option<String>,
    )
        requires
            dir_wf(old(self)@),
        ensures
            sig_restamped(old(self)@.signature, final(self)@.signature, date_modified),
            final(self)@.shared_files == add_owner_seq(
                old(self)@.shared_files,
                new_owner@,
                file_ids@,
                location.deep_view(),
            ),
            dir_wf(final(self)@),
    {
        let ghost old_dir = self@;
        let ghost ids = file_ids@;
        let ghost loc0 = location.deep_view();
        self.signature.last_modified = date_modified;
        proof {
            assert(ids.skip(0) =~= ids);
        }
        let mut loc = location;
        let mut k: usize = 0;
        while k < file_ids.len()
            invariant
                k <= ids.len(),
                file_ids@ == ids,
                self.signature@.name == old_dir.signature.name,
                self.signature@.identifier == old_dir.signature.identifier,
                self.signature@.last_modified == date_modified,
                self.signature@.shared_peers == old_dir.signature.shared_peers,
                sig_wf(self.signature@),
                old_dir == old(self)@,
                dir_wf(old_dir),
                add_owner_seq(old_dir.shared_files, new_owner@, ids, loc0) == add_owner_seq(
                    self.shared_files.deep_view(),
                    new_owner@,
                    ids.skip(k as int),
                    loc.deep_view(),
                ),
                files_ids_unique(self.shared_files.deep_view()),
                files_all_wf(self.shared_files.deep_view()),
            decreases ids.len() - k,
        {
            let ghost cur = self.shared_files.deep_view();
            let ghost rest = ids.skip(k as int);
            let ghost lv = loc.deep_view();
            proof {
                assert(rest.len() > 0);
                assert(rest[0] == ids[k as int]);
                assert(rest.drop_first() =~= ids.skip(k as int + 1));
            }
            let id = file_ids[k];
            match find_file_index(&self.shared_files, id) {
                None => {
                    proof {
                        assert(!exists|i: int| 0 <= i < cur.len() && cur[i].identifier == id);
                        assert(add_owner_one(cur, new_owner@, id, lv) == (cur, lv));
                    }
                },
                Some(i) => {
                    proof {
                        assert(exists|j: int| 0 <= j < cur.len() && cur[j].identifier == id);
                        let w = choose|j: int| 0 <= j < cur.len() && cur[j].identifier == id;
                        if w != i {
                            if w < i {
                                assert(cur[w].identifier != cur[i as int].identifier);
                            } else {
                                assert(cur[i as int].identifier != cur[w].identifier);
                            }
                        }
                        assert(w == i);
                    }
                    if contains_peer(&self.shared_files[i].owned_peers, new_owner) {
                        proof {
                            assert(cur[i as int].owned_peers.contains(new_owner@));
                            assert(add_owner_one(cur, new_owner@, id, lv) == (cur, lv));
                        }
                    } else {
                        let mut f = self.shared_files.remove(i);
                        f.owned_peers.push(new_owner.clone());
                        let l_opt = loc;
                        loc = None;
                        match l_opt {
                            Some(l) => {
                                f.content_location = ContentLocation::LocalPath(l);
                            },
                            None => {},
                        }
                        proof {
                            assert(f@.owned_peers =~= cur[i as int].owned_peers.push(new_owner@));
                            assert(f@ == file_with_owner(cur[i as int], new_owner@, lv));
                        }
                        self.shared_files.insert(i, f);
                        proof {
                            assert(self.shared_files.deep_view() =~= cur.update(
                                i as int,
                                file_with_owner(cur[i as int], new_owner@, lv),
                            ));
                            assert(add_owner_one(cur, new_owner@, id, lv) == (
                                cur.update(i as int, file_with_owner(cur[i as int], new_owner@, lv)),
                                None::<Seq<char>>,
                            ));
                            assert(loc.deep_view() is None);
                            assert forall|a: int, b: int|
                                0 <= a < b < self.shared_files.deep_view().len() implies (
                            #[trigger] self.shared_files.deep_view()[a]).identifier != (
                            #[trigger] self.shared_files.deep_view()[b]).identifier by {
                                assert(self.shared_files.deep_view() =~= cur.update(
                                    i as int,
                                    file_with_owner(cur[i as int], new_owner@, lv),
                                ));
                            }
                        }
                    }
                },
            }
            k = k + 1;
        }
        proof {
            assert(ids.skip(ids.len() as int) =~= Seq::<u128>::empty());
        }
    }
}

/// A file added by this peer alone and then removed by it leaves the
/// directory's entries exactly as they were.
pub proof fn lemma_add_remove_roundtrip(files: Seq<SharedFileV>, f: SharedFileV, me: PeerIdV)
    requires
        files_ids_unique(files),
        f.owned_peers == seq![me],
        forall|j: int| 0 <= j < files.len() ==> (#[trigger] files[j]).identifier != f.identifier,
        forall|j: int| 0 <= j < files.len() ==> (#[trigger] files[j]).content_hash
            != f.content_hash,
    ensures
        add_files_result(files, seq![f]) == Ok::<Seq<SharedFileV>, AddFilesError>(files.push(f)),
        remove_files_seq(files.push(f), me, seq![f.identifier]) == files,
{
    reveal_with_fuel(add_files_result, 3);
    assert(seq![f].drop_first() =~= Seq::<SharedFileV>::empty());
    assert(seq![f][0] == f);
    assert(add_files_result(files.push(f), Seq::<SharedFileV>::empty()) == Ok::<
        Seq<SharedFileV>,
        AddFilesError,
    >(files.push(f)));
    reveal_with_fuel(remove_files_seq, 3);
    assert(seq![f.identifier].drop_first() =~= Seq::<u128>::empty());
    let fp = files.push(f);
    let id = f.identifier;
    assert(fp[fp.len() - 1].identifier == id);
    assert forall|a: int, b: int| 0 <= a < b < fp.len() implies (#[trigger] fp[a]).identifier != (
    #[trigger] fp[b]).identifier by {
        if b < fp.len() - 1 {
            assert(files[a].identifier != files[b].identifier);
        } else {
            assert(fp[b] == f);
        }
    }
    lemma_remove_one_found(fp, me, id, fp.len() - 1);
    reveal(Seq::filter);
    assert(seq![me].drop_last() =~= Seq::<PeerIdV>::empty());
    assert(Seq::<PeerIdV>::empty().filter(peer_neq(me)) =~= Seq::<PeerIdV>::empty());
    assert(seq![me].last() == me);
    assert(!peer_neq(me)(me));
    assert(without_peer(seq![me], me).len() == 0);
    assert(without_peer(f.owned_peers, me).len() == 0);
    assert(remove_one_file(fp, me, id) == fp.remove(fp.len() - 1));
    assert(fp.remove(fp.len() - 1) =~= files);
    assert(remove_files_seq(remove_one_file(fp, me, id), me, Seq::<u128>::empty()) == files);
}

/// Whether a peer list reads as a set.
pub fn peers_unique_check(v: &Vec<PeerId>) -> (r: bool)
    ensures
        r == forall|i: int, j: int|
            0 <= i < j < v.deep_view().len() ==> v.deep_view()[i] != v.deep_view()[j],
{
    let mut i: usize = 0;
    while i < v.len()
        invariant
            i <= v@.len(),
            forall|a: int, b: int| 0 <= a < b < i ==> v.deep_view()[a] != v.deep_view()[b],
        decreases v@.len() - i,
    {
        let mut j: usize = 0;
        while j < i
            invariant
                j <= i,
                i < v@.len(),
                forall|a: int| 0 <= a < j ==> v.deep_view()[a] != v.deep_view()[i as int],
            decreases i - j,
        {
            if v[j].eq_peer(&v[i]) {
                assert(v.deep_view()[j as int] == v.deep_view()[i as int]);
                return false;
            }
            j = j + 1;
        }
        i = i + 1;
    }
    true
}

/// Whether a directory satisfies its invariant; directory values arriving
/// from outside are only adopted when this holds.
pub fn dir_wf_check(d: &ShareDirectory) -> (r: bool)
    ensures
        r == dir_wf(d@),
{
    if !peers_unique_check(&d.signature.shared_peers) {
        proof {
            if dir_wf(d@) {
                let dv = d.signature.shared_peers.deep_view();
                assert forall|i: int, j: int| 0 <= i < j < dv.len() implies dv[i] != dv[j] by {
                    assert(d@.signature.shared_peers[i] != d@.signature.shared_peers[j]);
                }
            }
        }
        return false;
    }
    let mut i: usize = 0;
    while i < d.shared_files.len()
        invariant
            i <= d.shared_files@.len(),
            sig_wf(d@.signature),
            forall|a: int, b: int|
                0 <= a < b < i ==> (#[trigger] d.shared_files.deep_view()[a]).identifier != (
                #[trigger] d.shared_files.deep_view()[b]).identifier,
            forall|a: int| 0 <= a < i ==> file_wf(#[trigger] d.shared_files.deep_view()[a]),
        decreases d.shared_files@.len() - i,
    {
        if d.shared_files[i].owned_peers.len() == 0 {
            assert(!file_wf(d.shared_files.deep_view()[i as int]));
            return false;
        }
        assert(file_wf(d.shared_files.deep_view()[i as int]));
        let mut j: usize = 0;
        while j < i
            invariant
                j <= i,
                i < d.shared_files@.len(),
                forall|a: int|
                    0 <= a < j ==> (#[trigger] d.shared_files.deep_view()[a]).identifier
                        != d.shared_files.deep_view()[i as int].identifier,
            decreases i - j,
        {
            if d.shared_files[j].identifier == d.shared_files[i].identifier {
                assert(d.shared_files.deep_view()[j as int].identifier
                    == d.shared_files.deep_view()[i as int].identifier);
                return false;
            }
            j = j + 1;
        }
        i = i + 1;
    }
    true
}

/// The checksum of a payload, named after the outside routine computing it.
pub uninterp spec fn crc64_of(data: Seq<u8>) -> u64;

/// Relies on `cryptohelpers::crc::compute_slice`: the CRC-64 checksum of
/// the bytes, a function of the data alone.
#[verifier::external_body]
fn crc64(data: &Vec<u8>) -> (r: u64)
    ensures
        r == crc64_of(data@),
{
    cryptohelpers::crc::compute_slice(data.as_slice())
}

/// Build the entry for a local file this peer is about to share: the
/// payload's checksum, its size, and this peer as the sole owner.
pub fn create_shared_file(
    name: String,
    identifier: u128,
    now: i64,
    this_peer: &PeerId,
    path: String,
    data: &Vec<u8>,
) -> (r: SharedFile)
    ensures
        r@.name == name@,
        r@.identifier == identifier,
        r@.content_hash == crc64_of(data@),
        r@.last_modified == now,
        r@.content_location == ContentLocationV::LocalPath(path@),
        r@.owned_peers =~= seq![this_peer@],
        r@.size == data@.len(),
        file_wf(r@),
{
    let mut owners: Vec<PeerId> = Vec::new();
    owners.push(this_peer.clone());
    let size = data.len() as u64;
    let hash = crc64(data);
    SharedFile {
        name,
        identifier,
        content_hash: hash,
        last_modified: now,
        content_location: ContentLocation::LocalPath(path),
        owned_peers: owners,
        size,
    }
}

} // verus!

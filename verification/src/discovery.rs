//! The discovery adapter's decisions: which resolved services are worth
//! reporting, how connection bookkeeping evolves, and when a disconnected
//! service is due for a reconnect attempt. The runtime owns the service
//! daemon; it performs the effects listed here and feeds events back.

use vstd::prelude::*;

verus! {

/// A service is retried this long after it disconnected, in milliseconds.
pub const RECONNECT_MILLIS: i64 = 15000;

/// One known service and whether its peer is currently connected; `since`
/// is the time it disconnected, where it is not.
pub struct ServiceEntry {
    pub fullname: String,
    pub connected: bool,
    pub since: i64,
}

/// The adapter's state: this host's own registration and every service
/// seen so far.
pub struct DiscoveryState {
    pub my_hostname: Option<String>,
    pub registered: Option<String>,
    pub services: Vec<ServiceEntry>,
}

/// One event the adapter reacts to: a resolution from the network, a
/// bookkeeping message from the supervisor, or the periodic tick.
pub enum MdnsEvent {
    ServiceResolved { fullname: String, hostname: String },
    RemoveService { fullname: String, now: i64 },
    ConnectedService { fullname: String },
    SwitchedNetwork { fullname: String, hostname: String },
    Tick { now: i64 },
}

/// What the runtime must do: report a service to the supervisor, or take
/// a stale registration down.
pub enum DiscoveryEffect {
    /// Tell the supervisor this service is worth connecting to.
    EmitFound(String),
    /// Unregister this host's previous advertisement.
    Unregister(String),
}

/// Whether some entry carries this service name.
pub open spec fn has_svc(s: Seq<ServiceEntry>, name: Seq<char>) -> bool {
    exists|i: int| 0 <= i < s.len() && s[i].fullname@ == name
}

/// The position of the entry with this service name.
pub open spec fn svc_idx(s: Seq<ServiceEntry>, name: Seq<char>) -> int {
    choose|i: int| 0 <= i < s.len() && s[i].fullname@ == name
}

/// The adapter's invariant: service names key the table.
pub open spec fn discovery_wf(s: DiscoveryState) -> bool {
    forall|i: int, j: int|
        0 <= i < j < s.services@.len() ==> s.services@[i].fullname@ != s.services@[j].fullname@
}

/// A disconnected service whose retry delay has passed.
pub open spec fn due_fn(now: i64) -> spec_fn(ServiceEntry) -> bool {
    |e: ServiceEntry| !e.connected && now - e.since >= RECONNECT_MILLIS
}

impl DiscoveryState {
    /// A fresh adapter: nothing registered, nothing seen.
    pub fn new() -> (r: DiscoveryState)
        ensures
            r.my_hostname is None,
            r.registered is None,
            r.services@.len() == 0,
            discovery_wf(r),
    {
        DiscoveryState { my_hostname: None, registered: None, services: Vec::new() }
    }
}

proof fn lemma_svc_idx_unique(s: Seq<ServiceEntry>, name: Seq<char>, i: int)
    requires
        forall|a: int, b: int| 0 <= a < b < s.len() ==> s[a].fullname@ != s[b].fullname@,
        0 <= i < s.len(),
        s[i].fullname@ == name,
    ensures
        svc_idx(s, name) == i,
        has_svc(s, name),
{
    assert(has_svc(s, name));
    let w = svc_idx(s, name);
    if w != i {
        if w < i {
            assert(s[w].fullname@ != s[i].fullname@);
        } else {
            assert(s[i].fullname@ != s[w].fullname@);
        }
    }
}

/// Look an entry up by its service name.
fn find_service(v: &Vec<ServiceEntry>, name: &String) -> (r: Option<usize>)
    ensures
        match r {
            Some(i) => i < v@.len() && v@[i as int].fullname@ == name@,
            None => forall|j: int| 0 <= j < v@.len() ==> (#[trigger] v@[j]).fullname@ != name@,
        },
{
    let mut i: usize = 0;
    while i < v.len()
        invariant
            i <= v@.len(),
            forall|j: int| 0 <= j < i ==> (#[trigger] v@[j]).fullname@ != name@,
        decreases v@.len() - i,
    {
        if v[i].fullname == *name {
            return Some(i);
        }
        i = i + 1;
    }
    None
}

/// Decide what one event means for the adapter: a newly resolved foreign
/// service is reported once, bookkeeping marks services connected or
/// disconnected, a network switch replaces the registration, and each tick
/// re-reports every service that has been disconnected long enough.
#[verifier::rlimit(60)]
pub fn handle_mdns_event(state: &mut DiscoveryState, event: MdnsEvent) -> (effects: Vec<
    DiscoveryEffect,
>)
    requires
        discovery_wf(*old(state)),
    ensures
        discovery_wf(*final(state)),
        ({
            let st0 = *old(state);
            let st1 = *final(state);
            let e = effects@;
            &&& (event matches MdnsEvent::ServiceResolved { fullname, hostname } ==> st1 == st0
                && (if (st0.my_hostname matches Some(h) && h@ == hostname@) || has_svc(
                    st0.services@,
                    fullname@,
                ) {
                    e.len() == 0
                } else {
                    e.len() == 1 && (e[0] matches DiscoveryEffect::EmitFound(n) && n@
                        == fullname@)
                }))
            &&& (event matches MdnsEvent::RemoveService { fullname, now } ==> e.len() == 0
                && st1.my_hostname == st0.my_hostname && st1.registered == st0.registered && (
            if has_svc(st0.services@, fullname@) {
                let i = svc_idx(st0.services@, fullname@);
                st1.services@.len() == st0.services@.len() && (st1.services@[i].fullname@
                    == fullname@ && !st1.services@[i].connected && st1.services@[i].since == now)
                    && (forall|j: int|
                    0 <= j < st0.services@.len() && j != i ==> st1.services@[j]
                        == st0.services@[j])
            } else {
                st1.services@ == st0.services@
            }))
            &&& (event matches MdnsEvent::ConnectedService { fullname } ==> e.len() == 0
                && st1.my_hostname == st0.my_hostname && st1.registered == st0.registered && (
            if has_svc(st0.services@, fullname@) {
                let i = svc_idx(st0.services@, fullname@);
                st1.services@.len() == st0.services@.len() && (st1.services@[i].fullname@
                    == fullname@ && st1.services@[i].connected) && (forall|j: int|
                    0 <= j < st0.services@.len() && j != i ==> st1.services@[j]
                        == st0.services@[j])
            } else {
                st1.services@.len() == st0.services@.len() + 1 && (st1.services@[
                st1.services@.len() - 1].fullname@ == fullname@ && st1.services@[
                st1.services@.len() - 1].connected) && (forall|j: int|
                    0 <= j < st0.services@.len() ==> st1.services@[j] == st0.services@[j])
            }))
            &&& (event matches MdnsEvent::SwitchedNetwork { fullname, hostname } ==> st1.services@
                == st0.services@ && (st1.my_hostname matches Some(h) && h@ == hostname@) && (
            st1.registered matches Some(n) && n@ == fullname@) && (match st0.registered {
                Some(prev) => e.len() == 1 && (e[0] matches DiscoveryEffect::Unregister(p) && p@
                    == prev@),
                None => e.len() == 0,
            }))
            &&& (event matches MdnsEvent::Tick { now } ==> st1 == st0 && ({
                let stale = st0.services@.filter(due_fn(now));
                e.len() == stale.len() && forall|k: int|
                    0 <= k < stale.len() ==> (#[trigger] e[k] matches DiscoveryEffect::EmitFound(
                        n,
                    ) && n@ == stale[k].fullname@)
            }))
        }),
{
    let mut effects: Vec<DiscoveryEffect> = Vec::new();
    match event {
        MdnsEvent::ServiceResolved { fullname, hostname } => {
            let mine = match &state.my_hostname {
                Some(h) => *h == hostname,
                None => false,
            };
            if !mine {
                match find_service(&state.services, &fullname) {
                    Some(i) => {
                        proof {
                            lemma_svc_idx_unique(state.services@, fullname@, i as int);
                        }
                    },
                    None => {
                        proof {
                            if has_svc(state.services@, fullname@) {
                                let w = svc_idx(state.services@, fullname@);
                                assert(state.services@[w].fullname@ != fullname@);
                            }
                        }
                        effects.push(DiscoveryEffect::EmitFound(fullname));
                    },
                }
            }
        },
        MdnsEvent::RemoveService { fullname, now } => {
            match find_service(&state.services, &fullname) {
                None => {
                    proof {
                        if has_svc(state.services@, fullname@) {
                            let w = svc_idx(state.services@, fullname@);
                            assert(state.services@[w].fullname@ != fullname@);
                        }
                    }
                },
                Some(i) => {
                    proof {
                        lemma_svc_idx_unique(old(state).services@, fullname@, i as int);
                    }
                    let _ = state.services.remove(i);
                    state.services.insert(
                        i,
                        ServiceEntry { fullname, connected: false, since: now },
                    );
                    proof {
                        assert(state.services@ =~= old(state).services@.update(
                            i as int,
                            state.services@[i as int],
                        ));
                    }
                },
            }
        },
        MdnsEvent::ConnectedService { fullname } => {
            match find_service(&state.services, &fullname) {
                None => {
                    proof {
                        if has_svc(state.services@, fullname@) {
                            let w = svc_idx(state.services@, fullname@);
                            assert(state.services@[w].fullname@ != fullname@);
                        }
                    }
                    let ghost pre = state.services@;
                    state.services.push(ServiceEntry { fullname, connected: true, since: 0 });
                    proof {
                        assert forall|a: int, b: int|
                            0 <= a < b < state.services@.len() implies state.services@[
                        a].fullname@ != state.services@[b].fullname@ by {
                            if b == state.services@.len() - 1 {
                                assert(pre[a].fullname@ != state.services@[b].fullname@);
                            }
                        }
                    }
                },
                Some(i) => {
                    proof {
                        lemma_svc_idx_unique(old(state).services@, fullname@, i as int);
                    }
                    let entry = state.services.remove(i);
                    state.services.insert(
                        i,
                        ServiceEntry {
                            fullname: entry.fullname,
                            connected: true,
                            since: entry.since,
                        },
                    );
                    proof {
                        assert(state.services@ =~= old(state).services@.update(
                            i as int,
                            state.services@[i as int],
                        ));
                    }
                },
            }
        },
        MdnsEvent::SwitchedNetwork { fullname, hostname } => {
            let mut prev: Option<String> = None;
            std::mem::swap(&mut prev, &mut state.registered);
            match prev {
                Some(p) => {
                    effects.push(DiscoveryEffect::Unregister(p));
                },
                None => {},
            }
            state.registered = Some(fullname);
            state.my_hostname = Some(hostname);
        },
        MdnsEvent::Tick { now } => {
            let ghost entries = state.services@;
            let mut k: usize = 0;
            while k < state.services.len()
                invariant
                    k <= entries.len(),
                    state.services@ == entries,
                    effects@.len() == entries.take(k as int).filter(due_fn(now)).len(),
                    forall|j: int|
                        0 <= j < effects@.len() ==> (#[trigger] effects@[j]
                            matches DiscoveryEffect::EmitFound(n) && n@ == entries.take(
                            k as int,
                        ).filter(due_fn(now))[j].fullname@),
                decreases entries.len() - k,
            {
                proof {
                    crate::data::lemma_filter_take_step(entries, due_fn(now), k as int);
                }
                let e = &state.services[k];
                let stale = !e.connected && (now as i128) - (e.since as i128)
                    >= RECONNECT_MILLIS as i128;
                proof {
                    assert(stale == due_fn(now)(entries[k as int]));
                }
                if stale {
                    effects.push(DiscoveryEffect::EmitFound(e.fullname.clone()));
                }
                k = k + 1;
            }
            proof {
                assert(entries.take(entries.len() as int) =~= entries);
            }
        },
    }
    effects
}

} // verus!

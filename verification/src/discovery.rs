//! Worker discovery: the roster the orchestrator collects from announcements,
//! and the window during which it listens.

use vstd::prelude::*;
use crate::error::FabricError;
use crate::messages::{Endpoint, ServerDiscoveryMessage, ServerType};

verus! {

/// The listening window closes once this many milliseconds passed without a datagram.
pub const DISCOVERY_QUIET_MS: u64 = 5000;

/// The listening window closes at the latest this many milliseconds after it opened.
pub const DISCOVERY_CAP_MS: u64 = 10000;

/// Whether the listening window is closed, `since_open` milliseconds after
/// it opened and `since_last` milliseconds after the last datagram (or after
/// it opened, if none came).
pub open spec fn spec_window_closed(since_open: u64, since_last: u64) -> bool {
    since_last >= DISCOVERY_QUIET_MS || since_open >= DISCOVERY_CAP_MS
}

/// How long the orchestrator may still wait for a datagram: the shorter of
/// what is left of the quiet period and what is left up to the cap, and
/// nothing once the window is closed.
pub open spec fn spec_window_wait(since_open: u64, since_last: u64) -> int {
    if spec_window_closed(since_open, since_last) {
        0
    } else if DISCOVERY_QUIET_MS - since_last <= DISCOVERY_CAP_MS - since_open {
        DISCOVERY_QUIET_MS - since_last
    } else {
        DISCOVERY_CAP_MS - since_open
    }
}

/// Tells whether the listening window is closed.
pub fn window_closed(since_open: u64, since_last: u64) -> (b: bool)
    ensures
        b == spec_window_closed(since_open, since_last),
{
    since_last >= DISCOVERY_QUIET_MS || since_open >= DISCOVERY_CAP_MS
}

/// Milliseconds the orchestrator may still wait for the next datagram. Zero
/// exactly when the window is closed.
pub fn window_wait(since_open: u64, since_last: u64) -> (ms: u64)
    ensures
        ms == spec_window_wait(since_open, since_last),
        ms == 0 <==> spec_window_closed(since_open, since_last),
        ms <= DISCOVERY_QUIET_MS,
{
    if since_last >= DISCOVERY_QUIET_MS || since_open >= DISCOVERY_CAP_MS {
        0
    } else {
        let quiet: u64 = DISCOVERY_QUIET_MS - since_last;
        let cap: u64 = DISCOVERY_CAP_MS - since_open;
        if quiet <= cap {
            quiet
        } else {
            cap
        }
    }
}

/// The roster as a value: the endpoints of each role in the order they were
/// first heard, and whether the roster is frozen.
pub ghost struct Roster {
    pub rays: Seq<Endpoint>,
    pub objects: Seq<Endpoint>,
    pub frozen: bool,
}

impl Roster {
    /// The empty roster, open for announcements.
    pub open spec fn empty() -> Roster {
        Roster { rays: Seq::empty(), objects: Seq::empty(), frozen: false }
    }

    /// The endpoints of one role.
    pub open spec fn of(self, role: ServerType) -> Seq<Endpoint> {
        match role {
            ServerType::Ray => self.rays,
            ServerType::Object => self.objects,
        }
    }

    /// Whether `msg` adds a worker: the roster is open and has not heard this
    /// endpoint in this role.
    pub open spec fn is_new(self, msg: ServerDiscoveryMessage) -> bool {
        !self.frozen && !self.of(msg.server_type).contains(msg.socket_addr)
    }

    /// The roster after announcement `msg`: a new worker goes to the end of
    /// its role's list, anything else changes nothing.
    pub open spec fn observe(self, msg: ServerDiscoveryMessage) -> Roster {
        if self.is_new(msg) {
            match msg.server_type {
                ServerType::Ray => Roster { rays: self.rays.push(msg.socket_addr), ..self },
                ServerType::Object => Roster {
                    objects: self.objects.push(msg.socket_addr),
                    ..self
                },
            }
        } else {
            self
        }
    }

    /// The roster after all of `msgs`, in order.
    pub open spec fn observe_all(self, msgs: Seq<ServerDiscoveryMessage>) -> Roster
        decreases msgs.len(),
    {
        if msgs.len() == 0 {
            self
        } else {
            self.observe_all(msgs.drop_last()).observe(msgs.last())
        }
    }

    /// No endpoint is listed twice in a role.
    pub open spec fn distinct(self) -> bool {
        self.rays.no_duplicates() && self.objects.no_duplicates()
    }

    /// Whether the roster has a worker of each role.
    pub open spec fn staffed(self) -> bool {
        self.rays.len() > 0 && self.objects.len() > 0
    }
}

/// An announcement never makes a roster list an endpoint twice.
pub proof fn observe_keeps_distinct(r: Roster, msg: ServerDiscoveryMessage)
    requires
        r.distinct(),
    ensures
        r.observe(msg).distinct(),
{
    if r.is_new(msg) {
        let list = r.of(msg.server_type);
        let after = list.push(msg.socket_addr);
        assert forall|i: int, j: int| 0 <= i < after.len() && 0 <= j < after.len() && i
            != j implies after[i] != after[j] by {
            if i < list.len() && j < list.len() {
                assert(list[i] != list[j]);
            } else if i < list.len() {
                assert(list.contains(list[i]));
            } else {
                assert(list.contains(list[j]));
            }
        }
        assert(after.no_duplicates());
    }
}

/// However announcements arrive, and however often a worker repeats its own,
/// an open roster that started empty lists an endpoint under a role exactly
/// when that worker announced itself, and lists it once.
pub proof fn roster_lists_each_worker_once(msgs: Seq<ServerDiscoveryMessage>)
    ensures
        Roster::empty().observe_all(msgs).distinct(),
        !Roster::empty().observe_all(msgs).frozen,
        forall|role: ServerType, addr: Endpoint|
            #[trigger] Roster::empty().observe_all(msgs).of(role).contains(addr) <==> msgs.contains(
                ServerDiscoveryMessage { server_type: role, socket_addr: addr },
            ),
    decreases msgs.len(),
{
    let end = Roster::empty().observe_all(msgs);
    if msgs.len() == 0 {
        assert forall|role: ServerType, addr: Endpoint| !(#[trigger] end.of(role).contains(addr)) by {
            assert(end.of(role) =~= Seq::<Endpoint>::empty());
        }
    } else {
        let before = Roster::empty().observe_all(msgs.drop_last());
        let last = msgs.last();
        roster_lists_each_worker_once(msgs.drop_last());
        observe_keeps_distinct(before, last);
        assert forall|role: ServerType, addr: Endpoint| #[trigger] end.of(role).contains(addr)
            <==> msgs.contains(ServerDiscoveryMessage { server_type: role, socket_addr: addr }) by {
            let m = ServerDiscoveryMessage { server_type: role, socket_addr: addr };
            let old_list = before.of(role);
            let new_list = end.of(role);
            if new_list.contains(addr) {
                let i = choose|i: int| 0 <= i < new_list.len() && new_list[i] == addr;
                if i < old_list.len() {
                    assert(old_list[i] == addr);
                    assert(old_list.contains(addr));
                    let k = choose|k: int| 0 <= k < msgs.drop_last().len() && msgs.drop_last()[k] == m;
                    assert(msgs[k] == m);
                } else {
                    assert(last == m);
                    assert(msgs[msgs.len() - 1] == m);
                }
            }
            if msgs.contains(m) {
                let k = choose|k: int| 0 <= k < msgs.len() && msgs[k] == m;
                if k < msgs.len() - 1 {
                    assert(msgs.drop_last()[k] == m);
                    assert(msgs.drop_last().contains(m));
                    assert(before.of(role).contains(addr));
                    let i = choose|i: int| 0 <= i < old_list.len() && old_list[i] == addr;
                    assert(new_list[i] == addr);
                } else {
                    if before.is_new(last) {
                        assert(new_list[new_list.len() - 1] == addr);
                    } else {
                        assert(old_list.contains(addr));
                    }
                }
            }
        }
    }
}

/// The orchestrator's roster of discovered workers.
pub struct ServerDirectory {
    rays: Vec<Endpoint>,
    objects: Vec<Endpoint>,
    frozen: bool,
}

impl ServerDirectory {
    #[verifier::type_invariant]
    spec fn inv(self) -> bool {
        self.rays@.no_duplicates() && self.objects@.no_duplicates()
    }

    /// The roster held.
    pub closed spec fn view(self) -> Roster {
        Roster { rays: self.rays@, objects: self.objects@, frozen: self.frozen }
    }

    /// An empty roster, open for announcements.
    pub fn new() -> (d: ServerDirectory)
        ensures
            d@ == Roster::empty(),
    {
        ServerDirectory { rays: Vec::new(), objects: Vec::new(), frozen: false }
    }

    /// Takes one announcement and tells whether it added a worker. The caller
    /// owes a newly added worker the request to stop announcing.
    pub fn observe(&mut self, msg: ServerDiscoveryMessage) -> (added: bool)
        ensures
            added == old(self)@.is_new(msg),
            final(self)@ == old(self)@.observe(msg),
            final(self)@.distinct(),
    {
        proof {
            use_type_invariant(&*self);
            observe_keeps_distinct(self@, msg);
        }
        if self.frozen {
            return false;
        }
        match msg.server_type {
            ServerType::Ray => {
                if list_contains(&self.rays, msg.socket_addr) {
                    return false;
                }
                let mut list: Vec<Endpoint> = Vec::new();
                std::mem::swap(&mut self.rays, &mut list);
                list.push(msg.socket_addr);
                self.rays = list;
            },
            ServerType::Object => {
                if list_contains(&self.objects, msg.socket_addr) {
                    return false;
                }
                let mut list: Vec<Endpoint> = Vec::new();
                std::mem::swap(&mut self.objects, &mut list);
                list.push(msg.socket_addr);
                self.objects = list;
            },
        }
        true
    }

    /// Closes the roster: later announcements change nothing. Fails with
    /// `NoWorkers` exactly when a role has no worker.
    pub fn freeze(&mut self) -> (r: Result<(), FabricError>)
        ensures
            final(self)@ == (Roster { frozen: true, ..old(self)@ }),
            old(self)@.staffed() ==> r.is_ok(),
            !old(self)@.staffed() ==> r == Err::<(), FabricError>(FabricError::NoWorkers),
            final(self)@.distinct(),
    {
        proof {
            use_type_invariant(&*self);
        }
        self.frozen = true;
        if self.rays.len() == 0 || self.objects.len() == 0 {
            Err(FabricError::NoWorkers)
        } else {
            Ok(())
        }
    }

    /// Whether the roster is closed.
    pub fn is_frozen(&self) -> (b: bool)
        ensures
            b == self@.frozen,
    {
        self.frozen
    }

    /// The workers of one role, in the order they were first heard. No
    /// endpoint is in the list twice.
    pub fn servers(&self, role: ServerType) -> (list: &Vec<Endpoint>)
        ensures
            list@ == self@.of(role),
            list@.no_duplicates(),
    {
        proof {
            use_type_invariant(self);
        }
        match role {
            ServerType::Ray => &self.rays,
            ServerType::Object => &self.objects,
        }
    }
}

/// Tells whether `list` holds `addr`.
pub fn list_contains(list: &Vec<Endpoint>, addr: Endpoint) -> (b: bool)
    ensures
        b == list@.contains(addr),
{
    let mut i: usize = 0;
    while i < list.len()
        invariant
            i <= list@.len(),
            forall|j: int| 0 <= j < i ==> list@[j] != addr,
        decreases list@.len() - i,
    {
        if list[i] == addr {
            return true;
        }
        i = i + 1;
    }
    false
}

} // verus!

//! The orchestrator: the life cycle of a session, the routing of scene
//! primitives to object workers and the dealing of camera rays to ray workers.

use vstd::prelude::*;
use crate::bricks::BrickTable;
use crate::camera::{pixel_numbers, CameraRayIterator, PixelIndexEntry};
use crate::discovery::{Roster, ServerDirectory};
use crate::error::FabricError;
use crate::samples::{Counts, SampleCounts};
use crate::messages::{
    Endpoint,
    OrchestratorServerMessage,
    OrchestratorServerMessageType,
    ServerDiscoveryMessage,
    ServerType,
};

verus! {

/// Where a session stands.
#[derive(Clone, Copy, PartialEq, Eq, Structural, Debug)]
pub enum SessionState {
    /// Listening for worker announcements.
    Discovery,
    /// Taking scene primitives from the client.
    SceneUpload,
    /// Waiting for `waiting` ray workers to acknowledge the session's parameters.
    ParamBroadcast { waiting: usize },
    /// Handing out camera rays.
    RayDispatch,
    /// Every ray is handed out; samples are still coming back.
    Draining,
    /// Over: all state of the session is released.
    Terminated,
}

/// What can move a session on.
#[derive(Clone, Copy, PartialEq, Eq, Structural, Debug)]
pub enum SessionEvent {
    /// The discovery window closed with this many workers of each role.
    WindowClosed { ray_workers: usize, object_workers: usize },
    /// The client asked for the rendering to begin; the parameters go out to
    /// this many ray workers.
    BeginRaytracing { ray_workers: usize },
    /// One ray worker acknowledged the parameters.
    ParamsAcked,
    /// The time to acknowledge the parameters ran out.
    AckTimeout,
    /// The last camera ray was handed out.
    LastRayEnqueued,
    /// Every pixel has all its samples.
    AllSamplesReturned,
    /// The client went away.
    ClientDisconnected,
    /// Nothing came back from the workers for the idle limit.
    ReturnIdle,
}

impl SessionState {
    /// Position of the state in the life cycle.
    pub open spec fn rank(self) -> int {
        match self {
            SessionState::Discovery => 0,
            SessionState::SceneUpload => 1,
            SessionState::ParamBroadcast { .. } => 2,
            SessionState::RayDispatch => 3,
            SessionState::Draining => 4,
            SessionState::Terminated => 5,
        }
    }

    /// Whether `event` may happen in this state.
    pub open spec fn allows(self, event: SessionEvent) -> bool {
        match (self, event) {
            (SessionState::Terminated, _) => false,
            (_, SessionEvent::ClientDisconnected) => true,
            (SessionState::Discovery, SessionEvent::WindowClosed { .. }) => true,
            (SessionState::SceneUpload, SessionEvent::BeginRaytracing { .. }) => true,
            (SessionState::ParamBroadcast { .. }, SessionEvent::ParamsAcked) => true,
            (SessionState::ParamBroadcast { .. }, SessionEvent::AckTimeout) => true,
            (SessionState::RayDispatch, SessionEvent::LastRayEnqueued) => true,
            (SessionState::Draining, SessionEvent::AllSamplesReturned) => true,
            (SessionState::Draining, SessionEvent::ReturnIdle) => true,
            _ => false,
        }
    }

    /// The state after `event`. An event that may not happen changes nothing.
    pub open spec fn next(self, event: SessionEvent) -> SessionState {
        if !self.allows(event) {
            self
        } else {
            match event {
                SessionEvent::ClientDisconnected => SessionState::Terminated,
                SessionEvent::WindowClosed { ray_workers, object_workers } => if ray_workers == 0
                    || object_workers == 0 {
                    SessionState::Terminated
                } else {
                    SessionState::SceneUpload
                },
                SessionEvent::BeginRaytracing { ray_workers } => if ray_workers == 0 {
                    SessionState::RayDispatch
                } else {
                    SessionState::ParamBroadcast { waiting: ray_workers }
                },
                SessionEvent::ParamsAcked => match self {
                    SessionState::ParamBroadcast { waiting } => if waiting <= 1 {
                        SessionState::RayDispatch
                    } else {
                        SessionState::ParamBroadcast { waiting: (waiting - 1) as usize }
                    },
                    _ => self,
                },
                SessionEvent::AckTimeout => SessionState::RayDispatch,
                SessionEvent::LastRayEnqueued => SessionState::Draining,
                SessionEvent::AllSamplesReturned => SessionState::Terminated,
                SessionEvent::ReturnIdle => SessionState::Terminated,
            }
        }
    }

    /// The error `event` raises: a window that closes without a worker of some
    /// role ends the session with `NoWorkers`, and an event that may not
    /// happen is a protocol error, which the caller may pass over.
    pub open spec fn error(self, event: SessionEvent) -> Option<FabricError> {
        if !self.allows(event) {
            Some(FabricError::Protocol)
        } else {
            match event {
                SessionEvent::WindowClosed { ray_workers, object_workers } => if ray_workers == 0
                    || object_workers == 0 {
                    Some(FabricError::NoWorkers)
                } else {
                    None
                },
                _ => None,
            }
        }
    }

    /// Moves the session on by one event.
    pub fn step(self, event: SessionEvent) -> (r: (SessionState, Option<FabricError>))
        ensures
            r.0 == self.next(event),
            r.1 == self.error(event),
    {
        match (self, event) {
            (SessionState::Terminated, _) => (self, Some(FabricError::Protocol)),
            (_, SessionEvent::ClientDisconnected) => (SessionState::Terminated, None),
            (SessionState::Discovery, SessionEvent::WindowClosed { ray_workers, object_workers }) => {
                if ray_workers == 0 || object_workers == 0 {
                    (SessionState::Terminated, Some(FabricError::NoWorkers))
                } else {
                    (SessionState::SceneUpload, None)
                }
            },
            (SessionState::SceneUpload, SessionEvent::BeginRaytracing { ray_workers }) => {
                if ray_workers == 0 {
                    (SessionState::RayDispatch, None)
                } else {
                    (SessionState::ParamBroadcast { waiting: ray_workers }, None)
                }
            },
            (SessionState::ParamBroadcast { waiting }, SessionEvent::ParamsAcked) => {
                if waiting <= 1 {
                    (SessionState::RayDispatch, None)
                } else {
                    (SessionState::ParamBroadcast { waiting: waiting - 1 }, None)
                }
            },
            (SessionState::ParamBroadcast { .. }, SessionEvent::AckTimeout) => (
                SessionState::RayDispatch,
                None,
            ),
            (SessionState::RayDispatch, SessionEvent::LastRayEnqueued) => (
                SessionState::Draining,
                None,
            ),
            (SessionState::Draining, SessionEvent::AllSamplesReturned) => (
                SessionState::Terminated,
                None,
            ),
            (SessionState::Draining, SessionEvent::ReturnIdle) => (SessionState::Terminated, None),
            _ => (self, Some(FabricError::Protocol)),
        }
    }
}

/// A session never goes back: no event lowers the rank of its state, a
/// terminated session stays terminated, and a session that has not begun to
/// render takes no step past the parameter broadcast without the client's
/// request.
pub proof fn session_moves_forward(state: SessionState, event: SessionEvent)
    ensures
        state.next(event).rank() >= state.rank(),
        state == SessionState::Terminated ==> state.next(event) == state,
        state.next(event).rank() > state.rank() ==> state.allows(event),
        state.rank() <= 1 && !(event is BeginRaytracing) && !(event is ClientDisconnected)
            ==> state.next(event).rank() <= 1 || state.next(event) == SessionState::Terminated,
{
}

/// The endpoints a primitive is forwarded to: for every brick slot that the
/// primitive touches, in slot order, every worker of that slot, in list
/// order. `matches[k]` tells whether the primitive touches slot `k`; a slot
/// beyond the end of `matches` is not touched.
pub open spec fn spec_route(workers: Seq<Seq<Endpoint>>, matches: Seq<bool>) -> Seq<Endpoint>
    decreases workers.len(),
{
    if workers.len() == 0 {
        Seq::empty()
    } else {
        let k = workers.len() - 1;
        let rest = spec_route(workers.drop_last(), matches);
        if k < matches.len() && matches[k] {
            rest + workers[k]
        } else {
            rest
        }
    }
}

/// A primitive reaches a worker exactly when that worker serves a slot the
/// primitive touches. So for every touched slot the primitive reaches every
/// worker of the slot, and it reaches nobody because of a slot it does not
/// touch.
pub proof fn route_reaches_touched_slots(workers: Seq<Seq<Endpoint>>, matches: Seq<bool>)
    ensures
        forall|e: Endpoint| #[trigger]
            spec_route(workers, matches).contains(e) <==> exists|k: int|
                0 <= k < workers.len() && k < matches.len() && matches[k] && (
                #[trigger] workers[k]).contains(e),
    decreases workers.len(),
{
    let route = spec_route(workers, matches);
    if workers.len() == 0 {
        assert forall|e: Endpoint| !(#[trigger] route.contains(e)) by {}
    } else {
        let last = workers.len() - 1;
        let front = workers.drop_last();
        let rest = spec_route(front, matches);
        route_reaches_touched_slots(front, matches);
        let touched = last < matches.len() && matches[last];
        assert forall|e: Endpoint| #[trigger] route.contains(e) <==> exists|k: int|
            0 <= k < workers.len() && k < matches.len() && matches[k] && (
            #[trigger] workers[k]).contains(e) by {
            if route.contains(e) {
                let i = choose|i: int| 0 <= i < route.len() && route[i] == e;
                if i < rest.len() {
                    assert(rest[i] == e);
                    assert(rest.contains(e));
                    let k = choose|k: int|
                        0 <= k < front.len() && k < matches.len() && matches[k] && (
                        #[trigger] front[k]).contains(e);
                    assert(workers[k] == front[k]);
                } else {
                    assert(touched);
                    assert(workers[last][i - rest.len()] == e);
                    assert(workers[last].contains(e));
                }
            }
            if exists|k: int|
                0 <= k < workers.len() && k < matches.len() && matches[k] && (
                #[trigger] workers[k]).contains(e) {
                let k = choose|k: int|
                    0 <= k < workers.len() && k < matches.len() && matches[k] && (
                    #[trigger] workers[k]).contains(e);
                if k < last {
                    assert(front[k] == workers[k]);
                    assert(rest.contains(e));
                    let i = choose|i: int| 0 <= i < rest.len() && rest[i] == e;
                    assert(route[i] == e);
                } else {
                    let j = choose|j: int| 0 <= j < workers[last].len() && workers[last][j] == e;
                    assert(route[rest.len() + j] == e);
                }
            }
        }
    }
}

/// A primitive that touches a slot reaches a worker of that slot, as every
/// slot of a table has one.
pub proof fn touched_slot_is_served(workers: Seq<Seq<Endpoint>>, matches: Seq<bool>, k: int)
    requires
        forall|j: int| 0 <= j < workers.len() ==> (#[trigger] workers[j]).len() > 0,
        0 <= k < workers.len(),
        k < matches.len(),
        matches[k],
    ensures
        exists|e: Endpoint| workers[k].contains(e) && spec_route(workers, matches).contains(e),
{
    let e = workers[k][0];
    assert(workers[k].contains(e));
    route_reaches_touched_slots(workers, matches);
    assert(spec_route(workers, matches).contains(e));
}

/// Computes the endpoints a primitive is forwarded to.
pub fn route_object(table: &BrickTable, matches: &Vec<bool>) -> (route: Vec<Endpoint>)
    ensures
        route@ == spec_route(table.workers(), matches@),
{
    let n: usize = table.len();
    let mut route: Vec<Endpoint> = Vec::new();
    let mut k: usize = 0;
    while k < n
        invariant
            n == table.workers().len(),
            k <= n,
            route@ == spec_route(table.workers().take(k as int), matches@),
        decreases n - k,
    {
        let ghost front = table.workers().take(k as int);
        let ghost upto = table.workers().take(k + 1);
        proof {
            assert(upto.drop_last() =~= front);
            assert(upto[k as int] == table.workers()[k as int]);
        }
        if k < matches.len() && matches[k] {
            let replicas: usize = table.replicas(k);
            let mut r: usize = 0;
            while r < replicas
                invariant
                    n == table.workers().len(),
                    k < n,
                    replicas == table.workers()[k as int].len(),
                    r <= replicas,
                    route@ == spec_route(front, matches@) + table.workers()[k as int].take(
                        r as int,
                    ),
                decreases replicas - r,
            {
                route.push(table.slot_worker(k, r));
                proof {
                    assert(table.workers()[k as int].take(r + 1) =~= table.workers()[k as int].take(
                        r as int,
                    ).push(table.workers()[k as int][r as int]));
                }
                r = r + 1;
            }
            proof {
                assert(table.workers()[k as int].take(replicas as int) =~= table.workers()[k as int]);
            }
        }
        k = k + 1;
    }
    proof {
        assert(table.workers().take(n as int) =~= table.workers());
    }
    route
}

/// Position, among `n` ray workers, of the one that traces sample `idx`: the
/// sum of its column, row and sample number, modulo `n`.
pub open spec fn spec_ray_server(idx: PixelIndexEntry, n: int) -> int {
    (idx.pixel_i + idx.pixel_j + idx.pixel_sample_num) % n
}

/// Picks the ray worker that traces sample `idx`. There is none exactly when
/// `servers` is empty.
pub fn pick_ray_server(idx: &PixelIndexEntry, servers: &Vec<Endpoint>) -> (r: Option<Endpoint>)
    ensures
        servers@.len() == 0 ==> r.is_none(),
        servers@.len() > 0 ==> r == Some(servers@[spec_ray_server(*idx, servers@.len() as int)]),
{
    let n: usize = servers.len();
    if n == 0 {
        return None;
    }
    let sum: i64 = idx.pixel_i as i64 + idx.pixel_j as i64 + idx.pixel_sample_num as i64;
    let at: usize = if sum >= 0 {
        ((sum as u64) % (n as u64)) as usize
    } else {
        let down: u64 = (0 - sum) as u64;
        let r: u64 = down % (n as u64);
        proof {
            lemma_mod_of_negative(down as int, n as int);
        }
        if r == 0 {
            0
        } else {
            (n as u64 - r) as usize
        }
    };
    Some(servers[at])
}

/// The remainder of a negated number.
proof fn lemma_mod_of_negative(a: int, n: int)
    requires
        a >= 0,
        n > 0,
    ensures
        (-a) % n == if a % n == 0 {
            0
        } else {
            n - a % n
        },
{
    vstd::arithmetic::div_mod::lemma_fundamental_div_mod(a, n);
    let q = a / n;
    let r = a % n;
    if r == 0 {
        assert(-a == n * (-q)) by (nonlinear_arith)
            requires
                a == n * q + r,
                r == 0,
        ;
        vstd::arithmetic::div_mod::lemma_mod_multiples_basic(-q, n);
    } else {
        assert(-a == n * (-q - 1) + (n - r)) by (nonlinear_arith)
            requires
                a == n * q + r,
        ;
        vstd::arithmetic::div_mod::lemma_mod_multiples_vanish(-q - 1, n - r, n);
        vstd::arithmetic::div_mod::lemma_small_mod((n - r) as nat, n as nat);
    }
}

/// What the orchestrator's host has to do for a message from the client.
pub enum OrchestratorStep<P, C> {
    /// Find the brick slots this primitive touches and forward it to the
    /// workers `route_object` gives for them.
    Route(P),
    /// Share the brick table and this camera with every ray worker, then hand
    /// out the camera's rays.
    Begin(C),
    /// Nothing: the message is not allowed in the state of the session, or
    /// lacked what its tag calls for, and was dropped.
    Dropped,
}

/// Where a session stands once it is known which samples have come back: a
/// draining session that lacks no sample is over.
pub open spec fn settled(state: SessionState, returned: Option<Counts>) -> SessionState {
    if state == SessionState::Draining && (returned matches Some(counts) ==> counts.complete()) {
        state.next(SessionEvent::AllSamplesReturned)
    } else {
        state
    }
}

/// The orchestrator's state for one session: the roster, the brick table once
/// discovery is over, the counts of the samples that have come back once the
/// rays go out, and where the session stands.
pub struct OrchestratorServer {
    server_directory: ServerDirectory,
    table: Option<BrickTable>,
    returned: Option<SampleCounts>,
    state: SessionState,
}

impl OrchestratorServer {
    #[verifier::type_invariant]
    spec fn inv(self) -> bool {
        &&& self.state == SessionState::Discovery <==> !self.server_directory@.frozen
        &&& self.state == SessionState::Discovery || self.state == SessionState::Terminated
            ==> self.table.is_none()
        &&& 1 <= self.state.rank() <= 4 ==> {
            &&& self.server_directory@.staffed()
            &&& self.table.is_some()
        }
        &&& self.state.rank() <= 2 || self.state == SessionState::Terminated
            ==> self.returned.is_none()
        &&& self.state == SessionState::Draining ==> {
            &&& self.returned.is_some()
            &&& !self.returned.unwrap()@.complete()
        }
    }

    /// The roster.
    pub closed spec fn roster(self) -> Roster {
        self.server_directory@
    }

    /// Where the session stands.
    pub closed spec fn session(self) -> SessionState {
        self.state
    }

    /// The brick table, once discovery is over.
    pub closed spec fn bricks(self) -> Option<BrickTable> {
        self.table
    }

    /// The counts of the samples that have come back, once the rays go out.
    pub closed spec fn returned(self) -> Option<Counts> {
        match self.returned {
            Some(counts) => Some(counts@),
            None => None,
        }
    }

    /// What a session holds in state `state`: a session that is over has
    /// given up its brick table and its counts.
    pub open spec fn kept<T>(state: SessionState, held: Option<T>) -> Option<T> {
        if state == SessionState::Terminated {
            None
        } else {
            held
        }
    }

    /// An orchestrator at the start of discovery.
    pub fn new() -> (s: OrchestratorServer)
        ensures
            s.roster() == Roster::empty(),
            s.session() == SessionState::Discovery,
            s.bricks().is_none(),
            s.returned().is_none(),
    {
        OrchestratorServer {
            server_directory: ServerDirectory::new(),
            table: None,
            returned: None,
            state: SessionState::Discovery,
        }
    }

    /// Takes one worker announcement and tells whether it added a worker.
    /// Once discovery is over announcements change nothing.
    pub fn observe(&mut self, msg: ServerDiscoveryMessage) -> (added: bool)
        ensures
            added == old(self).roster().is_new(msg),
            final(self).roster() == old(self).roster().observe(msg),
            final(self).session() == old(self).session(),
            final(self).bricks() == old(self).bricks(),
            final(self).returned() == old(self).returned(),
            old(self).session() != SessionState::Discovery ==> !added,
    {
        proof {
            use_type_invariant(&*self);
        }
        if self.state != SessionState::Discovery {
            return false;
        }
        let mut directory = ServerDirectory::new();
        std::mem::swap(&mut self.server_directory, &mut directory);
        let added = directory.observe(msg);
        self.server_directory = directory;
        added
    }

    /// Ends discovery: closes the roster, lays out the bricks `repeat` times
    /// over the object workers and opens the scene upload. Every brick slot
    /// then has a worker. Without a worker of some role the session ends with
    /// `NoWorkers`. After discovery the call is a protocol error and changes
    /// nothing.
    pub fn create_bounding_volumes(&mut self, repeat: u16) -> (r: Result<(), FabricError>)
        ensures
            final(self).session() == old(self).session().next(
                SessionEvent::WindowClosed {
                    ray_workers: old(self).roster().rays.len() as usize,
                    object_workers: old(self).roster().objects.len() as usize,
                },
            ),
            match old(self).session().error(
                SessionEvent::WindowClosed {
                    ray_workers: old(self).roster().rays.len() as usize,
                    object_workers: old(self).roster().objects.len() as usize,
                },
            ) {
                Some(e) => r == Err::<(), FabricError>(e),
                None => r.is_ok(),
            },
            old(self).session() == SessionState::Discovery ==> final(self).roster() == (Roster {
                frozen: true,
                ..old(self).roster()
            }),
            old(self).session() != SessionState::Discovery ==> final(self).roster() == old(
                self,
            ).roster() && final(self).bricks() == old(self).bricks(),
            final(self).returned() == old(self).returned(),
            r.is_ok() ==> final(self).bricks().is_some() && Self::laid_out(
                final(self).bricks().unwrap(),
                final(self).roster().objects,
                repeat,
            ),
            r.is_ok() ==> forall|k: int|
                0 <= k < final(self).bricks().unwrap().workers().len() ==> (
                #[trigger] final(self).bricks().unwrap().workers()[k]).len() > 0,
    {
        proof {
            use_type_invariant(&*self);
        }
        if self.state != SessionState::Discovery {
            return Err(FabricError::Protocol);
        }
        let mut directory = ServerDirectory::new();
        std::mem::swap(&mut self.server_directory, &mut directory);
        let _ = directory.freeze();
        let rays: usize = directory.servers(ServerType::Ray).len();
        let objects: usize = directory.servers(ServerType::Object).len();
        let (state, _) = self.state.step(
            SessionEvent::WindowClosed { ray_workers: rays, object_workers: objects },
        );
        match BrickTable::build(directory.servers(ServerType::Object), repeat) {
            Ok(table) => {
                if state == SessionState::SceneUpload {
                    table.check();
                    *self = OrchestratorServer {
                        server_directory: directory,
                        table: Some(table),
                        returned: None,
                        state,
                    };
                    return Ok(());
                }
            },
            Err(_) => {},
        }
        *self = OrchestratorServer {
            server_directory: directory,
            table: None,
            returned: None,
            state: SessionState::Terminated,
        };
        Err(FabricError::NoWorkers)
    }

    /// `table` is the lattice laid out `repeat` times, with slot `k` served by
    /// worker `k mod N` of the `N` workers in `objects`.
    pub open spec fn laid_out(table: BrickTable, objects: Seq<Endpoint>, repeat: u16) -> bool {
        &&& table.bricks().len() == 36 * repeat
        &&& table.workers().len() == 36 * repeat
        &&& forall|k: int|
            0 <= k < 36 * repeat ==> #[trigger] table.bricks()[k] == crate::bricks::lattice_brick(k)
        &&& forall|k: int|
            0 <= k < 36 * repeat ==> #[trigger] table.workers()[k] == seq![
                objects[k % (objects.len() as int)],
            ]
    }

    /// Takes one message from the client. Primitives are taken during the
    /// scene upload only; the request to begin ends the upload.
    pub fn handle_msg<P, C, V>(&mut self, msg: OrchestratorServerMessage<P, C, V>) -> (step:
        OrchestratorStep<P, C>)
        ensures
            step == Self::spec_step(old(self).session(), msg),
            final(self).session() == if step is Begin {
                old(self).session().next(
                    SessionEvent::BeginRaytracing {
                        ray_workers: old(self).roster().rays.len() as usize,
                    },
                )
            } else {
                old(self).session()
            },
            final(self).roster() == old(self).roster(),
            final(self).bricks() == old(self).bricks(),
            final(self).returned() == old(self).returned(),
    {
        proof {
            use_type_invariant(&*self);
        }
        if self.state != SessionState::SceneUpload {
            return OrchestratorStep::Dropped;
        }
        match msg.message_type {
            OrchestratorServerMessageType::SendObject => match msg.object {
                Some(object) => OrchestratorStep::Route(object),
                None => OrchestratorStep::Dropped,
            },
            OrchestratorServerMessageType::BeginRaytracing => match msg.camera {
                Some(camera) => {
                    let rays: usize = self.server_directory.servers(ServerType::Ray).len();
                    let (state, _) = self.state.step(
                        SessionEvent::BeginRaytracing { ray_workers: rays },
                    );
                    self.state = state;
                    OrchestratorStep::Begin(camera)
                },
                None => OrchestratorStep::Dropped,
            },
            OrchestratorServerMessageType::ReceivePixel => OrchestratorStep::Dropped,
        }
    }

    /// What the host is asked to do for message `msg` in state `state`.
    pub open spec fn spec_step<P, C, V>(
        state: SessionState,
        msg: OrchestratorServerMessage<P, C, V>,
    ) -> OrchestratorStep<P, C> {
        if state != SessionState::SceneUpload {
            OrchestratorStep::Dropped
        } else {
            match msg.message_type {
                OrchestratorServerMessageType::SendObject => match msg.object {
                    Some(object) => OrchestratorStep::Route(object),
                    None => OrchestratorStep::Dropped,
                },
                OrchestratorServerMessageType::BeginRaytracing => match msg.camera {
                    Some(camera) => OrchestratorStep::Begin(camera),
                    None => OrchestratorStep::Dropped,
                },
                OrchestratorServerMessageType::ReceivePixel => OrchestratorStep::Dropped,
            }
        }
    }

    /// Opens the dispatch of the rays of an image: gives the schedule of its
    /// samples and begins to count the samples that come back. This is done
    /// once the parameters are out, for an image that can be scheduled;
    /// otherwise nothing is given and nothing changes.
    pub fn begin_dispatch(&mut self, image_width: i32, image_height: i32, samples_per_pixel: i32)
        -> (r: Option<CameraRayIterator>)
        ensures
            r.is_some() == (old(self).session() == SessionState::RayDispatch
                && CameraRayIterator::schedulable(image_width, image_height, samples_per_pixel)),
            r matches Some(it) ==> {
                &&& it@.image_width == image_width
                &&& it@.image_height == image_height
                &&& it@.samples_per_pixel == samples_per_pixel
                &&& it@.issued == 0
                &&& it@.order == pixel_numbers(image_width * image_height)
                &&& final(self).returned() == Some(
                    Counts::fresh(image_width as int, image_height as int, samples_per_pixel as u64),
                )
            },
            r.is_none() ==> final(self).returned() == old(self).returned(),
            final(self).session() == old(self).session(),
            final(self).roster() == old(self).roster(),
            final(self).bricks() == old(self).bricks(),
    {
        proof {
            use_type_invariant(&*self);
        }
        if self.state != SessionState::RayDispatch {
            return None;
        }
        let schedule = CameraRayIterator::new(image_width, image_height, samples_per_pixel);
        if schedule.is_none() {
            return None;
        }
        let counts = SampleCounts::new(
            image_width as usize,
            image_height as usize,
            samples_per_pixel as u64,
        );
        self.returned = counts;
        schedule
    }

    /// Counts a sample that came back from a ray worker and tells whether it
    /// was counted: it is, when the rays have gone out and the sample is for
    /// a pixel of the image. A draining session ends with the sample that
    /// completes the image.
    pub fn sample_returned(&mut self, idx: &PixelIndexEntry) -> (counted: bool)
        ensures
            counted == (old(self).returned() matches Some(counts) && counts.cell(
                idx.pixel_i as int,
                idx.pixel_j as int,
            ).is_some()),
            final(self).session() == settled(
                old(self).session(),
                Self::after_sample(old(self).returned(), *idx),
            ),
            final(self).returned() == Self::kept(
                final(self).session(),
                Self::after_sample(old(self).returned(), *idx),
            ),
            final(self).bricks() == Self::kept(final(self).session(), old(self).bricks()),
            final(self).roster() == old(self).roster(),
    {
        proof {
            use_type_invariant(&*self);
        }
        let mut taken = OrchestratorServer::new();
        std::mem::swap(self, &mut taken);
        let OrchestratorServer { server_directory, table, returned, state } = taken;
        match returned {
            None => {
                *self = OrchestratorServer { server_directory, table, returned: None, state };
                false
            },
            Some(mut counts) => {
                let counted = counts.record(idx).is_some();
                if state == SessionState::Draining && counts.is_complete() {
                    *self = OrchestratorServer {
                        server_directory,
                        table: None,
                        returned: None,
                        state: SessionState::Terminated,
                    };
                } else {
                    *self = OrchestratorServer {
                        server_directory,
                        table,
                        returned: Some(counts),
                        state,
                    };
                }
                counted
            },
        }
    }

    /// The counts after a sample came back.
    pub open spec fn after_sample(returned: Option<Counts>, idx: PixelIndexEntry) -> Option<Counts> {
        match returned {
            Some(counts) => Some(counts.counted(idx.pixel_i as int, idx.pixel_j as int)),
            None => None,
        }
    }

    /// Moves the session on by an event of the rendering: an acknowledgement
    /// or its timeout, the last ray, the client's leaving, or idleness. With
    /// the last ray a session that lacks no sample is over at once. A session
    /// that ends gives up its brick table and its counts. The events that
    /// belong to discovery and to the client's request, and the return of
    /// the last sample, are not taken here: they are protocol errors.
    pub fn advance(&mut self, event: SessionEvent) -> (r: Option<FabricError>)
        ensures
            !Self::taken_by_advance(event) ==> r == Some(FabricError::Protocol) && final(self).session() == old(self).session(),
            Self::taken_by_advance(event) ==> r == old(self).session().error(event) && final(self).session() == settled(old(self).session().next(event), old(self).returned()),
            final(self).bricks() == Self::kept(final(self).session(), old(self).bricks()),
            final(self).returned() == Self::kept(final(self).session(), old(self).returned()),
            final(self).session() != SessionState::Discovery ==> final(self).roster() == (Roster {
                frozen: true,
                ..old(self).roster()
            }),
            final(self).session() == SessionState::Discovery ==> final(self).roster() == old(
                self,
            ).roster(),
    {
        proof {
            use_type_invariant(&*self);
        }
        match event {
            SessionEvent::WindowClosed { .. } => {
                return Some(FabricError::Protocol);
            },
            SessionEvent::BeginRaytracing { .. } => {
                return Some(FabricError::Protocol);
            },
            SessionEvent::AllSamplesReturned => {
                return Some(FabricError::Protocol);
            },
            _ => {},
        }
        let (next, error) = self.state.step(event);
        let mut taken = OrchestratorServer::new();
        std::mem::swap(self, &mut taken);
        let OrchestratorServer { server_directory: mut directory, table, returned, state } = taken;
        if state == SessionState::Discovery && next != SessionState::Discovery {
            let _ = directory.freeze();
        }
        let lacking = match &returned {
            Some(counts) => !counts.is_complete(),
            None => false,
        };
        if next == SessionState::Terminated || (next == SessionState::Draining && !lacking) {
            *self = OrchestratorServer {
                server_directory: directory,
                table: None,
                returned: None,
                state: SessionState::Terminated,
            };
        } else {
            *self = OrchestratorServer { server_directory: directory, table, returned, state: next };
        }
        error
    }

    /// The events `advance` takes.
    pub open spec fn taken_by_advance(event: SessionEvent) -> bool {
        !(event is WindowClosed || event is BeginRaytracing || event is AllSamplesReturned)
    }

    /// Where the session stands.
    pub fn state(&self) -> (s: SessionState)
        ensures
            s == self.session(),
    {
        self.state
    }

    /// The workers of one role, in the order they were first heard.
    pub fn servers(&self, role: ServerType) -> (list: &Vec<Endpoint>)
        ensures
            list@ == self.roster().of(role),
            list@.no_duplicates(),
            1 <= self.session().rank() <= 4 ==> list@.len() > 0,
    {
        proof {
            use_type_invariant(self);
        }
        self.server_directory.servers(role)
    }

    /// The brick table. It is there from the end of discovery to the end of
    /// the session.
    pub fn table(&self) -> (t: Option<&BrickTable>)
        ensures
            t.is_some() == self.bricks().is_some(),
            t matches Some(table) ==> Some(*table) == self.bricks(),
            1 <= self.session().rank() <= 4 ==> t.is_some(),
    {
        proof {
            use_type_invariant(self);
        }
        self.table.as_ref()
    }

    /// Number of samples that have not come back yet. A draining session
    /// always lacks one.
    pub fn outstanding(&self) -> (n: u128)
        ensures
            n == match self.returned() {
                Some(counts) => counts.missing(),
                None => 0,
            },
            self.session() == SessionState::Draining ==> n > 0,
    {
        proof {
            use_type_invariant(self);
        }
        match &self.returned {
            Some(counts) => {
                proof {
                    crate::samples::nothing_missing_is_complete(counts@.counts, counts@.samples);
                }
                counts.outstanding()
            },
            None => 0,
        }
    }
}

} // verus!

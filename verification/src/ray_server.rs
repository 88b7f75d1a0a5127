//! The ray worker: its message handling and the bounce loop it drives for
//! every pixel sample.
//!
//! The bounce loop is a state machine. The worker's transport performs what
//! the machine asks for (locate the bricks along the ray, consult an object
//! worker, back off after every replica of a brick failed, report the
//! finished sample) and feeds back what happened. The ray state itself is
//! opaque here: the machine keeps it, hands it out and replaces it with the
//! successor an object worker returns.

use vstd::prelude::*;
use crate::bricks::BrickTable;
use crate::camera::{check_hit_status, worker_status, HitProbe, PixelIndexEntry, RayColorStatus};
use crate::hittable_list::{hits_vec, is_hit, nearest_first, Hit};
use crate::messages::{Endpoint, RayServerMessage, RayServerMessageType};

verus! {

/// What a bounce loop is waiting for.
#[derive(Clone, Copy, PartialEq, Eq, Structural, Debug)]
pub enum BouncePhase {
    /// For the bricks along the current ray.
    Locating,
    /// For the answer of an object worker.
    Consulting,
    /// For the end of the pause after every replica of a brick failed.
    Backoff,
    /// For nothing: the sample is finished.
    Done,
}

/// What the transport has to do next for a sample.
pub enum BounceAction<S> {
    /// Find the bricks the current ray enters, nearest first, and hand them in.
    Locate,
    /// Send the current ray state to `endpoint`, which serves brick `brick`.
    Consult { brick: usize, endpoint: Endpoint },
    /// Pause, then resume with the first replica of the same brick.
    Sleep,
    /// Report the sample. With `sky` set the ray left the scene: its colour is
    /// the sky seen along `state`'s ray, weighted by its attenuation.
    /// Otherwise the colour is the one `state` carries.
    Report { state: S, sky: bool },
}

/// Something that happened to a sample.
pub ghost enum BounceEvent<S> {
    /// The bricks along the current ray, nearest first.
    Bricks(Seq<usize>),
    /// An object worker answered with a successor state and its flags.
    Reply(S, RayColorStatus),
    /// The consulted replica could not be reached.
    Failure,
    /// The pause is over.
    Resumed,
}

/// State of the bounce loop of one sample.
pub ghost struct BounceModel<S> {
    /// The ray state, as last answered by an object worker.
    pub candidate: S,
    /// Bricks of the current round, nearest first.
    pub hits: Seq<usize>,
    /// Position in `hits` of the brick being consulted.
    pub next: int,
    /// Position of the replica being consulted in that brick's worker list.
    pub replica: int,
    /// Whether every answer of the current round said the sample is finished.
    pub finished: bool,
    /// Whether the finished sample left the scene without stopping in a brick.
    pub sky: bool,
    pub phase: BouncePhase,
}

impl<S> BounceModel<S> {
    /// A fresh loop around `state`.
    pub open spec fn start(state: S) -> BounceModel<S> {
        BounceModel {
            candidate: state,
            hits: Seq::empty(),
            next: 0,
            replica: 0,
            finished: true,
            sky: false,
            phase: BouncePhase::Locating,
        }
    }

    /// The loop refers only to bricks and replicas that `workers` has.
    pub open spec fn consistent(self, workers: Seq<Seq<Endpoint>>) -> bool {
        &&& valid_hits(self.hits, workers)
        &&& (self.phase == BouncePhase::Consulting || self.phase == BouncePhase::Backoff) ==> {
            &&& 0 <= self.next < self.hits.len()
            &&& 0 <= self.replica < workers[self.hits[self.next] as int].len()
        }
    }

    /// End of a round: a finished sample is done, any other starts a new round.
    pub open spec fn round_end(self, sky: bool) -> BounceModel<S> {
        if self.finished {
            BounceModel { phase: BouncePhase::Done, sky: sky, ..self }
        } else {
            BounceModel { phase: BouncePhase::Locating, ..self }
        }
    }

    /// Turns to the brick at `next`, or ends the round when the list is exhausted.
    pub open spec fn enter(self) -> BounceModel<S> {
        if 0 <= self.next < self.hits.len() {
            BounceModel { phase: BouncePhase::Consulting, replica: 0, ..self }
        } else {
            self.round_end(true)
        }
    }

    /// A round begins with the bricks `hits`. Ignored unless the loop waits for
    /// them and every one of them is a brick of the table.
    pub open spec fn on_bricks(self, workers: Seq<Seq<Endpoint>>, hits: Seq<usize>) -> BounceModel<
        S,
    > {
        if self.phase == BouncePhase::Locating && valid_hits(hits, workers) {
            (BounceModel { hits: hits, next: 0, replica: 0, finished: true, ..self }).enter()
        } else {
            self
        }
    }

    /// An object worker answered. The successor replaces the ray state; a stop
    /// ends the round, anything else moves on to the next brick.
    pub open spec fn on_reply(self, state: S, status: RayColorStatus) -> BounceModel<S> {
        if self.phase == BouncePhase::Consulting {
            let answered = BounceModel {
                candidate: state,
                finished: self.finished && status.finished,
                ..self
            };
            if status.hit_object_or_stop {
                answered.round_end(false)
            } else {
                (BounceModel { next: self.next + 1, replica: 0, ..answered }).enter()
            }
        } else {
            self
        }
    }

    /// The consulted replica failed: the next replica of the brick is tried, and
    /// after the last one the loop backs off. The ray state is kept.
    pub open spec fn on_failure(self, workers: Seq<Seq<Endpoint>>) -> BounceModel<S> {
        if self.phase == BouncePhase::Consulting {
            if self.replica + 1 < workers[self.hits[self.next] as int].len() {
                BounceModel { replica: self.replica + 1, ..self }
            } else {
                BounceModel { phase: BouncePhase::Backoff, ..self }
            }
        } else {
            self
        }
    }

    /// The pause ended: the brick's first replica is tried again.
    pub open spec fn on_resumed(self) -> BounceModel<S> {
        if self.phase == BouncePhase::Backoff {
            BounceModel { phase: BouncePhase::Consulting, replica: 0, ..self }
        } else {
            self
        }
    }

    /// The state after `event`.
    pub open spec fn step(self, workers: Seq<Seq<Endpoint>>, event: BounceEvent<S>) -> BounceModel<
        S,
    > {
        match event {
            BounceEvent::Bricks(hits) => self.on_bricks(workers, hits),
            BounceEvent::Reply(state, status) => self.on_reply(state, status),
            BounceEvent::Failure => self.on_failure(workers),
            BounceEvent::Resumed => self.on_resumed(),
        }
    }

    /// What the loop asks of the transport in this state.
    pub open spec fn pending(self, workers: Seq<Seq<Endpoint>>) -> BounceAction<S> {
        match self.phase {
            BouncePhase::Locating => BounceAction::Locate,
            BouncePhase::Consulting => BounceAction::Consult {
                brick: self.hits[self.next],
                endpoint: workers[self.hits[self.next] as int][self.replica],
            },
            BouncePhase::Backoff => BounceAction::Sleep,
            BouncePhase::Done => BounceAction::Report { state: self.candidate, sky: self.sky },
        }
    }
}

/// The brick slots of `hits`, in the order of `hits`.
pub open spec fn spec_slots(hits: Seq<Hit>) -> Seq<usize> {
    Seq::new(hits.len(), |j: int| hits[j].0)
}

/// The bricks of a round, nearest first, when `keys` holds for every brick
/// slot nothing or the key of the place where the ray enters the brick.
pub open spec fn round_of(keys: Seq<Option<u64>>) -> Seq<usize> {
    spec_slots(nearest_first(keys))
}

/// Every entry of `hits` is a brick of the table.
pub open spec fn valid_hits(hits: Seq<usize>, workers: Seq<Seq<Endpoint>>) -> bool {
    forall|j: int| 0 <= j < hits.len() ==> 0 <= #[trigger] hits[j] < workers.len()
}

/// Every step keeps a consistent loop consistent.
pub proof fn lemma_step_consistent<S>(
    m: BounceModel<S>,
    workers: Seq<Seq<Endpoint>>,
    event: BounceEvent<S>,
)
    requires
        m.consistent(workers),
        forall|k: int| 0 <= k < workers.len() ==> (#[trigger] workers[k]).len() > 0,
    ensures
        m.step(workers, event).consistent(workers),
{
}

/// Whether the loop takes `event` as the answer to a consultation.
pub open spec fn answers<S>(m: BounceModel<S>, event: BounceEvent<S>) -> bool {
    m.phase == BouncePhase::Consulting && event is Reply
}

/// Number of consultations that were answered while the loop went through
/// `events`. Failed attempts and repeated attempts at one consultation do
/// not count.
pub open spec fn consultations<S>(
    m: BounceModel<S>,
    workers: Seq<Seq<Endpoint>>,
    events: Seq<BounceEvent<S>>,
) -> nat
    decreases events.len(),
{
    if events.len() == 0 {
        0
    } else {
        let answered: nat = if answers(m, events[0]) {
            1
        } else {
            0
        };
        answered + consultations(m.step(workers, events[0]), workers, events.drop_first())
    }
}

/// Every answer among `events` is one that object workers give when the state
/// they are first consulted with has depth `depth` and every consultation
/// spends one unit of it.
pub open spec fn answered_by_workers<S>(
    m: BounceModel<S>,
    workers: Seq<Seq<Endpoint>>,
    events: Seq<BounceEvent<S>>,
    depth: int,
) -> bool
    decreases events.len(),
{
    if events.len() == 0 {
        true
    } else {
        let after = m.step(workers, events[0]);
        if answers(m, events[0]) {
            worker_status(depth, events[0]->Reply_1) && answered_by_workers(
                after,
                workers,
                events.drop_first(),
                depth - 1,
            )
        } else {
            answered_by_workers(after, workers, events.drop_first(), depth)
        }
    }
}

/// The state after all of `events`.
pub open spec fn run<S>(
    m: BounceModel<S>,
    workers: Seq<Seq<Endpoint>>,
    events: Seq<BounceEvent<S>>,
) -> BounceModel<S>
    decreases events.len(),
{
    if events.len() == 0 {
        m
    } else {
        run(m.step(workers, events[0]), workers, events.drop_first())
    }
}

proof fn lemma_consultations<S>(
    m: BounceModel<S>,
    workers: Seq<Seq<Endpoint>>,
    events: Seq<BounceEvent<S>>,
    depth: int,
)
    requires
        m.consistent(workers),
        forall|k: int| 0 <= k < workers.len() ==> (#[trigger] workers[k]).len() > 0,
        answered_by_workers(m, workers, events, depth),
        m.phase == BouncePhase::Consulting || m.phase == BouncePhase::Backoff ==> m.finished,
        depth >= 0 || m.phase == BouncePhase::Done,
    ensures
        m.phase == BouncePhase::Done ==> consultations(m, workers, events) == 0,
        m.phase != BouncePhase::Done ==> consultations(m, workers, events) <= depth + 1,
        workers.len() == 0 ==> consultations(m, workers, events) == 0,
        m.phase == BouncePhase::Done ==> run(m, workers, events) == m,
        consultations(m, workers, events) == depth + 1 ==> run(m, workers, events).phase
            == BouncePhase::Done,
    decreases events.len(),
{
    if events.len() > 0 {
        let after = m.step(workers, events[0]);
        lemma_step_consistent(m, workers, events[0]);
        if answers(m, events[0]) {
            let status = events[0]->Reply_1;
            let probe = choose|probe: HitProbe| status == check_hit_status(depth, probe);
            assert(status == check_hit_status(depth, probe));
            lemma_consultations(after, workers, events.drop_first(), depth - 1);
        } else {
            lemma_consultations(after, workers, events.drop_first(), depth);
        }
    }
}

/// The bounce loop of a sample whose ray state starts with depth `max_depth`
/// gets at most `max_depth` plus the number of bricks answers from object
/// workers, whatever else happens in between. It never gets more than
/// `max_depth + 1`, and once it got that many it is done.
pub proof fn bounce_loop_bounded<S>(
    state: S,
    workers: Seq<Seq<Endpoint>>,
    events: Seq<BounceEvent<S>>,
    max_depth: int,
)
    requires
        max_depth >= 0,
        forall|k: int| 0 <= k < workers.len() ==> (#[trigger] workers[k]).len() > 0,
        answered_by_workers(BounceModel::start(state), workers, events, max_depth),
    ensures
        consultations(BounceModel::start(state), workers, events) <= max_depth + workers.len(),
        consultations(BounceModel::start(state), workers, events) <= max_depth + 1,
        consultations(BounceModel::start(state), workers, events) == max_depth + 1 ==> run(
            BounceModel::start(state),
            workers,
            events,
        ).phase == BouncePhase::Done,
{
    lemma_consultations(BounceModel::start(state), workers, events, max_depth);
}

/// A failed attempt and the pause after the last replica change nothing but
/// which replica is tried next: the ray state, the bricks of the round and
/// the position among them stay as they are. Retrying a consultation is
/// therefore the same consultation.
pub proof fn retry_keeps_consultation<S>(m: BounceModel<S>, workers: Seq<Seq<Endpoint>>)
    ensures
        m.on_failure(workers).candidate == m.candidate,
        m.on_failure(workers).hits == m.hits,
        m.on_failure(workers).next == m.next,
        m.on_failure(workers).finished == m.finished,
        m.on_resumed().candidate == m.candidate,
        m.on_resumed().hits == m.hits,
        m.on_resumed().next == m.next,
        m.on_resumed().finished == m.finished,
        m.phase == BouncePhase::Consulting ==> m.on_failure(workers).phase
            == BouncePhase::Consulting || m.on_failure(workers).on_resumed().phase
            == BouncePhase::Consulting,
{
}

/// Once a loop is done no event changes it.
pub proof fn done_is_final<S>(m: BounceModel<S>, workers: Seq<Seq<Endpoint>>, event: BounceEvent<S>)
    requires
        m.phase == BouncePhase::Done,
    ensures
        m.step(workers, event) == m,
{
}

struct BounceLoop<S> {
    candidate: S,
    hits: Vec<usize>,
    next: usize,
    replica: usize,
    finished: bool,
    sky: bool,
    phase: BouncePhase,
}

impl<S> BounceLoop<S> {
    spec fn model(self) -> BounceModel<S> {
        BounceModel {
            candidate: self.candidate,
            hits: self.hits@,
            next: self.next as int,
            replica: self.replica as int,
            finished: self.finished,
            sky: self.sky,
            phase: self.phase,
        }
    }

    fn round_end(self, sky: bool) -> (r: BounceLoop<S>)
        ensures
            r.model() == self.model().round_end(sky),
    {
        if self.finished {
            BounceLoop { phase: BouncePhase::Done, sky: sky, ..self }
        } else {
            BounceLoop { phase: BouncePhase::Locating, ..self }
        }
    }

    fn enter(self) -> (r: BounceLoop<S>)
        ensures
            r.model() == self.model().enter(),
    {
        if self.next < self.hits.len() {
            BounceLoop { phase: BouncePhase::Consulting, replica: 0, ..self }
        } else {
            self.round_end(true)
        }
    }

    fn on_bricks(self, table: &BrickTable, hits: Vec<usize>) -> (r: BounceLoop<S>)
        requires
            valid_hits(hits@, table.workers()),
        ensures
            r.model() == self.model().on_bricks(table.workers(), hits@),
    {
        if self.phase == BouncePhase::Locating {
            (BounceLoop { hits: hits, next: 0, replica: 0, finished: true, ..self }).enter()
        } else {
            self
        }
    }

    fn on_reply(self, state: S, status: RayColorStatus) -> (r: BounceLoop<S>)
        requires
            self.phase == BouncePhase::Consulting ==> self.next < self.hits@.len(),
        ensures
            r.model() == self.model().on_reply(state, status),
    {
        if self.phase == BouncePhase::Consulting {
            let finished = self.finished && status.finished;
            let next: usize = self.next;
            let bricks: usize = self.hits.len();
            assert(next < bricks);
            let answered = BounceLoop { candidate: state, finished: finished, ..self };
            if status.hit_object_or_stop {
                answered.round_end(false)
            } else {
                (BounceLoop { next: next + 1, replica: 0, ..answered }).enter()
            }
        } else {
            self
        }
    }

    fn on_failure(self, table: &BrickTable) -> (r: BounceLoop<S>)
        requires
            self.model().consistent(table.workers()),
        ensures
            r.model() == self.model().on_failure(table.workers()),
    {
        if self.phase == BouncePhase::Consulting {
            let replicas: usize = table.replicas(self.hits[self.next]);
            let replica: usize = self.replica;
            if replica + 1 < replicas {
                BounceLoop { replica: replica + 1, ..self }
            } else {
                BounceLoop { phase: BouncePhase::Backoff, ..self }
            }
        } else {
            self
        }
    }

    fn on_resumed(self) -> (r: BounceLoop<S>)
        ensures
            r.model() == self.model().on_resumed(),
    {
        if self.phase == BouncePhase::Backoff {
            BounceLoop { phase: BouncePhase::Consulting, replica: 0, ..self }
        } else {
            self
        }
    }

    fn waiting_for(&self, table: &BrickTable) -> (a: BounceAction<S>)
        requires
            self.model().consistent(table.workers()),
            self.phase != BouncePhase::Done,
        ensures
            a == self.model().pending(table.workers()),
    {
        match self.phase {
            BouncePhase::Locating => BounceAction::Locate,
            BouncePhase::Consulting => {
                let brick: usize = self.hits[self.next];
                BounceAction::Consult { brick, endpoint: table.slot_worker(brick, self.replica) }
            },
            _ => BounceAction::Sleep,
        }
    }
}

/// The brick slots of `hits`, in the order of `hits`.
fn slots_of(hits: &Vec<Hit>) -> (slots: Vec<usize>)
    ensures
        slots@ == spec_slots(hits@),
{
    let mut slots: Vec<usize> = Vec::new();
    let mut j: usize = 0;
    while j < hits.len()
        invariant
            j <= hits@.len(),
            slots@ == spec_slots(hits@.take(j as int)),
        decreases hits@.len() - j,
    {
        slots.push(hits[j].0);
        assert(spec_slots(hits@.take(j + 1)) =~= spec_slots(hits@.take(j as int)).push(hits@[j as int].0));
        j = j + 1;
    }
    assert(hits@.take(hits@.len() as int) =~= hits@);
    slots
}

struct Entry<S> {
    idx: PixelIndexEntry,
    state: BounceLoop<S>,
}

spec fn has_key<S>(entries: Seq<Entry<S>>, idx: PixelIndexEntry) -> bool {
    exists|i: int| 0 <= i < entries.len() && (#[trigger] entries[i]).idx == idx
}

spec fn position<S>(entries: Seq<Entry<S>>, idx: PixelIndexEntry) -> int {
    choose|i: int| 0 <= i < entries.len() && (#[trigger] entries[i]).idx == idx
}

spec fn distinct_keys<S>(entries: Seq<Entry<S>>) -> bool {
    forall|i: int, j: int|
        0 <= i < j < entries.len() ==> (#[trigger] entries[i]).idx != (#[trigger] entries[j]).idx
}

spec fn entries_map<S>(entries: Seq<Entry<S>>) -> Map<PixelIndexEntry, BounceModel<S>> {
    Map::new(
        |idx: PixelIndexEntry| has_key(entries, idx),
        |idx: PixelIndexEntry| entries[position(entries, idx)].state.model(),
    )
}

proof fn lemma_position<S>(entries: Seq<Entry<S>>, p: int)
    requires
        distinct_keys(entries),
        0 <= p < entries.len(),
    ensures
        has_key(entries, entries[p].idx),
        position(entries, entries[p].idx) == p,
{
    let q = position(entries, entries[p].idx);
    assert(0 <= q < entries.len() && entries[q].idx == entries[p].idx);
    if q < p {
        assert(entries[q].idx != entries[p].idx);
    } else if p < q {
        assert(entries[p].idx != entries[q].idx);
    }
}

proof fn lemma_entries_push<S>(entries: Seq<Entry<S>>, e: Entry<S>)
    requires
        distinct_keys(entries),
        !has_key(entries, e.idx),
    ensures
        distinct_keys(entries.push(e)),
        entries_map(entries.push(e)) == entries_map(entries).insert(e.idx, e.state.model()),
{
    let after = entries.push(e);
    assert forall|i: int, j: int| 0 <= i < j < after.len() implies (#[trigger] after[i]).idx != (
    #[trigger] after[j]).idx by {
        if j == entries.len() {
            assert(entries[i].idx != e.idx);
        } else {
            assert(entries[i].idx != entries[j].idx);
        }
    }
    assert forall|idx: PixelIndexEntry| has_key(after, idx) <==> (has_key(entries, idx) || idx
        == e.idx) by {
        if has_key(after, idx) {
            let i = position(after, idx);
            if i < entries.len() {
                assert(entries[i].idx == idx);
            }
        }
        if has_key(entries, idx) {
            let i = position(entries, idx);
            assert(after[i].idx == idx);
        }
        if idx == e.idx {
            assert(after[entries.len() as int].idx == idx);
        }
    }
    assert forall|idx: PixelIndexEntry| has_key(after, idx) implies #[trigger] entries_map(
        after,
    )[idx] == entries_map(entries).insert(e.idx, e.state.model())[idx] by {
        if idx == e.idx {
            lemma_position(after, entries.len() as int);
        } else {
            let i = position(entries, idx);
            assert(after[i] == entries[i]);
            lemma_position(after, i);
        }
    }
    assert(entries_map(after) =~= entries_map(entries).insert(e.idx, e.state.model()));
}

proof fn lemma_entries_remove<S>(entries: Seq<Entry<S>>, p: int)
    requires
        distinct_keys(entries),
        0 <= p < entries.len(),
    ensures
        distinct_keys(entries.remove(p)),
        !has_key(entries.remove(p), entries[p].idx),
        entries_map(entries.remove(p)) == entries_map(entries).remove(entries[p].idx),
{
    let after = entries.remove(p);
    let gone = entries[p].idx;
    assert forall|i: int| 0 <= i < after.len() implies #[trigger] after[i] == entries[if i < p {
        i
    } else {
        i + 1
    }] by {}
    assert forall|i: int, j: int| 0 <= i < j < after.len() implies (#[trigger] after[i]).idx != (
    #[trigger] after[j]).idx by {
        let a = if i < p {
            i
        } else {
            i + 1
        };
        let b = if j < p {
            j
        } else {
            j + 1
        };
        assert(entries[a].idx != entries[b].idx);
    }
    if has_key(after, gone) {
        let i = position(after, gone);
        let a = if i < p {
            i
        } else {
            i + 1
        };
        assert(entries[a].idx == gone);
        if a < p {
            assert(entries[a].idx != entries[p].idx);
        } else {
            assert(entries[p].idx != entries[a].idx);
        }
    }
    assert forall|idx: PixelIndexEntry| has_key(after, idx) <==> (has_key(entries, idx) && idx
        != gone) by {
        if has_key(after, idx) {
            let i = position(after, idx);
            let a = if i < p {
                i
            } else {
                i + 1
            };
            assert(entries[a].idx == idx);
        }
        if has_key(entries, idx) && idx != gone {
            let a = position(entries, idx);
            let i = if a < p {
                a
            } else {
                a - 1
            };
            assert(after[i].idx == idx);
        }
    }
    assert forall|idx: PixelIndexEntry| has_key(after, idx) implies #[trigger] entries_map(
        after,
    )[idx] == entries_map(entries)[idx] by {
        let a = position(entries, idx);
        let i = if a < p {
            a
        } else {
            a - 1
        };
        assert(after[i] == entries[a]);
        lemma_position(after, i);
    }
    assert(entries_map(after) =~= entries_map(entries).remove(gone));
}

/// The bounce loops of the samples a ray worker has in flight, keyed by pixel
/// sample, together with the brick table they run against.
pub struct RayProcessor<S> {
    table: BrickTable,
    entries: Vec<Entry<S>>,
}

impl<S> RayProcessor<S> {
    #[verifier::type_invariant]
    spec fn inv(self) -> bool {
        &&& distinct_keys(self.entries@)
        &&& forall|i: int|
            0 <= i < self.entries@.len() ==> {
                &&& (#[trigger] self.entries@[i]).state.model().consistent(self.table.workers())
                &&& self.entries@[i].state.phase != BouncePhase::Done
            }
    }

    /// The loops in flight.
    pub closed spec fn view(self) -> Map<PixelIndexEntry, BounceModel<S>> {
        entries_map(self.entries@)
    }

    /// The worker list of every brick slot.
    pub closed spec fn workers(self) -> Seq<Seq<Endpoint>> {
        self.table.workers()
    }

    /// The table the loops run against.
    pub closed spec fn table(self) -> BrickTable {
        self.table
    }

    /// The state of the table after the loop of `idx` moved to `after`: a
    /// finished loop leaves the table, any other is stored.
    pub open spec fn settle(
        before: Map<PixelIndexEntry, BounceModel<S>>,
        idx: PixelIndexEntry,
        after: BounceModel<S>,
    ) -> Map<PixelIndexEntry, BounceModel<S>> {
        if after.phase == BouncePhase::Done {
            before.remove(idx)
        } else {
            before.insert(idx, after)
        }
    }

    /// A processor without samples.
    pub fn new(table: BrickTable) -> (p: RayProcessor<S>)
        ensures
            p@ == Map::<PixelIndexEntry, BounceModel<S>>::empty(),
            p.table() == table,
            p.workers() == table.workers(),
    {
        let p = RayProcessor { table, entries: Vec::new() };
        assert(p@ =~= Map::<PixelIndexEntry, BounceModel<S>>::empty());
        p
    }

    /// The table the loops run against.
    pub fn brick_table(&self) -> (t: &BrickTable)
        ensures
            *t == self.table(),
    {
        &self.table
    }

    /// Number of samples in flight.
    pub fn len(&self) -> (n: usize)
        ensures
            n == self@.dom().len(),
            self@.dom().finite(),
    {
        proof {
            use_type_invariant(self);
            lemma_entries_domain(self.entries@);
        }
        self.entries.len()
    }

    fn find(&self, idx: &PixelIndexEntry) -> (r: Option<usize>)
        ensures
            r.is_some() == has_key(self.entries@, *idx),
            r matches Some(p) ==> p < self.entries@.len() && self.entries@[p as int].idx == *idx
                && position(self.entries@, *idx) == p,
    {
        proof {
            use_type_invariant(self);
        }
        let mut i: usize = 0;
        while i < self.entries.len()
            invariant
                i <= self.entries@.len(),
                distinct_keys(self.entries@),
                forall|j: int| 0 <= j < i ==> (#[trigger] self.entries@[j]).idx != *idx,
            decreases self.entries@.len() - i,
        {
            if self.entries[i].idx == *idx {
                proof {
                    lemma_position(self.entries@, i as int);
                }
                return Some(i);
            }
            i = i + 1;
        }
        None
    }

    /// Whether a loop for `idx` is in flight.
    pub fn contains(&self, idx: &PixelIndexEntry) -> (b: bool)
        ensures
            b == self@.contains_key(*idx),
    {
        self.find(idx).is_some()
    }

    /// The ray state of `idx` as it stands, for sending it to an object worker.
    pub fn candidate(&self, idx: &PixelIndexEntry) -> (r: Option<&S>)
        ensures
            r.is_some() == self@.contains_key(*idx),
            r matches Some(s) ==> *s == self@[*idx].candidate,
    {
        match self.find(idx) {
            Some(p) => Some(&self.entries[p].state.candidate),
            None => None,
        }
    }

    /// Takes in a new sample with its initial ray state. A sample that is
    /// already in flight keeps its loop, and `state` is dropped.
    pub fn accept(&mut self, idx: PixelIndexEntry, state: S) -> (inserted: bool)
        ensures
            inserted == !old(self)@.contains_key(idx),
            inserted ==> final(self)@ == old(self)@.insert(idx, BounceModel::start(state)),
            !inserted ==> final(self)@ == old(self)@,
            final(self).table() == old(self).table(),
            final(self).workers() == old(self).workers(),
    {
        proof {
            use_type_invariant(&*self);
        }
        if self.find(&idx).is_some() {
            return false;
        }
        let fresh = Entry {
            idx,
            state: BounceLoop {
                candidate: state,
                hits: Vec::new(),
                next: 0,
                replica: 0,
                finished: true,
                sky: false,
                phase: BouncePhase::Locating,
            },
        };
        let mut entries: Vec<Entry<S>> = Vec::new();
        std::mem::swap(&mut self.entries, &mut entries);
        proof {
            lemma_entries_push(entries@, fresh);
            assert(fresh.state.model() == BounceModel::start(state));
        }
        entries.push(fresh);
        self.entries = entries;
        true
    }

    fn take(&mut self, p: usize) -> (e: Entry<S>)
        requires
            p < old(self).entries@.len(),
        ensures
            e == old(self).entries@[p as int],
            e.state.model().consistent(old(self).table.workers()),
            e.state.phase != BouncePhase::Done,
            final(self).entries@ == old(self).entries@.remove(p as int),
            final(self).table == old(self).table,
            final(self)@ == old(self)@.remove(e.idx),
            !has_key(final(self).entries@, e.idx),
    {
        proof {
            use_type_invariant(&*self);
            lemma_entries_remove(self.entries@, p as int);
        }
        let mut entries: Vec<Entry<S>> = Vec::new();
        std::mem::swap(&mut self.entries, &mut entries);
        let e = entries.remove(p);
        self.entries = entries;
        e
    }

    fn put(&mut self, idx: PixelIndexEntry, state: BounceLoop<S>) -> (a: BounceAction<S>)
        requires
            !has_key(old(self).entries@, idx),
            state.model().consistent(old(self).table.workers()),
        ensures
            a == state.model().pending(old(self).table.workers()),
            final(self)@ == Self::settle(old(self)@, idx, state.model()),
            final(self).table == old(self).table,
    {
        proof {
            use_type_invariant(&*self);
        }
        if state.phase == BouncePhase::Done {
            assert(self@.remove(idx) =~= self@);
            return BounceAction::Report { state: state.candidate, sky: state.sky };
        }
        let a = state.waiting_for(&self.table);
        let e = Entry { idx, state };
        let mut entries: Vec<Entry<S>> = Vec::new();
        std::mem::swap(&mut self.entries, &mut entries);
        proof {
            lemma_entries_push(entries@, e);
        }
        entries.push(e);
        self.entries = entries;
        a
    }

    /// What the loop of `idx` is waiting for, if it is in flight. A loop in
    /// flight is never finished, so the answer is never a report.
    pub fn pending(&self, idx: &PixelIndexEntry) -> (r: Option<BounceAction<S>>)
        ensures
            r.is_some() == self@.contains_key(*idx),
            self@.contains_key(*idx) ==> r == Some(self@[*idx].pending(self.workers())),
            self@.contains_key(*idx) ==> self@[*idx].phase != BouncePhase::Done,
            self@.contains_key(*idx) ==> self@[*idx].consistent(self.workers()),
    {
        proof {
            use_type_invariant(self);
        }
        match self.find(idx) {
            Some(p) => Some(self.entries[p].state.waiting_for(&self.table)),
            None => None,
        }
    }

    /// Hands in, for every brick slot, nothing or the key of the place where
    /// the current ray of `idx` enters the brick. The round consults the
    /// bricks that are entered, nearest first. With no brick entered the
    /// sample is finished and shows the sky. Keys that are not one per brick
    /// slot are passed over.
    pub fn bricks(&mut self, idx: &PixelIndexEntry, keys: &Vec<Option<u64>>) -> (r: Option<
        BounceAction<S>,
    >)
        ensures
            r.is_some() == old(self)@.contains_key(*idx),
            old(self)@.contains_key(*idx) ==> {
                let after = if keys@.len() == old(self).workers().len() {
                    old(self)@[*idx].on_bricks(old(self).workers(), round_of(keys@))
                } else {
                    old(self)@[*idx]
                };
                &&& valid_hits(round_of(keys@), old(self).workers()) || keys@.len() != old(
                    self,
                ).workers().len()
                &&& r == Some(after.pending(old(self).workers()))
                &&& final(self)@ == Self::settle(old(self)@, *idx, after)
            },
            !old(self)@.contains_key(*idx) ==> final(self)@ == old(self)@,
            final(self).table() == old(self).table(),
            final(self).workers() == old(self).workers(),
    {
        match self.find(idx) {
            None => None,
            Some(p) => {
                let ghost before = self@;
                let slots: usize = self.table.len();
                let e = self.take(p);
                let ghost m = e.state.model();
                let after = if keys.len() == slots {
                    let hits = hits_vec(keys);
                    let round = slots_of(&hits);
                    self.table.check();
                    proof {
                        assert forall|j: int| 0 <= j < round@.len() implies 0 <= #[trigger] round@[j]
                            < self.table.workers().len() by {
                            assert(is_hit(keys@, hits@[j]));
                        }
                        lemma_step_consistent(m, self.table.workers(), BounceEvent::Bricks(round@));
                    }
                    e.state.on_bricks(&self.table, round)
                } else {
                    e.state
                };
                let a = self.put(e.idx, after);
                assert(Self::settle(before.remove(*idx), *idx, after.model()) =~= Self::settle(
                    before,
                    *idx,
                    after.model(),
                ));
                Some(a)
            },
        }
    }

    /// Hands in the answer of the object worker that was consulted for `idx`:
    /// the successor ray state and its flags.
    pub fn reply(&mut self, idx: &PixelIndexEntry, state: S, status: RayColorStatus) -> (r: Option<
        BounceAction<S>,
    >)
        ensures
            r.is_some() == old(self)@.contains_key(*idx),
            old(self)@.contains_key(*idx) ==> {
                let after = old(self)@[*idx].on_reply(state, status);
                &&& r == Some(after.pending(old(self).workers()))
                &&& final(self)@ == Self::settle(old(self)@, *idx, after)
            },
            !old(self)@.contains_key(*idx) ==> final(self)@ == old(self)@,
            final(self).table() == old(self).table(),
            final(self).workers() == old(self).workers(),
    {
        match self.find(idx) {
            None => None,
            Some(p) => {
                let ghost before = self@;
                let e = self.take(p);
                let ghost m = e.state.model();
                self.table.check();
                proof {
                    lemma_step_consistent(m, self.table.workers(), BounceEvent::Reply(state, status));
                }
                let after = e.state.on_reply(state, status);
                let a = self.put(e.idx, after);
                assert(Self::settle(before.remove(*idx), *idx, after.model()) =~= Self::settle(
                    before,
                    *idx,
                    after.model(),
                ));
                Some(a)
            },
        }
    }

    /// Reports that the replica consulted for `idx` could not be reached.
    pub fn failure(&mut self, idx: &PixelIndexEntry) -> (r: Option<BounceAction<S>>)
        ensures
            r.is_some() == old(self)@.contains_key(*idx),
            old(self)@.contains_key(*idx) ==> {
                let after = old(self)@[*idx].on_failure(old(self).workers());
                &&& r == Some(after.pending(old(self).workers()))
                &&& final(self)@ == old(self)@.insert(*idx, after)
                &&& after.candidate == old(self)@[*idx].candidate
            },
            !old(self)@.contains_key(*idx) ==> final(self)@ == old(self)@,
            final(self).table() == old(self).table(),
            final(self).workers() == old(self).workers(),
    {
        match self.find(idx) {
            None => None,
            Some(p) => {
                let ghost before = self@;
                let e = self.take(p);
                let ghost m = e.state.model();
                self.table.check();
                proof {
                    lemma_step_consistent(m, self.table.workers(), BounceEvent::Failure);
                }
                let after = e.state.on_failure(&self.table);
                let a = self.put(e.idx, after);
                assert(before.remove(*idx).insert(*idx, after.model()) =~= before.insert(
                    *idx,
                    after.model(),
                ));
                Some(a)
            },
        }
    }

    /// Reports that the pause of `idx` is over.
    pub fn resumed(&mut self, idx: &PixelIndexEntry) -> (r: Option<BounceAction<S>>)
        ensures
            r.is_some() == old(self)@.contains_key(*idx),
            old(self)@.contains_key(*idx) ==> {
                let after = old(self)@[*idx].on_resumed();
                &&& r == Some(after.pending(old(self).workers()))
                &&& final(self)@ == old(self)@.insert(*idx, after)
                &&& after.candidate == old(self)@[*idx].candidate
            },
            !old(self)@.contains_key(*idx) ==> final(self)@ == old(self)@,
            final(self).table() == old(self).table(),
            final(self).workers() == old(self).workers(),
    {
        match self.find(idx) {
            None => None,
            Some(p) => {
                let ghost before = self@;
                let e = self.take(p);
                let ghost m = e.state.model();
                self.table.check();
                proof {
                    lemma_step_consistent(m, self.table.workers(), BounceEvent::Resumed);
                }
                let after = e.state.on_resumed();
                let a = self.put(e.idx, after);
                assert(before.remove(*idx).insert(*idx, after.model()) =~= before.insert(
                    *idx,
                    after.model(),
                ));
                Some(a)
            },
        }
    }
}

proof fn lemma_entries_domain<S>(entries: Seq<Entry<S>>)
    requires
        distinct_keys(entries),
    ensures
        entries_map(entries).dom().finite(),
        entries_map(entries).dom().len() == entries.len(),
    decreases entries.len(),
{
    if entries.len() == 0 {
        assert(entries_map(entries).dom() =~= Set::<PixelIndexEntry>::empty());
    } else {
        let last = entries.len() - 1;
        lemma_entries_remove(entries, last);
        let rest = entries.remove(last);
        lemma_entries_domain(rest);
        lemma_position(entries, last);
        assert(entries_map(entries).dom().contains(entries[last].idx));
        assert(entries_map(rest).dom() =~= entries_map(entries).dom().remove(entries[last].idx));
        assert(entries_map(entries).dom() =~= entries_map(rest).dom().insert(entries[last].idx));
    }
}

/// What the host of a ray worker has to do for a message it received.
pub enum RayServerStep<C, R> {
    /// Stop announcing the worker.
    PauseAnnouncer,
    /// Announce the worker again.
    ResumeAnnouncer,
    /// Start a processor on this brick table, with this camera.
    Start(BrickTable, C),
    /// Trace this camera ray for this pixel sample.
    Trace(PixelIndexEntry, R),
    /// Nothing: the message lacked what its tag calls for, or came before the
    /// session's parameters, and was dropped.
    Dropped,
}

/// A ray worker's state: whether its announcer is paused, and whether it has
/// been given the parameters of a session.
pub struct RayServer {
    should_stop: bool,
    ready: bool,
}

impl RayServer {
    /// Whether the announcer is paused.
    pub closed spec fn stopped(self) -> bool {
        self.should_stop
    }

    /// Whether the parameters of a session have arrived.
    pub closed spec fn has_params(self) -> bool {
        self.ready
    }

    /// Whether message `msg` carries the parameters of a session.
    pub open spec fn shares_params<C, R>(msg: RayServerMessage<C, R>) -> bool {
        &&& msg.message_type == RayServerMessageType::SendObjectServerDirectory
        &&& msg.object_servers.is_some()
        &&& msg.camera.is_some()
    }

    /// What the host is asked to do for message `msg`. A pixel is traced only
    /// once the parameters are there.
    pub open spec fn spec_step<C, R>(ready: bool, msg: RayServerMessage<C, R>) -> RayServerStep<
        C,
        R,
    > {
        match msg.message_type {
            RayServerMessageType::Deregistration => RayServerStep::PauseAnnouncer,
            RayServerMessageType::Registration => RayServerStep::ResumeAnnouncer,
            RayServerMessageType::SendObjectServerDirectory => match (
                msg.object_servers,
                msg.camera,
            ) {
                (Some(table), Some(camera)) => RayServerStep::Start(table, camera),
                _ => RayServerStep::Dropped,
            },
            RayServerMessageType::SendPixel => match (msg.pixel_index, msg.ray) {
                (Some(idx), Some(ray)) => if ready {
                    RayServerStep::Trace(idx, ray)
                } else {
                    RayServerStep::Dropped
                },
                _ => RayServerStep::Dropped,
            },
            RayServerMessageType::CheckHit => RayServerStep::Dropped,
        }
    }

    /// A worker whose announcer runs and that has no parameters yet.
    pub fn new() -> (s: RayServer)
        ensures
            !s.stopped(),
            !s.has_params(),
    {
        RayServer { should_stop: false, ready: false }
    }

    /// Takes one message.
    pub fn handle_msg<C, R>(&mut self, msg: RayServerMessage<C, R>) -> (step: RayServerStep<C, R>)
        ensures
            step == Self::spec_step(old(self).has_params(), msg),
            final(self).has_params() == (old(self).has_params() || Self::shares_params(msg)),
            final(self).stopped() == match msg.message_type {
                RayServerMessageType::Deregistration => true,
                RayServerMessageType::Registration => false,
                _ => old(self).stopped(),
            },
    {
        match msg.message_type {
            RayServerMessageType::Deregistration => {
                self.should_stop = true;
                RayServerStep::PauseAnnouncer
            },
            RayServerMessageType::Registration => {
                self.should_stop = false;
                RayServerStep::ResumeAnnouncer
            },
            RayServerMessageType::SendObjectServerDirectory => match (
                msg.object_servers,
                msg.camera,
            ) {
                (Some(table), Some(camera)) => {
                    self.ready = true;
                    RayServerStep::Start(table, camera)
                },
                _ => RayServerStep::Dropped,
            },
            RayServerMessageType::SendPixel => match (msg.pixel_index, msg.ray) {
                (Some(idx), Some(ray)) => {
                    if self.ready {
                        RayServerStep::Trace(idx, ray)
                    } else {
                        RayServerStep::Dropped
                    }
                },
                _ => RayServerStep::Dropped,
            },
            RayServerMessageType::CheckHit => RayServerStep::Dropped,
        }
    }

    /// Whether the announcer is paused.
    pub fn should_stop(&self) -> (b: bool)
        ensures
            b == self.stopped(),
    {
        self.should_stop
    }

    /// Forgets the parameters, as a worker does when its session ends.
    pub fn end_session(&mut self)
        ensures
            !final(self).has_params(),
            final(self).stopped() == old(self).stopped(),
    {
        self.ready = false;
    }
}

} // verus!

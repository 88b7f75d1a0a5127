//! The object worker: the primitives it holds and how it takes a message.
//!
//! Intersecting a ray with the primitives is real-valued work that the
//! worker's host does on the list this module keeps; the host then settles
//! the bounce with `camera::ray_color_iteration`.

use vstd::prelude::*;
use crate::messages::{ObjectServerMessage, ObjectServerMessageType};

verus! {

/// What the host of an object worker has to do for a message it received.
pub enum ObjectServerStep<S> {
    /// Stop announcing the worker.
    PauseAnnouncer,
    /// Announce the worker again.
    ResumeAnnouncer,
    /// Nothing: the primitive was stored.
    Stored,
    /// Print the number of primitives held.
    PrintCount(usize),
    /// Bounce this ray state off the primitives held and answer with the
    /// successor and its flags.
    Bounce(S),
    /// Nothing: the message lacked what its tag calls for and was dropped.
    Dropped,
}

/// A bounce request changes nothing at the worker and is answered from the
/// request and the primitives alone: asked again with the same state, a
/// worker that holds the same primitives hands the host the same work.
pub proof fn bounce_request_changes_nothing<P, S>(
    objects: Seq<P>,
    stopped: bool,
    msg: ObjectServerMessage<P, S>,
)
    requires
        msg.message_type == ObjectServerMessageType::CheckHit,
    ensures
        ObjectServer::<P>::spec_objects(objects, msg) == objects,
        ObjectServer::<P>::spec_stopped(stopped, msg) == stopped,
        msg.ray_entry matches Some(entry) ==> ObjectServer::<P>::spec_step(objects, msg)
            == ObjectServerStep::Bounce(entry),
{
}

/// An object worker's state: its primitives, in the order they arrived, and
/// whether its announcer is paused.
pub struct ObjectServer<P> {
    objects: Vec<P>,
    should_stop: bool,
}

impl<P> ObjectServer<P> {
    /// The primitives held, oldest first.
    pub closed spec fn view(self) -> Seq<P> {
        self.objects@
    }

    /// Whether the announcer is paused.
    pub closed spec fn stopped(self) -> bool {
        self.should_stop
    }

    /// The primitives after message `msg`.
    pub open spec fn spec_objects<S>(objects: Seq<P>, msg: ObjectServerMessage<P, S>) -> Seq<P> {
        match (msg.message_type, msg.object_add) {
            (ObjectServerMessageType::AddObject, Some(object)) => objects.push(object),
            _ => objects,
        }
    }

    /// Whether the announcer is paused after message `msg`.
    pub open spec fn spec_stopped<S>(stopped: bool, msg: ObjectServerMessage<P, S>) -> bool {
        match msg.message_type {
            ObjectServerMessageType::Deregistration => true,
            ObjectServerMessageType::Registration => false,
            _ => stopped,
        }
    }

    /// What the host is asked to do for message `msg`.
    pub open spec fn spec_step<S>(objects: Seq<P>, msg: ObjectServerMessage<P, S>)
        -> ObjectServerStep<S> {
        match msg.message_type {
            ObjectServerMessageType::Deregistration => ObjectServerStep::PauseAnnouncer,
            ObjectServerMessageType::Registration => ObjectServerStep::ResumeAnnouncer,
            ObjectServerMessageType::AddObject => match msg.object_add {
                Some(_) => ObjectServerStep::Stored,
                None => ObjectServerStep::Dropped,
            },
            ObjectServerMessageType::PrintObjects => ObjectServerStep::PrintCount(
                objects.len() as usize,
            ),
            ObjectServerMessageType::CheckHit => match msg.ray_entry {
                Some(entry) => ObjectServerStep::Bounce(entry),
                None => ObjectServerStep::Dropped,
            },
        }
    }

    /// A worker without primitives whose announcer runs.
    pub fn new() -> (s: Self)
        ensures
            s@ == Seq::<P>::empty(),
            !s.stopped(),
    {
        ObjectServer { objects: Vec::new(), should_stop: false }
    }

    /// Takes one message. Only `AddObject` changes the primitives, and it
    /// appends; only the two registration tags touch the announcer. A bounce
    /// request leaves the worker as it is, so asking again gives the host the
    /// same work on the same primitives.
    pub fn handle_msg<S>(&mut self, msg: ObjectServerMessage<P, S>) -> (step: ObjectServerStep<S>)
        ensures
            final(self)@ == Self::spec_objects(old(self)@, msg),
            final(self).stopped() == Self::spec_stopped(old(self).stopped(), msg),
            step == Self::spec_step(old(self)@, msg),
    {
        match msg.message_type {
            ObjectServerMessageType::Deregistration => {
                self.should_stop = true;
                ObjectServerStep::PauseAnnouncer
            },
            ObjectServerMessageType::Registration => {
                self.should_stop = false;
                ObjectServerStep::ResumeAnnouncer
            },
            ObjectServerMessageType::AddObject => match msg.object_add {
                Some(object) => {
                    self.objects.push(object);
                    ObjectServerStep::Stored
                },
                None => ObjectServerStep::Dropped,
            },
            ObjectServerMessageType::PrintObjects => ObjectServerStep::PrintCount(
                self.objects.len(),
            ),
            ObjectServerMessageType::CheckHit => match msg.ray_entry {
                Some(entry) => ObjectServerStep::Bounce(entry),
                None => ObjectServerStep::Dropped,
            },
        }
    }

    /// The primitives held, oldest first.
    pub fn objects(&self) -> (r: &Vec<P>)
        ensures
            r@ == self@,
    {
        &self.objects
    }

    /// Number of primitives held.
    pub fn len(&self) -> (n: usize)
        ensures
            n == self@.len(),
    {
        self.objects.len()
    }

    /// Whether the announcer is paused.
    pub fn should_stop(&self) -> (b: bool)
        ensures
            b == self.stopped(),
    {
        self.should_stop
    }

    /// Drops every primitive, as a worker does when its session ends.
    pub fn clear(&mut self)
        ensures
            final(self)@ == Seq::<P>::empty(),
            final(self).stopped() == old(self).stopped(),
    {
        self.objects.clear();
    }
}

} // verus!

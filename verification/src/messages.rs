//! Roles, endpoints and message tags shared by every process of the fabric.

use vstd::prelude::*;
use crate::bricks::BrickTable;
use crate::camera::{PixelIndexEntry, RayColorStatus};

verus! {

/// Number of worker roles; the roster keeps one list per role.
pub const NUM_SERVER_TYPES: usize = 2;

/// Role a worker announces during discovery.
#[derive(Clone, Copy, PartialEq, Eq, Structural, Debug, Hash)]
pub enum ServerType {
    Ray,
    Object,
}

impl ServerType {
    /// Position of the role's list in the roster and its byte on the wire.
    pub open spec fn spec_index(self) -> int {
        match self {
            ServerType::Ray => 0,
            ServerType::Object => 1,
        }
    }

    /// The role announced by wire byte `b`, if `b` names a role.
    pub open spec fn spec_from_role_byte(b: u8) -> Option<ServerType> {
        if b == 0 {
            Some(ServerType::Ray)
        } else if b == 1 {
            Some(ServerType::Object)
        } else {
            None
        }
    }

    pub fn index(self) -> (r: usize)
        ensures
            r == self.spec_index(),
            r < NUM_SERVER_TYPES,
    {
        match self {
            ServerType::Ray => 0,
            ServerType::Object => 1,
        }
    }

    /// Byte that stands for the role in a discovery datagram.
    pub fn role_byte(self) -> (b: u8)
        ensures
            b == self.spec_index(),
            Self::spec_from_role_byte(b) == Some(self),
    {
        match self {
            ServerType::Ray => 0,
            ServerType::Object => 1,
        }
    }

    /// Reads a role byte; any byte other than the two role bytes is rejected.
    pub fn from_role_byte(b: u8) -> (r: Option<ServerType>)
        ensures
            r == Self::spec_from_role_byte(b),
            r matches Some(t) ==> t.spec_index() == b,
    {
        if b == 0 {
            Some(ServerType::Ray)
        } else if b == 1 {
            Some(ServerType::Object)
        } else {
            None
        }
    }

    /// Human-readable name of the role.
    pub fn name(self) -> (s: &'static str)
        ensures
            self == ServerType::Ray ==> s@ == "Ray"@,
            self == ServerType::Object ==> s@ == "Object"@,
    {
        match self {
            ServerType::Ray => "Ray",
            ServerType::Object => "Object",
        }
    }
}

/// An IPv4 socket address: the four address octets packed big-endian, and the port.
#[derive(Clone, Copy, PartialEq, Eq, Structural, Debug, Hash)]
pub struct Endpoint {
    pub host: u32,
    pub port: u16,
}

/// Body of a discovery datagram.
#[derive(Clone, Copy, PartialEq, Eq, Structural, Debug)]
pub struct ServerDiscoveryMessage {
    pub server_type: ServerType,
    pub socket_addr: Endpoint,
}

/// Requests an object worker understands.
#[derive(Clone, Copy, PartialEq, Eq, Structural, Debug)]
pub enum ObjectServerMessageType {
    Deregistration,
    Registration,
    AddObject,
    PrintObjects,
    CheckHit,
}

/// Requests a ray worker understands.
#[derive(Clone, Copy, PartialEq, Eq, Structural, Debug)]
pub enum RayServerMessageType {
    Deregistration,
    Registration,
    SendObjectServerDirectory,
    SendPixel,
    CheckHit,
}

/// Messages exchanged between the client and the orchestrator.
#[derive(Clone, Copy, PartialEq, Eq, Structural, Debug)]
pub enum OrchestratorServerMessageType {
    SendObject,
    BeginRaytracing,
    ReceivePixel,
}

/// A message to or from an object worker. `P` is the type of a scene
/// primitive and `S` the type of a ray state.
pub struct ObjectServerMessage<P, S> {
    pub message_type: ObjectServerMessageType,
    pub object_add: Option<P>,
    pub ray_entry: Option<S>,
    pub ray_status: Option<RayColorStatus>,
}

impl<P, S> ObjectServerMessage<P, S> {
    /// A message that is only its tag.
    pub fn new_no_data(message_type: ObjectServerMessageType) -> (m: Self)
        ensures
            m == (ObjectServerMessage::<P, S> {
                message_type,
                object_add: None,
                ray_entry: None,
                ray_status: None,
            }),
    {
        ObjectServerMessage { message_type, object_add: None, ray_entry: None, ray_status: None }
    }

    /// Asks the worker to keep `object`.
    pub fn new_object_add(object: P) -> (m: Self)
        ensures
            m == (ObjectServerMessage::<P, S> {
                message_type: ObjectServerMessageType::AddObject,
                object_add: Some(object),
                ray_entry: None,
                ray_status: None,
            }),
    {
        ObjectServerMessage {
            message_type: ObjectServerMessageType::AddObject,
            object_add: Some(object),
            ray_entry: None,
            ray_status: None,
        }
    }

    /// Asks the worker for one bounce of `ray_entry`.
    pub fn new_ray_check(ray_entry: S) -> (m: Self)
        ensures
            m == (ObjectServerMessage::<P, S> {
                message_type: ObjectServerMessageType::CheckHit,
                object_add: None,
                ray_entry: Some(ray_entry),
                ray_status: None,
            }),
    {
        ObjectServerMessage {
            message_type: ObjectServerMessageType::CheckHit,
            object_add: None,
            ray_entry: Some(ray_entry),
            ray_status: None,
        }
    }

    /// The worker's answer to a bounce: the successor state and its flags.
    pub fn new_ray_check_response(ray_entry: S, ray_status: RayColorStatus) -> (m: Self)
        ensures
            m == (ObjectServerMessage::<P, S> {
                message_type: ObjectServerMessageType::CheckHit,
                object_add: None,
                ray_entry: Some(ray_entry),
                ray_status: Some(ray_status),
            }),
    {
        ObjectServerMessage {
            message_type: ObjectServerMessageType::CheckHit,
            object_add: None,
            ray_entry: Some(ray_entry),
            ray_status: Some(ray_status),
        }
    }
}

/// A message to or from a ray worker. `C` is the type of the camera
/// descriptor and `R` the type of a ray.
pub struct RayServerMessage<C, R> {
    pub message_type: RayServerMessageType,
    /// The bricks and, for each, the object workers that serve it.
    pub object_servers: Option<BrickTable>,
    pub camera: Option<C>,
    pub pixel_index: Option<PixelIndexEntry>,
    pub ray: Option<R>,
}

impl<C, R> RayServerMessage<C, R> {
    /// A message that is only its tag.
    pub fn new_no_data(message_type: RayServerMessageType) -> (m: Self)
        ensures
            m == (RayServerMessage::<C, R> {
                message_type,
                object_servers: None,
                camera: None,
                pixel_index: None,
                ray: None,
            }),
    {
        RayServerMessage {
            message_type,
            object_servers: None,
            camera: None,
            pixel_index: None,
            ray: None,
        }
    }

    /// Shares the brick table and the camera of the session.
    pub fn new_share_params(server_directory: BrickTable, camera: C) -> (m: Self)
        ensures
            m == (RayServerMessage::<C, R> {
                message_type: RayServerMessageType::SendObjectServerDirectory,
                object_servers: Some(server_directory),
                camera: Some(camera),
                pixel_index: None,
                ray: None,
            }),
    {
        RayServerMessage {
            message_type: RayServerMessageType::SendObjectServerDirectory,
            object_servers: Some(server_directory),
            camera: Some(camera),
            pixel_index: None,
            ray: None,
        }
    }

    /// Hands out one camera ray.
    pub fn new_share_ray(pixel_index: PixelIndexEntry, ray: R) -> (m: Self)
        ensures
            m == (RayServerMessage::<C, R> {
                message_type: RayServerMessageType::SendPixel,
                object_servers: None,
                camera: None,
                pixel_index: Some(pixel_index),
                ray: Some(ray),
            }),
    {
        RayServerMessage {
            message_type: RayServerMessageType::SendPixel,
            object_servers: None,
            camera: None,
            pixel_index: Some(pixel_index),
            ray: Some(ray),
        }
    }
}

/// A message between the client and the orchestrator, or a finished sample on
/// its way back. `P` is the type of a scene primitive, `C` of the camera
/// descriptor and `V` of a colour.
pub struct OrchestratorServerMessage<P, C, V> {
    pub message_type: OrchestratorServerMessageType,
    pub object: Option<P>,
    pub camera: Option<C>,
    pub pixel_index: Option<PixelIndexEntry>,
    pub pixel_color: Option<V>,
}

impl<P, C, V> OrchestratorServerMessage<P, C, V> {
    /// Starts the rendering with `camera`.
    pub fn new_raytrace(camera: C) -> (m: Self)
        ensures
            m == (OrchestratorServerMessage::<P, C, V> {
                message_type: OrchestratorServerMessageType::BeginRaytracing,
                object: None,
                camera: Some(camera),
                pixel_index: None,
                pixel_color: None,
            }),
    {
        OrchestratorServerMessage {
            message_type: OrchestratorServerMessageType::BeginRaytracing,
            object: None,
            camera: Some(camera),
            pixel_index: None,
            pixel_color: None,
        }
    }

    /// Adds `object` to the scene.
    pub fn new_add_object(object: P) -> (m: Self)
        ensures
            m == (OrchestratorServerMessage::<P, C, V> {
                message_type: OrchestratorServerMessageType::SendObject,
                object: Some(object),
                camera: None,
                pixel_index: None,
                pixel_color: None,
            }),
    {
        OrchestratorServerMessage {
            message_type: OrchestratorServerMessageType::SendObject,
            object: Some(object),
            camera: None,
            pixel_index: None,
            pixel_color: None,
        }
    }

    /// A finished sample: its pixel index and its colour.
    pub fn new_pixel_response(pixel_index: PixelIndexEntry, pixel_color: V) -> (m: Self)
        ensures
            m == (OrchestratorServerMessage::<P, C, V> {
                message_type: OrchestratorServerMessageType::ReceivePixel,
                object: None,
                camera: None,
                pixel_index: Some(pixel_index),
                pixel_color: Some(pixel_color),
            }),
    {
        OrchestratorServerMessage {
            message_type: OrchestratorServerMessageType::ReceivePixel,
            object: None,
            camera: None,
            pixel_index: Some(pixel_index),
            pixel_color: Some(pixel_color),
        }
    }
}

} // verus!

//! Verified core of a distributed path tracer.
//!
//! A client hands a scene and a camera to an orchestrator. The orchestrator
//! discovers workers, lays a lattice of bricks over the scene, sends every
//! primitive to the object workers of the bricks it touches and deals the
//! camera's rays to ray workers. A ray worker bounces each ray through the
//! bricks along its way, consulting their object workers, and returns the
//! sample, which the client adds to its framebuffer.
//!
//! This crate holds the rules of that fabric and proves them: the roster and
//! the discovery window ([`discovery`]), the lattice and the brick table
//! ([`bricks`]), the life cycle of a session, routing and dealing
//! ([`orchestrator_server`]), the schedule of samples and the decision on a
//! bounce ([`camera`]), the order of hits along a ray ([`hittable_list`]),
//! the bounce loop ([`ray_server`]), the object worker ([`object_server`]),
//! frames ([`framing`]), the counting of samples ([`samples`]) and the
//! framebuffer ([`client`]).
//!
//! Real-valued geometry (vectors, spheres, materials, the camera model) is
//! not part of this crate. Wherever the fabric only carries such a value it
//! is a type parameter, and wherever it has to order values by a positive
//! real it takes an integer key that orders the same way.

pub mod bricks;
pub mod camera;
pub mod client;
pub mod config;
pub mod discovery;
pub mod error;
pub mod framing;
pub mod hittable_list;
pub mod material;
pub mod messages;
pub mod object_server;
pub mod orchestrator_server;
pub mod ray_server;
pub mod samples;

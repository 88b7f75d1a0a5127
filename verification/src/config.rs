//! Addresses, ports and times the processes of the fabric agree on.

use vstd::prelude::*;
use crate::messages::Endpoint;

verus! {

/// First port a worker may listen on.
pub const TCP_START_PORT: u16 = 8000;

/// Last port a worker may listen on.
pub const TCP_END_PORT: u16 = 9000;

/// The multicast group of the announcements, 224.0.0.0, octets packed big-endian.
pub const MULTICAST_ADDR: u32 = 0xe000_0000;

/// The port of the announcements.
pub const MULTICAST_PORT: u16 = 7784;

/// The loopback address 127.0.0.1, octets packed big-endian.
pub const LOCALHOST: u32 = 0x7f00_0001;

/// The port on which the orchestrator takes the client's session.
pub const ORCHESTRATOR_CLIENT_PORT: u16 = 27301;

/// The port on which the orchestrator takes finished samples from ray workers.
pub const ORCHESTRATOR_SERVER_PORT: u16 = 27302;

/// How often the brick lattice is laid out.
pub const NUM_REPEAT_OBJECT: u16 = 10;

/// Seconds between two announcements of a worker.
pub const ANNOUNCE_INTERVAL_SECS: u64 = 3;

/// Seconds a ray worker pauses after every replica of a brick failed.
pub const RETRY_BACKOFF_SECS: u64 = 5;

/// Seconds a connect, a read or a write may take.
pub const TRANSPORT_TIMEOUT_SECS: u64 = 5;

/// Seconds the orchestrator waits for ray workers to acknowledge the parameters.
pub const ACK_TIMEOUT_SECS: u64 = 5;

/// Seconds without a returning sample after which a draining session ends.
pub const RETURN_IDLE_SECS: u64 = 600;

/// Where the orchestrator takes the client's session.
pub fn orchestrator_client_connection_socket() -> (e: Endpoint)
    ensures
        e == (Endpoint { host: LOCALHOST, port: ORCHESTRATOR_CLIENT_PORT }),
{
    Endpoint { host: LOCALHOST, port: ORCHESTRATOR_CLIENT_PORT }
}

/// Where the orchestrator takes finished samples from ray workers.
pub fn orchestrator_server_connection_socket() -> (e: Endpoint)
    ensures
        e == (Endpoint { host: LOCALHOST, port: ORCHESTRATOR_SERVER_PORT }),
{
    Endpoint { host: LOCALHOST, port: ORCHESTRATOR_SERVER_PORT }
}

/// Where announcements are sent and heard.
pub fn multicast_socket() -> (e: Endpoint)
    ensures
        e == (Endpoint { host: MULTICAST_ADDR, port: MULTICAST_PORT }),
{
    Endpoint { host: MULTICAST_ADDR, port: MULTICAST_PORT }
}

/// Whether a worker may listen on `port`.
pub fn is_worker_port(port: u16) -> (b: bool)
    ensures
        b == (TCP_START_PORT <= port <= TCP_END_PORT),
{
    TCP_START_PORT <= port && port <= TCP_END_PORT
}

} // verus!

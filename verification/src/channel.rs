use vstd::prelude::*;

use crate::err::{NodeConnectError, NodeDisconnectError, UpdateInputDefaultError};
use crate::ids::{NodeId, SocketId};
use crate::FrameCount;

verus! {

// --- Field <-> Frontend ---

/// Orders from the frontend to a node field.
pub enum FrontToField<V> {
    /// End the main loop of the node field.
    Shutdown,
    NodeConnect {
        upstream_node_id: NodeId,
        upstream_node_socket_id: SocketId,
        downstream_node_id: NodeId,
        downstream_node_socket_id: SocketId,
    },
    /// Take away the connection of an input socket.
    NodeDisconnect { downstream_node_id: NodeId, downstream_node_socket_id: SocketId },
    /// Take away a connection after checking that it is there.
    NodeDisconnectSafe {
        upstream_node_id: NodeId,
        upstream_node_socket_id: SocketId,
        downstream_node_id: NodeId,
        downstream_node_socket_id: SocketId,
    },
    /// Update the default value of an input socket; `value_type` is the type
    /// of the value.
    UpdateInputDefaultValue { node_id: NodeId, socket_id: SocketId, value: V, value_type: u64 },
}

/// The answers of a node field to the orders of the frontend.
pub enum FrontToFieldResult<V> {
    Shutdown(Result<(), ()>),
    NodeConnect(Result<(), NodeConnectError>),
    NodeDisconnect(Result<(), NodeDisconnectError>),
    NodeDisconnectSafe(Result<(), NodeDisconnectError>),
    UpdateInputDefaultValue(Result<(), UpdateInputDefaultError<V>>),
}

// --- Node <-> Node ---

/// Orders from a downstream node to an upstream one.
#[derive(Debug, Clone, Copy, PartialEq, Eq, Structural)]
pub enum NodeOrder {
    /// Ask for the value of a frame.
    Request { frame: FrameCount },
    /// Outcome of the type check of a connection.
    TypeConformed,
    TypeRejected,
}

/// Answers from an upstream node to a downstream one.
pub enum NodeResponse<V> {
    ProcessFailed,
    Shared(V),
    /// The type of the upstream socket, for the check of a new connection.
    CompatibleCheck { type_id: u64, upstream_socket_id: SocketId },
    /// Token that checks a connection.
    ConnectionChecker(u128),
    /// The default value of an input or the upstream node has changed.
    DeleteCache,
}

/// The message that stops a node being played.
pub struct StopNode;

// --- Backend <-> Node ---

pub enum BackendToNode {
    Shutdown,
}

pub enum NodeToBackend {
    Error,
}

/// The answer an input socket gives to the first message of an upstream
/// socket that connects to it, with the outcome of the connection: the
/// upstream socket must announce its type, and that type must be the one
/// the input socket takes.
pub fn connect_handshake<V>(expected_type: u64, response: &NodeResponse<V>) -> (r: Option<
    (NodeOrder, Result<SocketId, NodeConnectError>),
>)
    ensures
        match response {
            NodeResponse::CompatibleCheck { type_id, upstream_socket_id } => if *type_id
                == expected_type {
                r == Some((NodeOrder::TypeConformed, Ok::<SocketId, NodeConnectError>(*upstream_socket_id)))
            } else {
                r == Some((NodeOrder::TypeRejected, Err::<SocketId, NodeConnectError>(NodeConnectError::TypeRejected)))
            },
            _ => r is None,
        },
{
    match response {
        NodeResponse::CompatibleCheck { type_id, upstream_socket_id } => {
            if *type_id == expected_type {
                Some((NodeOrder::TypeConformed, Ok(*upstream_socket_id)))
            } else {
                Some((NodeOrder::TypeRejected, Err(NodeConnectError::TypeRejected)))
            }
        },
        _ => None,
    }
}

/// Whether the messages received on an input channel ask the node to drop
/// its cache.
pub fn has_delete_cache_request<V>(messages: &Vec<NodeResponse<V>>) -> (r: bool)
    ensures
        r == exists|i: int| 0 <= i < messages@.len() && messages@[i] is DeleteCache,
{
    let mut i: usize = 0;
    while i < messages.len()
        invariant
            i <= messages@.len(),
            forall|j: int| 0 <= j < i ==> !(messages@[j] is DeleteCache),
        decreases messages@.len() - i,
    {
        match &messages[i] {
            NodeResponse::DeleteCache => {
                return true;
            },
            _ => {},
        }
        i = i + 1;
    }
    false
}

} // verus!

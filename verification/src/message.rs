use vstd::prelude::*;

use crate::ids::{NodeId, PluginId, SocketId};
use crate::FrameCount;

verus! {

/// Questions to the node field.
pub enum FieldReq {
    Id,
    Name,
    AllNodes(Vec<NodeId>),
    CacheDepth { node: NodeId },
}

/// Operations on the node field; a new default value carries the type of
/// the value in `value_type`.
pub enum FieldOp<V> {
    AddNode(PluginId),
    RemoveNode(NodeId),
    Connect {
        upstream_node: NodeId,
        upstream_socket: SocketId,
        downstream_node: NodeId,
        downstream_socket: SocketId,
    },
    ConservativeConnect {
        upstream_node: NodeId,
        upstream_socket: SocketId,
        downstream_node: NodeId,
        downstream_socket: SocketId,
    },
    Disconnect { downstream_node: NodeId, downstream_socket: SocketId },
    ConservativeDisconnect {
        upstream_node: NodeId,
        upstream_socket: SocketId,
        downstream_node: NodeId,
        downstream_socket: SocketId,
    },
    CheckConnection {
        upstream_node: NodeId,
        upstream_socket: SocketId,
        downstream_node: NodeId,
        downstream_socket: SocketId,
    },
    DisconnectAllFromOutput { node: NodeId, socket: SocketId },
    DisconnectAll { node: NodeId },
    UpdateInputDefault { node: NodeId, socket: SocketId, default: V, value_type: u64 },
    CacheClear(NodeId),
    CacheSetDepth { node: NodeId, depth: usize },
    CacheClearAll,
    CacheSetDepthAll(usize),
    Call { node: NodeId, frame: FrameCount },
    Play { node: NodeId, frame: FrameCount },
    Stop,
}

/// Messages from the frontend to the backend.
pub enum MessageToBackend<V> {
    // manager
    AllPlugins(PluginId),
    Shutdown,
    // node field
    ControllerReq(FieldReq),
    ControllerOp(FieldOp<V>),
}

} // verus!

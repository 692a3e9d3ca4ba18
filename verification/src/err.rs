use vstd::prelude::*;

verus! {

// --- Node connect and disconnect errors ---

#[derive(Debug, PartialEq, Eq, Structural, Clone, Copy)]
pub enum NodeConnectError {
    NodeIdNotFound,
    SocketIdNotFound,
    TypeRejected,
    InputNotEmpty,
}

#[derive(Debug, PartialEq, Eq, Structural, Clone, Copy)]
pub enum NodeDisconnectError {
    NotConnected,
    NodeIdNotFound,
    SocketIdNotFound,
}

#[derive(Debug, PartialEq, Eq, Structural, Clone, Copy)]
pub enum NodeRemoveError {
    NodeIdNotFound,
    DisconnectError(NodeDisconnectError),
}

// --- Node connection check errors ---

#[derive(Debug, PartialEq, Eq, Structural, Clone, Copy)]
pub enum NodeConnectionCheckError {
    NodeIdNotFound,
    SocketIdNotFound,
    ChannelClosed,
    NotConnected,
}

// --- Node send order, response errors ---

#[derive(Debug, PartialEq, Eq, Structural, Clone, Copy)]
pub enum NodeSendResponseError {
    ChannelClosed,
    DownstreamNodeIdNotFound,
}

// --- Node update input default value errors ---

/// Why a new default value was refused; the value is handed back.
#[derive(Debug)]
pub enum UpdateInputDefaultError<V> {
    NodeIdNotFound(V),
    SocketIdNotFound(V),
    TypeRejected(V),
    DefaultValueNotEnabled(V),
}

/// The value that an update of a default value handed back.
pub open spec fn refused_value<V>(e: UpdateInputDefaultError<V>) -> V {
    match e {
        UpdateInputDefaultError::NodeIdNotFound(v) => v,
        UpdateInputDefaultError::SocketIdNotFound(v) => v,
        UpdateInputDefaultError::TypeRejected(v) => v,
        UpdateInputDefaultError::DefaultValueNotEnabled(v) => v,
    }
}

} // verus!

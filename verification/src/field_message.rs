use vstd::prelude::*;

use crate::channel::{FrontToField, FrontToFieldResult};
use crate::err::{NodeConnectError, NodeDisconnectError, UpdateInputDefaultError};
use crate::ids::{NodeId, SocketId};
use crate::node_controller::{
    after_connect, after_disconnect, connect_outcome, ends_exist, ends_have_nodes, has_input,
    has_node, input_of, node_of, default_set, Connection, InputSocket, NodeController,
};

verus! {

/// The input socket `socket` of the node `node` of the field.
pub open spec fn input_of_node<V>(
    field: NodeController<V>,
    node: NodeId,
    socket: SocketId,
) -> InputSocket<V> {
    input_of(node_of(field.nodes(), node), socket)
}

/// What taking away the connection of an input socket answers.
pub open spec fn disconnect_outcome<V>(
    field: NodeController<V>,
    node: NodeId,
    socket: SocketId,
) -> Result<(), NodeDisconnectError> {
    if !has_node(field.nodes(), node) {
        Err(NodeDisconnectError::NodeIdNotFound)
    } else if !has_input(node_of(field.nodes(), node), socket) {
        Err(NodeDisconnectError::SocketIdNotFound)
    } else if !field.input_connected(node, socket) {
        Err(NodeDisconnectError::NotConnected)
    } else {
        Ok(())
    }
}

/// What taking away a checked connection answers.
pub open spec fn safe_disconnect_outcome<V>(
    field: NodeController<V>,
    c: Connection,
) -> Result<(), NodeDisconnectError> {
    if !ends_have_nodes(field.nodes(), c.upstream_node, c.downstream_node) {
        Err(NodeDisconnectError::NodeIdNotFound)
    } else if !ends_exist(
        field.nodes(),
        c.upstream_node,
        c.upstream_socket,
        c.downstream_node,
        c.downstream_socket,
    ) {
        Err(NodeDisconnectError::SocketIdNotFound)
    } else if !field.connections().contains(c) {
        Err(NodeDisconnectError::NotConnected)
    } else {
        Ok(())
    }
}

/// Which error a new default value of an input socket meets, if any.
pub open spec fn default_refusal<V>(
    field: NodeController<V>,
    node: NodeId,
    socket: SocketId,
    value_type: u64,
) -> Option<u8> {
    if !has_node(field.nodes(), node) {
        Some(0)
    } else if !has_input(node_of(field.nodes(), node), socket) {
        Some(1)
    } else if input_of(node_of(field.nodes(), node), socket).default_type != value_type {
        Some(2)
    } else if input_of(node_of(field.nodes(), node), socket).default_value is None {
        Some(3)
    } else {
        None
    }
}

/// The error that a refusal of `default_refusal` stands for, with the value
/// handed back.
pub open spec fn refusal_error<V>(code: u8, value: V) -> UpdateInputDefaultError<V> {
    if code == 0 {
        UpdateInputDefaultError::NodeIdNotFound(value)
    } else if code == 1 {
        UpdateInputDefaultError::SocketIdNotFound(value)
    } else if code == 2 {
        UpdateInputDefaultError::TypeRejected(value)
    } else {
        UpdateInputDefaultError::DefaultValueNotEnabled(value)
    }
}

impl<V> NodeController<V> {
    /// Connect an output socket to an input socket, taking away the
    /// connection the input socket had.
    pub fn node_force_connect(
        &mut self,
        upstream_node_id: NodeId,
        upstream_node_socket_id: SocketId,
        downstream_node_id: NodeId,
        downstream_node_socket_id: SocketId,
    ) -> (r: Result<(), NodeConnectError>)
        requires
            old(self).wf(),
        ensures
            final(self).wf(),
            final(self).spec_id() == old(self).spec_id(),
            final(self).spec_name() == old(self).spec_name(),
            final(self).nodes() == old(self).nodes(),
            final(self).spec_playing() == old(self).spec_playing(),
            r == connect_outcome(
                old(self).nodes(),
                upstream_node_id,
                upstream_node_socket_id,
                downstream_node_id,
                downstream_node_socket_id,
            ),
            final(self).connections() == if r is Ok {
                after_connect(
                    old(self).connections(),
                    Connection {
                        upstream_node: upstream_node_id,
                        upstream_socket: upstream_node_socket_id,
                        downstream_node: downstream_node_id,
                        downstream_socket: downstream_node_socket_id,
                    },
                )
            } else {
                old(self).connections()
            },
    {
        self.node_connect(
            upstream_node_id,
            upstream_node_socket_id,
            downstream_node_id,
            downstream_node_socket_id,
        )
    }

    /// Take away the connection between the two sockets after checking that
    /// it is there.
    pub fn node_disconnect_safe(
        &mut self,
        upstream_node_id: NodeId,
        upstream_node_socket_id: SocketId,
        downstream_node_id: NodeId,
        downstream_node_socket_id: SocketId,
    ) -> (r: Result<(), NodeDisconnectError>)
        requires
            old(self).wf(),
        ensures
            final(self).wf(),
            final(self).spec_id() == old(self).spec_id(),
            final(self).spec_name() == old(self).spec_name(),
            final(self).nodes() == old(self).nodes(),
            final(self).spec_playing() == old(self).spec_playing(),
            r == safe_disconnect_outcome(
                *old(self),
                Connection {
                    upstream_node: upstream_node_id,
                    upstream_socket: upstream_node_socket_id,
                    downstream_node: downstream_node_id,
                    downstream_socket: downstream_node_socket_id,
                },
            ),
            final(self).connections() == if r is Ok {
                old(self).connections().remove(
                    Connection {
                        upstream_node: upstream_node_id,
                        upstream_socket: upstream_node_socket_id,
                        downstream_node: downstream_node_id,
                        downstream_socket: downstream_node_socket_id,
                    },
                )
            } else {
                old(self).connections()
            },
    {
        self.node_conservative_disconnect(
            upstream_node_id,
            upstream_node_socket_id,
            downstream_node_id,
            downstream_node_socket_id,
        )
    }

    /// Set a new default value of an input socket; `value_type` is the type
    /// of the value. A refused value is handed back in the error.
    pub fn update_input_default(
        &mut self,
        node_id: NodeId,
        input_socket_id: SocketId,
        value: V,
        value_type: u64,
    ) -> (r: Result<(), UpdateInputDefaultError<V>>)
        requires
            old(self).wf(),
        ensures
            final(self).wf(),
            final(self).spec_id() == old(self).spec_id(),
            final(self).spec_name() == old(self).spec_name(),
            final(self).spec_playing() == old(self).spec_playing(),
            final(self).connections() == old(self).connections(),
            match default_refusal(*old(self), node_id, input_socket_id, value_type) {
                Some(code) => {
                    &&& r == Err::<(), UpdateInputDefaultError<V>>(refusal_error(code, value))
                    &&& final(self).nodes() == old(self).nodes()
                },
                None => {
                    &&& r is Ok
                    &&& final(self).nodes().len() == old(self).nodes().len()
                    &&& has_node(final(self).nodes(), node_id)
                    &&& has_input(node_of(final(self).nodes(), node_id), input_socket_id)
                    &&& input_of_node(*final(self), node_id, input_socket_id).default_value
                        == Some(value)
                    &&& input_of_node(*final(self), node_id, input_socket_id).default_type
                        == value_type
                    &&& default_set(old(self).nodes(), final(self).nodes(), node_id, input_socket_id, value, value_type)
                },
            },
    {
        self.node_update_input_default(node_id, input_socket_id, value, value_type)
    }

    /// Carry out one order of the frontend; answers the result of the order
    /// and whether the main loop of the field ends with it.
    pub fn handle_front_message(&mut self, message: FrontToField<V>) -> (r: (
        FrontToFieldResult<V>,
        bool,
    ))
        requires
            old(self).wf(),
        ensures
            final(self).wf(),
            final(self).spec_id() == old(self).spec_id(),
            final(self).spec_name() == old(self).spec_name(),
            final(self).spec_playing() == old(self).spec_playing(),
            r.1 == (message is Shutdown),
            match message {
                FrontToField::Shutdown => {
                    &&& r.0 == FrontToFieldResult::<V>::Shutdown(Ok(()))
                    &&& final(self).nodes() == old(self).nodes()
                    &&& final(self).connections() == old(self).connections()
                },
                FrontToField::NodeConnect {
                    upstream_node_id,
                    upstream_node_socket_id,
                    downstream_node_id,
                    downstream_node_socket_id,
                } => {
                    let res = connect_outcome(
                        old(self).nodes(),
                        upstream_node_id,
                        upstream_node_socket_id,
                        downstream_node_id,
                        downstream_node_socket_id,
                    );
                    &&& r.0 == FrontToFieldResult::<V>::NodeConnect(res)
                    &&& final(self).nodes() == old(self).nodes()
                    &&& final(self).connections() == if res is Ok {
                        after_connect(
                            old(self).connections(),
                            Connection {
                                upstream_node: upstream_node_id,
                                upstream_socket: upstream_node_socket_id,
                                downstream_node: downstream_node_id,
                                downstream_socket: downstream_node_socket_id,
                            },
                        )
                    } else {
                        old(self).connections()
                    }
                },
                FrontToField::NodeDisconnect { downstream_node_id, downstream_node_socket_id } => {
                    &&& r.0 == FrontToFieldResult::<V>::NodeDisconnect(
                        disconnect_outcome(*old(self), downstream_node_id, downstream_node_socket_id),
                    )
                    &&& final(self).nodes() == old(self).nodes()
                    &&& final(self).connections() == after_disconnect(
                        old(self).connections(),
                        downstream_node_id,
                        downstream_node_socket_id,
                    )
                },
                FrontToField::NodeDisconnectSafe {
                    upstream_node_id,
                    upstream_node_socket_id,
                    downstream_node_id,
                    downstream_node_socket_id,
                } => {
                    let c = Connection {
                        upstream_node: upstream_node_id,
                        upstream_socket: upstream_node_socket_id,
                        downstream_node: downstream_node_id,
                        downstream_socket: downstream_node_socket_id,
                    };
                    let res = safe_disconnect_outcome(*old(self), c);
                    &&& r.0 == FrontToFieldResult::<V>::NodeDisconnectSafe(res)
                    &&& final(self).nodes() == old(self).nodes()
                    &&& final(self).connections() == if res is Ok {
                        old(self).connections().remove(c)
                    } else {
                        old(self).connections()
                    }
                },
                FrontToField::UpdateInputDefaultValue { node_id, socket_id, value, value_type } => {
                    &&& final(self).connections() == old(self).connections()
                    &&& match default_refusal(*old(self), node_id, socket_id, value_type) {
                        Some(code) => {
                            &&& r.0 == FrontToFieldResult::UpdateInputDefaultValue(
                                Err(refusal_error(code, value)),
                            )
                            &&& final(self).nodes() == old(self).nodes()
                        },
                        None => {
                            &&& r.0 matches FrontToFieldResult::UpdateInputDefaultValue(Ok(_))
                            &&& final(self).nodes().len() == old(self).nodes().len()
                            &&& has_node(final(self).nodes(), node_id)
                            &&& has_input(node_of(final(self).nodes(), node_id), socket_id)
                            &&& input_of_node(*final(self), node_id, socket_id).default_value
                                == Some(value)
                            &&& default_set(old(self).nodes(), final(self).nodes(), node_id, socket_id, value, value_type)
                        },
                    }
                },
            },
    {
        match message {
            FrontToField::Shutdown => (FrontToFieldResult::Shutdown(Ok(())), true),
            FrontToField::NodeConnect {
                upstream_node_id,
                upstream_node_socket_id,
                downstream_node_id,
                downstream_node_socket_id,
            } => {
                let res = self.node_force_connect(
                    upstream_node_id,
                    upstream_node_socket_id,
                    downstream_node_id,
                    downstream_node_socket_id,
                );
                (FrontToFieldResult::NodeConnect(res), false)
            },
            FrontToField::NodeDisconnect { downstream_node_id, downstream_node_socket_id } => {
                let res = self.node_disconnect(downstream_node_id, downstream_node_socket_id);
                (FrontToFieldResult::NodeDisconnect(res), false)
            },
            FrontToField::NodeDisconnectSafe {
                upstream_node_id,
                upstream_node_socket_id,
                downstream_node_id,
                downstream_node_socket_id,
            } => {
                let res = self.node_disconnect_safe(
                    upstream_node_id,
                    upstream_node_socket_id,
                    downstream_node_id,
                    downstream_node_socket_id,
                );
                (FrontToFieldResult::NodeDisconnectSafe(res), false)
            },
            FrontToField::UpdateInputDefaultValue { node_id, socket_id, value, value_type } => {
                let res = self.update_input_default(node_id, socket_id, value, value_type);
                (FrontToFieldResult::UpdateInputDefaultValue(res), false)
            },
        }
    }
}

} // verus!

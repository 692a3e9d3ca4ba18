use vstd::prelude::*;

use crate::err::{
    NodeConnectError, NodeConnectionCheckError, NodeDisconnectError, NodeRemoveError,
    UpdateInputDefaultError,
};
use crate::ids::{NodeId, PluginId, SocketId};
use crate::message::{FieldOp, FieldReq, MessageToBackend};
use crate::field_message::{
    default_refusal, disconnect_outcome, input_of_node, refusal_error, safe_disconnect_outcome,
};
use crate::node_controller::{
    after_connect, after_disconnect, check_outcome, connect_outcome, has_node, has_output,
    connection_valid, default_set, lemma_remove_lookups, same_lookups_except, unique_ids, evaluable, evaluates, is_first_node, node_of, starts_at, touches,
    Connection, GraphNode, NodeController, FieldProcess,
};
use crate::plugin::Plugin;
use crate::FrameCount;

verus! {

/// What the manager did with one message, for the loop that runs it.
pub enum ManagerReply<V> {
    /// The loop ends; the node that was being played, if any, was stopped.
    Shutdown(Option<(NodeId, FrameCount)>),
    /// A node built by the plugin was added to the field.
    NodeAdded,
    /// No plugin has the id.
    PluginNotFound(PluginId),
    Id(NodeId),
    Name(String),
    /// The manager serves no such request.
    Unserved,
    Removed(Result<(), NodeRemoveError>),
    Connected(Result<(), NodeConnectError>),
    Disconnected(Result<(), NodeDisconnectError>),
    ConnectionChecked(Result<(), NodeConnectionCheckError>),
    DefaultUpdated(Result<(), UpdateInputDefaultError<V>>),
    /// The value of the node called; refused when there is no such node or
    /// its evaluation runs into a cycle of connections.
    Called(Result<V, ()>),
    Played(Result<(), ()>),
    /// The node that was being played and the frame it started from; `None`
    /// when nothing was being played.
    Stopped(Option<(NodeId, FrameCount)>),
}

/// `after` is `before` with `node` added: a node of the same id is replaced,
/// and only the connections that the field still carries are kept.
pub open spec fn node_added<V>(
    before: NodeController<V>,
    after: NodeController<V>,
    node: GraphNode<V>,
) -> bool {
    &&& has_node(before.nodes(), node.id) ==> exists|k: int|
        is_first_node(before.nodes(), node.id, k) && after.nodes() == before.nodes().update(k, node)
    &&& !has_node(before.nodes(), node.id) ==> after.nodes() == before.nodes().push(node)
    &&& after.connections() == before.connections().filter(
        |c: Connection| connection_valid(after.nodes(), c),
    )
}

/// The position of the plugin with id `id`.
pub open spec fn plugin_at<V, P: Plugin<V>>(plugins: Seq<P>, id: PluginId, i: int) -> bool {
    0 <= i < plugins.len() && plugins[i].spec_plugin_id() == id
}

/// The connection that the four ids describe.
pub open spec fn connection_of(
    upstream_node: NodeId,
    upstream_socket: SocketId,
    downstream_node: NodeId,
    downstream_socket: SocketId,
) -> Connection {
    Connection { upstream_node, upstream_socket, downstream_node, downstream_socket }
}

/// What an operation on the field, the adding of a node aside, answers and
/// how it changes the field, from `before` to `after`.
pub open spec fn op_effect<V, Q: FieldProcess<V>>(
    before: NodeController<V>,
    after: NodeController<V>,
    process: Q,
    op: FieldOp<V>,
    r: ManagerReply<V>,
) -> bool {
    match op {
        FieldOp::AddNode(_) => false,
        FieldOp::RemoveNode(node) => {
            &&& after.spec_playing() == before.spec_playing()
            &&& if has_node(before.nodes(), node) {
                &&& r == ManagerReply::<V>::Removed(Ok(()))
                &&& !has_node(after.nodes(), node)
                &&& exists|k: int|
                    is_first_node(before.nodes(), node, k) && after.nodes() == before.nodes().remove(k)
                &&& after.connections() == before.connections().filter(
                    |c: Connection| !touches(c, node),
                )
            } else {
                &&& r == ManagerReply::<V>::Removed(Err(NodeRemoveError::NodeIdNotFound))
                &&& after.nodes() == before.nodes()
                &&& after.connections() == before.connections()
            }
        },
        FieldOp::Connect { upstream_node, upstream_socket, downstream_node, downstream_socket } => {
            let res = connect_outcome(
                before.nodes(),
                upstream_node,
                upstream_socket,
                downstream_node,
                downstream_socket,
            );
            &&& r == ManagerReply::<V>::Connected(res)
            &&& after.nodes() == before.nodes()
            &&& after.spec_playing() == before.spec_playing()
            &&& after.connections() == if res is Ok {
                after_connect(
                    before.connections(),
                    connection_of(upstream_node, upstream_socket, downstream_node, downstream_socket),
                )
            } else {
                before.connections()
            }
        },
        FieldOp::ConservativeConnect {
            upstream_node,
            upstream_socket,
            downstream_node,
            downstream_socket,
        } => {
            let res = match connect_outcome(
                before.nodes(),
                upstream_node,
                upstream_socket,
                downstream_node,
                downstream_socket,
            ) {
                Err(e) => Err(e),
                Ok(_) => if before.input_connected(downstream_node, downstream_socket) {
                    Err(NodeConnectError::InputNotEmpty)
                } else {
                    Ok(())
                },
            };
            &&& r == ManagerReply::<V>::Connected(res)
            &&& after.nodes() == before.nodes()
            &&& after.spec_playing() == before.spec_playing()
            &&& after.connections() == if res is Ok {
                before.connections().insert(
                    connection_of(upstream_node, upstream_socket, downstream_node, downstream_socket),
                )
            } else {
                before.connections()
            }
        },
        FieldOp::Disconnect { downstream_node, downstream_socket } => {
            &&& r == ManagerReply::<V>::Disconnected(
                disconnect_outcome(before, downstream_node, downstream_socket),
            )
            &&& after.nodes() == before.nodes()
            &&& after.spec_playing() == before.spec_playing()
            &&& after.connections() == after_disconnect(
                before.connections(),
                downstream_node,
                downstream_socket,
            )
        },
        FieldOp::ConservativeDisconnect {
            upstream_node,
            upstream_socket,
            downstream_node,
            downstream_socket,
        } => {
            let c = connection_of(upstream_node, upstream_socket, downstream_node, downstream_socket);
            let res = safe_disconnect_outcome(before, c);
            &&& r == ManagerReply::<V>::Disconnected(res)
            &&& after.nodes() == before.nodes()
            &&& after.spec_playing() == before.spec_playing()
            &&& after.connections() == if res is Ok {
                before.connections().remove(c)
            } else {
                before.connections()
            }
        },
        FieldOp::CheckConnection {
            upstream_node,
            upstream_socket,
            downstream_node,
            downstream_socket,
        } => {
            &&& r == ManagerReply::<V>::ConnectionChecked(
                check_outcome(
                    before.nodes(),
                    before.connections(),
                    connection_of(upstream_node, upstream_socket, downstream_node, downstream_socket),
                ),
            )
            &&& after == before
        },
        FieldOp::DisconnectAllFromOutput { node, socket } => {
            let res = if !has_node(before.nodes(), node) {
                Err(NodeDisconnectError::NodeIdNotFound)
            } else if !has_output(node_of(before.nodes(), node), socket) {
                Err(NodeDisconnectError::SocketIdNotFound)
            } else {
                Ok(())
            };
            &&& r == ManagerReply::<V>::Disconnected(res)
            &&& after.nodes() == before.nodes()
            &&& after.spec_playing() == before.spec_playing()
            &&& after.connections() == if res is Ok {
                before.connections().filter(|c: Connection| !starts_at(c, node, socket))
            } else {
                before.connections()
            }
        },
        FieldOp::DisconnectAll { node } => {
            let res = if !has_node(before.nodes(), node) {
                Err(NodeDisconnectError::NodeIdNotFound)
            } else if exists|j: int|
                0 <= j < node_of(before.nodes(), node).inputs@.len() && !before.input_connected(
                    node,
                    #[trigger] node_of(before.nodes(), node).inputs@[j].id,
                ) {
                Err(NodeDisconnectError::NotConnected)
            } else {
                Ok(())
            };
            &&& r == ManagerReply::<V>::Disconnected(res)
            &&& after.nodes() == before.nodes()
            &&& after.spec_playing() == before.spec_playing()
            &&& after.connections() == if has_node(before.nodes(), node) {
                before.connections().filter(|c: Connection| !touches(c, node))
            } else {
                before.connections()
            }
        },
        FieldOp::UpdateInputDefault { node, socket, default, value_type } => {
            &&& after.connections() == before.connections()
            &&& after.spec_playing() == before.spec_playing()
            &&& match default_refusal(before, node, socket, value_type) {
                Some(code) => {
                    &&& r == ManagerReply::DefaultUpdated(Err(refusal_error(code, default)))
                    &&& after.nodes() == before.nodes()
                },
                None => {
                    &&& r matches ManagerReply::DefaultUpdated(Ok(_))
                    &&& after.nodes().len() == before.nodes().len()
                    &&& has_node(after.nodes(), node)
                    &&& input_of_node(after, node, socket).default_value == Some(default)
                    &&& default_set(before.nodes(), after.nodes(), node, socket, default, value_type)
                },
            }
        },
        FieldOp::Call { node, frame } => {
            &&& after == before
            &&& r matches ManagerReply::Called(res)
            &&& (res is Ok <==> evaluable(
                before.nodes(),
                before.connections(),
                node,
                before.nodes().len(),
            ))
            &&& (res matches Ok(v) ==> evaluates(
                before.nodes(),
                before.connections(),
                process,
                node,
                frame,
                before.nodes().len(),
                v,
            ))
        },
        FieldOp::Play { node, frame } => {
            &&& after.nodes() == before.nodes()
            &&& after.connections() == before.connections()
            &&& if has_node(before.nodes(), node) {
                &&& r == ManagerReply::<V>::Played(Ok(()))
                &&& after.spec_playing() == Some((node, frame))
            } else {
                &&& r == ManagerReply::<V>::Played(Err(()))
                &&& after.spec_playing() == before.spec_playing()
            }
        },
        FieldOp::Stop => {
            &&& r == ManagerReply::<V>::Stopped(before.spec_playing())
            &&& after.spec_playing() is None
            &&& after.nodes() == before.nodes()
            &&& after.connections() == before.connections()
        },
        FieldOp::CacheClear(_) => r is Unserved && after == before,
        FieldOp::CacheSetDepth { .. } => r is Unserved && after == before,
        FieldOp::CacheClearAll => r is Unserved && after == before,
        FieldOp::CacheSetDepthAll(_) => r is Unserved && after == before,
    }
}

/// Carry out an operation on the field, the adding of a node aside.
fn apply_op<V: Copy, Q: FieldProcess<V>>(
    field: &mut NodeController<V>,
    process: &Q,
    op: FieldOp<V>,
) -> (r: ManagerReply<V>)
    requires
        old(field).wf(),
        !(op is AddNode),
    ensures
        final(field).wf(),
        final(field).spec_name() == old(field).spec_name(),
        op_effect(*old(field), *final(field), *process, op, r),
{
    match op {
        FieldOp::AddNode(_) => vstd::pervasive::unreached(),
        FieldOp::RemoveNode(node) => ManagerReply::Removed(field.remove_node(node)),
        FieldOp::Connect { upstream_node, upstream_socket, downstream_node, downstream_socket } => {
            ManagerReply::Connected(
                field.node_connect(upstream_node, upstream_socket, downstream_node, downstream_socket),
            )
        },
        FieldOp::ConservativeConnect {
            upstream_node,
            upstream_socket,
            downstream_node,
            downstream_socket,
        } => ManagerReply::Connected(
            field.node_conservative_connect(
                upstream_node,
                upstream_socket,
                downstream_node,
                downstream_socket,
            ),
        ),
        FieldOp::Disconnect { downstream_node, downstream_socket } => ManagerReply::Disconnected(
            field.node_disconnect(downstream_node, downstream_socket),
        ),
        FieldOp::ConservativeDisconnect {
            upstream_node,
            upstream_socket,
            downstream_node,
            downstream_socket,
        } => ManagerReply::Disconnected(
            field.node_conservative_disconnect(
                upstream_node,
                upstream_socket,
                downstream_node,
                downstream_socket,
            ),
        ),
        FieldOp::CheckConnection {
            upstream_node,
            upstream_socket,
            downstream_node,
            downstream_socket,
        } => ManagerReply::ConnectionChecked(
            field.check_connection(upstream_node, upstream_socket, downstream_node, downstream_socket),
        ),
        FieldOp::DisconnectAllFromOutput { node, socket } => ManagerReply::Disconnected(
            field.node_disconnect_all_from_output(node, socket),
        ),
        FieldOp::DisconnectAll { node } => ManagerReply::Disconnected(
            field.node_disconnect_all(node),
        ),
        FieldOp::UpdateInputDefault { node, socket, default, value_type } => {
            ManagerReply::DefaultUpdated(
                field.node_update_input_default(node, socket, default, value_type),
            )
        },
        FieldOp::Call { node, frame } => ManagerReply::Called(field.field_call(frame, node, process)),
        FieldOp::Play { node, frame } => ManagerReply::Played(field.field_play(frame, node)),
        FieldOp::Stop => {
            if field.field_is_playing() {
                ManagerReply::Stopped(Some(field.field_stop()))
            } else {
                ManagerReply::Stopped(None)
            }
        },
        FieldOp::CacheClear(_) => ManagerReply::Unserved,
        FieldOp::CacheSetDepth { .. } => ManagerReply::Unserved,
        FieldOp::CacheClearAll => ManagerReply::Unserved,
        FieldOp::CacheSetDepthAll(_) => ManagerReply::Unserved,
    }
}

/// The backend of the project: a node field, the plugins that build its
/// nodes, and the work its nodes do.
pub struct ProjectManager<V, P: Plugin<V>, Q: FieldProcess<V>> {
    node_controller: NodeController<V>,
    plugins: Vec<P>,
    process: Q,
}

impl<V: Copy, P: Plugin<V>, Q: FieldProcess<V>> ProjectManager<V, P, Q> {
    /// The node field.
    pub closed spec fn field(&self) -> NodeController<V> {
        self.node_controller
    }

    /// The plugins, in the order they were added.
    pub closed spec fn plugins(&self) -> Seq<P> {
        self.plugins@
    }

    /// The work of the nodes.
    pub closed spec fn process(&self) -> Q {
        self.process
    }

    /// The field is well formed and no two plugins share an id.
    pub open spec fn wf(&self) -> bool {
        &&& self.field().wf()
        &&& forall|i: int, j: int|
            0 <= i < j < self.plugins().len() ==> self.plugins()[i].spec_plugin_id()
                != self.plugins()[j].spec_plugin_id()
    }

    pub open spec fn has_plugin(&self, id: PluginId) -> bool {
        exists|i: int| plugin_at::<V, P>(self.plugins(), id, i)
    }

    /// A manager with an empty field, named by the empty string, no
    /// plugins, and the nodes' work `process`.
    pub fn new(process: Q) -> (m: Self)
        ensures
            m.wf(),
            m.process() == process,
            m.plugins() == Seq::<P>::empty(),
            m.field().nodes().len() == 0,
            m.field().connections().is_empty(),
            m.field().spec_name() == Seq::<char>::empty(),
            m.field().spec_playing() is None,
    {
        let empty = "";
        proof {
            reveal_strlit("");
        }
        ProjectManager { node_controller: NodeController::new(empty), plugins: Vec::new(), process }
    }

    fn find_plugin(&self, id: PluginId) -> (r: Option<usize>)
        ensures
            match r {
                Some(i) => plugin_at::<V, P>(self.plugins(), id, i as int),
                None => !self.has_plugin(id),
            },
    {
        let mut i: usize = 0;
        while i < self.plugins.len()
            invariant
                i <= self.plugins@.len(),
                forall|j: int| 0 <= j < i ==> !plugin_at::<V, P>(self.plugins(), id, j),
            decreases self.plugins@.len() - i,
        {
            if self.plugins[i].plugin_id() == id {
                return Some(i);
            }
            i = i + 1;
        }
        None
    }

    /// Add a plugin, unless one with the same id is there already; answers
    /// whether it was added.
    pub fn add_plugin(&mut self, plugin: P) -> (added: bool)
        requires
            old(self).wf(),
        ensures
            final(self).wf(),
            final(self).field() == old(self).field(),
            final(self).process() == old(self).process(),
            added == !old(self).has_plugin(plugin.spec_plugin_id()),
            added ==> final(self).plugins() == old(self).plugins().push(plugin),
            !added ==> final(self).plugins() == old(self).plugins(),
    {
        let id = plugin.plugin_id();
        let found = self.find_plugin(id);
        if found.is_some() {
            return false;
        }
        let ghost before = self.plugins@;
        assert(before == self.plugins());
        self.plugins.push(plugin);
        assert forall|i: int, j: int|
            0 <= i < j < self.plugins().len() implies self.plugins()[i].spec_plugin_id()
                != self.plugins()[j].spec_plugin_id() by {
            if j == before.len() {
                assert(!plugin_at::<V, P>(before, id, i));
            }
        }
        true
    }

    /// Add to the field a node built by the plugin with id `id`.
    fn add_node_of(&mut self, id: PluginId) -> (r: ManagerReply<V>)
        requires
            old(self).wf(),
        ensures
            final(self).wf(),
            final(self).plugins() == old(self).plugins(),
            final(self).process() == old(self).process(),
            final(self).field().spec_playing() == old(self).field().spec_playing(),
            final(self).field().spec_name() == old(self).field().spec_name(),
            old(self).has_plugin(id) ==> r is NodeAdded && exists|i: int, n: GraphNode<V>|
                plugin_at::<V, P>(old(self).plugins(), id, i) && old(self).plugins()[i].builds(n)
                    && node_added(old(self).field(), final(self).field(), n),
            !old(self).has_plugin(id) ==> r == ManagerReply::<V>::PluginNotFound(id) && final(self).field() == old(self).field(),
    {
        match self.find_plugin(id) {
            Some(i) => {
                let node = self.plugins[i].build();
                let ghost built = node;
                self.node_controller.add_node(node);
                assert(plugin_at::<V, P>(old(self).plugins(), id, i as int) && old(self).plugins()[i as int].builds(built)
                    && node_added(old(self).field(), self.field(), built));
                ManagerReply::NodeAdded
            },
            None => ManagerReply::PluginNotFound(id),
        }
    }

    /// Carry out one message of the frontend.
    pub fn handle_message(&mut self, message: MessageToBackend<V>) -> (r: ManagerReply<V>)
        requires
            old(self).wf(),
        ensures
            final(self).wf(),
            final(self).plugins() == old(self).plugins(),
            final(self).process() == old(self).process(),
            final(self).field().spec_name() == old(self).field().spec_name(),
            match message {
                MessageToBackend::Shutdown => {
                    &&& r == ManagerReply::<V>::Shutdown(old(self).field().spec_playing())
                    &&& final(self).field().spec_playing() is None
                    &&& final(self).field().nodes() == old(self).field().nodes()
                    &&& final(self).field().connections() == old(self).field().connections()
                },
                MessageToBackend::AllPlugins(id) => {
                    &&& old(self).has_plugin(id) ==> r is NodeAdded
                    &&& old(self).has_plugin(id) ==> exists|i: int, n: GraphNode<V>|
                        plugin_at::<V, P>(old(self).plugins(), id, i) && old(self).plugins()[i].builds(n)
                            && node_added(old(self).field(), final(self).field(), n)
                    &&& !old(self).has_plugin(id) ==> r == ManagerReply::<V>::PluginNotFound(id)
                        && final(self).field() == old(self).field()
                },
                MessageToBackend::ControllerReq(req) => {
                    &&& final(self).field() == old(self).field()
                    &&& match req {
                        FieldReq::Id => r == ManagerReply::<V>::Id(old(self).field().spec_id()),
                        FieldReq::Name => r matches ManagerReply::Name(s) && s@ == old(self).field().spec_name(),
                        _ => r is Unserved,
                    }
                },
                MessageToBackend::ControllerOp(op) => match op {
                    FieldOp::AddNode(id) => {
                        &&& old(self).has_plugin(id) ==> r is NodeAdded
                        &&& old(self).has_plugin(id) ==> exists|i: int, n: GraphNode<V>|
                            plugin_at::<V, P>(old(self).plugins(), id, i) && old(self).plugins()[i].builds(n)
                                && node_added(old(self).field(), final(self).field(), n)
                        &&& !old(self).has_plugin(id) ==> r == ManagerReply::<V>::PluginNotFound(
                            id,
                        ) && final(self).field() == old(self).field()
                        &&& final(self).field().spec_playing() == old(self).field().spec_playing()
                    },
                    _ => op_effect(old(self).field(), final(self).field(), old(self).process(), op, r),
                },
            },
    {
        match message {
            MessageToBackend::Shutdown => {
                if self.node_controller.field_is_playing() {
                    let stopped = self.node_controller.field_stop();
                    assert(self.plugins() == old(self).plugins());
                    ManagerReply::Shutdown(Some(stopped))
                } else {
                    ManagerReply::Shutdown(None)
                }
            },
            MessageToBackend::AllPlugins(id) => self.add_node_of(id),
            MessageToBackend::ControllerReq(req) => match req {
                FieldReq::Id => ManagerReply::Id(self.node_controller.get_id()),
                FieldReq::Name => ManagerReply::Name(self.node_controller.get_name().clone()),
                FieldReq::AllNodes(_) => ManagerReply::Unserved,
                FieldReq::CacheDepth { .. } => ManagerReply::Unserved,
            },
            MessageToBackend::ControllerOp(op) => match op {
                FieldOp::AddNode(id) => self.add_node_of(id),
                _ => {
                    let r = apply_op(&mut self.node_controller, &self.process, op);
                    assert(self.plugins() == old(self).plugins());
                    r
                },
            },
        }
    }
}

/// Removing a node that the field holds answers `Ok` and takes away that
/// node and nothing else: the field holds one node fewer, the id is no
/// longer found, and every other id is found, or not, as before, under the
/// same node.
pub proof fn law_remove_takes_only_that_node<V, Q: FieldProcess<V>>(
    before: NodeController<V>,
    after: NodeController<V>,
    process: Q,
    node: NodeId,
    r: ManagerReply<V>,
)
    requires
        before.wf(),
        has_node(before.nodes(), node),
        op_effect(before, after, process, FieldOp::RemoveNode(node), r),
    ensures
        r == ManagerReply::<V>::Removed(Ok(())),
        after.nodes().len() + 1 == before.nodes().len(),
        !has_node(after.nodes(), node),
        forall|id: NodeId|
            id != node ==> #[trigger] has_node(after.nodes(), id) == has_node(before.nodes(), id),
        forall|id: NodeId|
            id != node && has_node(before.nodes(), id) ==> #[trigger] node_of(after.nodes(), id)
                == node_of(before.nodes(), id),
{
    let k = choose|k: int|
        is_first_node(before.nodes(), node, k) && after.nodes() == before.nodes().remove(k);
    lemma_remove_lookups(before.nodes(), k);
    assert(same_lookups_except(before.nodes(), after.nodes(), node));
}

} // verus!

use vstd::prelude::*;

use crate::err::{
    NodeConnectError, NodeConnectionCheckError, NodeDisconnectError, NodeRemoveError,
    UpdateInputDefaultError,
};
use crate::ids::{NodeId, SocketId};
use crate::FrameCount;

verus! {

/// An input socket of a node: its identity, the type of value it takes, and
/// its default value, used while nothing is connected to it.
pub struct InputSocket<V> {
    pub id: SocketId,
    pub name: String,
    /// The type of value the socket hands to its node.
    pub socket_type: u64,
    /// The type of its default value.
    pub default_type: u64,
    /// `None` when the socket has no default value.
    pub default_value: Option<V>,
}

/// An output socket of a node.
pub struct OutputSocket {
    pub id: SocketId,
    pub name: String,
    /// The type of value the socket gives out.
    pub socket_type: u64,
}

/// A node as the controller sees it: its identity and its sockets.
pub struct GraphNode<V> {
    pub id: NodeId,
    pub name: String,
    pub inputs: Vec<InputSocket<V>>,
    pub outputs: Vec<OutputSocket>,
}

/// A link from an output socket of one node to an input socket of another.
#[derive(Clone, Copy, PartialEq, Eq, Structural, Debug)]
pub struct Connection {
    pub upstream_node: NodeId,
    pub upstream_socket: SocketId,
    pub downstream_node: NodeId,
    pub downstream_socket: SocketId,
}

// --- lookups over plain sequences ---

/// `i` is the first position of a node with id `id`.
pub open spec fn is_first_node<V>(nodes: Seq<GraphNode<V>>, id: NodeId, i: int) -> bool {
    &&& 0 <= i < nodes.len()
    &&& nodes[i].id == id
    &&& forall|j: int| 0 <= j < i ==> nodes[j].id != id
}

pub open spec fn has_node<V>(nodes: Seq<GraphNode<V>>, id: NodeId) -> bool {
    exists|i: int| 0 <= i < nodes.len() && nodes[i].id == id
}

/// The node found under `id` (meaningful when `has_node`).
pub open spec fn node_of<V>(nodes: Seq<GraphNode<V>>, id: NodeId) -> GraphNode<V> {
    nodes[choose|i: int| is_first_node(nodes, id, i)]
}

pub open spec fn is_first_input<V>(inputs: Seq<InputSocket<V>>, id: SocketId, i: int) -> bool {
    &&& 0 <= i < inputs.len()
    &&& inputs[i].id == id
    &&& forall|j: int| 0 <= j < i ==> inputs[j].id != id
}

pub open spec fn has_input<V>(node: GraphNode<V>, id: SocketId) -> bool {
    exists|i: int| 0 <= i < node.inputs@.len() && node.inputs@[i].id == id
}

/// The input socket found under `id` (meaningful when `has_input`).
pub open spec fn input_of<V>(node: GraphNode<V>, id: SocketId) -> InputSocket<V> {
    node.inputs@[choose|i: int| is_first_input(node.inputs@, id, i)]
}

pub open spec fn is_first_output(outputs: Seq<OutputSocket>, id: SocketId, i: int) -> bool {
    &&& 0 <= i < outputs.len()
    &&& outputs[i].id == id
    &&& forall|j: int| 0 <= j < i ==> outputs[j].id != id
}

pub open spec fn has_output<V>(node: GraphNode<V>, id: SocketId) -> bool {
    exists|i: int| 0 <= i < node.outputs@.len() && node.outputs@[i].id == id
}

/// The output socket found under `id` (meaningful when `has_output`).
pub open spec fn output_of<V>(node: GraphNode<V>, id: SocketId) -> OutputSocket {
    node.outputs@[choose|i: int| is_first_output(node.outputs@, id, i)]
}

/// Both ends of `c` exist in `nodes` and carry the same type.
pub open spec fn connection_valid<V>(nodes: Seq<GraphNode<V>>, c: Connection) -> bool {
    &&& has_node(nodes, c.upstream_node)
    &&& has_output(node_of(nodes, c.upstream_node), c.upstream_socket)
    &&& has_node(nodes, c.downstream_node)
    &&& has_input(node_of(nodes, c.downstream_node), c.downstream_socket)
    &&& output_of(node_of(nodes, c.upstream_node), c.upstream_socket).socket_type == input_of(
        node_of(nodes, c.downstream_node),
        c.downstream_socket,
    ).socket_type
}

/// `c` ends in the input socket `socket` of node `node`.
pub open spec fn ends_at(c: Connection, node: NodeId, socket: SocketId) -> bool {
    c.downstream_node == node && c.downstream_socket == socket
}

/// `c` starts at the output socket `socket` of node `node`.
pub open spec fn starts_at(c: Connection, node: NodeId, socket: SocketId) -> bool {
    c.upstream_node == node && c.upstream_socket == socket
}

/// `c` starts or ends at node `node`.
pub open spec fn touches(c: Connection, node: NodeId) -> bool {
    c.upstream_node == node || c.downstream_node == node
}

/// Which connections an operation takes away.
pub enum Selector {
    EndsAt(NodeId, SocketId),
    StartsAt(NodeId, SocketId),
    Exactly(Connection),
    Touches(NodeId),
}

pub open spec fn selects(sel: Selector, c: Connection) -> bool {
    match sel {
        Selector::EndsAt(n, s) => ends_at(c, n, s),
        Selector::StartsAt(n, s) => starts_at(c, n, s),
        Selector::Exactly(x) => c == x,
        Selector::Touches(n) => touches(c, n),
    }
}

fn selects_exec(sel: &Selector, c: &Connection) -> (r: bool)
    ensures
        r == selects(*sel, *c),
{
    match sel {
        Selector::EndsAt(n, s) => c.downstream_node == *n && c.downstream_socket == *s,
        Selector::StartsAt(n, s) => c.upstream_node == *n && c.upstream_socket == *s,
        Selector::Exactly(x) => *c == *x,
        Selector::Touches(n) => c.upstream_node == *n || c.downstream_node == *n,
    }
}

/// The connections of `v` that `sel` does not pick.
fn drop_selected(v: &Vec<Connection>, sel: &Selector) -> (r: Vec<Connection>)
    ensures
        forall|c: Connection| #[trigger] r@.contains(c) <==> (v@.contains(c) && !selects(*sel, c)),
{
    let mut r: Vec<Connection> = Vec::new();
    let mut i: usize = 0;
    while i < v.len()
        invariant
            i <= v@.len(),
            forall|k: int|
                0 <= k < r@.len() ==> v@.contains(#[trigger] r@[k]) && !selects(*sel, r@[k]),
            forall|j: int| 0 <= j < i && !selects(*sel, v@[j]) ==> r@.contains(#[trigger] v@[j]),
        decreases v@.len() - i,
    {
        let c = v[i];
        let ghost prev = r@;
        if !selects_exec(sel, &c) {
            r.push(c);
            assert(r@[prev.len() as int] == c);
            assert forall|j: int| 0 <= j < i + 1 && !selects(*sel, v@[j]) implies r@.contains(
                #[trigger] v@[j],
            ) by {
                if j < i {
                    let k = choose|k: int| 0 <= k < prev.len() && prev[k] == v@[j];
                    assert(r@[k] == v@[j]);
                }
            }
        }
        i = i + 1;
    }
    r
}

/// Find the first node with id `id`.
fn find_node<V>(nodes: &Vec<GraphNode<V>>, id: NodeId) -> (r: Option<usize>)
    ensures
        match r {
            Some(i) => is_first_node(nodes@, id, i as int),
            None => !has_node(nodes@, id),
        },
{
    let mut i: usize = 0;
    while i < nodes.len()
        invariant
            i <= nodes@.len(),
            forall|j: int| 0 <= j < i ==> nodes@[j].id != id,
        decreases nodes@.len() - i,
    {
        if nodes[i].id == id {
            return Some(i);
        }
        i = i + 1;
    }
    None
}

/// Find the first input socket with id `id`.
pub(crate) fn find_input<V>(inputs: &Vec<InputSocket<V>>, id: SocketId) -> (r: Option<usize>)
    ensures
        match r {
            Some(i) => is_first_input(inputs@, id, i as int),
            None => forall|j: int| 0 <= j < inputs@.len() ==> inputs@[j].id != id,
        },
{
    let mut i: usize = 0;
    while i < inputs.len()
        invariant
            i <= inputs@.len(),
            forall|j: int| 0 <= j < i ==> inputs@[j].id != id,
        decreases inputs@.len() - i,
    {
        if inputs[i].id == id {
            return Some(i);
        }
        i = i + 1;
    }
    None
}

/// Find the first output socket with id `id`.
fn find_output(outputs: &Vec<OutputSocket>, id: SocketId) -> (r: Option<usize>)
    ensures
        match r {
            Some(i) => is_first_output(outputs@, id, i as int),
            None => forall|j: int| 0 <= j < outputs@.len() ==> outputs@[j].id != id,
        },
{
    let mut i: usize = 0;
    while i < outputs.len()
        invariant
            i <= outputs@.len(),
            forall|j: int| 0 <= j < i ==> outputs@[j].id != id,
        decreases outputs@.len() - i,
    {
        if outputs[i].id == id {
            return Some(i);
        }
        i = i + 1;
    }
    None
}

proof fn lemma_first_node<V>(nodes: Seq<GraphNode<V>>, id: NodeId, i: int)
    requires
        is_first_node(nodes, id, i),
    ensures
        has_node(nodes, id),
        node_of(nodes, id) == nodes[i],
{
}

proof fn lemma_first_input<V>(node: GraphNode<V>, id: SocketId, i: int)
    requires
        is_first_input(node.inputs@, id, i),
    ensures
        has_input(node, id),
        input_of(node, id) == node.inputs@[i],
{
}

proof fn lemma_first_output<V>(node: GraphNode<V>, id: SocketId, i: int)
    requires
        is_first_output(node.outputs@, id, i),
    ensures
        has_output(node, id),
        output_of(node, id) == node.outputs@[i],
{
}

/// No two nodes share an id.
pub open spec fn unique_ids<V>(nodes: Seq<GraphNode<V>>) -> bool {
    forall|i: int, j: int| 0 <= i < j < nodes.len() ==> nodes[i].id != nodes[j].id
}

/// Two node lists answer every lookup of an id other than `n` alike.
pub open spec fn same_lookups_except<V>(a: Seq<GraphNode<V>>, b: Seq<GraphNode<V>>, n: NodeId) -> bool {
    forall|id: NodeId|
        id != n ==> has_node(a, id) == has_node(b, id) && (has_node(a, id) ==> node_of(a, id)
            == node_of(b, id))
}

proof fn lemma_unique_lookup<V>(nodes: Seq<GraphNode<V>>, i: int)
    requires
        unique_ids(nodes),
        0 <= i < nodes.len(),
    ensures
        is_first_node(nodes, nodes[i].id, i),
        has_node(nodes, nodes[i].id),
        node_of(nodes, nodes[i].id) == nodes[i],
{
    lemma_first_node(nodes, nodes[i].id, i);
}

/// Connections that keep away from `n` stay valid when the lookups of other
/// ids do not change.
proof fn lemma_valid_kept<V>(a: Seq<GraphNode<V>>, b: Seq<GraphNode<V>>, n: NodeId, c: Connection)
    requires
        same_lookups_except(a, b, n),
        connection_valid(a, c),
        !touches(c, n),
    ensures
        connection_valid(b, c),
{
}

pub(crate) proof fn lemma_remove_lookups<V>(a: Seq<GraphNode<V>>, k: int)
    requires
        unique_ids(a),
        0 <= k < a.len(),
    ensures
        unique_ids(a.remove(k)),
        same_lookups_except(a, a.remove(k), a[k].id),
        !has_node(a.remove(k), a[k].id),
{
    let b = a.remove(k);
    let n = a[k].id;
    assert forall|id: NodeId| id != n implies has_node(a, id) == has_node(b, id) && (has_node(a, id)
        ==> node_of(a, id) == node_of(b, id)) by {
        if has_node(a, id) {
            let i = choose|i: int| 0 <= i < a.len() && a[i].id == id;
            lemma_unique_lookup(a, i);
            let bi = if i < k { i } else { i - 1 };
            lemma_unique_lookup(b, bi);
        }
    }
}

proof fn lemma_push_lookups<V>(a: Seq<GraphNode<V>>, x: GraphNode<V>)
    requires
        unique_ids(a),
        !has_node(a, x.id),
    ensures
        unique_ids(a.push(x)),
        same_lookups_except(a, a.push(x), x.id),
        has_node(a.push(x), x.id),
        node_of(a.push(x), x.id) == x,
{
    let b = a.push(x);
    assert forall|id: NodeId| id != x.id implies has_node(a, id) == has_node(b, id) && (has_node(
        a,
        id,
    ) ==> node_of(a, id) == node_of(b, id)) by {
        if has_node(a, id) {
            let i = choose|i: int| 0 <= i < a.len() && a[i].id == id;
            lemma_unique_lookup(a, i);
            lemma_unique_lookup(b, i);
        }
    }
    lemma_unique_lookup(b, a.len() as int);
}

proof fn lemma_update_lookups<V>(a: Seq<GraphNode<V>>, k: int, x: GraphNode<V>)
    requires
        unique_ids(a),
        0 <= k < a.len(),
        a[k].id == x.id,
    ensures
        unique_ids(a.update(k, x)),
        same_lookups_except(a, a.update(k, x), x.id),
        has_node(a.update(k, x), x.id),
        node_of(a.update(k, x), x.id) == x,
{
    let b = a.update(k, x);
    assert forall|id: NodeId| id != x.id implies has_node(a, id) == has_node(b, id) && (has_node(
        a,
        id,
    ) ==> node_of(a, id) == node_of(b, id)) by {
        if has_node(a, id) {
            let i = choose|i: int| 0 <= i < a.len() && a[i].id == id;
            lemma_unique_lookup(a, i);
            lemma_unique_lookup(b, i);
        }
    }
    lemma_unique_lookup(b, k);
}

/// Ends of a requested connection that were looked up: positions of the two
/// nodes and of the two sockets.
struct Ends {
    up: usize,
    up_socket: usize,
    down: usize,
    down_socket: usize,
}

/// Which lookup failed when the ends of a connection were searched.
enum Missing {
    Node,
    Socket,
}

/// Both nodes of a requested connection exist.
pub open spec fn ends_have_nodes<V>(
    nodes: Seq<GraphNode<V>>,
    upstream_node: NodeId,
    downstream_node: NodeId,
) -> bool {
    has_node(nodes, upstream_node) && has_node(nodes, downstream_node)
}

/// Both nodes and both sockets of a requested connection exist.
pub open spec fn ends_exist<V>(
    nodes: Seq<GraphNode<V>>,
    upstream_node: NodeId,
    upstream_socket: SocketId,
    downstream_node: NodeId,
    downstream_socket: SocketId,
) -> bool {
    &&& ends_have_nodes(nodes, upstream_node, downstream_node)
    &&& has_output(node_of(nodes, upstream_node), upstream_socket)
    &&& has_input(node_of(nodes, downstream_node), downstream_socket)
}

/// The two sockets of a requested connection carry the same type.
pub open spec fn types_match<V>(
    nodes: Seq<GraphNode<V>>,
    upstream_node: NodeId,
    upstream_socket: SocketId,
    downstream_node: NodeId,
    downstream_socket: SocketId,
) -> bool {
    output_of(node_of(nodes, upstream_node), upstream_socket).socket_type == input_of(
        node_of(nodes, downstream_node),
        downstream_socket,
    ).socket_type
}

/// What connecting the two sockets answers, the connections aside.
pub open spec fn connect_outcome<V>(
    nodes: Seq<GraphNode<V>>,
    upstream_node: NodeId,
    upstream_socket: SocketId,
    downstream_node: NodeId,
    downstream_socket: SocketId,
) -> Result<(), NodeConnectError> {
    if !ends_have_nodes(nodes, upstream_node, downstream_node) {
        Err(NodeConnectError::NodeIdNotFound)
    } else if !ends_exist(nodes, upstream_node, upstream_socket, downstream_node, downstream_socket) {
        Err(NodeConnectError::SocketIdNotFound)
    } else if !types_match(nodes, upstream_node, upstream_socket, downstream_node, downstream_socket) {
        Err(NodeConnectError::TypeRejected)
    } else {
        Ok(())
    }
}

/// The connections after `c` has been made: the input socket of `c` loses
/// the connection it had.
pub open spec fn after_connect(conns: Set<Connection>, c: Connection) -> Set<Connection> {
    conns.filter(|x: Connection| !ends_at(x, c.downstream_node, c.downstream_socket)).insert(c)
}

/// The connections after the input socket `socket` of `node` has been
/// disconnected.
pub open spec fn after_disconnect(conns: Set<Connection>, node: NodeId, socket: SocketId) -> Set<
    Connection,
> {
    conns.filter(|x: Connection| !ends_at(x, node, socket))
}

/// The input socket `socket` of `node` has a connection in `conns`.
pub open spec fn connected_in(conns: Set<Connection>, node: NodeId, socket: SocketId) -> bool {
    exists|c: Connection| #[trigger] conns.contains(c) && ends_at(c, node, socket)
}

/// What checking the connection between the two sockets answers.
pub open spec fn check_outcome<V>(
    nodes: Seq<GraphNode<V>>,
    conns: Set<Connection>,
    c: Connection,
) -> Result<(), NodeConnectionCheckError> {
    if !ends_have_nodes(nodes, c.upstream_node, c.downstream_node) {
        Err(NodeConnectionCheckError::NodeIdNotFound)
    } else if !ends_exist(
        nodes,
        c.upstream_node,
        c.upstream_socket,
        c.downstream_node,
        c.downstream_socket,
    ) {
        Err(NodeConnectionCheckError::SocketIdNotFound)
    } else if !conns.contains(c) {
        Err(NodeConnectionCheckError::NotConnected)
    } else {
        Ok(())
    }
}

/// `after` is `before` once the input socket `socket` of node `node` has
/// taken `value` of type `value_type` as its default: that socket held a
/// default of that type, and every other node and socket, and every other
/// field of the socket, is as it was.
pub open spec fn default_set<V>(
    before: Seq<GraphNode<V>>,
    after: Seq<GraphNode<V>>,
    node: NodeId,
    socket: SocketId,
    value: V,
    value_type: u64,
) -> bool {
    exists|k: int, j: int|
        {
            &&& is_first_node(before, node, k)
            &&& is_first_input(before[k].inputs@, socket, j)
            &&& before[k].inputs@[j].default_type == value_type
            &&& before[k].inputs@[j].default_value is Some
            &&& after.len() == before.len()
            &&& forall|i: int| 0 <= i < before.len() && i != k ==> after[i] == before[i]
            &&& after[k].id == before[k].id
            &&& after[k].name == before[k].name
            &&& after[k].outputs == before[k].outputs
            &&& after[k].inputs@.len() == before[k].inputs@.len()
            &&& forall|i: int|
                0 <= i < before[k].inputs@.len() && i != j ==> after[k].inputs@[i]
                    == before[k].inputs@[i]
            &&& after[k].inputs@[j].id == socket
            &&& after[k].inputs@[j].name == before[k].inputs@[j].name
            &&& after[k].inputs@[j].socket_type == before[k].inputs@[j].socket_type
            &&& after[k].inputs@[j].default_type == value_type
            &&& after[k].inputs@[j].default_value == Some(value)
        }
}

/// A field of nodes and the connections between their sockets.
pub struct NodeController<V> {
    // information as a node
    node_id: NodeId,
    node_name: String,
    // nodes
    nodes: Vec<GraphNode<V>>,
    // connections between sockets of the nodes
    connections: Vec<Connection>,
    // the node being played, with the frame it started from
    playing: Option<(NodeId, FrameCount)>,
}

/// The same structure, under the name the rest of the project also uses.
pub type NodeField<V> = NodeController<V>;

impl<V> NodeController<V> {
    /// The nodes, in the order they were added.
    pub closed spec fn nodes(&self) -> Seq<GraphNode<V>> {
        self.nodes@
    }

    /// The connections between the nodes' sockets.
    pub closed spec fn connections(&self) -> Set<Connection> {
        Set::new(|c: Connection| self.connections@.contains(c))
    }

    pub closed spec fn spec_id(&self) -> NodeId {
        self.node_id
    }

    pub closed spec fn spec_name(&self) -> Seq<char> {
        self.node_name@
    }

    /// The node being played, if any, with the frame it started from.
    pub closed spec fn spec_playing(&self) -> Option<(NodeId, FrameCount)> {
        self.playing
    }

    /// Node ids are unique; every connection joins existing sockets of the
    /// same type; an input socket has at most one connection.
    pub open spec fn wf(&self) -> bool {
        &&& unique_ids(self.nodes())
        &&& forall|c: Connection| #[trigger]
            self.connections().contains(c) ==> connection_valid(self.nodes(), c)
        &&& forall|c1: Connection, c2: Connection|
            #![trigger self.connections().contains(c1), self.connections().contains(c2)]
            self.connections().contains(c1) && self.connections().contains(c2)
                && c1.downstream_node == c2.downstream_node && c1.downstream_socket
                == c2.downstream_socket ==> c1 == c2
    }

    /// The input socket `socket` of node `node` has a connection.
    pub open spec fn input_connected(&self, node: NodeId, socket: SocketId) -> bool {
        connected_in(self.connections(), node, socket)
    }
}


impl<V> NodeController<V> {
    /// Look up both ends of a connection, in the order: upstream node,
    /// downstream node, upstream socket, downstream socket.
    fn locate(
        &self,
        upstream_node: NodeId,
        upstream_socket: SocketId,
        downstream_node: NodeId,
        downstream_socket: SocketId,
    ) -> (r: Result<Ends, Missing>)
        ensures
            match r {
                Ok(e) => {
                    &&& ends_exist(
                        self.nodes(),
                        upstream_node,
                        upstream_socket,
                        downstream_node,
                        downstream_socket,
                    )
                    &&& e.up < self.nodes().len()
                    &&& e.down < self.nodes().len()
                    &&& self.nodes()[e.up as int] == node_of(self.nodes(), upstream_node)
                    &&& self.nodes()[e.down as int] == node_of(self.nodes(), downstream_node)
                    &&& e.up_socket < self.nodes()[e.up as int].outputs@.len()
                    &&& e.down_socket < self.nodes()[e.down as int].inputs@.len()
                    &&& self.nodes()[e.up as int].outputs@[e.up_socket as int] == output_of(
                        node_of(self.nodes(), upstream_node),
                        upstream_socket,
                    )
                    &&& self.nodes()[e.down as int].inputs@[e.down_socket as int] == input_of(
                        node_of(self.nodes(), downstream_node),
                        downstream_socket,
                    )
                },
                Err(Missing::Node) => !ends_have_nodes(
                    self.nodes(),
                    upstream_node,
                    downstream_node,
                ),
                Err(Missing::Socket) => ends_have_nodes(
                    self.nodes(),
                    upstream_node,
                    downstream_node,
                ) && !ends_exist(
                    self.nodes(),
                    upstream_node,
                    upstream_socket,
                    downstream_node,
                    downstream_socket,
                ),
            },
    {
        let up = match find_node(&self.nodes, upstream_node) {
            Some(i) => i,
            None => {
                return Err(Missing::Node);
            },
        };
        let down = match find_node(&self.nodes, downstream_node) {
            Some(i) => i,
            None => {
                return Err(Missing::Node);
            },
        };
        proof {
            lemma_first_node(self.nodes@, upstream_node, up as int);
            lemma_first_node(self.nodes@, downstream_node, down as int);
        }
        let up_socket = match find_output(&self.nodes[up].outputs, upstream_socket) {
            Some(i) => i,
            None => {
                return Err(Missing::Socket);
            },
        };
        let down_socket = match find_input(&self.nodes[down].inputs, downstream_socket) {
            Some(i) => i,
            None => {
                return Err(Missing::Socket);
            },
        };
        proof {
            lemma_first_output(self.nodes@[up as int], upstream_socket, up_socket as int);
            lemma_first_input(self.nodes@[down as int], downstream_socket, down_socket as int);
        }
        Ok(Ends { up, up_socket, down, down_socket })
    }

    /// Whether the connection is present.
    fn has_connection(&self, c: Connection) -> (r: bool)
        ensures
            r == self.connections().contains(c),
    {
        let mut i: usize = 0;
        while i < self.connections.len()
            invariant
                i <= self.connections@.len(),
                forall|j: int| 0 <= j < i ==> self.connections@[j] != c,
            decreases self.connections@.len() - i,
        {
            if self.connections[i] == c {
                return true;
            }
            i = i + 1;
        }
        false
    }

    /// The connection that ends in the input socket, if any.
    fn find_upstream(&self, node: NodeId, socket: SocketId) -> (r: Option<Connection>)
        ensures
            match r {
                Some(c) => self.connections().contains(c) && ends_at(c, node, socket),
                None => !self.input_connected(node, socket),
            },
    {
        let mut i: usize = 0;
        while i < self.connections.len()
            invariant
                i <= self.connections@.len(),
                forall|j: int| 0 <= j < i ==> !ends_at(#[trigger] self.connections@[j], node, socket),
            decreases self.connections@.len() - i,
        {
            let c = self.connections[i];
            if c.downstream_node == node && c.downstream_socket == socket {
                return Some(c);
            }
            i = i + 1;
        }
        None
    }

    /// Replace the connections by those `sel` does not pick.
    fn drop_connections(&mut self, sel: Selector)
        requires
            old(self).wf(),
        ensures
            final(self).wf(),
            final(self).nodes() == old(self).nodes(),
            final(self).connections() == old(self).connections().filter(
                |c: Connection| !selects(sel, c),
            ),
            final(self).spec_id() == old(self).spec_id(),
            final(self).spec_name() == old(self).spec_name(),
            final(self).spec_playing() == old(self).spec_playing(),
    {
        let ghost before = self.connections();
        let kept = drop_selected(&self.connections, &sel);
        self.connections = kept;
        assert(forall|c: Connection| #[trigger] self.connections().contains(c) == (before.contains(c)
            && !selects(sel, c)));
    }

    /// Add a connection whose input socket has none left.
    fn add_connection(&mut self, c: Connection)
        requires
            old(self).wf(),
            connection_valid(old(self).nodes(), c),
            !old(self).input_connected(c.downstream_node, c.downstream_socket),
        ensures
            final(self).wf(),
            final(self).nodes() == old(self).nodes(),
            final(self).connections() == old(self).connections().insert(c),
            final(self).spec_id() == old(self).spec_id(),
            final(self).spec_name() == old(self).spec_name(),
            final(self).spec_playing() == old(self).spec_playing(),
    {
        let ghost before = self.connections();
        let ghost before_seq = self.connections@;
        self.connections.push(c);
        assert forall|x: Connection| #[trigger] self.connections().contains(x) == (before.contains(x)
            || x == c) by {
            if before_seq.contains(x) {
                let j = choose|j: int| 0 <= j < before_seq.len() && before_seq[j] == x;
                assert(self.connections@[j] == x);
            }
            if x == c {
                assert(self.connections@[before_seq.len() as int] == c);
            }
        }
    }

    /// Connect an output socket to an input socket. A connection that the
    /// input socket had before is taken away first.
    pub fn node_connect(
        &mut self,
        upstream_node_id: NodeId,
        upstream_node_socket_id: SocketId,
        downstream_node_id: NodeId,
        downstream_node_socket_id: SocketId,
    ) -> (r: Result<(), NodeConnectError>)
        requires
            old(self).wf(),
        ensures
            final(self).wf(),
            final(self).spec_id() == old(self).spec_id(),
            final(self).spec_name() == old(self).spec_name(),
            final(self).nodes() == old(self).nodes(),
            final(self).spec_playing() == old(self).spec_playing(),
            r == connect_outcome(
                old(self).nodes(),
                upstream_node_id,
                upstream_node_socket_id,
                downstream_node_id,
                downstream_node_socket_id,
            ),
            r is Err ==> final(self).connections() == old(self).connections(),
            r is Ok ==> final(self).connections() == after_connect(
                old(self).connections(),
                Connection {
                    upstream_node: upstream_node_id,
                    upstream_socket: upstream_node_socket_id,
                    downstream_node: downstream_node_id,
                    downstream_socket: downstream_node_socket_id,
                },
            ),
    {
        let e = match self.locate(
            upstream_node_id,
            upstream_node_socket_id,
            downstream_node_id,
            downstream_node_socket_id,
        ) {
            Ok(e) => e,
            Err(Missing::Node) => {
                return Err(NodeConnectError::NodeIdNotFound);
            },
            Err(Missing::Socket) => {
                return Err(NodeConnectError::SocketIdNotFound);
            },
        };
        // check socket type
        if self.nodes[e.up].outputs[e.up_socket].socket_type
            != self.nodes[e.down].inputs[e.down_socket].socket_type {
            return Err(NodeConnectError::TypeRejected);
        }
        let c = Connection {
            upstream_node: upstream_node_id,
            upstream_socket: upstream_node_socket_id,
            downstream_node: downstream_node_id,
            downstream_socket: downstream_node_socket_id,
        };
        // the input socket loses the connection it had
        self.drop_connections(Selector::EndsAt(downstream_node_id, downstream_node_socket_id));
        self.add_connection(c);
        Ok(())
    }

    /// Connect an output socket to an input socket that has no connection;
    /// an input socket that has one is left as it is.
    pub fn node_conservative_connect(
        &mut self,
        upstream_node_id: NodeId,
        upstream_node_socket_id: SocketId,
        downstream_node_id: NodeId,
        downstream_node_socket_id: SocketId,
    ) -> (r: Result<(), NodeConnectError>)
        requires
            old(self).wf(),
        ensures
            final(self).wf(),
            final(self).spec_id() == old(self).spec_id(),
            final(self).spec_name() == old(self).spec_name(),
            final(self).nodes() == old(self).nodes(),
            final(self).spec_playing() == old(self).spec_playing(),
            r == (match connect_outcome(
                old(self).nodes(),
                upstream_node_id,
                upstream_node_socket_id,
                downstream_node_id,
                downstream_node_socket_id,
            ) {
                Err(e) => Err(e),
                Ok(_) => if old(self).input_connected(
                    downstream_node_id,
                    downstream_node_socket_id,
                ) {
                    Err(NodeConnectError::InputNotEmpty)
                } else {
                    Ok(())
                },
            }),
            r is Err ==> final(self).connections() == old(self).connections(),
            r is Ok ==> final(self).connections() == old(self).connections().insert(
                Connection {
                    upstream_node: upstream_node_id,
                    upstream_socket: upstream_node_socket_id,
                    downstream_node: downstream_node_id,
                    downstream_socket: downstream_node_socket_id,
                },
            ),
    {
        let e = match self.locate(
            upstream_node_id,
            upstream_node_socket_id,
            downstream_node_id,
            downstream_node_socket_id,
        ) {
            Ok(e) => e,
            Err(Missing::Node) => {
                return Err(NodeConnectError::NodeIdNotFound);
            },
            Err(Missing::Socket) => {
                return Err(NodeConnectError::SocketIdNotFound);
            },
        };
        // check socket type
        if self.nodes[e.up].outputs[e.up_socket].socket_type
            != self.nodes[e.down].inputs[e.down_socket].socket_type {
            return Err(NodeConnectError::TypeRejected);
        }
        // check the downstream socket is not connected
        if self.find_upstream(downstream_node_id, downstream_node_socket_id).is_some() {
            return Err(NodeConnectError::InputNotEmpty);
        }
        let c = Connection {
            upstream_node: upstream_node_id,
            upstream_socket: upstream_node_socket_id,
            downstream_node: downstream_node_id,
            downstream_socket: downstream_node_socket_id,
        };
        self.add_connection(c);
        Ok(())
    }

    /// Take away the connection of an input socket.
    pub fn node_disconnect(
        &mut self,
        downstream_node_id: NodeId,
        downstream_node_socket_id: SocketId,
    ) -> (r: Result<(), NodeDisconnectError>)
        requires
            old(self).wf(),
        ensures
            final(self).wf(),
            final(self).spec_id() == old(self).spec_id(),
            final(self).spec_name() == old(self).spec_name(),
            final(self).nodes() == old(self).nodes(),
            final(self).spec_playing() == old(self).spec_playing(),
            r == (if !has_node(old(self).nodes(), downstream_node_id) {
                Err(NodeDisconnectError::NodeIdNotFound)
            } else if !has_input(
                node_of(old(self).nodes(), downstream_node_id),
                downstream_node_socket_id,
            ) {
                Err(NodeDisconnectError::SocketIdNotFound)
            } else if !old(self).input_connected(downstream_node_id, downstream_node_socket_id) {
                Err(NodeDisconnectError::NotConnected)
            } else {
                Ok(())
            }),
            final(self).connections() == after_disconnect(
                old(self).connections(),
                downstream_node_id,
                downstream_node_socket_id,
            ),
    {
        let down = match find_node(&self.nodes, downstream_node_id) {
            Some(i) => i,
            None => {
                proof {
                    self.lemma_no_connection_at_missing_node(downstream_node_id, downstream_node_socket_id);
                }
                return Err(NodeDisconnectError::NodeIdNotFound);
            },
        };
        proof {
            lemma_first_node(self.nodes@, downstream_node_id, down as int);
        }
        match find_input(&self.nodes[down].inputs, downstream_node_socket_id) {
            Some(i) => {
                proof {
                    lemma_first_input(self.nodes@[down as int], downstream_node_socket_id, i as int);
                }
            },
            None => {
                proof {
                    self.lemma_no_connection_at_missing_node(downstream_node_id, downstream_node_socket_id);
                }
                return Err(NodeDisconnectError::SocketIdNotFound);
            },
        }
        if self.find_upstream(downstream_node_id, downstream_node_socket_id).is_none() {
            proof {
                self.lemma_no_connection_at_missing_node(downstream_node_id, downstream_node_socket_id);
            }
            return Err(NodeDisconnectError::NotConnected);
        }
        self.drop_connections(Selector::EndsAt(downstream_node_id, downstream_node_socket_id));
        Ok(())
    }

    /// An input socket that cannot be found, or has no connection, is the
    /// end of no connection.
    proof fn lemma_no_connection_at_missing_node(&self, node: NodeId, socket: SocketId)
        requires
            self.wf(),
            !has_node(self.nodes(), node) || !has_input(node_of(self.nodes(), node), socket)
                || !self.input_connected(node, socket),
        ensures
            self.connections().filter(|c: Connection| !ends_at(c, node, socket))
                == self.connections(),
    {
        assert(self.connections().filter(|c: Connection| !ends_at(c, node, socket))
            =~= self.connections());
    }

    /// Take away the connection between the two sockets, when it is there.
    pub fn node_conservative_disconnect(
        &mut self,
        upstream_node_id: NodeId,
        upstream_node_socket_id: SocketId,
        downstream_node_id: NodeId,
        downstream_node_socket_id: SocketId,
    ) -> (r: Result<(), NodeDisconnectError>)
        requires
            old(self).wf(),
        ensures
            final(self).wf(),
            final(self).spec_id() == old(self).spec_id(),
            final(self).spec_name() == old(self).spec_name(),
            final(self).nodes() == old(self).nodes(),
            final(self).spec_playing() == old(self).spec_playing(),
            r == (if !ends_have_nodes(old(self).nodes(), upstream_node_id, downstream_node_id) {
                Err(NodeDisconnectError::NodeIdNotFound)
            } else if !ends_exist(
                old(self).nodes(),
                upstream_node_id,
                upstream_node_socket_id,
                downstream_node_id,
                downstream_node_socket_id,
            ) {
                Err(NodeDisconnectError::SocketIdNotFound)
            } else if !old(self).connections().contains(
                Connection {
                    upstream_node: upstream_node_id,
                    upstream_socket: upstream_node_socket_id,
                    downstream_node: downstream_node_id,
                    downstream_socket: downstream_node_socket_id,
                },
            ) {
                Err(NodeDisconnectError::NotConnected)
            } else {
                Ok(())
            }),
            r is Err ==> final(self).connections() == old(self).connections(),
            r is Ok ==> final(self).connections() == old(self).connections().remove(
                Connection {
                    upstream_node: upstream_node_id,
                    upstream_socket: upstream_node_socket_id,
                    downstream_node: downstream_node_id,
                    downstream_socket: downstream_node_socket_id,
                },
            ),
    {
        match self.locate(
            upstream_node_id,
            upstream_node_socket_id,
            downstream_node_id,
            downstream_node_socket_id,
        ) {
            Ok(_) => {},
            Err(Missing::Node) => {
                return Err(NodeDisconnectError::NodeIdNotFound);
            },
            Err(Missing::Socket) => {
                return Err(NodeDisconnectError::SocketIdNotFound);
            },
        }
        let c = Connection {
            upstream_node: upstream_node_id,
            upstream_socket: upstream_node_socket_id,
            downstream_node: downstream_node_id,
            downstream_socket: downstream_node_socket_id,
        };
        if !self.has_connection(c) {
            return Err(NodeDisconnectError::NotConnected);
        }
        self.drop_connections(Selector::Exactly(c));
        Ok(())
    }

    /// Whether the two sockets are connected.
    pub fn check_connection(
        &self,
        upstream_node_id: NodeId,
        upstream_node_socket_id: SocketId,
        downstream_node_id: NodeId,
        downstream_node_socket_id: SocketId,
    ) -> (r: Result<(), NodeConnectionCheckError>)
        requires
            self.wf(),
        ensures
            r == check_outcome(
                self.nodes(),
                self.connections(),
                Connection {
                    upstream_node: upstream_node_id,
                    upstream_socket: upstream_node_socket_id,
                    downstream_node: downstream_node_id,
                    downstream_socket: downstream_node_socket_id,
                },
            ),
    {
        match self.locate(
            upstream_node_id,
            upstream_node_socket_id,
            downstream_node_id,
            downstream_node_socket_id,
        ) {
            Ok(_) => {},
            Err(Missing::Node) => {
                return Err(NodeConnectionCheckError::NodeIdNotFound);
            },
            Err(Missing::Socket) => {
                return Err(NodeConnectionCheckError::SocketIdNotFound);
            },
        }
        let c = Connection {
            upstream_node: upstream_node_id,
            upstream_socket: upstream_node_socket_id,
            downstream_node: downstream_node_id,
            downstream_socket: downstream_node_socket_id,
        };
        if self.has_connection(c) {
            Ok(())
        } else {
            Err(NodeConnectionCheckError::NotConnected)
        }
    }
}


impl<V> NodeController<V> {
    /// An empty field.
    pub fn new(name: &str) -> (field: Self)
        ensures
            field.wf(),
            field.nodes() == Seq::<GraphNode<V>>::empty(),
            field.connections() == Set::<Connection>::empty(),
            field.spec_name() == name@,
            field.spec_playing() is None,
    {
        let id = NodeId::new();
        let field = NodeController {
            node_id: id,
            node_name: name.to_string(),
            nodes: Vec::new(),
            connections: Vec::new(),
            playing: None,
        };
        field
    }

    /// The id of the field itself.
    pub fn get_id(&self) -> (id: NodeId)
        ensures
            id == self.spec_id(),
    {
        self.node_id
    }

    /// The name of the field itself.
    pub fn get_name(&self) -> (name: &String)
        ensures
            name@ == self.spec_name(),
    {
        &self.node_name
    }

    pub fn set_name(&mut self, name: String)
        requires
            old(self).wf(),
        ensures
            final(self).wf(),
            final(self).spec_name() == name@,
            final(self).spec_id() == old(self).spec_id(),
            final(self).nodes() == old(self).nodes(),
            final(self).connections() == old(self).connections(),
            final(self).spec_playing() == old(self).spec_playing(),
    {
        self.node_name = name;
        assert(self.connections() =~= old(self).connections());
    }

    /// Whether a node has the id.
    pub(crate) fn has_node_id(&self, id: NodeId) -> (r: bool)
        ensures
            r == has_node(self.nodes(), id),
    {
        find_node(&self.nodes, id).is_some()
    }

    /// The number of nodes.
    pub fn node_count(&self) -> (n: usize)
        ensures
            n == self.nodes().len(),
    {
        self.nodes.len()
    }

    /// Whether `c` joins sockets of the field that carry the same type.
    fn connection_is_valid(&self, c: Connection) -> (r: bool)
        ensures
            r == connection_valid(self.nodes(), c),
    {
        match self.locate(c.upstream_node, c.upstream_socket, c.downstream_node, c.downstream_socket) {
            Ok(e) => self.nodes[e.up].outputs[e.up_socket].socket_type
                == self.nodes[e.down].inputs[e.down_socket].socket_type,
            Err(_) => false,
        }
    }

    /// Add a node. A node that had the same id is replaced; of its
    /// connections, those that the sockets of the new node still carry are
    /// kept, and the others are taken away. Adding the same node again keeps
    /// every connection.
    pub fn add_node(&mut self, node: GraphNode<V>)
        requires
            old(self).wf(),
        ensures
            final(self).wf(),
            final(self).spec_id() == old(self).spec_id(),
            final(self).spec_name() == old(self).spec_name(),
            has_node(old(self).nodes(), node.id) ==> exists|k: int|
                is_first_node(old(self).nodes(), node.id, k) && final(self).nodes() == old(self).nodes().update(k, node),
            !has_node(old(self).nodes(), node.id) ==> final(self).nodes() == old(self).nodes().push(
                node,
            ),
            final(self).connections() == old(self).connections().filter(
                |c: Connection| connection_valid(final(self).nodes(), c),
            ),
            final(self).spec_playing() == old(self).spec_playing(),
    {
        let id = node.id;
        let ghost old_nodes = self.nodes@;
        match find_node(&self.nodes, id) {
            Some(k) => {
                let ghost g = node;
                self.nodes.remove(k);
                self.nodes.insert(k, node);
                assert(self.nodes@ =~= old_nodes.update(k as int, g));
                proof {
                    lemma_update_lookups(old_nodes, k as int, g);
                }
            },
            None => {
                let ghost g = node;
                self.nodes.push(node);
                proof {
                    lemma_push_lookups(old_nodes, g);
                }
            },
        }
        let ghost before = self.connections@;
        let mut kept: Vec<Connection> = Vec::new();
        let mut i: usize = 0;
        while i < self.connections.len()
            invariant
                i <= before.len(),
                self.connections@ == before,
                forall|j: int|
                    0 <= j < kept@.len() ==> before.contains(#[trigger] kept@[j])
                        && connection_valid(self.nodes(), kept@[j]),
                forall|j: int|
                    0 <= j < i && connection_valid(self.nodes(), before[j]) ==> kept@.contains(
                        #[trigger] before[j],
                    ),
            decreases before.len() - i,
        {
            let c = self.connections[i];
            let ghost kept_before = kept@;
            if self.connection_is_valid(c) {
                kept.push(c);
                assert(kept@[kept@.len() - 1] == c);
            }
            proof {
                assert forall|j: int|
                    0 <= j < i + 1 && connection_valid(self.nodes(), before[j]) implies kept@.contains(
                    #[trigger] before[j],
                ) by {
                    if j < i {
                        assert(kept_before.contains(before[j]));
                        let q = choose|q: int| 0 <= q < kept_before.len() && kept_before[q] == before[j];
                        assert(kept@[q] == before[j]);
                    } else {
                        assert(kept@[kept@.len() - 1] == before[j]);
                    }
                }
            }
            i = i + 1;
        }
        self.connections = kept;
        assert forall|c: Connection| #[trigger] self.connections().contains(c) == (old(self).connections().contains(c)
            && connection_valid(self.nodes(), c)) by {
            if old(self).connections().contains(c) && connection_valid(self.nodes(), c) {
                let j = choose|j: int| 0 <= j < before.len() && before[j] == c;
                assert(kept@.contains(before[j]));
            }
        }
        assert(self.connections() =~= old(self).connections().filter(
            |c: Connection| connection_valid(self.nodes(), c),
        ));
    }

    /// Disconnect every input socket fed by the output socket.
    pub fn node_disconnect_all_from_output(&mut self, node_id: NodeId, socket_id: SocketId) -> (r:
        Result<(), NodeDisconnectError>)
        requires
            old(self).wf(),
        ensures
            final(self).wf(),
            final(self).spec_id() == old(self).spec_id(),
            final(self).spec_name() == old(self).spec_name(),
            final(self).nodes() == old(self).nodes(),
            final(self).spec_playing() == old(self).spec_playing(),
            r == (if !has_node(old(self).nodes(), node_id) {
                Err(NodeDisconnectError::NodeIdNotFound)
            } else if !has_output(node_of(old(self).nodes(), node_id), socket_id) {
                Err(NodeDisconnectError::SocketIdNotFound)
            } else {
                Ok(())
            }),
            r is Err ==> final(self).connections() == old(self).connections(),
            r is Ok ==> final(self).connections() == old(self).connections().filter(
                |c: Connection| !starts_at(c, node_id, socket_id),
            ),
    {
        let k = match find_node(&self.nodes, node_id) {
            Some(k) => k,
            None => {
                return Err(NodeDisconnectError::NodeIdNotFound);
            },
        };
        proof {
            lemma_first_node(self.nodes@, node_id, k as int);
        }
        match find_output(&self.nodes[k].outputs, socket_id) {
            Some(j) => {
                proof {
                    lemma_first_output(self.nodes@[k as int], socket_id, j as int);
                }
            },
            None => {
                return Err(NodeDisconnectError::SocketIdNotFound);
            },
        }
        self.drop_connections(Selector::StartsAt(node_id, socket_id));
        Ok(())
    }

    /// Whether every input socket of the node at `k` has a connection.
    fn inputs_all_connected(&self, k: usize) -> (r: bool)
        requires
            k < self.nodes().len(),
        ensures
            r == forall|j: int|
                0 <= j < self.nodes()[k as int].inputs@.len() ==> self.input_connected(
                    self.nodes()[k as int].id,
                    #[trigger] self.nodes()[k as int].inputs@[j].id,
                ),
    {
        let n = self.nodes[k].id;
        let mut j: usize = 0;
        while j < self.nodes[k].inputs.len()
            invariant
                k < self.nodes@.len(),
                n == self.nodes@[k as int].id,
                j <= self.nodes@[k as int].inputs@.len(),
                forall|i: int|
                    0 <= i < j ==> self.input_connected(
                        n,
                        #[trigger] self.nodes@[k as int].inputs@[i].id,
                    ),
            decreases self.nodes@[k as int].inputs@.len() - j,
        {
            let s = self.nodes[k].inputs[j].id;
            if self.find_upstream(n, s).is_none() {
                return false;
            }
            j = j + 1;
        }
        true
    }

    /// Take away every connection of the node, on its inputs and on its
    /// outputs. Answers `NotConnected` when one of its input sockets had no
    /// connection to take away.
    pub fn node_disconnect_all(&mut self, node_id: NodeId) -> (r: Result<(), NodeDisconnectError>)
        requires
            old(self).wf(),
        ensures
            final(self).wf(),
            final(self).spec_id() == old(self).spec_id(),
            final(self).spec_name() == old(self).spec_name(),
            final(self).nodes() == old(self).nodes(),
            final(self).spec_playing() == old(self).spec_playing(),
            r == (if !has_node(old(self).nodes(), node_id) {
                Err(NodeDisconnectError::NodeIdNotFound)
            } else if exists|j: int|
                0 <= j < node_of(old(self).nodes(), node_id).inputs@.len()
                    && !old(self).input_connected(
                    node_id,
                    #[trigger] node_of(old(self).nodes(), node_id).inputs@[j].id,
                ) {
                Err(NodeDisconnectError::NotConnected)
            } else {
                Ok(())
            }),
            r is Err ==> r == Err::<(), _>(NodeDisconnectError::NotConnected) || final(self).connections() == old(self).connections(),
            has_node(old(self).nodes(), node_id) ==> final(self).connections() == old(self).connections().filter(|c: Connection| !touches(c, node_id)),
    {
        let k = match find_node(&self.nodes, node_id) {
            Some(k) => k,
            None => {
                return Err(NodeDisconnectError::NodeIdNotFound);
            },
        };
        proof {
            lemma_first_node(self.nodes@, node_id, k as int);
        }
        let all_connected = self.inputs_all_connected(k);
        self.drop_connections(Selector::Touches(node_id));
        if all_connected {
            Ok(())
        } else {
            Err(NodeDisconnectError::NotConnected)
        }
    }

    /// Take a node away, with all its connections.
    pub fn remove_node(&mut self, node_id: NodeId) -> (r: Result<(), NodeRemoveError>)
        requires
            old(self).wf(),
        ensures
            final(self).wf(),
            final(self).spec_id() == old(self).spec_id(),
            final(self).spec_name() == old(self).spec_name(),
            final(self).spec_playing() == old(self).spec_playing(),
            r == (if has_node(old(self).nodes(), node_id) {
                Ok(())
            } else {
                Err(NodeRemoveError::NodeIdNotFound)
            }),
            r is Err ==> final(self).nodes() == old(self).nodes() && final(self).connections()
                == old(self).connections(),
            r is Ok ==> exists|k: int|
                is_first_node(old(self).nodes(), node_id, k) && final(self).nodes() == old(self).nodes().remove(k),
            r is Ok ==> final(self).connections() == old(self).connections().filter(
                |c: Connection| !touches(c, node_id),
            ),
            !has_node(final(self).nodes(), node_id),
    {
        let k = match find_node(&self.nodes, node_id) {
            Some(k) => k,
            None => {
                return Err(NodeRemoveError::NodeIdNotFound);
            },
        };
        let ghost old_nodes = self.nodes@;
        self.drop_connections(Selector::Touches(node_id));
        self.nodes.remove(k);
        proof {
            lemma_remove_lookups(old_nodes, k as int);
        }
        assert forall|c: Connection| #[trigger] self.connections().contains(c) implies connection_valid(
            self.nodes(),
            c,
        ) by {
            lemma_valid_kept(old_nodes, self.nodes(), node_id, c);
        }
        Ok(())
    }

    /// Whether every node can be found under its own id.
    pub fn check_consistency(&self) -> (r: bool)
        ensures
            r == unique_ids(self.nodes()),
    {
        let mut i: usize = 0;
        while i < self.nodes.len()
            invariant
                i <= self.nodes@.len(),
                forall|a: int, b: int|
                    0 <= a < b < self.nodes@.len() && a < i ==> self.nodes@[a].id != self.nodes@[b].id,
            decreases self.nodes@.len() - i,
        {
            let mut j: usize = i + 1;
            while j < self.nodes.len()
                invariant
                    i < self.nodes@.len(),
                    i + 1 <= j <= self.nodes@.len(),
                    forall|a: int, b: int|
                        0 <= a < b < self.nodes@.len() && a < i ==> self.nodes@[a].id
                            != self.nodes@[b].id,
                    forall|b: int| i < b < j ==> self.nodes@[i as int].id != self.nodes@[b].id,
                decreases self.nodes@.len() - j,
            {
                if self.nodes[i].id == self.nodes[j].id {
                    return false;
                }
                j = j + 1;
            }
            i = i + 1;
        }
        true
    }

    /// Make every node found under its own id; a well-formed field already
    /// is, and stays as it is.
    pub fn ensure_consistency(&mut self)
        requires
            old(self).wf(),
        ensures
            final(self).wf(),
            final(self).spec_id() == old(self).spec_id(),
            final(self).spec_name() == old(self).spec_name(),
            final(self).nodes() == old(self).nodes(),
            final(self).connections() == old(self).connections(),
            final(self).spec_playing() == old(self).spec_playing(),
    {
        if !self.check_consistency() {
            assert(false);
        }
    }

    /// Set a new default value of an input socket; `value_type` is the type
    /// of the value. A refused value is handed back in the error.
    pub fn node_update_input_default(
        &mut self,
        node_id: NodeId,
        input_socket_id: SocketId,
        value: V,
        value_type: u64,
    ) -> (r: Result<(), UpdateInputDefaultError<V>>)
        requires
            old(self).wf(),
        ensures
            final(self).wf(),
            final(self).spec_id() == old(self).spec_id(),
            final(self).spec_name() == old(self).spec_name(),
            final(self).connections() == old(self).connections(),
            final(self).spec_playing() == old(self).spec_playing(),
            !has_node(old(self).nodes(), node_id) ==> (r matches Err(UpdateInputDefaultError::NodeIdNotFound(v)) && v == value),
            has_node(old(self).nodes(), node_id) && !has_input(
                node_of(old(self).nodes(), node_id),
                input_socket_id,
            ) ==> (r matches Err(UpdateInputDefaultError::SocketIdNotFound(v)) && v == value),
            has_node(old(self).nodes(), node_id) && has_input(
                node_of(old(self).nodes(), node_id),
                input_socket_id,
            ) && input_of(node_of(old(self).nodes(), node_id), input_socket_id).default_type
                != value_type ==> (r matches Err(UpdateInputDefaultError::TypeRejected(v)) && v == value),
            has_node(old(self).nodes(), node_id) && has_input(
                node_of(old(self).nodes(), node_id),
                input_socket_id,
            ) && input_of(node_of(old(self).nodes(), node_id), input_socket_id).default_type
                == value_type && input_of(
                node_of(old(self).nodes(), node_id),
                input_socket_id,
            ).default_value is None ==> (r matches Err(UpdateInputDefaultError::DefaultValueNotEnabled(v)) && v == value),
            has_node(old(self).nodes(), node_id) && has_input(
                node_of(old(self).nodes(), node_id),
                input_socket_id,
            ) && input_of(node_of(old(self).nodes(), node_id), input_socket_id).default_type
                == value_type && input_of(
                node_of(old(self).nodes(), node_id),
                input_socket_id,
            ).default_value is Some ==> r is Ok,
            r is Err ==> final(self).nodes() == old(self).nodes(),
            r is Ok ==> {
                &&& has_node(final(self).nodes(), node_id)
                &&& has_input(node_of(final(self).nodes(), node_id), input_socket_id)
                &&& input_of(node_of(final(self).nodes(), node_id), input_socket_id).default_value
                    == Some(value)
                &&& input_of(node_of(final(self).nodes(), node_id), input_socket_id).default_type
                    == value_type
            },
            r is Ok ==> default_set(
                old(self).nodes(),
                final(self).nodes(),
                node_id,
                input_socket_id,
                value,
                value_type,
            ),
    {
        let k = match find_node(&self.nodes, node_id) {
            Some(k) => k,
            None => {
                return Err(UpdateInputDefaultError::NodeIdNotFound(value));
            },
        };
        proof {
            lemma_first_node(self.nodes@, node_id, k as int);
        }
        let j = match find_input(&self.nodes[k].inputs, input_socket_id) {
            Some(j) => j,
            None => {
                return Err(UpdateInputDefaultError::SocketIdNotFound(value));
            },
        };
        proof {
            lemma_first_input(self.nodes@[k as int], input_socket_id, j as int);
        }
        if self.nodes[k].inputs[j].default_type != value_type {
            return Err(UpdateInputDefaultError::TypeRejected(value));
        }
        if self.nodes[k].inputs[j].default_value.is_none() {
            return Err(UpdateInputDefaultError::DefaultValueNotEnabled(value));
        }
        let ghost old_nodes = self.nodes@;
        let ghost conns = self.connections();
        let mut node = self.nodes.remove(k);
        let mut input = node.inputs.remove(j);
        input.default_value = Some(value);
        node.inputs.insert(j, input);
        let ghost new_node = node;
        self.nodes.insert(k, node);
        assert(self.nodes@ =~= old_nodes.update(k as int, new_node));
        proof {
            lemma_first_node(self.nodes@, node_id, k as int);
            lemma_first_input(new_node, input_socket_id, j as int);
            lemma_update_lookups(old_nodes, k as int, new_node);
            assert forall|c: Connection| #[trigger] self.connections().contains(c) implies connection_valid(
                self.nodes(),
                c,
            ) by {
                self.lemma_valid_after_default_change(old_nodes, k as int, j as int, c);
            }
        }
        Ok(())
    }

    /// Changing a default value leaves every connection valid: the ids and
    /// types of the sockets do not change.
    proof fn lemma_valid_after_default_change(
        &self,
        old_nodes: Seq<GraphNode<V>>,
        k: int,
        j: int,
        c: Connection,
    )
        requires
            unique_ids(old_nodes),
            0 <= k < old_nodes.len(),
            self.nodes().len() == old_nodes.len(),
            forall|i: int| 0 <= i < old_nodes.len() && i != k ==> self.nodes()[i] == old_nodes[i],
            self.nodes()[k].id == old_nodes[k].id,
            self.nodes()[k].outputs == old_nodes[k].outputs,
            self.nodes()[k].inputs@.len() == old_nodes[k].inputs@.len(),
            forall|i: int|
                0 <= i < old_nodes[k].inputs@.len() ==> self.nodes()[k].inputs@[i].id
                    == old_nodes[k].inputs@[i].id && self.nodes()[k].inputs@[i].socket_type
                    == old_nodes[k].inputs@[i].socket_type,
            same_lookups_except(old_nodes, self.nodes(), old_nodes[k].id),
            has_node(self.nodes(), old_nodes[k].id),
            node_of(self.nodes(), old_nodes[k].id) == self.nodes()[k],
            connection_valid(old_nodes, c),
        ensures
            connection_valid(self.nodes(), c),
    {
        let n = old_nodes[k].id;
        lemma_unique_lookup(old_nodes, k);
        let a = self.nodes()[k];
        let b = old_nodes[k];
        assert forall|s: SocketId| has_input(b, s) implies has_input(a, s) && input_of(a, s).socket_type
            == input_of(b, s).socket_type by {
            lemma_exists_first_input(b, s);
            let q = choose|q: int| is_first_input(b.inputs@, s, q);
            lemma_first_input(b, s, q);
            assert forall|z: int| 0 <= z < q implies a.inputs@[z].id != s by {
                assert(a.inputs@[z].id == b.inputs@[z].id);
            }
            lemma_first_input(a, s, q);
        }
    }
}

/// When an input socket with an id exists, there is a first one.
proof fn lemma_exists_first_input<V>(node: GraphNode<V>, s: SocketId)
    requires
        has_input(node, s),
    ensures
        exists|q: int| is_first_input(node.inputs@, s, q),
{
    let w = choose|w: int| 0 <= w < node.inputs@.len() && node.inputs@[w].id == s;
    lemma_first_input_before(node.inputs@, s, w);
}

proof fn lemma_first_input_before<V>(inputs: Seq<InputSocket<V>>, s: SocketId, w: int)
    requires
        0 <= w < inputs.len(),
        inputs[w].id == s,
    ensures
        exists|q: int| is_first_input(inputs, s, q),
    decreases w,
{
    if exists|z: int| 0 <= z < w && inputs[z].id == s {
        let z = choose|z: int| 0 <= z < w && inputs[z].id == s;
        lemma_first_input_before(inputs, s, z);
    } else {
        assert(is_first_input(inputs, s, w));
    }
}


impl<V> NodeController<V> {
    /// Start playing a node from `begin_frame`; refused when there is no
    /// such node.
    pub fn field_play(&mut self, begin_frame: FrameCount, node_id: NodeId) -> (r: Result<(), ()>)
        requires
            old(self).wf(),
        ensures
            final(self).wf(),
            final(self).spec_id() == old(self).spec_id(),
            final(self).spec_name() == old(self).spec_name(),
            final(self).nodes() == old(self).nodes(),
            final(self).connections() == old(self).connections(),
            r == (if has_node(old(self).nodes(), node_id) {
                Ok::<(), ()>(())
            } else {
                Err(())
            }),
            r is Ok ==> final(self).spec_playing() == Some((node_id, begin_frame)),
            r is Err ==> final(self).spec_playing() == old(self).spec_playing(),
    {
        match find_node(&self.nodes, node_id) {
            Some(_) => {
                self.playing = Some((node_id, begin_frame));
                assert(self.connections() =~= old(self).connections());
                Ok(())
            },
            None => Err(()),
        }
    }

    /// Whether a node is being played.
    pub fn field_is_playing(&self) -> (r: bool)
        ensures
            r == self.spec_playing() is Some,
    {
        self.playing.is_some()
    }

    /// One step of playing: answers the node being played and the frame to
    /// compute now, and moves on to the next frame.
    pub fn field_play_step(&mut self) -> (r: (NodeId, FrameCount))
        requires
            old(self).wf(),
            old(self).spec_playing() matches Some((n, f)) && f < FrameCount::MAX,
        ensures
            final(self).wf(),
            final(self).spec_id() == old(self).spec_id(),
            final(self).spec_name() == old(self).spec_name(),
            final(self).nodes() == old(self).nodes(),
            final(self).connections() == old(self).connections(),
            old(self).spec_playing() == Some(r),
            final(self).spec_playing() == Some((r.0, (r.1 + 1) as FrameCount)),
    {
        let r = match self.playing {
            Some(p) => p,
            None => vstd::pervasive::unreached(),
        };
        self.playing = Some((r.0, r.1 + 1));
        assert(self.connections() =~= old(self).connections());
        r
    }

    /// Stop playing; answers the node that was played and the frame reached:
    /// the frame it started from, moved on by each step played.
    pub fn field_stop(&mut self) -> (r: (NodeId, FrameCount))
        requires
            old(self).wf(),
            old(self).spec_playing() is Some,
        ensures
            final(self).wf(),
            final(self).spec_id() == old(self).spec_id(),
            final(self).spec_name() == old(self).spec_name(),
            final(self).nodes() == old(self).nodes(),
            final(self).connections() == old(self).connections(),
            old(self).spec_playing() == Some(r),
            final(self).spec_playing() is None,
    {
        let r = self.playing.take();
        assert(self.connections() =~= old(self).connections());
        match r {
            Some(p) => p,
            None => vstd::pervasive::unreached(),
        }
    }
}


/// Once two sockets have been connected, checking their connection answers
/// `Ok`.
pub proof fn law_connect_then_check<V>(nodes: Seq<GraphNode<V>>, conns: Set<Connection>, c: Connection)
    requires
        connect_outcome(
            nodes,
            c.upstream_node,
            c.upstream_socket,
            c.downstream_node,
            c.downstream_socket,
        ) is Ok,
    ensures
        check_outcome(nodes, after_connect(conns, c), c) is Ok,
{
}

/// After a connection has been made, it is the only one that ends in its
/// input socket.
pub proof fn law_connect_replaces(conns: Set<Connection>, c: Connection, x: Connection)
    requires
        after_connect(conns, c).contains(x),
        ends_at(x, c.downstream_node, c.downstream_socket),
    ensures
        x == c,
{
}

/// After an input socket has been disconnected, checking any connection to
/// it answers `NotConnected`.
pub proof fn law_disconnect_then_check<V>(nodes: Seq<GraphNode<V>>, conns: Set<Connection>, c: Connection)
    requires
        ends_exist(nodes, c.upstream_node, c.upstream_socket, c.downstream_node, c.downstream_socket),
    ensures
        check_outcome(nodes, after_disconnect(conns, c.downstream_node, c.downstream_socket), c)
            == Err::<(), NodeConnectionCheckError>(NodeConnectionCheckError::NotConnected),
        !connected_in(after_disconnect(conns, c.downstream_node, c.downstream_socket), c.downstream_node, c.downstream_socket),
{
}

/// Connecting an input socket that had no connection, then disconnecting it,
/// gives back the connections there were.
pub proof fn law_connect_disconnect_roundtrip(conns: Set<Connection>, c: Connection)
    requires
        !connected_in(conns, c.downstream_node, c.downstream_socket),
    ensures
        after_disconnect(after_connect(conns, c), c.downstream_node, c.downstream_socket) == conns,
{
    assert(after_disconnect(after_connect(conns, c), c.downstream_node, c.downstream_socket)
        =~= conns);
}

/// A conservative connection of an input socket that had none, taken away
/// again by a checked disconnection, gives back the connections there were.
pub proof fn law_conservative_roundtrip(conns: Set<Connection>, c: Connection)
    requires
        !connected_in(conns, c.downstream_node, c.downstream_socket),
    ensures
        conns.insert(c).remove(c) == conns,
{
}

/// Connecting the same two sockets twice leaves the connections as the
/// first time did.
pub proof fn law_connect_idempotent(conns: Set<Connection>, c: Connection)
    ensures
        after_connect(after_connect(conns, c), c) == after_connect(conns, c),
{
}

/// A well-formed field is always found consistent.
pub proof fn law_always_consistent<V>(field: NodeController<V>)
    requires
        field.wf(),
    ensures
        unique_ids(field.nodes()),
{
}

// --- evaluation of the field ---

/// The work of the nodes of a field, as users of the library write it: the
/// value a node computes from the values of its inputs at a frame, the value
/// one of its output sockets picks from it, the frame at which an input asks
/// the node upstream of it, and what an input with nothing connected reads.
pub trait FieldProcess<V> {
    /// The node `node`, whose inputs read `inputs`, may compute `output` at
    /// `frame`. A process that states nothing of itself allows any outcome.
    open spec fn computes(
        &self,
        node: GraphNode<V>,
        inputs: Seq<Option<V>>,
        frame: FrameCount,
        output: V,
    ) -> bool {
        true
    }

    /// The output socket `socket` of `node` may give `output` of the value
    /// `value` of the node.
    open spec fn picks(&self, node: GraphNode<V>, socket: SocketId, value: V, output: V) -> bool {
        true
    }

    /// The input `input` of `node`, asked at `frame`, may ask the node
    /// upstream of it at `selected`.
    open spec fn selects_frame(
        &self,
        node: GraphNode<V>,
        input: InputSocket<V>,
        frame: FrameCount,
        selected: FrameCount,
    ) -> bool {
        true
    }

    /// The input `input` of `node`, with nothing connected, may read `value`
    /// at `frame`.
    open spec fn reads_default(
        &self,
        node: GraphNode<V>,
        input: InputSocket<V>,
        frame: FrameCount,
        value: Option<V>,
    ) -> bool {
        true
    }

    fn process(&self, node: &GraphNode<V>, inputs: &Vec<Option<V>>, frame: FrameCount) -> (r: V)
        ensures
            self.computes(*node, inputs@, frame, r),
    ;

    fn select_frame(&self, node: &GraphNode<V>, input: &InputSocket<V>, frame: FrameCount) -> (r: FrameCount)
        ensures
            self.selects_frame(*node, *input, frame, r),
    ;

    fn read_default(&self, node: &GraphNode<V>, input: &InputSocket<V>, frame: FrameCount) -> (r: Option<V>)
        ensures
            self.reads_default(*node, *input, frame, r),
    ;

    fn pickup(&self, node: &GraphNode<V>, socket: SocketId, value: &V) -> (r: V)
        ensures
            self.picks(*node, socket, *value, r),
    ;
}

/// The connection that ends in the input socket `socket` of `node`
/// (meaningful when there is one).
pub open spec fn upstream_of(conns: Set<Connection>, node: NodeId, socket: SocketId) -> Connection {
    choose|c: Connection| conns.contains(c) && ends_at(c, node, socket)
}

/// The node `id` can be evaluated within `depth` steps: it exists, and every
/// node connected upstream of one of its inputs can be evaluated within one
/// step less. A cycle of connections exhausts every depth.
pub open spec fn evaluable<V>(
    nodes: Seq<GraphNode<V>>,
    conns: Set<Connection>,
    id: NodeId,
    depth: nat,
) -> bool
    decreases depth,
{
    &&& depth > 0
    &&& has_node(nodes, id)
    &&& forall|i: int|
        0 <= i < node_of(nodes, id).inputs@.len() && connected_in(
            conns,
            id,
            #[trigger] node_of(nodes, id).inputs@[i].id,
        ) ==> evaluable(
            nodes,
            conns,
            upstream_of(conns, id, node_of(nodes, id).inputs@[i].id).upstream_node,
            (depth - 1) as nat,
        )
}

/// `value` is what the input `input` of node `id` reads at `frame`: with a
/// connection, what the upstream socket picks from a value of its node at
/// the frame the input selects; without one, what the input reads by
/// itself.
pub open spec fn input_reads<V, P: FieldProcess<V>>(
    nodes: Seq<GraphNode<V>>,
    conns: Set<Connection>,
    p: P,
    id: NodeId,
    input: InputSocket<V>,
    frame: FrameCount,
    depth: nat,
    value: Option<V>,
) -> bool
    decreases depth, 2nat,
{
    if connected_in(conns, id, input.id) {
        let c = upstream_of(conns, id, input.id);
        exists|g: FrameCount, u: V, w: V|
            #![trigger p.selects_frame(node_of(nodes, id), input, frame, g), p.picks(node_of(nodes, c.upstream_node), c.upstream_socket, u, w)]
            p.selects_frame(node_of(nodes, id), input, frame, g)
                && p.picks(node_of(nodes, c.upstream_node), c.upstream_socket, u, w)
                && value == Some(w) && evaluates(nodes, conns, p, c.upstream_node, g, depth, u)
    } else {
        p.reads_default(node_of(nodes, id), input, frame, value)
    }
}

/// `value` is a value of node `id` at `frame`, evaluated within `depth`
/// steps: what its process computes from what its inputs read.
pub open spec fn evaluates<V, P: FieldProcess<V>>(
    nodes: Seq<GraphNode<V>>,
    conns: Set<Connection>,
    p: P,
    id: NodeId,
    frame: FrameCount,
    depth: nat,
    value: V,
) -> bool
    decreases depth, 1nat,
{
    &&& depth > 0
    &&& has_node(nodes, id)
    &&& exists|ins: Seq<Option<V>>|
        {
            &&& ins.len() == node_of(nodes, id).inputs@.len()
            &&& forall|i: int|
                0 <= i < ins.len() ==> input_reads(
                    nodes,
                    conns,
                    p,
                    id,
                    node_of(nodes, id).inputs@[i],
                    frame,
                    (depth - 1) as nat,
                    #[trigger] ins[i],
                )
            &&& p.computes(node_of(nodes, id), ins, frame, value)
        }
}

impl<V: Copy> NodeController<V> {
    /// The value of node `id` at `frame`, evaluated within `depth` steps.
    fn evaluate<P: FieldProcess<V>>(&self, p: &P, id: NodeId, frame: FrameCount, depth: usize) -> (r: Option<V>)
        requires
            self.wf(),
        ensures
            r is Some <==> evaluable(self.nodes(), self.connections(), id, depth as nat),
            r matches Some(v) ==> evaluates(self.nodes(), self.connections(), *p, id, frame, depth as nat, v),
        decreases depth,
    {
        if depth == 0 {
            return None;
        }
        let k = match find_node(&self.nodes, id) {
            Some(k) => k,
            None => {
                return None;
            },
        };
        proof {
            lemma_first_node(self.nodes@, id, k as int);
        }
        let ghost node = self.nodes@[k as int];
        let n = self.nodes[k].inputs.len();
        let mut ins: Vec<Option<V>> = Vec::new();
        let mut i: usize = 0;
        while i < n
            invariant
                self.wf(),
                k < self.nodes@.len(),
                node == self.nodes@[k as int],
                node == node_of(self.nodes(), id),
                has_node(self.nodes(), id),
                depth > 0,
                n == node.inputs@.len(),
                i <= n,
                ins@.len() == i,
                forall|j: int|
                    0 <= j < i ==> input_reads(
                        self.nodes(),
                        self.connections(),
                        *p,
                        id,
                        node.inputs@[j],
                        frame,
                        (depth - 1) as nat,
                        #[trigger] ins@[j],
                    ),
                forall|j: int|
                    0 <= j < i && connected_in(self.connections(), id, #[trigger] node.inputs@[j].id)
                        ==> evaluable(
                        self.nodes(),
                        self.connections(),
                        upstream_of(self.connections(), id, node.inputs@[j].id).upstream_node,
                        (depth - 1) as nat,
                    ),
            decreases n - i,
        {
            let s = self.nodes[k].inputs[i].id;
            match self.find_upstream(id, s) {
                Some(c) => {
                    proof {
                        self.lemma_upstream_unique(c, id, s);
                    }
                    let g = p.select_frame(&self.nodes[k], &self.nodes[k].inputs[i], frame);
                    match self.evaluate(p, c.upstream_node, g, depth - 1) {
                        Some(u) => {
                            let uk = match find_node(&self.nodes, c.upstream_node) {
                                Some(uk) => uk,
                                None => vstd::pervasive::unreached(),
                            };
                            proof {
                                lemma_first_node(self.nodes@, c.upstream_node, uk as int);
                            }
                            let w = p.pickup(&self.nodes[uk], c.upstream_socket, &u);
                            ins.push(Some(w));
                            proof {
                                assert(ins@[i as int] == Some(w));
                                assert(input_reads(self.nodes(), self.connections(), *p, id, node.inputs@[i as int], frame, (depth - 1) as nat, ins@[i as int]));
                            }
                        },
                        None => {
                            return None;
                        },
                    }
                },
                None => {
                    let d = p.read_default(&self.nodes[k], &self.nodes[k].inputs[i], frame);
                    ins.push(d);
                    proof {
                        assert(ins@[i as int] == d);
                    }
                },
            }
            i = i + 1;
        }
        let v = p.process(&self.nodes[k], &ins, frame);
        proof {
            assert(ins@.len() == node_of(self.nodes(), id).inputs@.len());
        }
        Some(v)
    }

    /// Within a well-formed field an input socket has one connection at most.
    proof fn lemma_upstream_unique(&self, c: Connection, node: NodeId, socket: SocketId)
        requires
            self.wf(),
            self.connections().contains(c),
            ends_at(c, node, socket),
        ensures
            upstream_of(self.connections(), node, socket) == c,
            connected_in(self.connections(), node, socket),
            connection_valid(self.nodes(), c),
    {
        let d = upstream_of(self.connections(), node, socket);
        assert(self.connections().contains(d) && ends_at(d, node, socket));
    }

    /// The value of node `node_id` at `frame`: its process applied to what
    /// its inputs read, an input with a connection reading what the upstream
    /// socket picks from the value of its own node at the frame the input
    /// selects, computed in the same way, and an input without one reading
    /// by itself. Nothing is kept between calls, so the value follows the
    /// field as it is. Refused when there is no such node, or when evaluating it comes
    /// back to a node that is being evaluated (a cycle of connections).
    pub fn field_call<P: FieldProcess<V>>(&self, frame: FrameCount, node_id: NodeId, process: &P) -> (r: Result<V, ()>)
        requires
            self.wf(),
        ensures
            r is Ok <==> evaluable(self.nodes(), self.connections(), node_id, self.nodes().len()),
            r matches Ok(v) ==> evaluates(
                self.nodes(),
                self.connections(),
                *process,
                node_id,
                frame,
                self.nodes().len(),
                v,
            ),
            !has_node(self.nodes(), node_id) ==> r is Err,
    {
        match self.evaluate(process, node_id, frame, self.nodes.len()) {
            Some(v) => Ok(v),
            None => Err(()),
        }
    }
}

} // verus!

verus! {

/// Node `x` feeds node `id` within `depth` steps: it is `id` itself, or it
/// feeds, within one step less, a node connected upstream of an input of
/// `id`.
pub open spec fn feeds<V>(
    nodes: Seq<GraphNode<V>>,
    conns: Set<Connection>,
    x: NodeId,
    id: NodeId,
    depth: nat,
) -> bool
    decreases depth,
{
    &&& depth > 0
    &&& (x == id || (has_node(nodes, id) && exists|i: int|
        0 <= i < node_of(nodes, id).inputs@.len() && connected_in(
            conns,
            id,
            #[trigger] node_of(nodes, id).inputs@[i].id,
        ) && feeds(
            nodes,
            conns,
            x,
            upstream_of(conns, id, node_of(nodes, id).inputs@[i].id).upstream_node,
            (depth - 1) as nat,
        )))
}

/// A change of node `x` alone leaves the evaluation of every node that `x`
/// does not feed as it was: whether the node can be evaluated, and each value
/// it may take at each frame. So a value kept for such a node stays right,
/// and only the values of the nodes downstream of `x` have to be computed
/// anew.
pub proof fn law_change_stays_downstream<V, P: FieldProcess<V>>(
    a: Seq<GraphNode<V>>,
    b: Seq<GraphNode<V>>,
    conns: Set<Connection>,
    p: P,
    x: NodeId,
    id: NodeId,
    depth: nat,
)
    requires
        same_lookups_except(a, b, x),
        !feeds(a, conns, x, id, depth),
    ensures
        evaluable(a, conns, id, depth) == evaluable(b, conns, id, depth),
        forall|f: FrameCount, v: V| #[trigger]
            evaluates(a, conns, p, id, f, depth, v) == evaluates(b, conns, p, id, f, depth, v),
    decreases depth,
{
    if depth > 0 {
        assert(id != x);
        let d1 = (depth - 1) as nat;
        let inputs = node_of(a, id).inputs@;
        if has_node(a, id) {
            assert forall|i: int|
                0 <= i < inputs.len() && connected_in(conns, id, #[trigger] inputs[i].id) implies !feeds(
                a,
                conns,
                x,
                upstream_of(conns, id, inputs[i].id).upstream_node,
                d1,
            ) by {
                if feeds(a, conns, x, upstream_of(conns, id, inputs[i].id).upstream_node, d1) {
                    assert(feeds(a, conns, x, id, depth));
                }
            }
            assert forall|i: int|
                0 <= i < inputs.len() && connected_in(conns, id, #[trigger] inputs[i].id) implies {
                let up = upstream_of(conns, id, inputs[i].id).upstream_node;
                &&& evaluable(a, conns, up, d1) == evaluable(b, conns, up, d1)
                &&& forall|f: FrameCount, v: V|
                    #[trigger] evaluates(a, conns, p, up, f, d1, v) == evaluates(b, conns, p, up, f, d1, v)
            } by {
                let up = upstream_of(conns, id, inputs[i].id).upstream_node;
                law_change_stays_downstream(a, b, conns, p, x, up, d1);
            }
            let na = node_of(a, id);
            assert(na == node_of(b, id));
            assert forall|i: int, f: FrameCount, val: Option<V>|
                0 <= i < inputs.len() implies #[trigger] input_reads(a, conns, p, id, inputs[i], f, d1, val)
                == input_reads(b, conns, p, id, inputs[i], f, d1, val) by {
                if connected_in(conns, id, inputs[i].id) {
                    let c = upstream_of(conns, id, inputs[i].id);
                    if d1 > 0 && has_node(a, c.upstream_node) {
                        assert(c.upstream_node != x);
                        assert(node_of(a, c.upstream_node) == node_of(b, c.upstream_node));
                    }
                    if input_reads(a, conns, p, id, inputs[i], f, d1, val) {
                        let (g, u, w) = choose|g: FrameCount, u: V, w: V|
                            p.selects_frame(na, inputs[i], f, g)
                                && p.picks(node_of(a, c.upstream_node), c.upstream_socket, u, w)
                                && val == Some(w) && evaluates(a, conns, p, c.upstream_node, g, d1, u);
                        assert(evaluates(b, conns, p, c.upstream_node, g, d1, u));
                        assert(p.picks(node_of(b, c.upstream_node), c.upstream_socket, u, w));
                        assert(p.selects_frame(node_of(b, id), inputs[i], f, g));
                    }
                    if input_reads(b, conns, p, id, inputs[i], f, d1, val) {
                        let (g, u, w) = choose|g: FrameCount, u: V, w: V|
                            p.selects_frame(na, inputs[i], f, g)
                                && p.picks(node_of(b, c.upstream_node), c.upstream_socket, u, w)
                                && val == Some(w) && evaluates(b, conns, p, c.upstream_node, g, d1, u);
                        assert(evaluates(a, conns, p, c.upstream_node, g, d1, u));
                        assert(p.picks(node_of(a, c.upstream_node), c.upstream_socket, u, w));
                        assert(p.selects_frame(node_of(a, id), inputs[i], f, g));
                    }
                }
            }
            assert forall|f: FrameCount, v: V| #[trigger]
                evaluates(a, conns, p, id, f, depth, v) == evaluates(b, conns, p, id, f, depth, v) by {
                if evaluates(a, conns, p, id, f, depth, v) {
                    let ins = choose|ins: Seq<Option<V>>| {
                        &&& ins.len() == node_of(a, id).inputs@.len()
                        &&& forall|i: int|
                            0 <= i < ins.len() ==> input_reads(a, conns, p, id, node_of(a, id).inputs@[i], f, d1, #[trigger] ins[i])
                        &&& p.computes(node_of(a, id), ins, f, v)
                    };
                    assert forall|i: int| 0 <= i < ins.len() implies input_reads(b, conns, p, id, node_of(b, id).inputs@[i], f, d1, #[trigger] ins[i]) by {
                        assert(input_reads(a, conns, p, id, inputs[i], f, d1, ins[i]));
                    }
                }
                if evaluates(b, conns, p, id, f, depth, v) {
                    let ins = choose|ins: Seq<Option<V>>| {
                        &&& ins.len() == node_of(b, id).inputs@.len()
                        &&& forall|i: int|
                            0 <= i < ins.len() ==> input_reads(b, conns, p, id, node_of(b, id).inputs@[i], f, d1, #[trigger] ins[i])
                        &&& p.computes(node_of(b, id), ins, f, v)
                    };
                    assert forall|i: int| 0 <= i < ins.len() implies input_reads(a, conns, p, id, node_of(a, id).inputs@[i], f, d1, #[trigger] ins[i]) by {
                        assert(input_reads(b, conns, p, id, inputs[i], f, d1, ins[i]));
                    }
                }
            }
        }
    }
}

/// Updating an input default of node `node` leaves the evaluation of every
/// node that `node` does not feed as it was, at every frame, within the
/// depth that a call evaluates to: only the values of `node` and of the
/// nodes downstream of it can change.
pub proof fn law_update_stays_downstream<V, P: FieldProcess<V>>(
    before: Seq<GraphNode<V>>,
    after: Seq<GraphNode<V>>,
    conns: Set<Connection>,
    p: P,
    node: NodeId,
    socket: SocketId,
    value: V,
    value_type: u64,
    id: NodeId,
)
    requires
        unique_ids(before),
        default_set(before, after, node, socket, value, value_type),
        !feeds(before, conns, node, id, before.len()),
    ensures
        evaluable(before, conns, id, before.len()) == evaluable(after, conns, id, after.len()),
        forall|f: FrameCount, v: V| #[trigger]
            evaluates(before, conns, p, id, f, before.len(), v) == evaluates(
                after,
                conns,
                p,
                id,
                f,
                after.len(),
                v,
            ),
{
    let (k, j) = choose|k: int, j: int|
        {
            &&& is_first_node(before, node, k)
            &&& is_first_input(before[k].inputs@, socket, j)
            &&& before[k].inputs@[j].default_type == value_type
            &&& before[k].inputs@[j].default_value is Some
            &&& after.len() == before.len()
            &&& forall|i: int| 0 <= i < before.len() && i != k ==> after[i] == before[i]
            &&& after[k].id == before[k].id
            &&& after[k].name == before[k].name
            &&& after[k].outputs == before[k].outputs
            &&& after[k].inputs@.len() == before[k].inputs@.len()
            &&& forall|i: int|
                0 <= i < before[k].inputs@.len() && i != j ==> after[k].inputs@[i]
                    == before[k].inputs@[i]
            &&& after[k].inputs@[j].id == socket
            &&& after[k].inputs@[j].name == before[k].inputs@[j].name
            &&& after[k].inputs@[j].socket_type == before[k].inputs@[j].socket_type
            &&& after[k].inputs@[j].default_type == value_type
            &&& after[k].inputs@[j].default_value == Some(value)
        };
    assert(after =~= before.update(k, after[k]));
    lemma_update_lookups(before, k, after[k]);
    law_change_stays_downstream(before, after, conns, p, node, id, before.len());
}

} // verus!

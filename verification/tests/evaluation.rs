use node_system::ids::{NodeId, SocketId};
use node_system::node_controller::{FieldProcess, GraphNode, InputSocket, NodeController, OutputSocket};

const INT: u64 = 1;

/// The four nodes of the project's field: a gives the frame, b doubles its
/// input, c triples it, d raises its first input to the power of its second.
struct Arithmetic;

impl FieldProcess<i64> for Arithmetic {
    fn process(&self, node: &GraphNode<i64>, inputs: &Vec<Option<i64>>, frame: i64) -> i64 {
        let read = |i: usize| inputs[i].unwrap_or(0);
        match node.id.0 {
            1 => frame,
            2 => 2 * read(0),
            3 => 3 * read(0),
            _ => read(0).pow(read(1) as u32),
        }
    }

    fn pickup(&self, _node: &GraphNode<i64>, _socket: SocketId, value: &i64) -> i64 {
        *value
    }

    fn select_frame(&self, _node: &GraphNode<i64>, _input: &InputSocket<i64>, frame: i64) -> i64 {
        frame
    }

    fn read_default(&self, _node: &GraphNode<i64>, input: &InputSocket<i64>, _frame: i64) -> Option<i64> {
        input.default_value
    }
}

fn input(id: u128, default: Option<i64>) -> InputSocket<i64> {
    InputSocket { id: SocketId(id), name: format!("in{}", id), socket_type: INT, default_type: INT, default_value: default }
}

fn output(id: u128) -> OutputSocket {
    OutputSocket { id: SocketId(id), name: format!("out{}", id), socket_type: INT }
}

fn node(id: u128, inputs: Vec<InputSocket<i64>>, outputs: Vec<OutputSocket>) -> GraphNode<i64> {
    GraphNode { id: NodeId(id), name: format!("node{}", id), inputs, outputs }
}

fn field() -> NodeController<i64> {
    let mut controller = NodeController::new("controller");
    controller.add_node(node(1, vec![], vec![output(10)]));
    controller.add_node(node(2, vec![input(20, Some(0))], vec![output(21)]));
    controller.add_node(node(3, vec![input(30, Some(0))], vec![output(31)]));
    controller.add_node(node(4, vec![input(40, Some(0)), input(41, Some(0))], vec![output(43)]));
    controller
}

#[test]
fn controller_call_follows_defaults_and_connections() {
    let p = Arithmetic;
    let mut controller = field();
    assert_eq!(controller.field_call(0, NodeId(1), &p), Ok(0));
    assert_eq!(controller.field_call(0, NodeId(2), &p), Ok(0));
    assert_eq!(controller.field_call(0, NodeId(3), &p), Ok(0));
    assert_eq!(controller.field_call(0, NodeId(4), &p), Ok(1));

    assert!(controller.node_update_input_default(NodeId(2), SocketId(20), 1, INT).is_ok());
    assert!(controller.node_update_input_default(NodeId(3), SocketId(30), 1, INT).is_ok());
    assert!(controller.node_update_input_default(NodeId(4), SocketId(40), 1, INT).is_ok());
    assert!(controller.node_update_input_default(NodeId(4), SocketId(41), 1, INT).is_ok());
    assert_eq!(controller.field_call(0, NodeId(1), &p), Ok(0));
    assert_eq!(controller.field_call(0, NodeId(2), &p), Ok(2));
    assert_eq!(controller.field_call(0, NodeId(3), &p), Ok(3));
    assert_eq!(controller.field_call(0, NodeId(4), &p), Ok(1));

    assert_eq!(controller.node_connect(NodeId(1), SocketId(10), NodeId(2), SocketId(20)), Ok(()));
    assert_eq!(controller.node_connect(NodeId(1), SocketId(10), NodeId(3), SocketId(30)), Ok(()));
    assert_eq!(controller.node_connect(NodeId(2), SocketId(21), NodeId(4), SocketId(40)), Ok(()));
    assert_eq!(controller.node_connect(NodeId(3), SocketId(31), NodeId(4), SocketId(41)), Ok(()));
    assert_eq!(controller.field_call(1, NodeId(1), &p), Ok(1));
    assert_eq!(controller.field_call(1, NodeId(2), &p), Ok(2));
    assert_eq!(controller.field_call(1, NodeId(3), &p), Ok(3));
    assert_eq!(controller.field_call(1, NodeId(4), &p), Ok(8));
}

#[test]
fn controller_call_recomputes_after_a_disconnect() {
    let p = Arithmetic;
    let mut controller = field();
    assert_eq!(controller.node_connect(NodeId(1), SocketId(10), NodeId(2), SocketId(20)), Ok(()));
    assert_eq!(controller.field_call(5, NodeId(2), &p), Ok(10));
    assert!(controller.node_disconnect(NodeId(2), SocketId(20)).is_ok());
    assert_eq!(controller.field_call(5, NodeId(2), &p), Ok(0));
}

#[test]
fn controller_call_refuses_missing_nodes_and_cycles() {
    let p = Arithmetic;
    let mut controller = field();
    assert_eq!(controller.field_call(0, NodeId(9), &p), Err(()));
    assert_eq!(controller.node_connect(NodeId(2), SocketId(21), NodeId(3), SocketId(30)), Ok(()));
    assert_eq!(controller.node_connect(NodeId(3), SocketId(31), NodeId(2), SocketId(20)), Ok(()));
    assert_eq!(controller.field_call(0, NodeId(2), &p), Err(()));
    assert_eq!(controller.field_call(0, NodeId(4), &p), Ok(1));
}

#[test]
fn controller_play_steps_through_frames() {
    let mut controller = field();
    assert!(controller.field_play(3, NodeId(4)).is_ok());
    assert_eq!(controller.field_play_step(), (NodeId(4), 3));
    assert_eq!(controller.field_play_step(), (NodeId(4), 4));
    assert_eq!(controller.field_stop(), (NodeId(4), 5));
    assert!(!controller.field_is_playing());
    assert!(controller.field_play(0, NodeId(9)).is_err());
}

#[test]
fn controller_update_changes_only_downstream_values() {
    let p = Arithmetic;
    let mut controller = field();
    assert_eq!(controller.node_connect(NodeId(2), SocketId(21), NodeId(4), SocketId(40)), Ok(()));
    assert_eq!(controller.node_connect(NodeId(3), SocketId(31), NodeId(4), SocketId(41)), Ok(()));
    assert!(controller.node_update_input_default(NodeId(2), SocketId(20), 1, INT).is_ok());
    assert_eq!(controller.field_call(0, NodeId(2), &p), Ok(2));
    assert_eq!(controller.field_call(0, NodeId(3), &p), Ok(0));
    assert_eq!(controller.field_call(0, NodeId(4), &p), Ok(1));
    assert!(controller.node_update_input_default(NodeId(3), SocketId(30), 1, INT).is_ok());
    assert_eq!(controller.field_call(0, NodeId(2), &p), Ok(2));
    assert_eq!(controller.field_call(0, NodeId(3), &p), Ok(3));
    assert_eq!(controller.field_call(0, NodeId(4), &p), Ok(8));
}

/// As `Arithmetic`, but every connected input asks its upstream node one
/// frame earlier, and an unconnected input reads its default plus the frame.
struct Delayed;

impl FieldProcess<i64> for Delayed {
    fn process(&self, node: &GraphNode<i64>, inputs: &Vec<Option<i64>>, frame: i64) -> i64 {
        Arithmetic.process(node, inputs, frame)
    }

    fn pickup(&self, _node: &GraphNode<i64>, _socket: SocketId, value: &i64) -> i64 {
        *value
    }

    fn select_frame(&self, _node: &GraphNode<i64>, _input: &InputSocket<i64>, frame: i64) -> i64 {
        frame - 1
    }

    fn read_default(&self, _node: &GraphNode<i64>, input: &InputSocket<i64>, frame: i64) -> Option<i64> {
        input.default_value.map(|d| d + frame)
    }
}

#[test]
fn controller_call_asks_upstream_at_the_selected_frame() {
    let p = Delayed;
    let mut controller = field();
    assert_eq!(controller.field_call(5, NodeId(2), &p), Ok(10));
    assert_eq!(controller.node_connect(NodeId(1), SocketId(10), NodeId(2), SocketId(20)), Ok(()));
    assert_eq!(controller.field_call(5, NodeId(2), &p), Ok(8));
}

use node_system::channel::{FrontToField, FrontToFieldResult};
use node_system::err::{
    NodeConnectError, NodeConnectionCheckError, NodeDisconnectError, NodeRemoveError,
    UpdateInputDefaultError,
};
use node_system::ids::{NodeId, SocketId};
use node_system::node_controller::{GraphNode, InputSocket, NodeController, OutputSocket};

const INT: u64 = 1;
const TEXT: u64 = 2;

fn input(id: u128, socket_type: u64, default: Option<i64>) -> InputSocket<i64> {
    InputSocket {
        id: SocketId(id),
        name: format!("in{}", id),
        socket_type,
        default_type: socket_type,
        default_value: default,
    }
}

fn output(id: u128, socket_type: u64) -> OutputSocket {
    OutputSocket { id: SocketId(id), name: format!("out{}", id), socket_type }
}

fn node(id: u128, inputs: Vec<InputSocket<i64>>, outputs: Vec<OutputSocket>) -> GraphNode<i64> {
    GraphNode { id: NodeId(id), name: format!("node{}", id), inputs, outputs }
}

/// a -> (b, c) -> d, as in the four-node field of the project.
fn field() -> NodeController<i64> {
    let mut controller = NodeController::new("controller");
    controller.add_node(node(1, vec![], vec![output(10, INT)]));
    controller.add_node(node(2, vec![input(20, INT, Some(0))], vec![output(21, INT)]));
    controller.add_node(node(3, vec![input(30, INT, Some(0))], vec![output(31, INT)]));
    controller.add_node(node(
        4,
        vec![input(40, INT, Some(0)), input(41, INT, Some(0)), input(42, TEXT, None)],
        vec![output(43, TEXT)],
    ));
    controller
}

fn connect_all(controller: &mut NodeController<i64>) {
    assert_eq!(controller.node_connect(NodeId(1), SocketId(10), NodeId(2), SocketId(20)), Ok(()));
    assert_eq!(controller.node_connect(NodeId(1), SocketId(10), NodeId(3), SocketId(30)), Ok(()));
    assert_eq!(controller.node_connect(NodeId(2), SocketId(21), NodeId(4), SocketId(40)), Ok(()));
    assert_eq!(controller.node_connect(NodeId(3), SocketId(31), NodeId(4), SocketId(41)), Ok(()));
}

#[test]
fn controller_connect_then_check() {
    let mut controller = field();
    assert_eq!(controller.node_count(), 4);
    assert!(controller.check_consistency());
    connect_all(&mut controller);
    assert_eq!(controller.check_connection(NodeId(1), SocketId(10), NodeId(2), SocketId(20)), Ok(()));
    assert_eq!(controller.check_connection(NodeId(1), SocketId(10), NodeId(3), SocketId(30)), Ok(()));
    assert_eq!(controller.check_connection(NodeId(2), SocketId(21), NodeId(4), SocketId(40)), Ok(()));
    assert_eq!(controller.check_connection(NodeId(3), SocketId(31), NodeId(4), SocketId(41)), Ok(()));
    assert_eq!(
        controller.check_connection(NodeId(2), SocketId(21), NodeId(4), SocketId(41)),
        Err(NodeConnectionCheckError::NotConnected)
    );
}

#[test]
fn controller_connect_errors() {
    let mut controller = field();
    assert_eq!(
        controller.node_connect(NodeId(9), SocketId(10), NodeId(2), SocketId(20)),
        Err(NodeConnectError::NodeIdNotFound)
    );
    assert_eq!(
        controller.node_connect(NodeId(1), SocketId(99), NodeId(2), SocketId(20)),
        Err(NodeConnectError::SocketIdNotFound)
    );
    assert_eq!(
        controller.node_connect(NodeId(1), SocketId(10), NodeId(4), SocketId(42)),
        Err(NodeConnectError::TypeRejected)
    );
    assert_eq!(
        controller.check_connection(NodeId(1), SocketId(10), NodeId(9), SocketId(20)),
        Err(NodeConnectionCheckError::NodeIdNotFound)
    );
    assert_eq!(
        controller.check_connection(NodeId(1), SocketId(10), NodeId(2), SocketId(99)),
        Err(NodeConnectionCheckError::SocketIdNotFound)
    );
}

#[test]
fn controller_connect_replaces_the_input_connection() {
    let mut controller = field();
    connect_all(&mut controller);
    // feed d's first input from c instead of b
    assert_eq!(controller.node_connect(NodeId(3), SocketId(31), NodeId(4), SocketId(40)), Ok(()));
    assert_eq!(
        controller.check_connection(NodeId(2), SocketId(21), NodeId(4), SocketId(40)),
        Err(NodeConnectionCheckError::NotConnected)
    );
    assert_eq!(controller.check_connection(NodeId(3), SocketId(31), NodeId(4), SocketId(40)), Ok(()));
    // connecting twice is the same as once
    assert_eq!(controller.node_connect(NodeId(3), SocketId(31), NodeId(4), SocketId(40)), Ok(()));
    assert_eq!(controller.check_connection(NodeId(3), SocketId(31), NodeId(4), SocketId(40)), Ok(()));
}

#[test]
fn controller_conservative_connect_keeps_an_existing_connection() {
    let mut controller = field();
    assert_eq!(
        controller.node_conservative_connect(NodeId(1), SocketId(10), NodeId(2), SocketId(20)),
        Ok(())
    );
    assert_eq!(
        controller.node_conservative_connect(NodeId(3), SocketId(31), NodeId(2), SocketId(20)),
        Err(NodeConnectError::InputNotEmpty)
    );
    assert_eq!(controller.check_connection(NodeId(1), SocketId(10), NodeId(2), SocketId(20)), Ok(()));
}

#[test]
fn controller_disconnect_then_check() {
    let mut controller = field();
    connect_all(&mut controller);
    assert_eq!(controller.node_disconnect(NodeId(2), SocketId(20)), Ok(()));
    assert_eq!(
        controller.check_connection(NodeId(1), SocketId(10), NodeId(2), SocketId(20)),
        Err(NodeConnectionCheckError::NotConnected)
    );
    assert_eq!(
        controller.node_disconnect(NodeId(2), SocketId(20)),
        Err(NodeDisconnectError::NotConnected)
    );
    assert_eq!(
        controller.node_disconnect(NodeId(9), SocketId(20)),
        Err(NodeDisconnectError::NodeIdNotFound)
    );
    assert_eq!(
        controller.node_disconnect(NodeId(2), SocketId(99)),
        Err(NodeDisconnectError::SocketIdNotFound)
    );
    // the other connections stay
    assert_eq!(controller.check_connection(NodeId(1), SocketId(10), NodeId(3), SocketId(30)), Ok(()));
}

#[test]
fn controller_conservative_disconnect() {
    let mut controller = field();
    connect_all(&mut controller);
    assert_eq!(
        controller.node_conservative_disconnect(NodeId(3), SocketId(31), NodeId(4), SocketId(40)),
        Err(NodeDisconnectError::NotConnected)
    );
    assert_eq!(
        controller.node_conservative_disconnect(NodeId(2), SocketId(21), NodeId(4), SocketId(40)),
        Ok(())
    );
    assert_eq!(
        controller.check_connection(NodeId(2), SocketId(21), NodeId(4), SocketId(40)),
        Err(NodeConnectionCheckError::NotConnected)
    );
    assert_eq!(
        controller.node_conservative_disconnect(NodeId(2), SocketId(21), NodeId(9), SocketId(40)),
        Err(NodeDisconnectError::NodeIdNotFound)
    );
    assert_eq!(
        controller.node_conservative_disconnect(NodeId(2), SocketId(99), NodeId(4), SocketId(40)),
        Err(NodeDisconnectError::SocketIdNotFound)
    );
}

#[test]
fn controller_disconnect_all_from_output() {
    let mut controller = field();
    connect_all(&mut controller);
    assert_eq!(controller.node_disconnect_all_from_output(NodeId(1), SocketId(10)), Ok(()));
    assert_eq!(
        controller.check_connection(NodeId(1), SocketId(10), NodeId(2), SocketId(20)),
        Err(NodeConnectionCheckError::NotConnected)
    );
    assert_eq!(
        controller.check_connection(NodeId(1), SocketId(10), NodeId(3), SocketId(30)),
        Err(NodeConnectionCheckError::NotConnected)
    );
    assert_eq!(controller.check_connection(NodeId(2), SocketId(21), NodeId(4), SocketId(40)), Ok(()));
    assert_eq!(
        controller.node_disconnect_all_from_output(NodeId(1), SocketId(20)),
        Err(NodeDisconnectError::SocketIdNotFound)
    );
}

#[test]
fn controller_disconnect_all() {
    let mut controller = field();
    connect_all(&mut controller);
    assert_eq!(controller.node_disconnect_all(NodeId(2)), Ok(()));
    assert_eq!(
        controller.check_connection(NodeId(1), SocketId(10), NodeId(2), SocketId(20)),
        Err(NodeConnectionCheckError::NotConnected)
    );
    assert_eq!(
        controller.check_connection(NodeId(2), SocketId(21), NodeId(4), SocketId(40)),
        Err(NodeConnectionCheckError::NotConnected)
    );
    // the third input of d has no connection
    assert_eq!(controller.node_disconnect_all(NodeId(4)), Err(NodeDisconnectError::NotConnected));
    assert_eq!(
        controller.check_connection(NodeId(3), SocketId(31), NodeId(4), SocketId(41)),
        Err(NodeConnectionCheckError::NotConnected)
    );
    assert_eq!(controller.node_disconnect_all(NodeId(9)), Err(NodeDisconnectError::NodeIdNotFound));
}

#[test]
fn controller_remove_node() {
    let mut controller = field();
    connect_all(&mut controller);
    assert_eq!(controller.remove_node(NodeId(2)), Ok(()));
    assert_eq!(controller.node_count(), 3);
    assert_eq!(
        controller.check_connection(NodeId(2), SocketId(21), NodeId(4), SocketId(40)),
        Err(NodeConnectionCheckError::NodeIdNotFound)
    );
    assert_eq!(controller.remove_node(NodeId(2)), Err(NodeRemoveError::NodeIdNotFound));
    assert!(controller.check_consistency());
}

#[test]
fn controller_add_node_replaces_a_node_of_the_same_id() {
    let mut controller = field();
    connect_all(&mut controller);
    controller.add_node(node(2, vec![input(20, INT, Some(5))], vec![output(21, INT)]));
    assert_eq!(controller.node_count(), 4);
    assert_eq!(controller.check_connection(NodeId(1), SocketId(10), NodeId(2), SocketId(20)), Ok(()));
    assert_eq!(controller.check_connection(NodeId(2), SocketId(21), NodeId(4), SocketId(40)), Ok(()));
    controller.add_node(node(3, vec![input(32, INT, Some(0))], vec![output(33, INT)]));
    assert_eq!(controller.node_count(), 4);
    assert_eq!(
        controller.check_connection(NodeId(1), SocketId(10), NodeId(3), SocketId(30)),
        Err(NodeConnectionCheckError::SocketIdNotFound)
    );
    assert_eq!(controller.node_disconnect(NodeId(4), SocketId(41)), Err(NodeDisconnectError::NotConnected));
    assert!(controller.check_consistency());
    controller.ensure_consistency();
    assert_eq!(controller.node_count(), 4);
}

#[test]
fn controller_update_input_default() {
    let mut controller = field();
    assert!(controller.node_update_input_default(NodeId(2), SocketId(20), 1, INT).is_ok());
    match controller.node_update_input_default(NodeId(9), SocketId(20), 7, INT) {
        Err(UpdateInputDefaultError::NodeIdNotFound(v)) => assert_eq!(v, 7),
        _ => panic!("expected NodeIdNotFound"),
    }
    match controller.node_update_input_default(NodeId(2), SocketId(99), 7, INT) {
        Err(UpdateInputDefaultError::SocketIdNotFound(v)) => assert_eq!(v, 7),
        _ => panic!("expected SocketIdNotFound"),
    }
    match controller.node_update_input_default(NodeId(2), SocketId(20), 7, TEXT) {
        Err(UpdateInputDefaultError::TypeRejected(v)) => assert_eq!(v, 7),
        _ => panic!("expected TypeRejected"),
    }
    match controller.node_update_input_default(NodeId(4), SocketId(42), 7, TEXT) {
        Err(UpdateInputDefaultError::DefaultValueNotEnabled(v)) => assert_eq!(v, 7),
        _ => panic!("expected DefaultValueNotEnabled"),
    }
}

#[test]
fn controller_name_and_play() {
    let mut controller = field();
    assert_eq!(controller.get_name(), "controller");
    controller.set_name("renamed".to_string());
    assert_eq!(controller.get_name(), "renamed");
    let id = controller.get_id();
    assert_eq!(controller.get_id(), id);
    assert!(!controller.field_is_playing());
    assert_eq!(controller.field_play(3, NodeId(9)), Err(()));
    assert!(!controller.field_is_playing());
    assert_eq!(controller.field_play(3, NodeId(4)), Ok(()));
    assert!(controller.field_is_playing());
    assert_eq!(controller.field_stop(), (NodeId(4), 3));
    assert!(!controller.field_is_playing());
}

#[test]
fn field_front_messages() {
    let mut controller = field();
    let (r, end) = controller.handle_front_message(FrontToField::NodeConnect {
        upstream_node_id: NodeId(1),
        upstream_node_socket_id: SocketId(10),
        downstream_node_id: NodeId(2),
        downstream_node_socket_id: SocketId(20),
    });
    assert!(!end);
    assert!(matches!(r, FrontToFieldResult::NodeConnect(Ok(()))));
    let (r, _) = controller.handle_front_message(FrontToField::NodeDisconnectSafe {
        upstream_node_id: NodeId(3),
        upstream_node_socket_id: SocketId(31),
        downstream_node_id: NodeId(2),
        downstream_node_socket_id: SocketId(20),
    });
    assert!(matches!(r, FrontToFieldResult::NodeDisconnectSafe(Err(NodeDisconnectError::NotConnected))));
    let (r, _) = controller.handle_front_message(FrontToField::NodeDisconnect {
        downstream_node_id: NodeId(2),
        downstream_node_socket_id: SocketId(20),
    });
    assert!(matches!(r, FrontToFieldResult::NodeDisconnect(Ok(()))));
    let (r, _) = controller.handle_front_message(FrontToField::UpdateInputDefaultValue {
        node_id: NodeId(3),
        socket_id: SocketId(30),
        value: 4,
        value_type: TEXT,
    });
    assert!(matches!(
        r,
        FrontToFieldResult::UpdateInputDefaultValue(Err(UpdateInputDefaultError::TypeRejected(4)))
    ));
    let (r, end) = controller.handle_front_message(FrontToField::Shutdown);
    assert!(end);
    assert!(matches!(r, FrontToFieldResult::Shutdown(Ok(()))));
}

#[test]
fn controller_conservative_connect_then_safe_disconnect() {
    let mut controller = field();
    assert_eq!(controller.node_connect(NodeId(1), SocketId(10), NodeId(3), SocketId(30)), Ok(()));
    assert_eq!(
        controller.node_conservative_connect(NodeId(1), SocketId(10), NodeId(2), SocketId(20)),
        Ok(())
    );
    assert_eq!(
        controller.node_disconnect_safe(NodeId(1), SocketId(10), NodeId(2), SocketId(20)),
        Ok(())
    );
    assert_eq!(
        controller.check_connection(NodeId(1), SocketId(10), NodeId(2), SocketId(20)),
        Err(NodeConnectionCheckError::NotConnected)
    );
    // the connection that was there before stays
    assert_eq!(controller.check_connection(NodeId(1), SocketId(10), NodeId(3), SocketId(30)), Ok(()));
    assert_eq!(
        controller.node_force_connect(NodeId(2), SocketId(21), NodeId(3), SocketId(30)),
        Ok(())
    );
    assert_eq!(
        controller.check_connection(NodeId(1), SocketId(10), NodeId(3), SocketId(30)),
        Err(NodeConnectionCheckError::NotConnected)
    );
    assert!(controller.update_input_default(NodeId(3), SocketId(30), 9, INT).is_ok());
}

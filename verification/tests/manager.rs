use node_system::err::{NodeConnectError, NodeConnectionCheckError, NodeDisconnectError, NodeRemoveError};
use node_system::i64_to_string::I64ToString;
use node_system::ids::{NodeId, PluginId, SocketId};
use node_system::manager::{ManagerReply, ProjectManager};
use node_system::message::{FieldOp, FieldReq, MessageToBackend};
use node_system::node_controller::{FieldProcess, GraphNode, InputSocket};
use node_system::plugin::Plugin;
use node_system::plugin_manager::PluginManager;

/// Each node gives the sum of what its inputs read, plus the frame.
struct Sum;

impl FieldProcess<i64> for Sum {
    fn process(&self, _node: &GraphNode<i64>, inputs: &Vec<Option<i64>>, frame: i64) -> i64 {
        inputs.iter().map(|v| v.unwrap_or(0)).sum::<i64>() + frame
    }

    fn pickup(&self, _node: &GraphNode<i64>, _socket: SocketId, value: &i64) -> i64 {
        *value
    }

    fn select_frame(&self, _node: &GraphNode<i64>, _input: &InputSocket<i64>, frame: i64) -> i64 {
        frame
    }

    fn read_default(&self, _node: &GraphNode<i64>, input: &InputSocket<i64>, _frame: i64) -> Option<i64> {
        input.default_value
    }
}

fn i64_to_string_id() -> PluginId {
    PluginId::from_string("472866e3-f751-560b-47cd-31a08d3a7c78")
}

#[test]
fn manager_adds_each_plugin_once() {
    let mut manager: ProjectManager<i64, I64ToString, Sum> = ProjectManager::new(Sum);
    assert!(manager.add_plugin(I64ToString));
    assert!(!manager.add_plugin(I64ToString));
}

#[test]
fn manager_builds_nodes_of_known_plugins() {
    let mut manager: ProjectManager<i64, I64ToString, Sum> = ProjectManager::new(Sum);
    manager.add_plugin(I64ToString);
    let r = manager.handle_message(MessageToBackend::AllPlugins(i64_to_string_id()));
    assert!(matches!(r, ManagerReply::NodeAdded));
    let r = manager.handle_message(MessageToBackend::ControllerOp(FieldOp::AddNode(i64_to_string_id())));
    assert!(matches!(r, ManagerReply::NodeAdded));
    let r = manager.handle_message(MessageToBackend::ControllerOp(FieldOp::AddNode(PluginId(5))));
    assert!(matches!(r, ManagerReply::PluginNotFound(PluginId(5))));
    let r = manager.handle_message(MessageToBackend::AllPlugins(PluginId(6)));
    assert!(matches!(r, ManagerReply::PluginNotFound(PluginId(6))));
}

#[test]
fn manager_answers_requests() {
    let mut manager: ProjectManager<i64, I64ToString, Sum> = ProjectManager::new(Sum);
    let first = manager.handle_message(MessageToBackend::ControllerReq(FieldReq::Id));
    let second = manager.handle_message(MessageToBackend::ControllerReq(FieldReq::Id));
    match (first, second) {
        (ManagerReply::Id(a), ManagerReply::Id(b)) => assert_eq!(a, b),
        _ => panic!("expected the id twice"),
    }
    match manager.handle_message(MessageToBackend::ControllerReq(FieldReq::Name)) {
        ManagerReply::Name(name) => assert_eq!(name, ""),
        _ => panic!("expected the name"),
    }
    let r = manager.handle_message(MessageToBackend::ControllerReq(FieldReq::AllNodes(vec![])));
    assert!(matches!(r, ManagerReply::Unserved));
    let r = manager.handle_message(MessageToBackend::ControllerOp(FieldOp::CacheClearAll));
    assert!(matches!(r, ManagerReply::Unserved));
}

#[test]
fn manager_field_operations_on_missing_nodes() {
    let mut manager: ProjectManager<i64, I64ToString, Sum> = ProjectManager::new(Sum);
    let r = manager.handle_message(MessageToBackend::ControllerOp(FieldOp::RemoveNode(NodeId(1))));
    assert!(matches!(r, ManagerReply::Removed(Err(NodeRemoveError::NodeIdNotFound))));
    let r = manager.handle_message(MessageToBackend::ControllerOp(FieldOp::Connect {
        upstream_node: NodeId(1),
        upstream_socket: SocketId(2),
        downstream_node: NodeId(3),
        downstream_socket: SocketId(4),
    }));
    assert!(matches!(r, ManagerReply::Connected(Err(NodeConnectError::NodeIdNotFound))));
    let r = manager.handle_message(MessageToBackend::ControllerOp(FieldOp::Disconnect {
        downstream_node: NodeId(3),
        downstream_socket: SocketId(4),
    }));
    assert!(matches!(r, ManagerReply::Disconnected(Err(NodeDisconnectError::NodeIdNotFound))));
    let r = manager.handle_message(MessageToBackend::ControllerOp(FieldOp::CheckConnection {
        upstream_node: NodeId(1),
        upstream_socket: SocketId(2),
        downstream_node: NodeId(3),
        downstream_socket: SocketId(4),
    }));
    assert!(matches!(r, ManagerReply::ConnectionChecked(Err(NodeConnectionCheckError::NodeIdNotFound))));
    let r = manager.handle_message(MessageToBackend::ControllerOp(FieldOp::Call { node: NodeId(1), frame: 0 }));
    assert!(matches!(r, ManagerReply::Called(Err(()))));
    let r = manager.handle_message(MessageToBackend::ControllerOp(FieldOp::Play { node: NodeId(1), frame: 0 }));
    assert!(matches!(r, ManagerReply::Played(Err(()))));
    let r = manager.handle_message(MessageToBackend::ControllerOp(FieldOp::Stop));
    assert!(matches!(r, ManagerReply::Stopped(None)));
    let r = manager.handle_message(MessageToBackend::Shutdown);
    assert!(matches!(r, ManagerReply::Shutdown(None)));
}

#[test]
fn plugin_manager_registers_and_finds() {
    let mut plugins: PluginManager<i64, I64ToString> = PluginManager::new();
    assert!(plugins.register_plugin(I64ToString).is_ok());
    assert!(plugins.register_plugin(I64ToString).is_err());
    let found = plugins.get_plugin_by_id(&i64_to_string_id()).unwrap();
    assert_eq!(found.name(), "i64 to string");
    assert!(plugins.get_plugin_by_name("i64 to string").is_some());
    assert!(plugins.get_plugin_by_name("i64").is_none());
    assert!(plugins.get_plugin_by_id(&PluginId(1)).is_none());
    let node = plugins.generate_node_by_id(&i64_to_string_id()).unwrap();
    assert_eq!(node.inputs.len(), 1);
    assert_eq!(node.outputs.len(), 1);
    assert_eq!(node.inputs[0].default_value, Some(0));
    assert!(plugins.generate_node_by_name("nothing").is_none());
}

#[test]
fn i64_to_string_plugin() {
    assert_eq!(I64ToString.plugin_id(), i64_to_string_id());
    assert_eq!(I64ToString::process(-120), "-120");
    assert_eq!(I64ToString::process(i64::MIN), "-9223372036854775808");
    assert_eq!(I64ToString::read(Some(&7)), 7);
    assert_eq!(I64ToString::pickup(&"abc".to_string()), "abc");
}

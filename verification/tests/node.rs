use node_system::i64_to_string::I64ToString;
use node_system::err::UpdateInputDefaultError;
use node_system::node::{read_input, InputGroup, Node, NodeFn, ReadingFn};
use node_system::node_controller::{InputSocket, OutputSocket};
use node_system::ids::SocketId;
use node_system::socket_tree::OutputTree;

/// Counts its runs in its memory; the value tells which run computed it.
struct Counting;

impl NodeFn<i64, u32, i64> for Counting {
    fn call(&self, _name: &String, input: &i64, memory: &mut u32, frame: i64) -> i64 {
        *memory += 1;
        input + frame * 100 + *memory as i64
    }
}

fn outputs(n: u128) -> OutputTree {
    let mut t = OutputTree::empty();
    for i in 0..n {
        t.push(OutputTree::new(OutputSocket { id: SocketId(i), name: format!("o{}", i), socket_type: 1 }));
    }
    t
}

#[test]
fn node_call_serves_cached_frames() {
    let mut node = Node::new("counter", 1000, 0u32, Counting, outputs(1));
    assert_eq!(node.get_name(), "counter");
    assert_eq!(node.cache_size(), 1);
    // first run
    assert_eq!(*node.call(3), 1000 + 300 + 1);
    // the same frame again: served from the cache, the process does not run
    assert_eq!(*node.call(3), 1000 + 300 + 1);
    // another frame pushes the first out of the single slot
    assert_eq!(*node.call(4), 1000 + 400 + 2);
    assert_eq!(*node.call(3), 1000 + 300 + 3);
}

#[test]
fn node_cache_depth_follows_outputs() {
    let mut node = Node::new("two outputs", 0, 0u32, Counting, outputs(2));
    node.change_cache_depth(3);
    assert_eq!(node.cache_size(), 6);
    assert_eq!(node.cache_depth(), 3);
    assert_eq!(*node.call(1), 100 + 1);
    assert_eq!(*node.call(2), 200 + 2);
    assert_eq!(*node.call(1), 100 + 1);
    node.clear_cache();
    assert_eq!(node.cache_size(), 6);
    assert_eq!(*node.call(1), 100 + 3);
    node.set_name("renamed".to_string());
    assert_eq!(node.get_name(), "renamed");
    let id = node.get_id();
    assert_eq!(node.get_id(), id);
}

#[test]
fn i64_to_string_node() {
    let mut node = Node::new("i64 to string", -42i64, (), I64ToString, outputs(1));
    assert_eq!(node.call(0), "-42");
    assert_eq!(node.call(0), "-42");
    assert_eq!(node.call(7), "-42");
}

/// Adds the frame to the default value of its only input.
struct AddDefault;

impl NodeFn<Vec<InputSocket<i64>>, u32, i64> for AddDefault {
    fn call(&self, _name: &String, input: &Vec<InputSocket<i64>>, memory: &mut u32, frame: i64) -> i64 {
        *memory += 1;
        input[0].default_value.unwrap_or(0) + frame
    }
}

fn add_default_node() -> Node<Vec<InputSocket<i64>>, u32, i64, AddDefault> {
    let inputs = vec![InputSocket {
        id: SocketId(1),
        name: "a".to_string(),
        socket_type: 1,
        default_type: 1,
        default_value: Some(10),
    }];
    Node::new("add", inputs, 0u32, AddDefault, outputs(1))
}

#[test]
fn node_default_update_drops_the_cache() {
    let mut node = add_default_node();
    assert_eq!(*node.call(5), 15);
    assert!(node.update_input_default(SocketId(1), 20, 1).is_ok());
    // the frame is computed again with the new default
    assert_eq!(*node.call(5), 25);
}

#[test]
fn node_refused_default_keeps_the_cache() {
    let mut node = add_default_node();
    assert_eq!(*node.call(5), 15);
    match node.update_input_default(SocketId(2), 20, 1) {
        Err(UpdateInputDefaultError::SocketIdNotFound(v)) => assert_eq!(v, 20),
        _ => panic!("expected SocketIdNotFound"),
    }
    match node.update_input_default(SocketId(1), 20, 2) {
        Err(UpdateInputDefaultError::TypeRejected(v)) => assert_eq!(v, 20),
        _ => panic!("expected TypeRejected"),
    }
    assert_eq!(*node.call(5), 15);
}

#[test]
fn input_list_refuses_a_disabled_default() {
    let mut inputs = vec![InputSocket {
        id: SocketId(3),
        name: "b".to_string(),
        socket_type: 1,
        default_type: 1,
        default_value: None::<i64>,
    }];
    match inputs.set_default(SocketId(3), 4, 1) {
        Err(UpdateInputDefaultError::DefaultValueNotEnabled(v)) => assert_eq!(v, 4),
        _ => panic!("expected DefaultValueNotEnabled"),
    }
    assert_eq!(inputs[0].default_value, None);
}

/// Reads twice its default, counting its reads.
struct Twice;

impl ReadingFn<i64, u32, i64> for Twice {
    fn call(&self, default: Option<&i64>, memory: &mut u32, _frame: i64) -> i64 {
        *memory += 1;
        default.copied().unwrap_or(0) * 2
    }
}

#[test]
fn input_reads_upstream_or_default() {
    let mut memory = 0u32;
    assert_eq!(read_input(Some(5i64), Some(&7i64), &mut memory, 3, &Twice), 5);
    assert_eq!(memory, 0);
    assert_eq!(read_input(None, Some(&7i64), &mut memory, 3, &Twice), 14);
    assert_eq!(memory, 1);
    assert_eq!(read_input(None, None::<&i64>, &mut memory, 3, &Twice), 0);
}

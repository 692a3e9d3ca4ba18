use node_system::channel::{connect_handshake, has_delete_cache_request, NodeOrder, NodeResponse};
use node_system::err::NodeConnectError;
use node_system::ids::SocketId;
use node_system::node_controller::{InputSocket, OutputSocket};
use node_system::socket_layer::SocketLayer;
use node_system::socket_tree::{InputTree, OutputTree};

fn out(id: u128) -> OutputSocket {
    OutputSocket { id: SocketId(id), name: format!("o{}", id), socket_type: 1 }
}

fn inp(id: u128, default: i64) -> InputSocket<i64> {
    InputSocket {
        id: SocketId(id),
        name: format!("i{}", id),
        socket_type: 1,
        default_type: 1,
        default_value: Some(default),
    }
}

#[test]
fn output_tree_order_and_lookup() {
    let mut tree = OutputTree::new(out(1));
    assert_eq!(tree.size(), 1);
    // a single socket becomes a list when something is pushed
    tree.push(OutputTree::vec(vec![OutputTree::new(out(2)), OutputTree::empty()]));
    tree.push(OutputTree::new(out(3)));
    assert_eq!(tree.size(), 3);
    let all: Vec<u128> = tree.get_all_socket().iter().map(|s| s.id.0).collect();
    assert_eq!(all, vec![1, 2, 3]);
    assert_eq!(tree.get_socket(SocketId(2)).unwrap().name, "o2");
    assert!(tree.get_socket(SocketId(9)).is_none());
    tree.insert(0, OutputTree::new(out(0)));
    let all: Vec<u128> = tree.get_all_socket().iter().map(|s| s.id.0).collect();
    assert_eq!(all, vec![0, 1, 2, 3]);
    let removed = tree.remove(1);
    assert_eq!(removed.size(), 1);
    assert_eq!(tree.size(), 3);
    assert_eq!(OutputTree::empty().size(), 0);
}

#[test]
fn output_tree_first_match_wins() {
    let mut a = out(5);
    a.name = "first".to_string();
    let mut b = out(5);
    b.name = "second".to_string();
    let tree = OutputTree::vec(vec![OutputTree::new(a), OutputTree::new(b)]);
    assert_eq!(tree.get_socket(SocketId(5)).unwrap().name, "first");
}

#[test]
fn input_tree_order_and_lookup() {
    let mut tree = InputTree::new_vec(vec![InputTree::new_reef(inp(1, 10))]);
    tree.push(InputTree::new_vec(vec![InputTree::new_reef(inp(2, 20)), InputTree::new_reef(inp(3, 30))]));
    assert_eq!(tree.size(), 3);
    assert_eq!(tree.len(), 2);
    assert_eq!(tree.get_from_id(SocketId(3)).unwrap().default_value, Some(30));
    assert!(tree.get_from_id(SocketId(4)).is_err());
    tree.insert(0, InputTree::new_reef(inp(0, 0)));
    assert_eq!(tree.len(), 3);
    let first = tree.remove(0);
    assert_eq!(first.reef().id, SocketId(0));
    assert_eq!(first.len(), 0);
    assert_eq!(tree.size(), 3);
}

fn layer() -> SocketLayer {
    SocketLayer::Vec(vec![
        SocketLayer::Socket(SocketId(7)),
        SocketLayer::Empty,
        SocketLayer::Vec(vec![SocketLayer::Socket(SocketId(8))]),
        SocketLayer::Vec(vec![]),
    ])
}

fn ids(l: &SocketLayer, acc: &mut Vec<Option<u128>>) {
    match l {
        SocketLayer::Vec(v) => {
            acc.push(None);
            for x in v {
                ids(x, acc);
            }
        }
        SocketLayer::Socket(id) => acc.push(Some(id.0)),
        SocketLayer::Empty => acc.push(Some(u128::MAX)),
    }
}

#[test]
fn socket_layer_binary_form() {
    let l = layer();
    let bytes = l.to_binary();
    assert_eq!(bytes[0], 0);
    assert_eq!(&bytes[1..9], &[4, 0, 0, 0, 0, 0, 0, 0]);
    assert_eq!(bytes[9], 1);
    assert_eq!(&bytes[10..18], &[36, 0, 0, 0, 0, 0, 0, 0]);
    assert_eq!(&bytes[18..54], SocketId(7).to_string().as_bytes());
    assert_eq!(bytes[54], 2);
}

#[test]
fn socket_layer_roundtrip_of_lists_ending_in_a_list() {
    let l = SocketLayer::Vec(vec![
        SocketLayer::Empty,
        SocketLayer::Empty,
        SocketLayer::Vec(vec![SocketLayer::Empty, SocketLayer::Vec(vec![])]),
    ]);
    let back = SocketLayer::from_binary(&l.to_binary()).expect("a layout");
    let (mut a, mut b) = (Vec::new(), Vec::new());
    ids(&l, &mut a);
    ids(&back, &mut b);
    assert_eq!(a, b);
}

#[test]
fn socket_layer_list_must_end_the_bytes() {
    // a list followed by a sibling is refused
    let l = SocketLayer::Vec(vec![SocketLayer::Vec(vec![]), SocketLayer::Empty]);
    assert!(SocketLayer::from_binary(&l.to_binary()).is_err());
}

#[test]
fn socket_layer_rejects_bad_input() {
    assert!(SocketLayer::from_binary(&[]).is_err());
    assert!(SocketLayer::from_binary(&[3]).is_err());
    assert!(SocketLayer::from_binary(&[2, 2]).is_err());
    assert!(SocketLayer::from_binary(&[0, 1, 0, 0, 0, 0, 0, 0, 0]).is_err());
    assert!(matches!(SocketLayer::from_binary(&[2]), Ok(SocketLayer::Empty)));
}

#[test]
fn connection_handshake() {
    let ok = NodeResponse::<i64>::CompatibleCheck { type_id: 3, upstream_socket_id: SocketId(9) };
    assert_eq!(connect_handshake(3, &ok), Some((NodeOrder::TypeConformed, Ok(SocketId(9)))));
    assert_eq!(
        connect_handshake(4, &ok),
        Some((NodeOrder::TypeRejected, Err(NodeConnectError::TypeRejected)))
    );
    assert_eq!(connect_handshake(3, &NodeResponse::<i64>::DeleteCache), None);
}

#[test]
fn delete_cache_requests() {
    let none: Vec<NodeResponse<i64>> = vec![NodeResponse::Shared(1), NodeResponse::ProcessFailed];
    assert!(!has_delete_cache_request(&none));
    let some: Vec<NodeResponse<i64>> = vec![NodeResponse::Shared(1), NodeResponse::DeleteCache];
    assert!(has_delete_cache_request(&some));
}

#[test]
fn tree_index_reads_and_changes_a_child() {
    let mut tree = OutputTree::vec(vec![OutputTree::new(out(1)), OutputTree::new(out(2))]);
    assert_eq!(tree.index(1).size(), 1);
    *tree.index_mut(0) = OutputTree::vec(vec![OutputTree::new(out(7)), OutputTree::new(out(8))]);
    let all: Vec<u128> = tree.get_all_socket().iter().map(|s| s.id.0).collect();
    assert_eq!(all, vec![7, 8, 2]);
    let mut inputs = InputTree::new_vec(vec![InputTree::new_reef(inp(1, 10)), InputTree::new_reef(inp(2, 20))]);
    assert_eq!(inputs.index(1).reef().default_value, Some(20));
    *inputs.index_mut(1) = InputTree::new_reef(inp(3, 30));
    assert_eq!(inputs.get_from_id(SocketId(3)).unwrap().default_value, Some(30));
    assert!(inputs.get_from_id(SocketId(2)).is_err());
}

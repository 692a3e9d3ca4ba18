use node_system::shared_memory::{SharedSockets, SharedTree};

fn sockets() -> SharedSockets<u8> {
    SharedSockets {
        input_sockets: SharedTree::Group(vec![
            SharedTree::Socket { shared: Some(5), default: 1 },
            SharedTree::Group(vec![SharedTree::Socket { shared: None, default: 2 }]),
        ]),
    }
}

#[test]
fn shared_memory_found_at_a_socket() {
    let s = sockets();
    assert_eq!(s.access_input_shared_memory(&vec![0]), Ok(&5));
    assert_eq!(s.access_input_shared_memory(&vec![1, 0]), Ok(&2));
}

#[test]
fn shared_memory_reports_a_wrong_index() {
    let s = sockets();
    assert_eq!(s.access_input_shared_memory(&vec![]), Err(None));
    assert_eq!(s.access_input_shared_memory(&vec![1]), Err(None));
    assert_eq!(s.access_input_shared_memory(&vec![0, 7, 7]), Err(Some(&5)));
}

#[test]
fn shared_memory_written_through_an_access() {
    let mut s = sockets();
    if let Ok(x) = s.access_output_shared_memory(&vec![1, 0]) {
        *x = 9;
    }
    if let Err(Some(x)) = s.access_output_shared_memory(&vec![0, 3]) {
        *x = 6;
    }
    assert_eq!(s.access_input_shared_memory(&vec![1, 0]), Ok(&9));
    assert_eq!(s.access_input_shared_memory(&vec![0]), Ok(&6));
    assert!(matches!(s.access_output_shared_memory(&vec![1]), Err(None)));
}

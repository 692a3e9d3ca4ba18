use node_system::cache::Cache;
use node_system::ids::SocketId;

#[test]
fn node_cache_test() {
    let mut cache = Cache::<i64>::new(10);
    for i in 0..10 {
        cache.push(i, i);
    }
    // from the beginning: 9, 8, 7, 6, 5, 4, 3, 2, 1, 0
    assert_eq!(cache.get_first().as_ref().unwrap().frame, 9);
    // search 5, which becomes the first: 5, 9, 8, 7, 6, 4, 3, 2, 1, 0
    assert_eq!(cache.search(5).unwrap().frame, 5);
    assert_eq!(cache.get_first().as_ref().unwrap().frame, 5);
    // change size: 5, 9, 8, 7, 6
    cache.change_size(5);
    assert_eq!(cache.get_first().as_ref().unwrap().frame, 5);
    assert_eq!(cache.get(0).as_ref().expect("").frame, 5);
    assert_eq!(cache.get(1).as_ref().expect("").frame, 9);
    assert_eq!(cache.get(2).as_ref().expect("").frame, 8);
    assert_eq!(cache.get(3).as_ref().expect("").frame, 7);
    assert_eq!(cache.get(4).as_ref().expect("").frame, 6);
    // clear
    cache.clear();
    assert!(cache.get_first().is_none());
}

#[test]
fn node_core_cache_test() {
    let mut cache = Cache::<i64>::new(10);
    for i in 0..10 {
        cache.push_for(i, SocketId::new(), i);
    }
    assert_eq!(cache.get_first().as_ref().unwrap().frame, 9);
    assert_eq!(cache.search_for(5, SocketId::new()).unwrap().frame, 5);
    assert_eq!(cache.get_first().as_ref().unwrap().frame, 5);
    // frame 5 is used by another socket id.
    assert_eq!(cache.get_first().as_ref().expect("").id.len(), 2);
    cache.change_size(5);
    assert_eq!(cache.get_first().as_ref().unwrap().frame, 5);
    assert_eq!(cache.get(0).as_ref().expect("").frame, 5);
    assert_eq!(cache.get(1).as_ref().expect("").frame, 9);
    assert_eq!(cache.get(2).as_ref().expect("").frame, 8);
    assert_eq!(cache.get(3).as_ref().expect("").frame, 7);
    assert_eq!(cache.get(4).as_ref().expect("").frame, 6);
    cache.clear();
    assert_eq!(cache.get_first().is_none(), true);
}

#[test]
fn cache_test() {
    let mut cache = Cache::<i64>::new(10);
    for i in 0..10 {
        cache.push_for(i, SocketId::new(), i);
    }
    assert_eq!(cache.get_first().as_ref().unwrap().frame, 9);
    assert_eq!(cache.search_for(5, SocketId::new()).unwrap().frame, 5);
    assert_eq!(cache.get_first().as_ref().unwrap().frame, 5);
    assert_eq!(cache.get_first().as_ref().expect("").id.len(), 2);
    cache.change_size(5);
    assert_eq!(cache.get_first().as_ref().unwrap().frame, 5);
    assert_eq!(cache.get(0).as_ref().expect("").frame, 5);
    assert_eq!(cache.get(1).as_ref().expect("").frame, 9);
    assert_eq!(cache.get(2).as_ref().expect("").frame, 8);
    assert_eq!(cache.get(3).as_ref().expect("").frame, 7);
    assert_eq!(cache.get(4).as_ref().expect("").frame, 6);
    cache.clear();
    assert!(cache.get_first().is_none());
}

#[test]
fn cache_search_missing_frame_changes_nothing() {
    let mut cache = Cache::<i64>::new(3);
    cache.push(1, 10);
    cache.push(2, 20);
    assert!(cache.search(7).is_err());
    assert_eq!(cache.get(0).as_ref().unwrap().frame, 2);
    assert_eq!(cache.get(1).as_ref().unwrap().frame, 1);
    assert!(cache.get(2).is_none());
}

#[test]
fn cache_oldest_entry_falls_out() {
    let mut cache = Cache::<i64>::new(2);
    cache.push(1, 10);
    cache.push(2, 20);
    cache.push(3, 30);
    assert_eq!(cache.len(), 2);
    assert!(cache.search(1).is_err());
    assert_eq!(cache.search(2).unwrap().data, 20);
    assert_eq!(cache.get(1).as_ref().unwrap().frame, 3);
}

#[test]
fn cache_search_twice_finds_the_same_entry() {
    let mut cache = Cache::<i64>::new(4);
    for i in 0..4 {
        cache.push(i, i * 100);
    }
    let first = cache.search(1).unwrap().data;
    let second = cache.search(1).unwrap().data;
    assert_eq!(first, 100);
    assert_eq!(second, 100);
    assert_eq!(cache.get(1).as_ref().unwrap().frame, 3);
}

#[test]
fn cache_search_for_records_each_socket_once() {
    let mut cache = Cache::<i64>::new(3);
    let a = SocketId(1);
    let b = SocketId(2);
    cache.push_for(4, a, 40);
    cache.search_for(4, a).unwrap();
    assert_eq!(cache.get_first().as_ref().unwrap().id.len(), 1);
    cache.search_for(4, b).unwrap();
    assert_eq!(cache.get_first().as_ref().unwrap().id, vec![a, b]);
}

#[test]
fn cache_grow_keeps_entries_and_adds_empty_slots() {
    let mut cache = Cache::<i64>::new(2);
    cache.push(1, 1);
    cache.push(2, 2);
    cache.change_size(4);
    assert_eq!(cache.len(), 4);
    assert_eq!(cache.get(0).as_ref().unwrap().frame, 2);
    assert_eq!(cache.get(1).as_ref().unwrap().frame, 1);
    assert!(cache.get(2).is_none());
    assert!(cache.get(3).is_none());
    // the index wraps around the buffer
    assert_eq!(cache.get(4).as_ref().unwrap().frame, 2);
}

use node_system::ids::{NodeId, PluginId, SocketId};

#[test]
fn id_text_form() {
    let id = NodeId(0x472866e3_f751_560b_47cd_31a08d3a7c78);
    assert_eq!(id.to_string(), "472866e3-f751-560b-47cd-31a08d3a7c78");
    assert_eq!(NodeId::from_string("472866e3-f751-560b-47cd-31a08d3a7c78"), id);
    assert_eq!(NodeId::try_from_string("not an id"), None);
    let s = SocketId(5);
    assert_eq!(s.to_string(), "00000000-0000-0000-0000-000000000005");
    assert_eq!(SocketId::try_from_string(&s.to_string()), Some(s));
    assert_eq!(PluginId::try_from_string("xyz"), None);
}

#[test]
fn id_binary_roundtrip() {
    let id = NodeId(0x0123_4567_89ab_cdef_0123_4567_89ab_cdef);
    let mut bytes = id.to_binary();
    assert_eq!(bytes.len(), 8 + 36);
    bytes.push(9);
    let (back, rest) = NodeId::from_binary(&bytes);
    assert_eq!(back, id);
    assert_eq!(rest, &[9u8][..]);
    let s = SocketId(77);
    let sb = s.to_binary();
    let (back, rest) = SocketId::from_binary(&sb);
    assert_eq!(back, s);
    assert!(rest.is_empty());
    assert!(NodeId::try_from_binary(&[1, 2, 3]).is_none());
}

#[test]
fn new_ids_are_random_uuids() {
    let a = NodeId::new();
    let b = NodeId::new();
    assert_ne!(a, b);
    // version 4, variant 1
    assert_eq!((a.0 >> 76) & 0xf, 4);
    assert_eq!((a.0 >> 62) & 0x3, 2);
    assert!(!SocketId::new().same(&SocketId::new()));
    let s = SocketId(3);
    assert!(s.same(&SocketId(3)));
}

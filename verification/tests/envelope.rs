use node_system::envelope::{keyframes_in_order, segment_index};

#[test]
fn keyframes_must_increase_and_end_before_the_right_end() {
    assert!(keyframes_in_order(&vec![0, 25, 50], 100));
    assert!(keyframes_in_order(&vec![0, 25, 50], 50));
    assert!(!keyframes_in_order(&vec![0, 25, 50], 49));
    assert!(!keyframes_in_order(&vec![0, 25, 25], 100));
    assert!(!keyframes_in_order(&vec![10, 5], 100));
    assert!(keyframes_in_order(&vec![-3], -3));
}

#[test]
fn segment_of_a_frame() {
    let frames = vec![0, 25, 50];
    // the last key frame that lies before the bound
    assert_eq!(segment_index(&frames, 1), 0);
    assert_eq!(segment_index(&frames, 25), 0);
    assert_eq!(segment_index(&frames, 26), 1);
    assert_eq!(segment_index(&frames, 50), 1);
    assert_eq!(segment_index(&frames, 51), 2);
    assert_eq!(segment_index(&frames, 1000), 2);
    // none lies before the bound: the first segment
    assert_eq!(segment_index(&frames, 0), 0);
    assert_eq!(segment_index(&frames, -5), 0);
    assert_eq!(segment_index(&vec![7], 100), 0);
}

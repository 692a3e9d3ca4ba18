use vstd::prelude::*;

use crate::FrameCount;

verus! {

/// The key frames are strictly increasing and none lies after the right end.
pub open spec fn keyframes_ordered(frames: Seq<FrameCount>, right_end_frame: FrameCount) -> bool {
    &&& forall|i: int, j: int| 0 <= i < j < frames.len() ==> frames[i] < frames[j]
    &&& frames.len() > 0 ==> frames.last() <= right_end_frame
}

/// Whether key frames can make an envelope: they must be in strictly
/// increasing order, and the last one must not lie after the right end.
pub fn keyframes_in_order(frames: &Vec<FrameCount>, right_end_frame: FrameCount) -> (r: bool)
    requires
        frames@.len() > 0,
    ensures
        r == keyframes_ordered(frames@, right_end_frame),
{
    let n = frames.len();
    let mut i: usize = 0;
    while i + 1 < n
        invariant
            n == frames@.len(),
            n > 0,
            i < n,
            forall|a: int, b: int| 0 <= a < b <= i ==> frames@[a] < frames@[b],
        decreases n - i,
    {
        if frames[i] >= frames[i + 1] {
            return false;
        }
        i = i + 1;
    }
    frames[n - 1] <= right_end_frame
}

/// Find, by binary search over key frames in increasing order, the segment
/// of an envelope that holds a frame: the last key frame that lies before
/// `bound`, or the first one when none does. For a frame `f` that is not a
/// whole number, `bound` is the least whole number not below `f`: a key
/// frame lies before `f` exactly when it lies before `bound`.
pub fn segment_index(frames: &Vec<FrameCount>, bound: FrameCount) -> (r: usize)
    requires
        frames@.len() > 0,
        forall|i: int, j: int| 0 <= i < j < frames@.len() ==> frames@[i] < frames@[j],
    ensures
        r < frames@.len(),
        frames@[r as int] < bound || r == 0,
        forall|j: int| r < j < frames@.len() ==> frames@[j] >= bound,
{
    let mut left: usize = 0;
    let mut right: usize = frames.len() - 1;
    while left < right
        invariant
            right < frames@.len(),
            left <= right,
            forall|i: int, j: int| 0 <= i < j < frames@.len() ==> frames@[i] < frames@[j],
            left > 0 ==> frames@[left as int] < bound,
            forall|j: int| right < j < frames@.len() ==> frames@[j] >= bound,
        decreases right - left,
    {
        let mid = left + (right - left) / 2 + 1;
        if frames[mid] < bound {
            left = mid;
        } else {
            right = mid - 1;
        }
    }
    left
}

/// Each key frame comes before the next one.
proof fn lemma_neighbours_give_order(frames: Seq<FrameCount>, i: int, j: int)
    requires
        forall|k: int| #![trigger frames[k]] 1 <= k < frames.len() ==> frames[k - 1] < frames[k],
        0 <= i < j < frames.len(),
    ensures
        frames[i] < frames[j],
    decreases j - i,
{
    if j > i + 1 {
        lemma_neighbours_give_order(frames, i, j - 1);
    }
    assert(frames[j - 1] < frames[j]);
}

/// Key frames are in order exactly when each one comes before the next and
/// the last does not lie after the right end; then no key frame lies after
/// the right end.
pub proof fn law_keyframes_in_order_by_neighbours(frames: Seq<FrameCount>, right_end_frame: FrameCount)
    ensures
        keyframes_ordered(frames, right_end_frame) == ({
            &&& forall|k: int| #![trigger frames[k]] 1 <= k < frames.len() ==> frames[k - 1] < frames[k]
            &&& frames.len() > 0 ==> frames[frames.len() - 1] <= right_end_frame
        }),
        keyframes_ordered(frames, right_end_frame) ==> forall|k: int|
            0 <= k < frames.len() ==> #[trigger] frames[k] <= right_end_frame,
{
    if forall|k: int| #![trigger frames[k]] 1 <= k < frames.len() ==> frames[k - 1] < frames[k] {
        assert forall|i: int, j: int| 0 <= i < j < frames.len() implies frames[i] < frames[j] by {
            lemma_neighbours_give_order(frames, i, j);
        }
    }
    if keyframes_ordered(frames, right_end_frame) {
        assert forall|k: int| #![trigger frames[k]] 1 <= k < frames.len() implies frames[k - 1] < frames[k] by {
            assert(0 <= k - 1 < k < frames.len());
        }
        assert forall|k: int| 0 <= k < frames.len() implies #[trigger] frames[k] <= right_end_frame by {
            if k < frames.len() - 1 {
                assert(frames[k] < frames[frames.len() - 1]);
            }
        }
    }
}

} // verus!

use vstd::prelude::*;

use crate::ids::SocketId;
use crate::FrameCount;

verus! {

/// A frame that a node has already computed, with its result.
pub struct CacheData<T> {
    pub frame: FrameCount,
    /// The sockets that have asked for this frame, each once.
    pub id: Vec<SocketId>,
    pub data: T,
}

/// `ids` with `id` added at the end unless it is there already.
pub open spec fn with_user(ids: Seq<SocketId>, id: SocketId) -> Seq<SocketId> {
    if ids.contains(id) {
        ids
    } else {
        ids.push(id)
    }
}

/// Add `id` to `ids` unless it is there already.
fn add_user(ids: &mut Vec<SocketId>, id: SocketId)
    ensures
        final(ids)@ == with_user(old(ids)@, id),
{
    let mut i: usize = 0;
    while i < ids.len()
        invariant
            ids@ == old(ids)@,
            i <= ids@.len(),
            forall|j: int| 0 <= j < i ==> ids@[j] != id,
        decreases ids@.len() - i,
    {
        if ids[i] == id {
            return;
        }
        i = i + 1;
    }
    ids.push(id);
}

/// Position of the `i`-th most recent entry in a ring of `size` slots whose
/// most recent entry sits at `start`.
pub open spec fn ring_slot(start: int, size: int, i: int) -> int {
    if start + i < size {
        start + i
    } else {
        start + i - size
    }
}

/// The entries of a ring buffer read from `start` on, most recent first.
pub open spec fn ring_view<E>(buf: Seq<E>, start: int) -> Seq<E> {
    Seq::new(buf.len(), |i: int| buf[ring_slot(start, buf.len() as int, i)])
}

/// `s` with its element at `k` moved to the front, the others keeping their order.
pub open spec fn move_to_front<E>(s: Seq<E>, k: int) -> Seq<E> {
    seq![s[k]] + s.take(k) + s.skip(k + 1)
}

/// The first `n` entries of `s`, padded with `None` up to length `n`.
pub open spec fn resized<E>(s: Seq<Option<E>>, n: nat) -> Seq<Option<E>> {
    Seq::new(n, |i: int| if i < s.len() { s[i] } else { None })
}

/// Position `i` of `s` holds an entry for `frame`.
pub open spec fn holds_frame<T>(s: Seq<Option<CacheData<T>>>, i: int, frame: FrameCount) -> bool {
    &&& 0 <= i < s.len()
    &&& s[i] is Some
    &&& s[i]->0.frame == frame
}

/// Swap two slots of a vector.
fn swap_slots<E>(v: &mut Vec<Option<E>>, a: usize, b: usize)
    requires
        a < old(v)@.len(),
        b < old(v)@.len(),
        a != b,
    ensures
        final(v)@ == old(v)@.update(a as int, old(v)@[b as int]).update(b as int, old(v)@[a as int]),
{
    let mut tmp: Option<E> = None;
    v.set_and_swap(a, &mut tmp);
    v.set_and_swap(b, &mut tmp);
    v.set_and_swap(a, &mut tmp);
}

/// A ring buffer of computed frames.
///
/// Entry 0 is the most recently used one. Pushing a frame puts it first and
/// lets the oldest entry fall out; finding a frame moves it to the front.
pub struct Cache<T> {
    ring_buffer: Vec<Option<CacheData<T>>>,
    buffer_size: usize,
    buffer_index: usize,
}

impl<T> View for Cache<T> {
    type V = Seq<Option<CacheData<T>>>;

    /// The entries, most recent first.
    closed spec fn view(&self) -> Seq<Option<CacheData<T>>> {
        ring_view(self.ring_buffer@, self.buffer_index as int)
    }
}

impl<T> Cache<T> {
    /// The buffer holds `buffer_size` slots and the start lies inside it.
    pub closed spec fn wf(&self) -> bool {
        &&& self.ring_buffer@.len() == self.buffer_size
        &&& (self.buffer_size > 0 ==> self.buffer_index < self.buffer_size)
        &&& (self.buffer_size == 0 ==> self.buffer_index == 0)
    }

    /// An empty cache with `buffer_size` slots.
    pub fn new(buffer_size: usize) -> (cache: Self)
        ensures
            cache.wf(),
            cache@ == Seq::new(buffer_size as nat, |i: int| None::<CacheData<T>>),
    {
        let mut ring_buffer: Vec<Option<CacheData<T>>> = Vec::new();
        let mut i: usize = 0;
        while i < buffer_size
            invariant
                i <= buffer_size,
                ring_buffer@ == Seq::new(i as nat, |j: int| None::<CacheData<T>>),
            decreases buffer_size - i,
        {
            ring_buffer.push(None);
            i = i + 1;
        }
        let cache = Cache { ring_buffer, buffer_size, buffer_index: 0 };
        cache
    }

    /// The number of slots.
    pub fn len(&self) -> (n: usize)
        requires
            self.wf(),
        ensures
            n == self@.len(),
    {
        self.buffer_size
    }

    fn slot(&self, i: usize) -> (s: usize)
        requires
            self.wf(),
            i < self.buffer_size,
        ensures
            s == ring_slot(self.buffer_index as int, self.buffer_size as int, i as int),
            s < self.buffer_size,
    {
        if i < self.buffer_size - self.buffer_index {
            self.buffer_index + i
        } else {
            i - (self.buffer_size - self.buffer_index)
        }
    }

    /// Put `entry` first; the oldest entry falls out.
    fn push_entry(&mut self, entry: CacheData<T>)
        requires
            old(self).wf(),
            old(self)@.len() > 0,
        ensures
            final(self).wf(),
            final(self)@ == seq![Some(entry)] + old(self)@.take(old(self)@.len() - 1),
    {
        let n = self.buffer_size;
        let new_index = if self.buffer_index == 0 {
            n - 1
        } else {
            self.buffer_index - 1
        };
        let mut slot_value = Some(entry);
        self.ring_buffer.set_and_swap(new_index, &mut slot_value);
        self.buffer_index = new_index;
    }

    /// Put `data` for `frame` first, asked for by no socket yet; the oldest
    /// entry falls out.
    pub fn push(&mut self, frame: FrameCount, data: T)
        requires
            old(self).wf(),
            old(self)@.len() > 0,
        ensures
            final(self).wf(),
            final(self)@.len() == old(self)@.len(),
            final(self)@.skip(1) == old(self)@.take(old(self)@.len() - 1),
            final(self)@[0] matches Some(e) && e.frame == frame && e.data == data && e.id@
                == Seq::<SocketId>::empty(),
    {
        let entry = CacheData { frame, id: Vec::new(), data };
        self.push_entry(entry);
    }

    /// Put `data` for `frame`, asked for by the socket `id`, first; the
    /// oldest entry falls out.
    pub fn push_for(&mut self, frame: FrameCount, id: SocketId, data: T)
        requires
            old(self).wf(),
            old(self)@.len() > 0,
        ensures
            final(self).wf(),
            final(self)@.len() == old(self)@.len(),
            final(self)@.skip(1) == old(self)@.take(old(self)@.len() - 1),
            final(self)@[0] matches Some(e) && e.frame == frame && e.data == data && e.id@ == seq![
                id,
            ],
    {
        let mut ids: Vec<SocketId> = Vec::new();
        ids.push(id);
        let entry = CacheData { frame, id: ids, data };
        self.push_entry(entry);
    }

    /// The most recent entry.
    pub fn get_first(&self) -> (r: &Option<CacheData<T>>)
        requires
            self.wf(),
            self@.len() > 0,
        ensures
            *r == self@[0],
    {
        &self.ring_buffer[self.buffer_index]
    }

    /// The entry at position `index`, counted from the most recent one and
    /// wrapping around the buffer.
    pub fn get(&self, index: usize) -> (r: &Option<CacheData<T>>)
        requires
            self.wf(),
            self@.len() > 0,
        ensures
            *r == self@[index as int % self@.len() as int],
    {
        let i = index % self.buffer_size;
        &self.ring_buffer[self.slot(i)]
    }

    /// The position of the most recent entry for `frame`, if any.
    fn find(&self, frame: FrameCount) -> (found: Option<usize>)
        requires
            self.wf(),
        ensures
            match found {
                Some(k) => holds_frame(self@, k as int, frame) && forall|j: int|
                    0 <= j < k ==> !holds_frame(self@, j, frame),
                None => forall|j: int| 0 <= j < self@.len() ==> !holds_frame(self@, j, frame),
            },
    {
        let mut i: usize = 0;
        while i < self.buffer_size
            invariant
                self.wf(),
                i <= self.buffer_size,
                forall|j: int| 0 <= j < i ==> !holds_frame(self@, j, frame),
            decreases self.buffer_size - i,
        {
            let s = self.slot(i);
            match &self.ring_buffer[s] {
                Some(data) => {
                    if data.frame == frame {
                        return Some(i);
                    }
                },
                None => {},
            }
            i = i + 1;
        }
        None
    }

    /// Move the entry at `k` to the front.
    fn bring_to_front(&mut self, k: usize)
        requires
            old(self).wf(),
            k < old(self)@.len(),
        ensures
            final(self).wf(),
            final(self)@ == move_to_front(old(self)@, k as int),
    {
        let ghost s = self@;
        let mut j = k;
        assert(s =~= s.take(j as int) + seq![s[k as int]] + s.subrange(j as int, k as int) + s.skip(
            k + 1,
        ));
        while j > 0
            invariant
                self.wf(),
                j <= k < self.buffer_size,
                self.buffer_index == old(self).buffer_index,
                self.buffer_size == s.len(),
                self@ == s.take(j as int) + seq![s[k as int]] + s.subrange(j as int, k as int)
                    + s.skip(k + 1),
            decreases j,
        {
            let a = self.slot(j - 1);
            let b = self.slot(j);
            let ghost before = self@;
            swap_slots(&mut self.ring_buffer, a, b);
            assert(self@ =~= before.update(j - 1, before[j as int]).update(j as int, before[j - 1]));
            j = j - 1;
            assert(self@ =~= s.take(j as int) + seq![s[k as int]] + s.subrange(j as int, k as int)
                + s.skip(k + 1));
        }
    }

    /// Look for the most recent entry for `frame`. When there is one, it is
    /// moved to the front and returned; otherwise nothing changes.
    pub fn search(&mut self, frame: FrameCount) -> (r: Result<&CacheData<T>, ()>)
        requires
            old(self).wf(),
        ensures
            final(self).wf(),
            (exists|j: int| holds_frame(old(self)@, j, frame)) <==> r is Ok,
            r is Err ==> final(self)@ == old(self)@,
            r is Ok ==> exists|k: int|
                {
                    &&& holds_frame(old(self)@, k, frame)
                    &&& forall|j: int| 0 <= j < k ==> !holds_frame(old(self)@, j, frame)
                    &&& final(self)@ == move_to_front(old(self)@, k)
                    &&& r matches Ok(d) && final(self)@[0] == Some(*d)
                },
    {
        match self.find(frame) {
            Some(k) => {
                let ghost s = self@;
                self.bring_to_front(k);
                assert(self@.len() == s.len());
                assert(self@[0] == self.ring_buffer@[self.buffer_index as int]);
                match &self.ring_buffer[self.buffer_index] {
                    Some(data) => Ok(data),
                    None => {
                        vstd::pervasive::unreached()
                    },
                }
            },
            None => Err(()),
        }
    }

    /// Look for the most recent entry for `frame` on behalf of the socket
    /// `id`. When there is one, it is moved to the front, `id` is recorded
    /// among the sockets that asked for it, and it is returned; otherwise
    /// nothing changes.
    pub fn search_for(&mut self, frame: FrameCount, id: SocketId) -> (r: Result<&CacheData<T>, ()>)
        requires
            old(self).wf(),
        ensures
            final(self).wf(),
            (exists|j: int| holds_frame(old(self)@, j, frame)) <==> r is Ok,
            r is Err ==> final(self)@ == old(self)@,
            r is Ok ==> exists|k: int|
                {
                    &&& holds_frame(old(self)@, k, frame)
                    &&& forall|j: int| 0 <= j < k ==> !holds_frame(old(self)@, j, frame)
                    &&& final(self)@.len() == old(self)@.len()
                    &&& final(self)@.skip(1) == move_to_front(old(self)@, k).skip(1)
                    &&& r matches Ok(d) && final(self)@[0] == Some(*d) && d.frame == frame
                        && d.data == old(self)@[k]->0.data && d.id@ == with_user(
                        old(self)@[k]->0.id@,
                        id,
                    )
                },
    {
        match self.find(frame) {
            Some(k) => {
                let ghost s = self@;
                self.bring_to_front(k);
                assert(self@.len() == s.len());
                assert(self@[0] == self.ring_buffer@[self.buffer_index as int]);
                let mut slot_value: Option<CacheData<T>> = None;
                let idx = self.buffer_index;
                self.ring_buffer.set_and_swap(idx, &mut slot_value);
                match slot_value {
                    Some(mut entry) => {
                        add_user(&mut entry.id, id);
                        let mut back = Some(entry);
                        self.ring_buffer.set_and_swap(idx, &mut back);
                        match &self.ring_buffer[self.buffer_index] {
                            Some(data) => Ok(data),
                            None => {
                                vstd::pervasive::unreached()
                            },
                        }
                    },
                    None => {
                        vstd::pervasive::unreached()
                    },
                }
            },
            None => Err(()),
        }
    }

    /// Change the number of slots to `new_buffer_size`, keeping the most
    /// recent entries that fit, in order.
    pub fn change_size(&mut self, new_buffer_size: usize)
        requires
            old(self).wf(),
        ensures
            final(self).wf(),
            final(self)@ == resized(old(self)@, new_buffer_size as nat),
    {
        let ghost s = self@;
        let copy_size = if self.buffer_size < new_buffer_size {
            self.buffer_size
        } else {
            new_buffer_size
        };
        let mut new_ring_buffer: Vec<Option<CacheData<T>>> = Vec::new();
        let mut i: usize = 0;
        while i < copy_size
            invariant
                self.wf(),
                self.buffer_index == old(self).buffer_index,
                self.buffer_size == s.len(),
                copy_size <= self.buffer_size,
                copy_size <= new_buffer_size,
                i <= copy_size,
                new_ring_buffer@ == s.take(i as int),
                forall|j: int| i <= j < s.len() ==> #[trigger] self@[j] == s[j],
            decreases copy_size - i,
        {
            let slot = self.slot(i);
            let mut entry: Option<CacheData<T>> = None;
            let ghost before = self@;
            self.ring_buffer.set_and_swap(slot, &mut entry);
            assert forall|j: int| i < j < s.len() implies #[trigger] self@[j] == s[j] by {
                assert(ring_slot(self.buffer_index as int, self.buffer_size as int, j)
                    != ring_slot(self.buffer_index as int, self.buffer_size as int, i as int));
                assert(self@[j] == before[j]);
            }
            assert(before[i as int] == s[i as int]);
            new_ring_buffer.push(entry);
            i = i + 1;
        }
        while i < new_buffer_size
            invariant
                copy_size <= i <= new_buffer_size,
                copy_size == if s.len() < new_buffer_size { s.len() } else { new_buffer_size as nat },
                new_ring_buffer@ == resized(s, new_buffer_size as nat).take(i as int),
            decreases new_buffer_size - i,
        {
            new_ring_buffer.push(None);
            i = i + 1;
        }
        self.ring_buffer = new_ring_buffer;
        self.buffer_size = new_buffer_size;
        self.buffer_index = 0;
    }

    /// Empty every slot; the number of slots stays.
    pub fn clear(&mut self)
        requires
            old(self).wf(),
        ensures
            final(self).wf(),
            final(self)@ == Seq::new(old(self)@.len(), |i: int| None::<CacheData<T>>),
    {
        let n = self.buffer_size;
        let fresh = Self::new(n);
        *self = fresh;
    }
}


/// A frame that has just been pushed is found first by a search.
pub proof fn law_pushed_frame_found_first<T>(s: Seq<Option<CacheData<T>>>, e: CacheData<T>)
    requires
        s.len() > 0,
    ensures
        holds_frame(seq![Some(e)] + s.take(s.len() - 1), 0, e.frame),
        move_to_front(seq![Some(e)] + s.take(s.len() - 1), 0) == seq![Some(e)] + s.take(
            s.len() - 1,
        ),
{
}

/// Moving an entry to the front keeps the same entries: a second search for
/// the same frame finds it at the front and changes nothing.
pub proof fn law_search_twice<T>(s: Seq<Option<CacheData<T>>>, k: int, frame: FrameCount)
    requires
        holds_frame(s, k, frame),
    ensures
        holds_frame(move_to_front(s, k), 0, frame),
        move_to_front(move_to_front(s, k), 0) == move_to_front(s, k),
        move_to_front(s, k).len() == s.len(),
        move_to_front(s, k).to_multiset() == s.to_multiset(),
{
    let t = move_to_front(s, k);
    assert(s =~= s.take(k) + seq![s[k]] + s.skip(k + 1));
    vstd::seq_lib::lemma_multiset_commutative(s.take(k), seq![s[k]]);
    vstd::seq_lib::lemma_multiset_commutative(s.take(k) + seq![s[k]], s.skip(k + 1));
    vstd::seq_lib::lemma_multiset_commutative(seq![s[k]], s.take(k));
    vstd::seq_lib::lemma_multiset_commutative(seq![s[k]] + s.take(k), s.skip(k + 1));
}

/// An emptied cache finds no frame.
pub proof fn law_cleared_finds_nothing<T>(s: Seq<Option<CacheData<T>>>, frame: FrameCount)
    requires
        s == Seq::new(s.len(), |i: int| None::<CacheData<T>>),
    ensures
        forall|j: int| !#[trigger] holds_frame(s, j, frame),
{
}

/// Resizing keeps the most recent entries in their order.
pub proof fn law_resize_keeps_prefix<T>(s: Seq<Option<CacheData<T>>>, n: nat)
    ensures
        resized(s, n).len() == n,
        forall|i: int| 0 <= i < n && i < s.len() ==> resized(s, n)[i] == s[i],
        forall|i: int| s.len() <= i < n ==> resized(s, n)[i] is None,
{
}

} // verus!

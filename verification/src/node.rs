use vstd::prelude::*;

use crate::cache::{holds_frame, move_to_front, Cache, CacheData};
use crate::err::{refused_value, UpdateInputDefaultError};
use crate::ids::{NodeId, SocketId};
use crate::node_controller::{find_input, is_first_input, InputSocket};
use crate::socket_tree::{output_leaves, OutputTree};
use crate::FrameCount;

verus! {

/// The main process of a node: what it computes for a frame from its name,
/// its inputs and its memory. Users of the library write it.
pub trait NodeFn<I, M, V> {
    /// For the node named `name`, reading `input` with memory `memory` at
    /// `frame`, the process may give `output` and leave `new_memory`. A
    /// process that states nothing of itself allows any outcome.
    open spec fn computes(
        &self,
        name: Seq<char>,
        input: I,
        memory: M,
        frame: FrameCount,
        new_memory: M,
        output: V,
    ) -> bool {
        true
    }

    fn call(&self, name: &String, input: &I, memory: &mut M, frame: FrameCount) -> (r: V)
        ensures
            self.computes(name@, *input, *old(memory), frame, *final(memory), r),
    ;
}

/// The input sockets of a node, as users of the library group them: a new
/// default value of type `value_type` is set on the socket `id`, or refused
/// and handed back.
pub trait InputGroup<D>: Sized {
    /// Whether the group takes a new default value of type `value_type` for
    /// the socket `id`.
    spec fn accepts(&self, id: SocketId, value_type: u64) -> bool;

    /// The error with which the group refuses the value.
    spec fn refusal(&self, id: SocketId, value: D, value_type: u64) -> UpdateInputDefaultError<D>;

    /// `after` is the group once the socket `id` has taken `value` as its
    /// default.
    spec fn took_value(&self, id: SocketId, value: D, after: Self) -> bool;

    fn set_default(&mut self, id: SocketId, value: D, value_type: u64) -> (r: Result<
        (),
        UpdateInputDefaultError<D>,
    >)
        ensures
            r is Ok <==> old(self).accepts(id, value_type),
            r is Ok ==> old(self).took_value(id, value, *final(self)),
            r is Err ==> r == Err::<(), UpdateInputDefaultError<D>>(
                old(self).refusal(id, value, value_type),
            ) && *final(self) == *old(self),
            r matches Err(e) ==> refused_value(e) == value,
    ;
}

/// The socket `s` with its default value set to `value`.
pub open spec fn with_default<D>(s: InputSocket<D>, value: D) -> InputSocket<D> {
    InputSocket {
        id: s.id,
        name: s.name,
        socket_type: s.socket_type,
        default_type: s.default_type,
        default_value: Some(value),
    }
}

/// A list of input sockets, the first one with an id taking the new default
/// values sent to that id.
impl<D> InputGroup<D> for Vec<InputSocket<D>> {
    /// The first socket with the id takes values of its default type, when
    /// it has a default value.
    open spec fn accepts(&self, id: SocketId, value_type: u64) -> bool {
        exists|k: int|
            #[trigger] is_first_input(self@, id, k) && self@[k].default_type == value_type
                && self@[k].default_value is Some
    }

    /// No socket has the id; or the first one takes another type; or it has
    /// no default value.
    open spec fn refusal(&self, id: SocketId, value: D, value_type: u64) -> UpdateInputDefaultError<D> {
        if forall|j: int| 0 <= j < self@.len() ==> self@[j].id != id {
            UpdateInputDefaultError::SocketIdNotFound(value)
        } else {
            let k = choose|k: int| is_first_input(self@, id, k);
            if self@[k].default_type != value_type {
                UpdateInputDefaultError::TypeRejected(value)
            } else {
                UpdateInputDefaultError::DefaultValueNotEnabled(value)
            }
        }
    }

    /// The first socket with the id holds the value as its default, the
    /// others are as they were.
    open spec fn took_value(&self, id: SocketId, value: D, after: Self) -> bool {
        exists|k: int|
            #[trigger] is_first_input(self@, id, k) && after@ == self@.update(
                k,
                with_default(self@[k], value),
            )
    }

    fn set_default(&mut self, id: SocketId, value: D, value_type: u64) -> (r: Result<
        (),
        UpdateInputDefaultError<D>,
    >)
        ensures
            (forall|j: int| 0 <= j < old(self)@.len() ==> old(self)@[j].id != id) ==> (r matches Err(
                UpdateInputDefaultError::SocketIdNotFound(v),
            ) && v == value),
            forall|k: int| #[trigger]
                is_first_input(old(self)@, id, k) ==> {
                    &&& old(self)@[k].default_type != value_type ==> (r matches Err(
                        UpdateInputDefaultError::TypeRejected(v),
                    ) && v == value)
                    &&& old(self)@[k].default_type == value_type && old(self)@[k].default_value
                        is None ==> (r matches Err(
                        UpdateInputDefaultError::DefaultValueNotEnabled(v),
                    ) && v == value)
                    &&& old(self)@[k].default_type == value_type && old(self)@[k].default_value
                        is Some ==> r is Ok && final(self)@ == old(self)@.update(
                        k,
                        with_default(old(self)@[k], value),
                    )
                },
            r is Err ==> final(self)@ == old(self)@,
    {
        let k = match find_input(self, id) {
            Some(k) => k,
            None => {
                return Err(UpdateInputDefaultError::SocketIdNotFound(value));
            },
        };
        if self[k].default_type != value_type {
            return Err(UpdateInputDefaultError::TypeRejected(value));
        }
        if self[k].default_value.is_none() {
            return Err(UpdateInputDefaultError::DefaultValueNotEnabled(value));
        }
        let ghost before = self@;
        let mut socket = self.remove(k);
        socket.default_value = Some(value);
        self.insert(k, socket);
        assert(self@ =~= before.update(k as int, with_default(before[k as int], value)));
        Ok(())
    }
}

/// How an input socket reads its value while nothing is connected to it:
/// from its default value, if it has one, and its memory, at a frame. Users
/// of the library write it.
pub trait ReadingFn<D, M, O> {
    /// Reading `default` with memory `memory` at `frame` may give `output`
    /// and leave `new_memory`. A reading that states nothing of itself
    /// allows any outcome.
    open spec fn reads(
        &self,
        default: Option<D>,
        memory: M,
        frame: FrameCount,
        new_memory: M,
        output: O,
    ) -> bool {
        true
    }

    fn call(&self, default: Option<&D>, memory: &mut M, frame: FrameCount) -> (r: O)
        ensures
            self.reads(
                match default {
                    Some(d) => Some(*d),
                    None => None,
                },
                *old(memory),
                frame,
                *final(memory),
                r,
            ),
    ;
}

/// The value of an input socket at `frame`: the value its upstream socket
/// answered, when it is connected, the memory left as it is; otherwise
/// what its reading makes of its default value and memory.
pub fn read_input<D, M, O, R: ReadingFn<D, M, O>>(
    upstream: Option<O>,
    default: Option<&D>,
    memory: &mut M,
    frame: FrameCount,
    read: &R,
) -> (r: O)
    ensures
        match upstream {
            Some(v) => r == v && *final(memory) == *old(memory),
            None => read.reads(
                match default {
                    Some(d) => Some(*d),
                    None => None,
                },
                *old(memory),
                frame,
                *final(memory),
                r,
            ),
        },
{
    match upstream {
        Some(v) => v,
        None => read.call(default, memory, frame),
    }
}

/// Some entry of `s` holds `frame`.
pub open spec fn cached<V>(s: Seq<Option<CacheData<V>>>, frame: FrameCount) -> bool {
    exists|j: int| holds_frame(s, j, frame)
}

/// `k` is the first entry of `s` that holds `frame`.
pub open spec fn first_holder<V>(s: Seq<Option<CacheData<V>>>, frame: FrameCount, k: int) -> bool {
    &&& holds_frame(s, k, frame)
    &&& forall|j: int| 0 <= j < k ==> !holds_frame(s, j, frame)
}

/// A node: its inputs `I`, its memory `M`, its main process `F`, the cache of
/// the values `V` it computed, and its output sockets.
pub struct Node<I, M, V, F: NodeFn<I, M, V>> {
    id: NodeId,
    name: String,
    input: I,
    memory: M,
    main_process: F,
    cache: Cache<V>,
    output: OutputTree,
}

impl<I, M, V, F: NodeFn<I, M, V>> Node<I, M, V, F> {
    pub closed spec fn spec_id(&self) -> NodeId {
        self.id
    }

    pub closed spec fn spec_name(&self) -> Seq<char> {
        self.name@
    }

    /// The main process of the node.
    pub closed spec fn spec_process(&self) -> F {
        self.main_process
    }

    /// The inputs of the node.
    pub closed spec fn spec_input(&self) -> I {
        self.input
    }

    pub closed spec fn spec_memory(&self) -> M {
        self.memory
    }

    /// The cached frames, most recent first.
    pub closed spec fn cache(&self) -> Seq<Option<CacheData<V>>> {
        self.cache@
    }

    /// The output sockets, left to right.
    pub closed spec fn outputs(&self) -> Seq<crate::node_controller::OutputSocket> {
        output_leaves(self.output)
    }

    /// The cache is well formed and the sockets can be counted.
    pub closed spec fn wf(&self) -> bool {
        &&& self.cache.wf()
        &&& output_leaves(self.output).len() <= usize::MAX
    }

    /// A node with a fresh id and a cache of one slot.
    pub fn new(name: &str, input: I, memory: M, main_process: F, output: OutputTree) -> (n: Self)
        requires
            output_leaves(output).len() <= usize::MAX,
        ensures
            n.wf(),
            n.spec_name() == name@,
            n.spec_memory() == memory,
            n.spec_input() == input,
            n.spec_process() == main_process,
            n.cache() == seq![None::<CacheData<V>>],
            n.outputs() == output_leaves(output),
    {
        let node = Node {
            id: NodeId::new(),
            name: name.to_string(),
            input,
            memory,
            main_process,
            cache: Cache::new(1),
            output,
        };
        assert(node.cache() =~= seq![None::<CacheData<V>>]);
        node
    }

    pub fn get_id(&self) -> (id: NodeId)
        ensures
            id == self.spec_id(),
    {
        self.id
    }

    pub fn get_name(&self) -> (name: &String)
        ensures
            name@ == self.spec_name(),
    {
        &self.name
    }

    pub fn set_name(&mut self, name: String)
        ensures
            final(self).spec_name() == name@,
            final(self).spec_id() == old(self).spec_id(),
            final(self).spec_memory() == old(self).spec_memory(),
            final(self).cache() == old(self).cache(),
            final(self).outputs() == old(self).outputs(),
            final(self).wf() == old(self).wf(),
    {
        self.name = name;
    }

    /// The value of the node at `frame`. A frame found in the cache is
    /// served from it, moved to the front, and the main process does not
    /// run; otherwise the main process computes it and it is cached first.
    pub fn call(&mut self, frame: FrameCount) -> (r: &V)
        requires
            old(self).wf(),
            old(self).cache().len() > 0,
        ensures
            final(self).wf(),
            final(self).spec_id() == old(self).spec_id(),
            final(self).spec_name() == old(self).spec_name(),
            final(self).outputs() == old(self).outputs(),
            final(self).cache().len() == old(self).cache().len(),
            final(self).cache()[0] matches Some(e) && e.frame == frame && e.data == *r,
            cached(old(self).cache(), frame) ==> {
                &&& final(self).spec_memory() == old(self).spec_memory()
                &&& exists|k: int|
                    first_holder(old(self).cache(), frame, k) && final(self).cache()
                        == move_to_front(old(self).cache(), k)
            },
            final(self).spec_input() == old(self).spec_input(),
            final(self).spec_process() == old(self).spec_process(),
            !cached(old(self).cache(), frame) ==> final(self).cache().skip(1) == old(self).cache().take(old(self).cache().len() - 1),
            !cached(old(self).cache(), frame) ==> old(self).spec_process().computes(
                old(self).spec_name(),
                old(self).spec_input(),
                old(self).spec_memory(),
                frame,
                final(self).spec_memory(),
                *r,
            ),
    {
        let hit = self.cache.search(frame).is_ok();
        if !hit {
            let output = self.main_process.call(&self.name, &self.input, &mut self.memory, frame);
            self.cache.push(frame, output);
        }
        match self.cache.get_first() {
            Some(entry) => &entry.data,
            None => vstd::pervasive::unreached(),
        }
    }

    /// Make the cache hold `depth` frames for each output socket.
    pub fn change_cache_depth(&mut self, depth: usize)
        requires
            old(self).wf(),
            old(self).outputs().len() * depth <= usize::MAX,
        ensures
            final(self).wf(),
            final(self).spec_id() == old(self).spec_id(),
            final(self).spec_name() == old(self).spec_name(),
            final(self).spec_memory() == old(self).spec_memory(),
            final(self).outputs() == old(self).outputs(),
            final(self).cache().len() == old(self).outputs().len() * depth,
            forall|i: int|
                0 <= i < final(self).cache().len() && i < old(self).cache().len() ==> final(self).cache()[i] == old(self).cache()[i],
            forall|i: int|
                old(self).cache().len() <= i < final(self).cache().len() ==> final(self).cache()[i] is None,
    {
        proof {
            vstd::arithmetic::mul::lemma_mul_is_commutative(depth as int, output_leaves(self.output).len() as int);
        }
        let outputs = self.output.size();
        self.cache.change_size(depth * outputs);
    }

    /// Drop every cached frame.
    pub fn clear_cache(&mut self)
        requires
            old(self).wf(),
        ensures
            final(self).wf(),
            final(self).spec_id() == old(self).spec_id(),
            final(self).spec_name() == old(self).spec_name(),
            final(self).spec_memory() == old(self).spec_memory(),
            final(self).outputs() == old(self).outputs(),
            final(self).cache() == Seq::new(old(self).cache().len(), |i: int| None::<CacheData<V>>),
    {
        self.cache.clear();
    }

    /// The number of frames cached for each output socket.
    pub fn cache_depth(&self) -> (d: usize)
        requires
            self.wf(),
            self.outputs().len() > 0,
        ensures
            d == self.cache().len() / self.outputs().len(),
    {
        proof {
            vstd::arithmetic::div_mod::lemma_div_is_ordered_by_denominator(self.cache().len() as int, 1, self.outputs().len() as int);
        }
        self.cache.len() / self.output.size()
    }

    /// The number of cached frames the cache can hold.
    pub fn cache_size(&self) -> (n: usize)
        requires
            self.wf(),
        ensures
            n == self.cache().len(),
    {
        self.cache.len()
    }
}

impl<I, M, V, F: NodeFn<I, M, V>> Node<I, M, V, F> {
    /// Set a new default value of an input socket. When the inputs take it,
    /// every cached frame is dropped, since it may depend on the old value;
    /// when they refuse it, the cache stays and the value is handed back.
    pub fn update_input_default<D>(&mut self, socket_id: SocketId, value: D, value_type: u64) -> (r:
        Result<(), UpdateInputDefaultError<D>>) where I: InputGroup<D>
        requires
            old(self).wf(),
        ensures
            final(self).wf(),
            final(self).spec_id() == old(self).spec_id(),
            final(self).spec_name() == old(self).spec_name(),
            final(self).spec_memory() == old(self).spec_memory(),
            final(self).outputs() == old(self).outputs(),
            r is Ok ==> final(self).cache() == Seq::new(
                old(self).cache().len(),
                |i: int| None::<CacheData<V>>,
            ),
            r is Err ==> final(self).cache() == old(self).cache(),
            r is Ok <==> old(self).spec_input().accepts(socket_id, value_type),
            r is Ok ==> old(self).spec_input().took_value(socket_id, value, final(self).spec_input()),
            r is Err ==> r == Err::<(), UpdateInputDefaultError<D>>(
                old(self).spec_input().refusal(socket_id, value, value_type),
            ) && final(self).spec_input() == old(self).spec_input(),
            r matches Err(e) ==> refused_value(e) == value,
            final(self).spec_process() == old(self).spec_process(),
    {
        let r = self.input.set_default(socket_id, value, value_type);
        if r.is_ok() {
            self.cache.clear();
        }
        r
    }
}

/// A frame that a call has just answered is served from the cache by the
/// next call: it is the first entry, so that call changes no entry and runs
/// no main process.
pub proof fn law_call_again_is_served_from_cache<V>(s: Seq<Option<CacheData<V>>>, frame: FrameCount)
    requires
        s.len() > 0,
        s[0] matches Some(e) && e.frame == frame,
    ensures
        cached(s, frame),
        first_holder(s, frame, 0),
        forall|k: int| first_holder(s, frame, k) ==> k == 0,
        move_to_front(s, 0) == s,
{
    assert(holds_frame(s, 0, frame));
    assert(move_to_front(s, 0) =~= s);
}

} // verus!

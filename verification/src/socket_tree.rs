use vstd::prelude::*;

use crate::ids::SocketId;
use crate::node_controller::{InputSocket, OutputSocket};

verus! {

/// The output sockets of a node, grouped in nested lists.
pub enum OutputTree {
    Socket(OutputSocket),
    Vec(Vec<OutputTree>),
}

/// The sockets of a tree, left to right.
pub open spec fn output_leaves(t: OutputTree) -> Seq<OutputSocket>
    decreases t,
{
    match t {
        OutputTree::Socket(s) => seq![s],
        OutputTree::Vec(v) => output_leaves_of(v@),
    }
}

/// The sockets of a list of trees, left to right.
pub open spec fn output_leaves_of(ts: Seq<OutputTree>) -> Seq<OutputSocket>
    decreases ts,
{
    if ts.len() == 0 {
        Seq::empty()
    } else {
        output_leaves_of(ts.drop_last()) + output_leaves(ts.last())
    }
}

/// The first socket of `s` with id `id`, if any.
pub open spec fn first_with_output_id(s: Seq<OutputSocket>, id: SocketId) -> Option<OutputSocket>
    decreases s.len(),
{
    if s.len() == 0 {
        None
    } else if s[0].id == id {
        Some(s[0])
    } else {
        first_with_output_id(s.drop_first(), id)
    }
}

proof fn lemma_output_leaves_push(ts: Seq<OutputTree>, t: OutputTree)
    ensures
        output_leaves_of(ts.push(t)) == output_leaves_of(ts) + output_leaves(t),
{
    assert(ts.push(t).drop_last() =~= ts);
}

proof fn lemma_first_output_concat(a: Seq<OutputSocket>, b: Seq<OutputSocket>, id: SocketId)
    ensures
        first_with_output_id(a + b, id) == (match first_with_output_id(a, id) {
            Some(x) => Some(x),
            None => first_with_output_id(b, id),
        }),
    decreases a.len(),
{
    if a.len() > 0 {
        assert((a + b).drop_first() =~= a.drop_first() + b);
        lemma_first_output_concat(a.drop_first(), b, id);
    }
}

impl OutputTree {
    /// A tree of a single socket.
    pub fn new(socket: OutputSocket) -> (t: Self)
        ensures
            output_leaves(t) == seq![socket],
    {
        OutputTree::Socket(socket)
    }

    /// A tree made of the given trees.
    pub fn vec(v: Vec<OutputTree>) -> (t: Self)
        ensures
            output_leaves(t) == output_leaves_of(v@),
    {
        OutputTree::Vec(v)
    }

    /// A tree without sockets.
    pub fn empty() -> (t: Self)
        ensures
            output_leaves(t) == Seq::<OutputSocket>::empty(),
            t is Vec,
    {
        OutputTree::Vec(Vec::new())
    }

    /// Append a tree. A single socket first becomes a list holding it.
    pub fn push(&mut self, s: OutputTree)
        ensures
            *final(self) is Vec,
            output_leaves(*final(self)) == output_leaves(*old(self)) + output_leaves(s),
            *old(self) matches OutputTree::Vec(w) ==> (*final(self) matches OutputTree::Vec(v)
                && v@ == w@.push(s)),
            *old(self) is Socket ==> (*final(self) matches OutputTree::Vec(v) && v@ == seq![
                *old(self),
                s,
            ]),
    {
        match self {
            OutputTree::Vec(v) => {
                let ghost before = v@;
                v.push(s);
                proof {
                    lemma_output_leaves_push(before, s);
                }
            },
            OutputTree::Socket(_) => {
                let mut swap = OutputTree::empty();
                std::mem::swap(self, &mut swap);
                let ghost first = swap;
                let mut v: Vec<OutputTree> = Vec::new();
                v.push(swap);
                proof {
                    lemma_output_leaves_push(Seq::empty(), first);
                }
                let ghost mid = v@;
                v.push(s);
                proof {
                    lemma_output_leaves_push(mid, s);
                }
                *self = OutputTree::Vec(v);
            },
        }
    }

    /// Insert a tree at `index` of a list.
    pub fn insert(&mut self, index: usize, s: OutputTree)
        requires
            *old(self) matches OutputTree::Vec(v) && index <= v@.len(),
        ensures
            *final(self) matches OutputTree::Vec(v) && *old(self) matches OutputTree::Vec(w) && v@
                == w@.insert(index as int, s),
    {
        match self {
            OutputTree::Vec(v) => v.insert(index, s),
            OutputTree::Socket(_) => {},
        }
    }

    /// The tree at `index` of a list.
    pub fn index(&self, index: usize) -> (r: &OutputTree)
        requires
            *self matches OutputTree::Vec(v) && index < v@.len(),
        ensures
            *self matches OutputTree::Vec(v) && *r == v@[index as int],
    {
        match self {
            OutputTree::Vec(v) => &v[index],
            OutputTree::Socket(_) => vstd::pervasive::unreached(),
        }
    }

    /// The tree at `index` of a list, to change in place.
    pub fn index_mut(&mut self, index: usize) -> (r: &mut OutputTree)
        requires
            *old(self) matches OutputTree::Vec(v) && index < v@.len(),
        ensures
            *old(self) matches OutputTree::Vec(v) && *r == v@[index as int],
            *final(self) matches OutputTree::Vec(w) && *old(self) matches OutputTree::Vec(v) && w@
                == v@.update(index as int, *final(r)),
    {
        match self {
            OutputTree::Vec(v) => &mut v[index],
            OutputTree::Socket(_) => vstd::pervasive::unreached(),
        }
    }

    /// Take the tree at `index` out of a list.
    pub fn remove(&mut self, index: usize) -> (r: OutputTree)
        requires
            *old(self) matches OutputTree::Vec(v) && index < v@.len(),
        ensures
            *final(self) matches OutputTree::Vec(v) && *old(self) matches OutputTree::Vec(w) && v@
                == w@.remove(index as int) && r == w@[index as int],
    {
        match self {
            OutputTree::Vec(v) => v.remove(index),
            OutputTree::Socket(_) => {
                vstd::pervasive::unreached()
            },
        }
    }

    /// The number of sockets.
    pub fn size(&self) -> (n: usize)
        requires
            output_leaves(*self).len() <= usize::MAX,
        ensures
            n == output_leaves(*self).len(),
        decreases self,
    {
        match self {
            OutputTree::Socket(_) => 1,
            OutputTree::Vec(v) => {
                let mut total: usize = 0;
                let mut i: usize = 0;
                while i < v.len()
                    invariant
                        i <= v@.len(),
                        output_leaves(*self) == output_leaves_of(v@),
                        *self == OutputTree::Vec(*v),
                        output_leaves_of(v@).len() <= usize::MAX,
                        total == output_leaves_of(v@.take(i as int)).len(),
                    decreases v@.len() - i,
                {
                    proof {
                        assert(v@.take(i + 1) =~= v@.take(i as int).push(v@[i as int]));
                        lemma_output_leaves_push(v@.take(i as int), v@[i as int]);
                        lemma_output_leaves_prefix(v@, i + 1);
                    }
                    let n = v[i].size();
                    total = total + n;
                    i = i + 1;
                }
                proof {
                    assert(v@.take(v@.len() as int) =~= v@);
                }
                total
            },
        }
    }

    /// The first socket with id `id`, searching left to right.
    pub fn get_socket(&self, id: SocketId) -> (r: Option<&OutputSocket>)
        ensures
            r matches Some(s) ==> first_with_output_id(output_leaves(*self), id) == Some(*s),
            r is None ==> first_with_output_id(output_leaves(*self), id) is None,
        decreases self,
    {
        match self {
            OutputTree::Socket(s) => {
                proof {
                    assert(seq![*s].drop_first() =~= Seq::<OutputSocket>::empty());
                    assert(first_with_output_id(Seq::<OutputSocket>::empty(), id) is None);
                }
                if s.id == id {
                    Some(s)
                } else {
                    None
                }
            },
            OutputTree::Vec(v) => {
                let mut i: usize = 0;
                while i < v.len()
                    invariant
                        i <= v@.len(),
                        output_leaves(*self) == output_leaves_of(v@),
                        *self == OutputTree::Vec(*v),
                        first_with_output_id(output_leaves_of(v@.take(i as int)), id) is None,
                    decreases v@.len() - i,
                {
                    proof {
                        assert(v@.take(i + 1) =~= v@.take(i as int).push(v@[i as int]));
                        lemma_output_leaves_push(v@.take(i as int), v@[i as int]);
                        lemma_first_output_concat(
                            output_leaves_of(v@.take(i as int)),
                            output_leaves(v@[i as int]),
                            id,
                        );
                    }
                    match v[i].get_socket(id) {
                        Some(s) => {
                            proof {
                                lemma_output_leaves_split(v@, i + 1);
                                lemma_first_output_concat(
                                    output_leaves_of(v@.take(i + 1)),
                                    output_leaves_of(v@.skip(i + 1)),
                                    id,
                                );
                            }
                            return Some(s);
                        },
                        None => {},
                    }
                    i = i + 1;
                }
                proof {
                    assert(v@.take(v@.len() as int) =~= v@);
                }
                None
            },
        }
    }

    /// All sockets, left to right.
    pub fn get_all_socket(&self) -> (r: Vec<&OutputSocket>)
        ensures
            r@.len() == output_leaves(*self).len(),
            forall|i: int| 0 <= i < r@.len() ==> *r@[i] == output_leaves(*self)[i],
        decreases self,
    {
        match self {
            OutputTree::Socket(s) => {
                let mut r: Vec<&OutputSocket> = Vec::new();
                r.push(s);
                r
            },
            OutputTree::Vec(v) => {
                let mut r: Vec<&OutputSocket> = Vec::new();
                let mut i: usize = 0;
                while i < v.len()
                    invariant
                        i <= v@.len(),
                        output_leaves(*self) == output_leaves_of(v@),
                        *self == OutputTree::Vec(*v),
                        r@.len() == output_leaves_of(v@.take(i as int)).len(),
                        forall|j: int|
                            0 <= j < r@.len() ==> *r@[j] == output_leaves_of(v@.take(i as int))[j],
                    decreases v@.len() - i,
                {
                    proof {
                        assert(v@.take(i + 1) =~= v@.take(i as int).push(v@[i as int]));
                        lemma_output_leaves_push(v@.take(i as int), v@[i as int]);
                    }
                    let sub = v[i].get_all_socket();
                    let mut j: usize = 0;
                    let ghost base = r@.len();
                    while j < sub.len()
                        invariant
                            j <= sub@.len(),
                            i < v@.len(),
                            sub@.len() == output_leaves(v@[i as int]).len(),
                            forall|k: int| 0 <= k < sub@.len() ==> *sub@[k] == output_leaves(v@[i as int])[k],
                            base == output_leaves_of(v@.take(i as int)).len(),
                            r@.len() == base + j,
                            forall|k: int|
                                0 <= k < r@.len() ==> *r@[k] == (output_leaves_of(v@.take(i as int))
                                    + output_leaves(v@[i as int]))[k],
                        decreases sub@.len() - j,
                    {
                        r.push(sub[j]);
                        j = j + 1;
                    }
                    i = i + 1;
                }
                proof {
                    assert(v@.take(v@.len() as int) =~= v@);
                }
                r
            },
        }
    }
}

proof fn lemma_output_leaves_prefix(ts: Seq<OutputTree>, i: int)
    requires
        0 <= i <= ts.len(),
    ensures
        output_leaves_of(ts.take(i)).len() <= output_leaves_of(ts).len(),
    decreases ts.len() - i,
{
    lemma_output_leaves_split(ts, i);
}

proof fn lemma_output_leaves_split(ts: Seq<OutputTree>, i: int)
    requires
        0 <= i <= ts.len(),
    ensures
        output_leaves_of(ts) == output_leaves_of(ts.take(i)) + output_leaves_of(ts.skip(i)),
    decreases ts.len(),
{
    if i == ts.len() {
        assert(ts.take(i) =~= ts);
    } else {
        let d = ts.drop_last();
        lemma_output_leaves_split(d, i);
        assert(d.take(i) =~= ts.take(i));
        assert(ts.skip(i).drop_last() =~= d.skip(i));
        assert((output_leaves_of(ts.take(i)) + output_leaves_of(d.skip(i))) + output_leaves(ts.last())
            =~= output_leaves_of(ts.take(i)) + (output_leaves_of(d.skip(i)) + output_leaves(ts.last())));
    }
}



/// The input sockets of a node, grouped in nested lists.
pub enum InputTree<V> {
    Reef(InputSocket<V>),
    Vec(Vec<InputTree<V>>),
}

/// The sockets of a tree, left to right.
pub open spec fn input_leaves<V>(t: InputTree<V>) -> Seq<InputSocket<V>>
    decreases t,
{
    match t {
        InputTree::Reef(s) => seq![s],
        InputTree::Vec(v) => input_leaves_of(v@),
    }
}

/// The sockets of a list of trees, left to right.
pub open spec fn input_leaves_of<V>(ts: Seq<InputTree<V>>) -> Seq<InputSocket<V>>
    decreases ts,
{
    if ts.len() == 0 {
        Seq::empty()
    } else {
        input_leaves_of(ts.drop_last()) + input_leaves(ts.last())
    }
}

/// The first socket of `s` with id `id`, if any.
pub open spec fn first_with_input_id<V>(s: Seq<InputSocket<V>>, id: SocketId) -> Option<InputSocket<V>>
    decreases s.len(),
{
    if s.len() == 0 {
        None
    } else if s[0].id == id {
        Some(s[0])
    } else {
        first_with_input_id(s.drop_first(), id)
    }
}

proof fn lemma_input_leaves_push<V>(ts: Seq<InputTree<V>>, t: InputTree<V>)
    ensures
        input_leaves_of(ts.push(t)) == input_leaves_of(ts) + input_leaves(t),
{
    assert(ts.push(t).drop_last() =~= ts);
}

proof fn lemma_first_input_concat<V>(a: Seq<InputSocket<V>>, b: Seq<InputSocket<V>>, id: SocketId)
    ensures
        first_with_input_id(a + b, id) == (match first_with_input_id(a, id) {
            Some(x) => Some(x),
            None => first_with_input_id(b, id),
        }),
    decreases a.len(),
{
    if a.len() > 0 {
        assert((a + b).drop_first() =~= a.drop_first() + b);
        lemma_first_input_concat(a.drop_first(), b, id);
    }
}

impl<V> InputTree<V> {
    /// A tree of a single socket.
    pub fn new_reef(socket: InputSocket<V>) -> (t: Self)
        ensures
            input_leaves(t) == seq![socket],
    {
        InputTree::Reef(socket)
    }

    /// A tree made of the given trees.
    pub fn new_vec(v: Vec<InputTree<V>>) -> (t: Self)
        ensures
            input_leaves(t) == input_leaves_of(v@),
    {
        InputTree::Vec(v)
    }

    /// Append a tree to a list that holds at least one tree.
    pub fn push(&mut self, input: InputTree<V>)
        requires
            *old(self) matches InputTree::Vec(v) && v@.len() > 0,
        ensures
            *final(self) matches InputTree::Vec(v) && *old(self) matches InputTree::Vec(w) && v@
                == w@.push(input),
            input_leaves(*final(self)) == input_leaves(*old(self)) + input_leaves(input),
    {
        match self {
            InputTree::Vec(v) => {
                let ghost before = v@;
                v.push(input);
                proof {
                    lemma_input_leaves_push(before, input);
                }
            },
            InputTree::Reef(_) => {},
        }
    }

    /// Insert a tree at `index` of a list that holds at least one tree.
    pub fn insert(&mut self, index: usize, s: InputTree<V>)
        requires
            *old(self) matches InputTree::Vec(v) && 0 < v@.len() && index <= v@.len(),
        ensures
            *final(self) matches InputTree::Vec(v) && *old(self) matches InputTree::Vec(w) && v@
                == w@.insert(index as int, s),
    {
        match self {
            InputTree::Vec(v) => v.insert(index, s),
            InputTree::Reef(_) => {},
        }
    }

    /// Take the tree at `index` out of a list.
    pub fn remove(&mut self, index: usize) -> (r: InputTree<V>)
        requires
            *old(self) matches InputTree::Vec(v) && index < v@.len(),
        ensures
            *final(self) matches InputTree::Vec(v) && *old(self) matches InputTree::Vec(w) && v@
                == w@.remove(index as int) && r == w@[index as int],
    {
        match self {
            InputTree::Vec(v) => v.remove(index),
            InputTree::Reef(_) => {
                vstd::pervasive::unreached()
            },
        }
    }

    /// The number of sockets.
    pub fn size(&self) -> (n: usize)
        requires
            input_leaves(*self).len() <= usize::MAX,
        ensures
            n == input_leaves(*self).len(),
        decreases self,
    {
        match self {
            InputTree::Reef(_) => 1,
            InputTree::Vec(v) => {
                let mut total: usize = 0;
                let mut i: usize = 0;
                while i < v.len()
                    invariant
                        i <= v@.len(),
                        input_leaves(*self) == input_leaves_of(v@),
                        *self == InputTree::Vec(*v),
                        input_leaves_of(v@).len() <= usize::MAX,
                        total == input_leaves_of(v@.take(i as int)).len(),
                    decreases v@.len() - i,
                {
                    proof {
                        assert(v@.take(i + 1) =~= v@.take(i as int).push(v@[i as int]));
                        lemma_input_leaves_push(v@.take(i as int), v@[i as int]);
                        lemma_input_leaves_prefix(v@, i + 1);
                    }
                    let n = v[i].size();
                    total = total + n;
                    i = i + 1;
                }
                proof {
                    assert(v@.take(v@.len() as int) =~= v@);
                }
                total
            },
        }
    }

    /// The first socket with id `id`, searching left to right.
    pub fn get_from_id(&self, id: SocketId) -> (r: Result<&InputSocket<V>, ()>)
        ensures
            r matches Ok(s) ==> first_with_input_id(input_leaves(*self), id) == Some(*s),
            r is Err ==> first_with_input_id(input_leaves(*self), id) is None,
        decreases self,
    {
        match self {
            InputTree::Reef(s) => {
                proof {
                    assert(seq![*s].drop_first() =~= Seq::<InputSocket<V>>::empty());
                    assert(first_with_input_id(Seq::<InputSocket<V>>::empty(), id) is None);
                }
                if s.id == id {
                    Ok(s)
                } else {
                    Err(())
                }
            },
            InputTree::Vec(v) => {
                let mut i: usize = 0;
                while i < v.len()
                    invariant
                        i <= v@.len(),
                        input_leaves(*self) == input_leaves_of(v@),
                        *self == InputTree::Vec(*v),
                        first_with_input_id(input_leaves_of(v@.take(i as int)), id) is None,
                    decreases v@.len() - i,
                {
                    proof {
                        assert(v@.take(i + 1) =~= v@.take(i as int).push(v@[i as int]));
                        lemma_input_leaves_push(v@.take(i as int), v@[i as int]);
                        lemma_first_input_concat(
                            input_leaves_of(v@.take(i as int)),
                            input_leaves(v@[i as int]),
                            id,
                        );
                    }
                    match v[i].get_from_id(id) {
                        Ok(s) => {
                            proof {
                                lemma_input_leaves_split(v@, i + 1);
                                lemma_first_input_concat(
                                    input_leaves_of(v@.take(i + 1)),
                                    input_leaves_of(v@.skip(i + 1)),
                                    id,
                                );
                            }
                            return Ok(s);
                        },
                        Err(()) => {},
                    }
                    i = i + 1;
                }
                proof {
                    assert(v@.take(v@.len() as int) =~= v@);
                }
                Err(())
            },
        }
    }

    /// The socket of a tree that is a single socket.
    pub fn reef(&self) -> (r: &InputSocket<V>)
        requires
            *self is Reef,
        ensures
            *self == InputTree::Reef(*r),
    {
        match self {
            InputTree::Reef(socket) => socket,
            InputTree::Vec(_) => vstd::pervasive::unreached(),
        }
    }

    /// The tree at `index` of a list.
    pub fn index(&self, index: usize) -> (r: &InputTree<V>)
        requires
            *self matches InputTree::Vec(v) && index < v@.len(),
        ensures
            *self matches InputTree::Vec(v) && *r == v@[index as int],
    {
        match self {
            InputTree::Vec(v) => &v[index],
            InputTree::Reef(_) => vstd::pervasive::unreached(),
        }
    }

    /// The tree at `index` of a list, to change in place.
    pub fn index_mut(&mut self, index: usize) -> (r: &mut InputTree<V>)
        requires
            *old(self) matches InputTree::Vec(v) && index < v@.len(),
        ensures
            *old(self) matches InputTree::Vec(v) && *r == v@[index as int],
            *final(self) matches InputTree::Vec(w) && *old(self) matches InputTree::Vec(v) && w@
                == v@.update(index as int, *final(r)),
    {
        match self {
            InputTree::Vec(v) => &mut v[index],
            InputTree::Reef(_) => vstd::pervasive::unreached(),
        }
    }

    /// The number of trees in a list; a single socket counts 0.
    pub fn len(&self) -> (n: usize)
        ensures
            n == (match *self {
                InputTree::Vec(v) => v@.len(),
                InputTree::Reef(_) => 0,
            }),
    {
        match self {
            InputTree::Vec(v) => v.len(),
            InputTree::Reef(_) => 0,
        }
    }
}

proof fn lemma_input_leaves_prefix<V>(ts: Seq<InputTree<V>>, i: int)
    requires
        0 <= i <= ts.len(),
    ensures
        input_leaves_of(ts.take(i)).len() <= input_leaves_of(ts).len(),
    decreases ts.len() - i,
{
    lemma_input_leaves_split(ts, i);
}

proof fn lemma_input_leaves_split<V>(ts: Seq<InputTree<V>>, i: int)
    requires
        0 <= i <= ts.len(),
    ensures
        input_leaves_of(ts) == input_leaves_of(ts.take(i)) + input_leaves_of(ts.skip(i)),
    decreases ts.len(),
{
    if i == ts.len() {
        assert(ts.take(i) =~= ts);
    } else {
        let d = ts.drop_last();
        lemma_input_leaves_split(d, i);
        assert(d.take(i) =~= ts.take(i));
        assert(ts.skip(i).drop_last() =~= d.skip(i));
        assert((input_leaves_of(ts.take(i)) + input_leaves_of(d.skip(i))) + input_leaves(ts.last())
            =~= input_leaves_of(ts.take(i)) + (input_leaves_of(d.skip(i)) + input_leaves(ts.last())));
    }
}

} // verus!

use vstd::prelude::*;

verus! {

/// Sockets of a node as its own thread holds them, nested in groups: a
/// socket holds the memory it shares with the socket it is connected to, if
/// any, and a default value.
pub enum SharedTree<T> {
    Socket { shared: Option<T>, default: T },
    Group(Vec<SharedTree<T>>),
}

/// The memory a socket reads: what it shares, else its default.
pub open spec fn current<T>(shared: Option<T>, default: T) -> T {
    match shared {
        Some(x) => x,
        None => default,
    }
}

/// Every step of `index` that enters a group names one of its members, as
/// an index of the machine's word.
pub open spec fn path_in_range<T>(t: SharedTree<T>, index: Seq<i64>) -> bool
    decreases index.len(),
{
    if index.len() == 0 {
        true
    } else {
        match t {
            SharedTree::Socket { .. } => true,
            SharedTree::Group(v) => {
                &&& (index[0] as usize) < v.len()
                &&& path_in_range(v@[(index[0] as usize) as int], index.drop_first())
            },
        }
    }
}

/// What a walk from `t` along `index` finds. `Ok` with the memory of the
/// socket the walk ends on; `Err(Some(..))` with the memory of a socket
/// reached before the index ran out (too long an index); `Err(None)` when the
/// walk ends on a group (too short an index).
pub open spec fn walk<T>(t: SharedTree<T>, index: Seq<i64>) -> Result<T, Option<T>>
    decreases index.len(),
{
    match t {
        SharedTree::Socket { shared, default } => if index.len() == 0 {
            Ok(current(shared, default))
        } else {
            Err(Some(current(shared, default)))
        },
        SharedTree::Group(v) => if index.len() == 0 {
            Err(None)
        } else {
            walk(v@[(index[0] as usize) as int], index.drop_first())
        },
    }
}

/// The value behind an answer of an access.
pub open spec fn found<T>(r: Result<&T, Option<&T>>) -> Result<T, Option<T>> {
    match r {
        Ok(x) => Ok(*x),
        Err(Some(x)) => Err(Some(*x)),
        Err(None) => Err(None),
    }
}

/// `b` is `a` with the memory that a walk along `index` finds replaced by
/// the value in `v`; with `None`, or where the walk ends on a group, nothing
/// is replaced.
pub open spec fn replaced<T>(a: SharedTree<T>, b: SharedTree<T>, index: Seq<i64>, v: Option<T>) -> bool
    decreases index.len(),
{
    match a {
        SharedTree::Socket { shared, default } => match v {
            None => b == a,
            Some(w) => match shared {
                Some(_) => b == SharedTree::Socket { shared: Some(w), default },
                None => b == SharedTree::Socket::<T> { shared: None, default: w },
            },
        },
        SharedTree::Group(va) => if index.len() == 0 {
            b == a
        } else {
            match b {
                SharedTree::Group(vb) => {
                    let i = (index[0] as usize) as int;
                    &&& vb@.len() == va@.len()
                    &&& forall|j: int| 0 <= j < va@.len() && j != i ==> vb@[j] == va@[j]
                    &&& replaced(va@[i], vb@[i], index.drop_first(), v)
                },
                SharedTree::Socket { .. } => false,
            }
        },
    }
}

/// Walk from `t` along the entries of `index` from the `k`-th on, lending
/// out the memory that the walk finds.
fn access_mut<'a, T>(t: &'a mut SharedTree<T>, index: &Vec<i64>, k: usize) -> (r: Result<&'a mut T, Option<&'a mut T>>)
    requires
        k <= index.len(),
        path_in_range(*old(t), index@.skip(k as int)),
    ensures
        match r {
            Ok(x) => walk(*old(t), index@.skip(k as int)) == Ok::<T, Option<T>>(*x)
                && replaced(*old(t), *final(t), index@.skip(k as int), Some(*final(x))),
            Err(Some(x)) => walk(*old(t), index@.skip(k as int)) == Err::<T, Option<T>>(Some(*x))
                && replaced(*old(t), *final(t), index@.skip(k as int), Some(*final(x))),
            Err(None) => walk(*old(t), index@.skip(k as int)) == Err::<T, Option<T>>(None)
                && replaced(*old(t), *final(t), index@.skip(k as int), None),
        },
    decreases index.len() - k,
{
    if k == index.len() && matches!(t, SharedTree::Group(_)) {
        return Err(None);
    }
    match t {
        SharedTree::Socket { shared, default } => match shared {
            Some(x) => if k == index.len() { Ok(x) } else { Err(Some(x)) },
            None => if k == index.len() { Ok(default) } else { Err(Some(default)) },
        },
        SharedTree::Group(sockets) => {
            let ghost rest = index@.skip(k as int);
            assert(rest.drop_first() =~= index@.skip(k + 1));
            let i = index[k];
            let child = &mut sockets[i as usize];
            access_mut(child, index, k + 1)
        },
    }
}

/// The memory of a node's input sockets.
pub struct SharedSockets<T> {
    pub input_sockets: SharedTree<T>,
}

impl<T> SharedSockets<T> {
    /// Access the memory of the input socket at `index`, one step into a
    /// group for each entry. Where the index is wrong, the answer is
    /// `Err(None)` (too few entries) or `Err(Some(..))` with the memory of
    /// the socket reached first (too many).
    pub fn access_input_shared_memory(&self, index: &Vec<i64>) -> (r: Result<&T, Option<&T>>)
        requires
            path_in_range(self.input_sockets, index@),
        ensures
            found(r) == walk(self.input_sockets, index@),
    {
        let mut seek = &self.input_sockets;
        let mut k: usize = 0;
        assert(index@.skip(0) =~= index@);
        while k < index.len()
            invariant
                k <= index.len(),
                path_in_range(*seek, index@.skip(k as int)),
                walk(*seek, index@.skip(k as int)) == walk(self.input_sockets, index@),
            decreases index.len() - k,
        {
            let ghost rest = index@.skip(k as int);
            assert(rest.drop_first() =~= index@.skip(k + 1));
            match seek {
                SharedTree::Socket { shared, default } => {
                    return match shared {
                        Some(x) => Err(Some(x)),
                        None => Err(Some(default)),
                    };
                },
                SharedTree::Group(sockets) => {
                    let i = index[k];
                    seek = &sockets[i as usize];
                },
            }
            k = k + 1;
        }
        assert(index@.skip(k as int) =~= Seq::<i64>::empty());
        match seek {
            SharedTree::Socket { shared, default } => match shared {
                Some(x) => Ok(x),
                None => Ok(default),
            },
            SharedTree::Group(_) => Err(None),
        }
    }

    /// Access, for writing, the memory found as `access_input_shared_memory`
    /// finds it: the walk goes through the input sockets too. What is written
    /// through the answer replaces that memory and nothing else.
    pub fn access_output_shared_memory(&mut self, index: &Vec<i64>) -> (r: Result<&mut T, Option<&mut T>>)
        requires
            path_in_range(old(self).input_sockets, index@),
        ensures
            match r {
                Ok(x) => walk(old(self).input_sockets, index@) == Ok::<T, Option<T>>(*x)
                    && replaced(old(self).input_sockets, final(self).input_sockets, index@, Some(*final(x))),
                Err(Some(x)) => walk(old(self).input_sockets, index@) == Err::<T, Option<T>>(Some(*x))
                    && replaced(old(self).input_sockets, final(self).input_sockets, index@, Some(*final(x))),
                Err(None) => walk(old(self).input_sockets, index@) == Err::<T, Option<T>>(None)
                    && replaced(old(self).input_sockets, final(self).input_sockets, index@, None),
            },
    {
        assert(index@.skip(0) =~= index@);
        access_mut(&mut self.input_sockets, index, 0)
    }
}

} // verus!

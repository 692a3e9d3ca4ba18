use vstd::prelude::*;

use crate::binary::{from_le, le_bytes, push_le, read_le};
use crate::ids::{id_text_bytes, id_text_vec, uuid_text, SocketId};

verus! {

/// The layout of a node's sockets: nested lists of socket ids, with empty
/// places.
pub enum SocketLayer {
    Vec(Vec<SocketLayer>),
    Socket(SocketId),
    Empty,
}

/// The layout as a mathematical value.
pub enum LayerView {
    Vec(Seq<LayerView>),
    Socket(u128),
    Empty,
}

pub open spec fn layer_view(l: SocketLayer) -> LayerView
    decreases l,
{
    match l {
        SocketLayer::Vec(v) => LayerView::Vec(layers_view(v@)),
        SocketLayer::Socket(id) => LayerView::Socket(id.0),
        SocketLayer::Empty => LayerView::Empty,
    }
}

pub open spec fn layers_view(ls: Seq<SocketLayer>) -> Seq<LayerView>
    decreases ls,
{
    if ls.len() == 0 {
        Seq::empty()
    } else {
        layers_view(ls.drop_last()).push(layer_view(ls.last()))
    }
}

proof fn lemma_layers_view(ls: Seq<SocketLayer>)
    ensures
        layers_view(ls).len() == ls.len(),
        forall|i: int| 0 <= i < ls.len() ==> #[trigger] layers_view(ls)[i] == layer_view(ls[i]),
    decreases ls.len(),
{
    if ls.len() > 0 {
        lemma_layers_view(ls.drop_last());
    }
}

// --- the binary format ---
//
// A list:          byte 0, its length (eight bytes, least significant
//                  first), then each element.
// A socket:        byte 1, the length of its id's text (eight bytes, least
//                  significant first), then the text.
// An empty place:  byte 2.

pub open spec fn encode(l: LayerView) -> Seq<u8>
    decreases l,
{
    match l {
        LayerView::Vec(v) => seq![0u8] + le_bytes(v.len() as u64) + encode_all(v),
        LayerView::Socket(x) => seq![1u8] + le_bytes(uuid_text(x).len() as u64) + id_text_bytes(x),
        LayerView::Empty => seq![2u8],
    }
}

pub open spec fn encode_all(ls: Seq<LayerView>) -> Seq<u8>
    decreases ls,
{
    if ls.len() == 0 {
        Seq::empty()
    } else {
        encode(ls[0]) + encode_all(ls.drop_first())
    }
}

proof fn lemma_encode_all_push(ls: Seq<LayerView>, l: LayerView)
    ensures
        encode_all(ls.push(l)) == encode_all(ls) + encode(l),
    decreases ls.len(),
{
    if ls.len() == 0 {
        assert(ls.push(l).drop_first() =~= Seq::<LayerView>::empty());
        assert(encode_all(Seq::<LayerView>::empty()) == Seq::<u8>::empty());
    } else {
        assert(ls.push(l).drop_first() =~= ls.drop_first().push(l));
        lemma_encode_all_push(ls.drop_first(), l);
    }
}

/// What reading one layout from the front of `b` gives: the layout and the
/// number of bytes it took. A list must take every byte that follows its
/// length field; a socket entry of nine bytes or more is never read (the
/// reading stops there, see `decode_panics`).
pub open spec fn decode(b: Seq<u8>) -> Option<(LayerView, int)>
    decreases b.len(), 0int, 0nat,
{
    if b.len() == 0 {
        None
    } else if b[0] == 0 {
        if b.len() < 9 {
            None
        } else {
            match decode_all(b.skip(9), from_le(b.subrange(1, 9)) as nat) {
                Some((items, used)) => if 9 + used == b.len() {
                    Some((LayerView::Vec(items), 9 + used))
                } else {
                    None
                },
                None => None,
            }
        }
    } else if b[0] == 2 {
        Some((LayerView::Empty, 1))
    } else {
        None
    }
}

/// What reading `count` layouts one after the other from the front of `b`
/// gives.
pub open spec fn decode_all(b: Seq<u8>, count: nat) -> Option<(Seq<LayerView>, int)>
    decreases b.len(), 1int, count,
{
    if count == 0 {
        Some((Seq::empty(), 0))
    } else {
        match decode(b) {
            Some((first, used)) => if 1 <= used <= b.len() {
                match decode_all(b.skip(used), (count - 1) as nat) {
                    Some((rest, more)) => Some((seq![first] + rest, used + more)),
                    None => None,
                }
            } else {
                None
            },
            None => None,
        }
    }
}

/// Reading one layout from the front of `b` comes, before any refusal, to a
/// socket entry of nine bytes or more, whose length field the reading cannot
/// take.
pub open spec fn decode_panics(b: Seq<u8>) -> bool
    decreases b.len(), 0int, 0nat,
{
    if b.len() < 9 {
        false
    } else if b[0] == 0 {
        decode_all_panics(b.skip(9), from_le(b.subrange(1, 9)) as nat)
    } else {
        b[0] == 1
    }
}

/// Reading `count` layouts from the front of `b` comes to such a socket
/// entry.
pub open spec fn decode_all_panics(b: Seq<u8>, count: nat) -> bool
    decreases b.len(), 1int, count,
{
    if count == 0 {
        false
    } else if decode_panics(b) {
        true
    } else {
        match decode(b) {
            Some((first, used)) => 1 <= used <= b.len() && decode_all_panics(
                b.skip(used),
                (count - 1) as nat,
            ),
            None => false,
        }
    }
}

/// What reading a whole buffer as one layout gives.
pub open spec fn decode_exact(b: Seq<u8>) -> Option<LayerView> {
    match decode(b) {
        Some((l, used)) => if used == b.len() {
            Some(l)
        } else {
            None
        },
        None => None,
    }
}

impl SocketLayer {
    /// The binary form of the layout.
    pub fn to_binary(&self) -> (r: Vec<u8>)
        ensures
            r@ == encode(layer_view(*self)),
            tail_form(layer_view(*self)) ==> decode_exact(r@) == Some(layer_view(*self)) && !decode_panics(r@),
    {
        let mut out: Vec<u8> = Vec::new();
        self.write_binary(&mut out);
        proof {
            if tail_form(layer_view(*self)) {
                law_layer_roundtrip(layer_view(*self));
            }
        }
        out
    }

    fn write_binary(&self, out: &mut Vec<u8>)
        ensures
            final(out)@ == old(out)@ + encode(layer_view(*self)),
        decreases self,
    {
        match self {
            SocketLayer::Vec(v) => {
                out.push(0u8);
                push_le(out, v.len() as u64);
                let ghost head = out@;
                let mut i: usize = 0;
                while i < v.len()
                    invariant
                        i <= v@.len(),
                        *self == SocketLayer::Vec(*v),
                        decreases_to!(*self => *v),
                        out@ == head + encode_all(layers_view(v@.take(i as int))),
                    decreases v@.len() - i,
                {
                    v[i].write_binary(out);
                    proof {
                        assert(v@.take(i + 1).drop_last() =~= v@.take(i as int));
                        assert(layers_view(v@.take(i + 1)) == layers_view(v@.take(i as int)).push(
                            layer_view(v@[i as int]),
                        ));
                        lemma_encode_all_push(layers_view(v@.take(i as int)), layer_view(v@[i as int]));
                    }
                    i = i + 1;
                }
                proof {
                    assert(v@.take(v@.len() as int) =~= v@);
                    lemma_layers_view(v@);
                }
            },
            SocketLayer::Socket(id) => {
                out.push(1u8);
                let text = id_text_vec(id.0);
                push_le(out, text.len() as u64);
                let ghost mid = out@;
                let mut i: usize = 0;
                while i < text.len()
                    invariant
                        i <= text@.len(),
                        out@ == mid + text@.take(i as int),
                    decreases text@.len() - i,
                {
                    out.push(text[i]);
                    i = i + 1;
                }
            },
            SocketLayer::Empty => {
                out.push(2u8);
            },
        }
    }

    /// Read a whole buffer as one layout.
    pub fn from_binary(binary: &[u8]) -> (r: Result<SocketLayer, ()>)
        requires
            !decode_panics(binary@),
        ensures
            match decode_exact(binary@) {
                Some(l) => r matches Ok(layer) && layer_view(layer) == l,
                None => r is Err,
            },
    {
        match Self::from_binary_recursive(binary) {
            Some((layer, used)) => {
                if used == binary.len() {
                    Ok(layer)
                } else {
                    Err(())
                }
            },
            None => Err(()),
        }
    }

    /// Read one layout from the front of `binary`; answers it with the number
    /// of bytes it took.
    fn from_binary_recursive(binary: &[u8]) -> (r: Option<(SocketLayer, usize)>)
        requires
            !decode_panics(binary@),
        ensures
            match decode(binary@) {
                Some((l, used)) => r matches Some((layer, u)) && layer_view(layer) == l && u
                    == used,
                None => r is None,
            },
        decreases binary@.len(), 0int, 0nat,
    {
        let len = binary.len();
        if len == 0 {
            return None;
        }
        if binary[0] == 0u8 {
            if len < 9 {
                return None;
            }
            let count = read_le(binary, 1);
            let rest = vstd::slice::slice_subrange(binary, 9, len);
            proof {
                lemma_decode_all_bounds(rest@, count as nat);
            }
            match Self::layers_from_binary(rest, count) {
                Some((items, used)) => {
                    if used == len - 9 {
                        Some((SocketLayer::Vec(items), len))
                    } else {
                        None
                    }
                },
                None => None,
            }
        } else if binary[0] == 1u8 {
            if len < 9 {
                return None;
            }
            vstd::pervasive::unreached()
        } else if binary[0] == 2u8 {
            Some((SocketLayer::Empty, 1))
        } else {
            None
        }
    }

    /// Read `count` layouts one after the other from the front of `binary`.
    fn layers_from_binary(binary: &[u8], count: u64) -> (r: Option<(Vec<SocketLayer>, usize)>)
        requires
            !decode_all_panics(binary@, count as nat),
        ensures
            match decode_all(binary@, count as nat) {
                Some((ls, used)) => r matches Some((layers, u)) && layers_view(layers@) == ls && u
                    == used,
                None => r is None,
            },
        decreases binary@.len(), 1int, count,
    {
        if count == 0 {
            let v: Vec<SocketLayer> = Vec::new();
            proof {
                lemma_layers_view(v@);
            }
            return Some((v, 0));
        }
        let len = binary.len();
        match Self::from_binary_recursive(binary) {
            Some((first, used)) => {
                if used < 1 || used > len {
                    return None;
                }
                let rest = vstd::slice::slice_subrange(binary, used, len);
                proof {
                    lemma_decode_all_bounds(rest@, (count - 1) as nat);
                }
                match Self::layers_from_binary(rest, count - 1) {
                    Some((mut others, more)) => {
                        let ghost others_view = others@;
                        others.insert(0, first);
                        proof {
                            lemma_layers_view(others_view);
                            lemma_layers_view(others@);
                            assert(layers_view(others@) =~= seq![layer_view(first)] + layers_view(
                                others_view,
                            ));
                        }
                        Some((others, used + more))
                    },
                    None => None,
                }
            },
            None => None,
        }
    }
}

/// Every layout read from bytes took no more bytes than there were.
proof fn lemma_decode_bounds(b: Seq<u8>)
    ensures
        decode(b) matches Some((l, used)) ==> 1 <= used <= b.len(),
    decreases b.len(), 0int, 0nat,
{
    if b.len() >= 9 && b[0] == 0 {
        lemma_decode_all_bounds(b.skip(9), from_le(b.subrange(1, 9)) as nat);
    }
}

proof fn lemma_decode_all_bounds(b: Seq<u8>, count: nat)
    ensures
        decode_all(b, count) matches Some((ls, used)) ==> 0 <= used <= b.len(),
    decreases b.len(), 1int, count,
{
    if count > 0 {
        lemma_decode_bounds(b);
        if let Some((first, used)) = decode(b) {
            if 1 <= used <= b.len() {
                lemma_decode_all_bounds(b.skip(used), (count - 1) as nat);
            }
        }
    }
}

/// A layout that reading its binary form gives back: it names no socket,
/// and every list in it holds empty places only, but for a last element
/// that may be such a list (a list takes every byte after its length field,
/// so nothing may follow it).
pub open spec fn tail_form(l: LayerView) -> bool
    decreases l,
{
    match l {
        LayerView::Vec(v) => v.len() <= u64::MAX && all_tail_form(v),
        LayerView::Socket(_) => false,
        LayerView::Empty => true,
    }
}

pub open spec fn all_tail_form(v: Seq<LayerView>) -> bool
    decreases v,
{
    if v.len() == 0 {
        true
    } else if v.len() == 1 {
        v[0] is Empty || (v[0] is Vec && tail_form(v[0]))
    } else {
        v[0] is Empty && all_tail_form(v.drop_first())
    }
}

/// Reading back the binary form of such a layout gives the layout.
pub proof fn lemma_decode_encode(l: LayerView)
    requires
        tail_form(l),
    ensures
        decode(encode(l)) == Some((l, encode(l).len() as int)),
        !decode_panics(encode(l)),
    decreases l,
{
    let b = encode(l);
    match l {
        LayerView::Vec(v) => {
            crate::binary::lemma_le_roundtrip(v.len() as u64);
            assert(b.skip(9) =~= encode_all(v));
            assert(b.subrange(1, 9) =~= le_bytes(v.len() as u64));
            lemma_decode_encode_all(v);
        },
        LayerView::Socket(_) => {},
        LayerView::Empty => {},
    }
}

/// Reading back the binary forms of the elements of such a list gives them
/// back.
pub proof fn lemma_decode_encode_all(v: Seq<LayerView>)
    requires
        all_tail_form(v),
    ensures
        decode_all(encode_all(v), v.len()) == Some((v, encode_all(v).len() as int)),
        !decode_all_panics(encode_all(v), v.len()),
    decreases v,
{
    if v.len() > 0 {
        let b = encode_all(v);
        let tail = encode_all(v.drop_first());
        assert(b =~= encode(v[0]) + tail);
        if v[0] is Empty {
            assert(b[0] == 2);
            assert(!decode_panics(b));
            assert(b.skip(1) =~= tail);
            lemma_decode_encode_all(v.drop_first());
            assert(decode(b) == Some((LayerView::Empty, 1int)));
            assert(seq![v[0]] + v.drop_first() =~= v);
            assert(decode_all(b, v.len()) == Some((v, b.len() as int)));
        } else {
            lemma_decode_encode(v[0]);
            assert(v.drop_first() =~= Seq::<LayerView>::empty());
            assert(tail =~= Seq::<u8>::empty());
            assert(b.skip(b.len() as int) =~= Seq::<u8>::empty());
            assert(!decode_all_panics(b.skip(b.len() as int), 0));
            assert(seq![v[0]] + Seq::<LayerView>::empty() =~= v);
            assert(decode_all(b.skip(b.len() as int), 0) == Some((Seq::<LayerView>::empty(), 0int)));
            assert(decode_all(b, v.len()) == Some((v, b.len() as int)));
        }
    }
}

/// Reading back the binary form of a layout that names no socket, and whose
/// lists hold a list only as their last element, gives the layout.
pub proof fn law_layer_roundtrip(l: LayerView)
    requires
        tail_form(l),
    ensures
        decode_exact(encode(l)) == Some(l),
        !decode_panics(encode(l)),
{
    lemma_decode_encode(l);
}
} // verus!

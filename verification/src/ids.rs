use vstd::prelude::*;

use crate::binary::{all_ascii, ascii_chars, be_bytes, from_be, push_be, read_be, check_ascii};

verus! {

/// Identifier of a node in a node field.
#[derive(Clone, Copy, PartialEq, Eq, Structural, Hash, Debug)]
pub struct NodeId(pub u128);

/// Identifier of an input or output socket.
#[derive(Clone, Copy, PartialEq, Eq, Structural, Hash, Debug)]
pub struct SocketId(pub u128);

/// Identifier of a plugin.
#[derive(Clone, Copy, PartialEq, Eq, Structural, Hash, Debug)]
pub struct PluginId(pub u128);

/// A fresh random (version 4) UUID, as a number.
///
/// Calls `uuid::Uuid::new_v4`. The value is random: all that is claimed is
/// that its version nibble reads 4 and its variant bits read `10`, which the
/// crate's source sets on every value.
#[verifier::external_body]
fn random_uuid() -> (r: u128)
    ensures
        (r >> 76u128) & 0xfu128 == 4,
        (r >> 62u128) & 0x3u128 == 2,
{
    uuid::Uuid::new_v4().as_u128()
}

impl NodeId {
    /// A new random id.
    pub fn new() -> (id: NodeId)
        ensures
            (id.0 >> 76u128) & 0xfu128 == 4,
            (id.0 >> 62u128) & 0x3u128 == 2,
    {
        NodeId(random_uuid())
    }
}

impl SocketId {
    /// A new random id.
    pub fn new() -> (id: SocketId)
        ensures
            (id.0 >> 76u128) & 0xfu128 == 4,
            (id.0 >> 62u128) & 0x3u128 == 2,
    {
        SocketId(random_uuid())
    }

    pub fn same(&self, other: &SocketId) -> (r: bool)
        ensures r == (*self == *other),
    {
        self.0 == other.0
    }
}


/// The lowercase hexadecimal digit of `n` (below 16).
pub open spec fn hex_digit(n: int) -> char {
    if n < 10 {
        (48 + n) as char
    } else {
        (87 + n) as char
    }
}

/// The `j`-th hexadecimal digit of `x`, counted from the most significant.
pub open spec fn nibble(x: u128, j: int) -> int {
    ((x >> ((124 - 4 * j) as u128)) & 15u128) as int
}

/// The number of hyphens before position `i` of the text of a UUID.
pub open spec fn hyphens_before(i: int) -> int {
    if i <= 8 {
        0
    } else if i <= 13 {
        1
    } else if i <= 18 {
        2
    } else if i <= 23 {
        3
    } else {
        4
    }
}

/// The text of a UUID: its 32 hexadecimal digits, most significant first,
/// in lowercase, with hyphens after the 8th, 12th, 16th and 20th digit.
pub open spec fn uuid_text(x: u128) -> Seq<char> {
    Seq::new(
        36,
        |i: int|
            if i == 8 || i == 13 || i == 18 || i == 23 {
                '-'
            } else {
                hex_digit(nibble(x, i - hyphens_before(i)))
            },
    )
}

/// What the `uuid` crate makes of a text when asked to parse it as a UUID.
pub uninterp spec fn uuid_parse(text: Seq<char>) -> Option<u128>;

/// The text of the id `x` is 36 characters of the UUID alphabet, and reads
/// back as `x`.
pub open spec fn id_reads_back(x: u128) -> bool {
    &&& uuid_text(x).len() == 36
    &&& forall|i: int| 0 <= i < 36 ==> is_uuid_char(#[trigger] uuid_text(x)[i])
    &&& uuid_parse(uuid_text(x)) == Some(x)
}

pub open spec fn is_uuid_char(c: char) -> bool {
    ('0' <= c && c <= '9') || ('a' <= c && c <= 'f') || c == '-'
}

/// The text of a UUID.
///
/// Calls `uuid::Uuid::to_string` (its `Display`, the hyphenated lowercase
/// form). Claimed, as the crate's formatting code writes it: the text is
/// `uuid_text(x)`, 36 characters, each a lowercase hexadecimal digit or a
/// hyphen; and, as its parser reads that form, parsing the text gives the
/// number back.
#[verifier::external_body]
fn uuid_to_text(x: u128) -> (r: String)
    ensures
        r@ == uuid_text(x),
        r@.len() == 36,
        forall|i: int| 0 <= i < r@.len() ==> is_uuid_char(#[trigger] r@[i]),
        uuid_parse(r@) == Some(x),
{
    uuid::Uuid::from_u128(x).to_string()
}

/// Parse a text as a UUID.
///
/// Calls `uuid::Uuid::parse_str`; the result is only named.
#[verifier::external_body]
fn uuid_from_text(text: &str) -> (r: Option<u128>)
    ensures
        r == uuid_parse(text@),
{
    match uuid::Uuid::parse_str(text) {
        Ok(u) => Some(u.as_u128()),
        Err(_) => None,
    }
}

/// Parse ASCII bytes as a UUID.
///
/// Calls `uuid::Uuid::try_parse_ascii`, which runs the parser that
/// `parse_str` runs on the bytes of its text; so on ASCII bytes it answers
/// what `parse_str` answers on the characters they stand for. Nothing is
/// claimed of other bytes.
#[verifier::external_body]
fn uuid_from_ascii(bytes: &[u8]) -> (r: Option<u128>)
    ensures
        all_ascii(bytes@) ==> r == uuid_parse(ascii_chars(bytes@)),
{
    match uuid::Uuid::try_parse_ascii(bytes) {
        Ok(u) => Some(u.as_u128()),
        Err(_) => None,
    }
}

/// The binary form of an id: the length of its text (eight bytes, most
/// significant first), then the text.
pub open spec fn id_binary(x: u128) -> Seq<u8> {
    be_bytes(uuid_text(x).len() as u64) + id_text_bytes(x)
}

/// The bytes of the text of an id.
pub open spec fn id_text_bytes(x: u128) -> Seq<u8> {
    uuid_text(x).map_values(|c: char| c as u8)
}

/// What reading an id whose text is `n` bytes long, stored from position 8
/// of `b` on, gives: the id and the position after the text.
pub open spec fn text_id_at(b: Seq<u8>, n: int) -> Option<(u128, int)> {
    if n < 0 || b.len() < 8 || b.len() - 8 < n {
        None
    } else if !all_ascii(b.subrange(8, 8 + n)) {
        None
    } else {
        match uuid_parse(ascii_chars(b.subrange(8, 8 + n))) {
            Some(x) => Some((x, 8 + n)),
            None => None,
        }
    }
}

/// What reading an id from the front of `b` gives: the id and the number of
/// bytes it took.
pub open spec fn id_from_binary(b: Seq<u8>) -> Option<(u128, int)> {
    if b.len() < 8 {
        None
    } else {
        text_id_at(b, from_be(b.take(8)) as int)
    }
}

/// Read an id whose text is `n` bytes long, stored from position 8 of `b` on.
pub(crate) fn read_text_id(b: &[u8], n: u64) -> (r: Option<(u128, usize)>)
    requires
        b@.len() >= 8,
    ensures
        match text_id_at(b@, n as int) {
            Some((x, end)) => r == Some((x, end as usize)),
            None => r is None,
        },
{
    let len = b.len();
    if ((len - 8) as u64) < n {
        return None;
    }
    let end = 8 + n as usize;
    if !check_ascii(b, 8, end) {
        return None;
    }
    let text = vstd::slice::slice_subrange(b, 8, end);
    match uuid_from_ascii(text) {
        Some(x) => Some((x, end)),
        None => None,
    }
}

/// The text of an id as bytes.
pub(crate) fn id_text_vec(x: u128) -> (r: Vec<u8>)
    ensures
        r@ == id_text_bytes(x),
        r@.len() == 36,
        all_ascii(r@),
        ascii_chars(r@) == uuid_text(x),
        id_reads_back(x),
{
    let text = uuid_to_text(x);
    let text_str = text.as_str();
    let bytes = text_str.as_bytes();
    proof {
        vstd::string::is_ascii_spec_bytes(text_str);
    }
    let mut r: Vec<u8> = Vec::new();
    let mut i: usize = 0;
    while i < bytes.len()
        invariant
            i <= bytes@.len(),
            bytes@.len() == 36,
            bytes@ == Seq::new(text@.len(), |j: int| text@[j] as u8),
            text@ == uuid_text(x),
            text@.len() == 36,
            forall|j: int| 0 <= j < text@.len() ==> is_uuid_char(#[trigger] text@[j]),
            r@ == bytes@.take(i as int),
        decreases bytes@.len() - i,
    {
        r.push(bytes[i]);
        i = i + 1;
    }
    assert forall|j: int| 0 <= j < r@.len() implies #[trigger] ascii_chars(r@)[j] == uuid_text(x)[j] by {
        assert(is_uuid_char(text@[j]));
    }
    r
}

/// Append the binary form of the id `x`.
fn push_id_binary(out: &mut Vec<u8>, x: u128)
    ensures
        final(out)@ == old(out)@ + id_binary(x),
        id_reads_back(x),
{
    let text = id_text_vec(x);
    let n = text.len() as u64;
    push_be(out, n);
    let ghost mid = out@;
    let mut i: usize = 0;
    while i < text.len()
        invariant
            i <= text@.len(),
            out@ == mid + text@.take(i as int),
        decreases text@.len() - i,
    {
        out.push(text[i]);
        i = i + 1;
    }
}

/// Read an id from the front of `b`, with the bytes that follow it.
fn read_id_binary(b: &[u8]) -> (r: Option<(u128, &[u8])>)
    ensures
        match id_from_binary(b@) {
            Some((x, used)) => r matches Some((y, rest)) && y == x && rest@ == b@.skip(used),
            None => r is None,
        },
{
    let len = b.len();
    if len < 8 {
        return None;
    }
    let n = read_be(b, 0);
    match read_text_id(b, n) {
        Some((x, end)) => {
            let rest = vstd::slice::slice_subrange(b, end, len);
            Some((x, rest))
        },
        None => None,
    }
}

/// The binary form of an id is read back as the same id, whatever follows.
pub proof fn law_id_binary_roundtrip(x: u128, rest: Seq<u8>)
    requires
        id_reads_back(x),
    ensures
        id_from_binary(id_binary(x) + rest) == Some((x, id_binary(x).len() as int)),
{
    let b = id_binary(x) + rest;
    crate::binary::lemma_be_roundtrip(36);
    let t = uuid_text(x).map_values(|c: char| c as u8);
    assert(b.subrange(8, 44) =~= t);
    assert forall|j: int| 0 <= j < t.len() implies #[trigger] ascii_chars(t)[j] == uuid_text(x)[j] by {
        assert(is_uuid_char(uuid_text(x)[j]));
    }
    assert(ascii_chars(t) =~= uuid_text(x));
}

impl NodeId {
    /// The text of the id.
    pub fn to_string(&self) -> (r: String)
        ensures
            r@ == uuid_text(self.0),
            uuid_parse(r@) == Some(self.0),
    {
        uuid_to_text(self.0)
    }

    /// The id that a text stands for; the text must be one.
    pub fn from_string(id: &str) -> (r: NodeId)
        requires
            uuid_parse(id@) is Some,
        ensures
            uuid_parse(id@) == Some(r.0),
    {
        match uuid_from_text(id) {
            Some(x) => NodeId(x),
            None => vstd::pervasive::unreached(),
        }
    }

    /// The id that a text stands for, if it stands for one.
    pub fn try_from_string(id: &str) -> (r: Option<NodeId>)
        ensures
            match uuid_parse(id@) {
                Some(x) => r == Some(NodeId(x)),
                None => r is None,
            },
    {
        match uuid_from_text(id) {
            Some(_) => Some(NodeId::from_string(id)),
            None => None,
        }
    }

    /// The binary form of the id.
    pub fn to_binary(&self) -> (r: Vec<u8>)
        ensures
            r@ == id_binary(self.0),
            id_from_binary(r@) == Some((self.0, r@.len() as int)),
    {
        let mut r: Vec<u8> = Vec::new();
        push_id_binary(&mut r, self.0);
        proof {
            assert(r@ + Seq::<u8>::empty() =~= r@);
            law_id_binary_roundtrip(self.0, Seq::empty());
        }
        r
    }

    /// Read an id from the front of `binary`, which must begin with one;
    /// answers it with the bytes that follow.
    pub fn from_binary(binary: &[u8]) -> (r: (NodeId, &[u8]))
        requires
            id_from_binary(binary@) is Some,
        ensures
            id_from_binary(binary@) == Some(((r.0).0, binary@.len() - r.1@.len())),
            r.1@ == binary@.skip(binary@.len() - r.1@.len()),
    {
        match read_id_binary(binary) {
            Some((x, rest)) => (NodeId(x), rest),
            None => vstd::pervasive::unreached(),
        }
    }

    /// Read an id from the front of `binary`, if it begins with one.
    pub fn try_from_binary(binary: &[u8]) -> (r: Option<(NodeId, &[u8])>)
        ensures
            match id_from_binary(binary@) {
                Some((x, used)) => r matches Some((id, rest)) && id == NodeId(x) && rest@ == binary@.skip(used),
                None => r is None,
            },
    {
        match read_id_binary(binary) {
            Some(_) => Some(NodeId::from_binary(binary)),
            None => None,
        }
    }
}

impl SocketId {
    /// The text of the id.
    pub fn to_string(&self) -> (r: String)
        ensures
            r@ == uuid_text(self.0),
            uuid_parse(r@) == Some(self.0),
    {
        uuid_to_text(self.0)
    }

    /// The id that a text stands for; the text must be one.
    pub fn from_string(id: &str) -> (r: SocketId)
        requires
            uuid_parse(id@) is Some,
        ensures
            uuid_parse(id@) == Some(r.0),
    {
        match uuid_from_text(id) {
            Some(x) => SocketId(x),
            None => vstd::pervasive::unreached(),
        }
    }

    /// The id that a text stands for, if it stands for one.
    pub fn try_from_string(id: &str) -> (r: Option<SocketId>)
        ensures
            match uuid_parse(id@) {
                Some(x) => r == Some(SocketId(x)),
                None => r is None,
            },
    {
        match uuid_from_text(id) {
            Some(_) => Some(SocketId::from_string(id)),
            None => None,
        }
    }

    /// The binary form of the id.
    pub fn to_binary(&self) -> (r: Vec<u8>)
        ensures
            r@ == id_binary(self.0),
            id_from_binary(r@) == Some((self.0, r@.len() as int)),
    {
        let mut r: Vec<u8> = Vec::new();
        push_id_binary(&mut r, self.0);
        proof {
            assert(r@ + Seq::<u8>::empty() =~= r@);
            law_id_binary_roundtrip(self.0, Seq::empty());
        }
        r
    }

    /// Read an id from the front of `binary`, which must begin with one;
    /// answers it with the bytes that follow.
    pub fn from_binary(binary: &[u8]) -> (r: (SocketId, &[u8]))
        requires
            id_from_binary(binary@) is Some,
        ensures
            id_from_binary(binary@) == Some(((r.0).0, binary@.len() - r.1@.len())),
            r.1@ == binary@.skip(binary@.len() - r.1@.len()),
    {
        match read_id_binary(binary) {
            Some((x, rest)) => (SocketId(x), rest),
            None => vstd::pervasive::unreached(),
        }
    }

    /// Read an id from the front of `binary`, if it begins with one.
    pub fn try_from_binary(binary: &[u8]) -> (r: Option<(SocketId, &[u8])>)
        ensures
            match id_from_binary(binary@) {
                Some((x, used)) => r matches Some((id, rest)) && id == SocketId(x) && rest@ == binary@.skip(used),
                None => r is None,
            },
    {
        match read_id_binary(binary) {
            Some(_) => Some(SocketId::from_binary(binary)),
            None => None,
        }
    }
}

impl PluginId {
    /// The id that a text stands for; the text must be one.
    pub fn from_string(id: &str) -> (r: PluginId)
        requires
            uuid_parse(id@) is Some,
        ensures
            uuid_parse(id@) == Some(r.0),
    {
        match uuid_from_text(id) {
            Some(x) => PluginId(x),
            None => vstd::pervasive::unreached(),
        }
    }

    /// The id that a text stands for, if it stands for one.
    pub fn try_from_string(id: &str) -> (r: Option<PluginId>)
        ensures
            match uuid_parse(id@) {
                Some(x) => r == Some(PluginId(x)),
                None => r is None,
            },
    {
        match uuid_from_text(id) {
            Some(_) => Some(PluginId::from_string(id)),
            None => None,
        }
    }
}
} // verus!

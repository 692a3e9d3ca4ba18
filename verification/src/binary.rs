use vstd::prelude::*;

verus! {

/// The eight bytes of `n`, most significant first.
pub open spec fn be_bytes(n: u64) -> Seq<u8> {
    seq![
        (n >> 56u64) as u8,
        (n >> 48u64) as u8,
        (n >> 40u64) as u8,
        (n >> 32u64) as u8,
        (n >> 24u64) as u8,
        (n >> 16u64) as u8,
        (n >> 8u64) as u8,
        n as u8,
    ]
}

/// The eight bytes of `n`, least significant first.
pub open spec fn le_bytes(n: u64) -> Seq<u8> {
    be_bytes(n).reverse()
}

/// The number that eight bytes give, most significant first.
pub open spec fn from_be(b: Seq<u8>) -> u64 {
    (b[0] as u64) << 56u64 | (b[1] as u64) << 48u64 | (b[2] as u64) << 40u64 | (b[3] as u64)
        << 32u64 | (b[4] as u64) << 24u64 | (b[5] as u64) << 16u64 | (b[6] as u64) << 8u64 | (
    b[7] as u64)
}

/// The number that eight bytes give, least significant first.
pub open spec fn from_le(b: Seq<u8>) -> u64 {
    from_be(b.reverse())
}

proof fn lemma_be_bits(n: u64)
    ensures
        ((((n >> 56u64) as u8) as u64) << 56u64 | (((n >> 48u64) as u8) as u64) << 48u64 | (((n
            >> 40u64) as u8) as u64) << 40u64 | (((n >> 32u64) as u8) as u64) << 32u64 | (((n
            >> 24u64) as u8) as u64) << 24u64 | (((n >> 16u64) as u8) as u64) << 16u64 | (((n
            >> 8u64) as u8) as u64) << 8u64 | ((n as u8) as u64)) == n,
{
    assert(((((n >> 56u64) as u8) as u64) << 56u64 | (((n >> 48u64) as u8) as u64) << 48u64 | (((n
        >> 40u64) as u8) as u64) << 40u64 | (((n >> 32u64) as u8) as u64) << 32u64 | (((n
        >> 24u64) as u8) as u64) << 24u64 | (((n >> 16u64) as u8) as u64) << 16u64 | (((n
        >> 8u64) as u8) as u64) << 8u64 | ((n as u8) as u64)) == n) by (bit_vector);
}

/// Reading back the bytes of a number gives the number.
pub proof fn lemma_be_roundtrip(n: u64)
    ensures
        be_bytes(n).len() == 8,
        from_be(be_bytes(n)) == n,
{
    lemma_be_bits(n);
}

/// Reading back the bytes of a number gives the number.
pub proof fn lemma_le_roundtrip(n: u64)
    ensures
        le_bytes(n).len() == 8,
        from_le(le_bytes(n)) == n,
{
    lemma_be_bits(n);
}

/// Append the bytes of `n`, most significant first.
pub fn push_be(out: &mut Vec<u8>, n: u64)
    ensures
        final(out)@ == old(out)@ + be_bytes(n),
{
    out.push((n >> 56u64) as u8);
    out.push((n >> 48u64) as u8);
    out.push((n >> 40u64) as u8);
    out.push((n >> 32u64) as u8);
    out.push((n >> 24u64) as u8);
    out.push((n >> 16u64) as u8);
    out.push((n >> 8u64) as u8);
    out.push(n as u8);
}

/// Append the bytes of `n`, least significant first.
pub fn push_le(out: &mut Vec<u8>, n: u64)
    ensures
        final(out)@ == old(out)@ + le_bytes(n),
{
    out.push(n as u8);
    out.push((n >> 8u64) as u8);
    out.push((n >> 16u64) as u8);
    out.push((n >> 24u64) as u8);
    out.push((n >> 32u64) as u8);
    out.push((n >> 40u64) as u8);
    out.push((n >> 48u64) as u8);
    out.push((n >> 56u64) as u8);
}

/// The number in `b[at..at + 8]`, most significant byte first.
pub fn read_be(b: &[u8], at: usize) -> (n: u64)
    requires
        at + 8 <= b@.len(),
    ensures
        n == from_be(b@.subrange(at as int, at + 8)),
{
    (b[at] as u64) << 56u64 | (b[at + 1] as u64) << 48u64 | (b[at + 2] as u64) << 40u64 | (b[at
        + 3] as u64) << 32u64 | (b[at + 4] as u64) << 24u64 | (b[at + 5] as u64) << 16u64 | (b[at
        + 6] as u64) << 8u64 | (b[at + 7] as u64)
}

/// The number in `b[at..at + 8]`, least significant byte first.
pub fn read_le(b: &[u8], at: usize) -> (n: u64)
    requires
        at + 8 <= b@.len(),
    ensures
        n == from_le(b@.subrange(at as int, at + 8)),
{
    let len = b.len();
    let last: usize = at + 7;
    (b[last] as u64) << 56u64 | (b[at + 6] as u64) << 48u64 | (b[at + 5] as u64) << 40u64 | (b[at
        + 4] as u64) << 32u64 | (b[at + 3] as u64) << 24u64 | (b[at + 2] as u64) << 16u64 | (b[at
        + 1] as u64) << 8u64 | (b[at] as u64)
}

/// The characters that ASCII bytes stand for.
pub open spec fn ascii_chars(b: Seq<u8>) -> Seq<char> {
    b.map_values(|x: u8| x as char)
}

/// Every byte is an ASCII byte.
pub open spec fn all_ascii(b: Seq<u8>) -> bool {
    forall|i: int| 0 <= i < b.len() ==> #[trigger] b[i] < 128
}

/// Whether every byte of `b[from..to]` is an ASCII byte.
pub fn check_ascii(b: &[u8], from: usize, to: usize) -> (r: bool)
    requires
        from <= to <= b@.len(),
    ensures
        r == all_ascii(b@.subrange(from as int, to as int)),
{
    let mut i = from;
    while i < to
        invariant
            from <= i <= to <= b@.len(),
            forall|j: int| from <= j < i ==> b@[j] < 128,
        decreases to - i,
    {
        if b[i] >= 128 {
            assert(b@.subrange(from as int, to as int)[i - from] >= 128);
            return false;
        }
        i = i + 1;
    }
    true
}

} // verus!

use vstd::prelude::*;
use crate::error::Error;

verus! {

/// The number that `bs` spells when read as a big-endian unsigned integer.
pub open spec fn be_value(bs: Seq<u8>) -> nat
    decreases bs.len(),
{
    if bs.len() == 0 {
        0
    } else {
        be_value(bs.drop_last()) * 256 + bs.last() as nat
    }
}

/// 256 to the power `n`.
pub open spec fn pow256(n: nat) -> nat
    decreases n,
{
    if n == 0 {
        1
    } else {
        256 * pow256((n - 1) as nat)
    }
}

/// A big-endian value of `n` bytes is below 256 to the `n`.
pub proof fn lemma_be_value_bound(bs: Seq<u8>)
    ensures
        be_value(bs) < pow256(bs.len()),
    decreases bs.len(),
{
    if bs.len() > 0 {
        lemma_be_value_bound(bs.drop_last());
    }
}

/// Leading zero bytes do not change a big-endian value.
pub proof fn lemma_be_value_leading_zero(bs: Seq<u8>)
    ensures
        be_value(seq![0u8] + bs) == be_value(bs),
    decreases bs.len(),
{
    let padded = seq![0u8] + bs;
    if bs.len() == 0 {
        assert(padded.drop_last() =~= Seq::<u8>::empty());
        reveal_with_fuel(be_value, 2);
    } else {
        assert(padded.drop_last() =~= seq![0u8] + bs.drop_last());
        lemma_be_value_leading_zero(bs.drop_last());
    }
}

/// Reads up to eight bytes as a big-endian unsigned integer, as if padded
/// with zeros on the left. More than eight bytes are refused with code 5004.
pub fn join_bytes(bytes: &[u8]) -> (r: Result<u64, Error>)
    ensures
        bytes@.len() > 8 <==> r is Err,
        r matches Ok(v) ==> v as nat == be_value(bytes@),
        r matches Err(e) ==> e.code == 5004,
{
    if bytes.len() > 8 {
        return Err(Error::new("Invalid input. (max length is 8)", 5004));
    }
    let mut acc: u64 = 0;
    let mut i: usize = 0;
    while i < bytes.len()
        invariant
            i <= bytes@.len() <= 8,
            acc as nat == be_value(bytes@.take(i as int)),
        decreases bytes@.len() - i,
    {
        proof {
            let next = bytes@.take(i + 1);
            assert(next.drop_last() =~= bytes@.take(i as int));
            lemma_be_value_bound(bytes@.take(i as int));
            lemma_be_value_bound(next);
            reveal_with_fuel(pow256, 9);
        }
        acc = acc * 256 + bytes[i] as u64;
        i += 1;
    }
    proof {
        assert(bytes@.take(i as int) =~= bytes@);
    }
    Ok(acc)
}

} // verus!

verus! {

/// The two bytes at `i`, read as a big-endian number.
pub open spec fn u16_at(s: Seq<u8>, i: int) -> int {
    s[i] as int * 256 + s[i + 1] as int
}

/// The three bytes at `i`, read as a big-endian number.
pub open spec fn u24_at(s: Seq<u8>, i: int) -> int {
    s[i] as int * 65536 + s[i + 1] as int * 256 + s[i + 2] as int
}

/// `n` in two bytes, big-endian.
pub open spec fn be16(n: int) -> Seq<u8> {
    seq![((n / 256) % 256) as u8, (n % 256) as u8]
}

/// `n` in three bytes, big-endian.
pub open spec fn be24(n: int) -> Seq<u8> {
    seq![((n / 65536) % 256) as u8, ((n / 256) % 256) as u8, (n % 256) as u8]
}

/// `n` in eight bytes, big-endian.
pub open spec fn be64(n: u64) -> Seq<u8> {
    seq![
        ((n >> 56) & 0xff) as u8,
        ((n >> 48) & 0xff) as u8,
        ((n >> 40) & 0xff) as u8,
        ((n >> 32) & 0xff) as u8,
        ((n >> 24) & 0xff) as u8,
        ((n >> 16) & 0xff) as u8,
        ((n >> 8) & 0xff) as u8,
        (n & 0xff) as u8,
    ]
}

/// What joins the parts of `parts`, one after the other.
pub open spec fn concat_all(parts: Seq<Seq<u8>>) -> Seq<u8>
    decreases parts.len(),
{
    if parts.len() == 0 {
        Seq::empty()
    } else {
        concat_all(parts.drop_last()) + parts.last()
    }
}

/// The parts up to `i` joined are no longer than all of them joined.
pub proof fn lemma_concat_all_prefix(parts: Seq<Seq<u8>>, i: int)
    requires
        0 <= i <= parts.len(),
    ensures
        concat_all(parts.take(i)).len() <= concat_all(parts).len(),
    decreases parts.len(),
{
    if i == parts.len() {
        assert(parts.take(i) =~= parts);
    } else {
        lemma_concat_all_prefix(parts.drop_last(), i);
        assert(parts.drop_last().take(i) =~= parts.take(i));
    }
}

/// Numbers that are spelled alike in eight bytes are equal.
pub proof fn lemma_be64_injective(a: u64, b: u64)
    requires
        be64(a) == be64(b),
    ensures
        a == b,
{
    let x = be64(a);
    let y = be64(b);
    assert(x[0] == y[0] && x[1] == y[1] && x[2] == y[2] && x[3] == y[3] && x[4] == y[4] && x[5]
        == y[5] && x[6] == y[6] && x[7] == y[7]);
    assert(a == b) by (bit_vector)
        requires
            ((a >> 56) & 0xff) as u8 == ((b >> 56) & 0xff) as u8,
            ((a >> 48) & 0xff) as u8 == ((b >> 48) & 0xff) as u8,
            ((a >> 40) & 0xff) as u8 == ((b >> 40) & 0xff) as u8,
            ((a >> 32) & 0xff) as u8 == ((b >> 32) & 0xff) as u8,
            ((a >> 24) & 0xff) as u8 == ((b >> 24) & 0xff) as u8,
            ((a >> 16) & 0xff) as u8 == ((b >> 16) & 0xff) as u8,
            ((a >> 8) & 0xff) as u8 == ((b >> 8) & 0xff) as u8,
            (a & 0xff) as u8 == (b & 0xff) as u8,
    ;
}

/// Appends `n` in two bytes.
pub fn push_be16(out: &mut Vec<u8>, n: usize)
    requires
        n <= 0xffff,
    ensures
        final(out)@ == old(out)@ + be16(n as int),
{
    out.push(((n / 256) % 256) as u8);
    out.push((n % 256) as u8);
    proof {
        assert(final(out)@ =~= old(out)@ + be16(n as int));
    }
}

/// Appends `n` in three bytes.
pub fn push_be24(out: &mut Vec<u8>, n: usize)
    requires
        n <= 0xff_ffff,
    ensures
        final(out)@ == old(out)@ + be24(n as int),
{
    out.push(((n / 65536) % 256) as u8);
    out.push(((n / 256) % 256) as u8);
    out.push((n % 256) as u8);
    proof {
        assert(final(out)@ =~= old(out)@ + be24(n as int));
    }
}

/// Appends `n` in eight bytes.
pub fn push_be64(out: &mut Vec<u8>, n: u64)
    ensures
        final(out)@ == old(out)@ + be64(n),
{
    out.push(((n >> 56) & 0xff) as u8);
    out.push(((n >> 48) & 0xff) as u8);
    out.push(((n >> 40) & 0xff) as u8);
    out.push(((n >> 32) & 0xff) as u8);
    out.push(((n >> 24) & 0xff) as u8);
    out.push(((n >> 16) & 0xff) as u8);
    out.push(((n >> 8) & 0xff) as u8);
    out.push((n & 0xff) as u8);
    proof {
        assert(final(out)@ =~= old(out)@ + be64(n));
    }
}

/// Appends the bytes of `more`.
pub fn push_all(out: &mut Vec<u8>, more: &[u8])
    ensures
        final(out)@ == old(out)@ + more@,
{
    let mut i: usize = 0;
    while i < more.len()
        invariant
            i <= more@.len(),
            out@ == old(out)@ + more@.take(i as int),
        decreases more@.len() - i,
    {
        out.push(more[i]);
        i += 1;
        proof {
            assert(out@ =~= old(out)@ + more@.take(i as int));
        }
    }
    proof {
        assert(more@.take(i as int) =~= more@);
    }
}

/// The bytes of `data` from `from` up to `to`, as a vector of their own.
pub fn copy_range(data: &[u8], from: usize, to: usize) -> (out: Vec<u8>)
    requires
        from <= to <= data@.len(),
    ensures
        out@ == data@.subrange(from as int, to as int),
{
    vstd::slice::slice_to_vec(vstd::slice::slice_subrange(data, from, to))
}

/// The two bytes at `i` as a number.
pub fn read_u16(data: &[u8], i: usize) -> (n: usize)
    requires
        i + 2 <= data@.len(),
    ensures
        n == u16_at(data@, i as int),
        n <= 0xffff,
{
    let hi: usize = data[i] as usize;
    let lo: usize = data[i + 1] as usize;
    hi * 256 + lo
}

/// The three bytes at `i` as a number.
pub fn read_u24(data: &[u8], i: usize) -> (n: usize)
    requires
        i + 3 <= data@.len(),
    ensures
        n == u24_at(data@, i as int),
        n <= 0xff_ffff,
{
    let hi: usize = data[i] as usize;
    let mid: usize = data[i + 1] as usize;
    let lo: usize = data[i + 2] as usize;
    hi * 65536 + mid * 256 + lo
}

} // verus!

verus! {

/// Joining one part more appends that part.
pub proof fn lemma_concat_all_push(parts: Seq<Seq<u8>>, part: Seq<u8>)
    ensures
        concat_all(parts.push(part)) == concat_all(parts) + part,
{
    assert(parts.push(part).drop_last() =~= parts);
}

} // verus!

verus! {

/// The bytes of a vector that may be absent.
pub open spec fn opt_bytes(o: Option<Vec<u8>>) -> Option<Seq<u8>> {
    match o {
        Some(bytes) => Some(bytes@),
        None => None,
    }
}

/// Whether two byte strings are the same.
pub fn bytes_equal(a: &[u8], b: &[u8]) -> (same: bool)
    ensures
        same == (a@ == b@),
{
    if a.len() != b.len() {
        return false;
    }
    let mut i: usize = 0;
    while i < a.len()
        invariant
            i <= a@.len(),
            a@.len() == b@.len(),
            a@.take(i as int) == b@.take(i as int),
        decreases a@.len() - i,
    {
        if a[i] != b[i] {
            return false;
        }
        i += 1;
        proof {
            assert(a@.take(i as int) =~= a@.take(i - 1).push(a@[i - 1]));
            assert(b@.take(i as int) =~= b@.take(i - 1).push(b@[i - 1]));
        }
    }
    proof {
        assert(a@.take(i as int) =~= a@);
        assert(b@.take(i as int) =~= b@);
    }
    true
}

/// A copy of `data`.
pub fn copy_bytes(data: &[u8]) -> (out: Vec<u8>)
    ensures
        out@ == data@,
{
    vstd::slice::slice_to_vec(data)
}

} // verus!

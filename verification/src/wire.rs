//! Byte-level building blocks shared by the two frame codecs: big-endian
//! integers, zero padding, and the way a payload is cut into chunks.

use vstd::prelude::*;

verus! {

/// The smaller of two naturals.
pub open spec fn least(a: nat, b: nat) -> nat {
    if a <= b {
        a
    } else {
        b
    }
}

/// The value of four bytes read as a big-endian integer.
pub open spec fn be32_value(b0: u8, b1: u8, b2: u8, b3: u8) -> int {
    b0 as int * 0x100_0000 + b1 as int * 0x1_0000 + b2 as int * 0x100 + b3 as int
}

/// The four bytes of `s` from `at` on, read as a big-endian integer.
pub open spec fn be32_at(s: Seq<u8>, at: int) -> int
    recommends
        0 <= at,
        at + 4 <= s.len(),
{
    be32_value(s[at], s[at + 1], s[at + 2], s[at + 3])
}

/// The big-endian bytes of a 32-bit value.
pub open spec fn be32_bytes(v: u32) -> Seq<u8> {
    seq![
        (v as int / 0x100_0000) as u8,
        (v as int / 0x1_0000 % 0x100) as u8,
        (v as int / 0x100 % 0x100) as u8,
        (v as int % 0x100) as u8,
    ]
}

/// The two bytes of `s` from `at` on, read as a big-endian integer.
pub open spec fn be16_at(s: Seq<u8>, at: int) -> int
    recommends
        0 <= at,
        at + 2 <= s.len(),
{
    s[at] as int * 0x100 + s[at + 1] as int
}

/// The big-endian bytes of a 16-bit value.
pub open spec fn be16_bytes(v: u16) -> Seq<u8> {
    seq![(v as int / 0x100) as u8, (v as int % 0x100) as u8]
}

/// The eight bytes of `s` from `at` on, read as a big-endian integer.
pub open spec fn be64_at(s: Seq<u8>, at: int) -> int
    recommends
        0 <= at,
        at + 8 <= s.len(),
{
    be32_at(s, at) * 0x1_0000_0000 + be32_at(s, at + 4)
}

/// The big-endian bytes of a 64-bit value.
pub open spec fn be64_bytes(v: u64) -> Seq<u8> {
    be32_bytes((v as int / 0x1_0000_0000) as u32) + be32_bytes((v as int % 0x1_0000_0000) as u32)
}

/// `n` zero bytes.
pub open spec fn zeros(n: nat) -> Seq<u8> {
    Seq::new(n, |i: int| 0u8)
}

/// `s`, followed by as many zero bytes as bring it to length `n`; `s` itself
/// where it is that long already.
pub open spec fn padded(s: Seq<u8>, n: nat) -> Seq<u8> {
    if s.len() >= n {
        s
    } else {
        s + zeros((n - s.len()) as nat)
    }
}

/// Number of payload bytes that stand before chunk `k`, where chunk 0 holds
/// up to `first` bytes and every later chunk up to `rest` bytes.
pub open spec fn chunk_offset(k: nat, first: nat, rest: nat) -> nat {
    if k == 0 {
        0
    } else {
        (first + (k - 1) * rest) as nat
    }
}

/// Chunk `k` of `payload`.
pub open spec fn chunk_of(payload: Seq<u8>, k: nat, first: nat, rest: nat) -> Seq<u8> {
    payload.subrange(
        least(chunk_offset(k, first, rest), payload.len()) as int,
        least(chunk_offset(k + 1, first, rest), payload.len()) as int,
    )
}

/// Number of chunks that a payload of `len` bytes is cut into: one, and one
/// more for every `rest` bytes, or part of it, beyond the first `first`.
pub open spec fn chunk_count(len: nat, first: nat, rest: nat) -> nat
    recommends
        rest > 0,
{
    if len <= first {
        1
    } else {
        (1 + (len - first + rest - 1) / (rest as int)) as nat
    }
}

/// Largest payload that fits into one first chunk and 128 numbered ones, and
/// whose length a 16-bit field can state.
pub open spec fn capacity(first: nat, rest: nat) -> nat {
    least(first + 128 * rest, 0xffff)
}

/// The byte strings that a list of buffers holds.
pub open spec fn contents(frames: Seq<Vec<u8>>) -> Seq<Seq<u8>> {
    Seq::new(frames.len(), |i: int| frames[i]@)
}

/// Exec form of [`capacity`].
pub fn capacity_of(first: usize, rest: usize) -> (n: usize)
    ensures
        n == capacity(first as nat, rest as nat),
{
    if first >= 0xffff || rest >= 0x200 {
        0xffff
    } else {
        let all: usize = first + 128 * rest;
        if all <= 0xffff {
            all
        } else {
            0xffff
        }
    }
}

/// Each chunk begins where the one before it ends.
pub proof fn lemma_chunk_offset_step(k: nat, first: nat, rest: nat)
    ensures
        chunk_offset(k + 1, first, rest) == chunk_offset(k, first, rest) + (if k == 0 {
            first
        } else {
            rest
        }),
{
    if k > 0 {
        assert((k + 1 - 1) * rest == (k - 1) * rest + rest) by (nonlinear_arith);
    } else {
        assert((k + 1 - 1) * rest == 0) by (nonlinear_arith)
            requires
                k == 0,
        ;
    }
}

/// The offsets of the chunks grow with their number.
pub proof fn lemma_chunk_offset_monotone(j: nat, k: nat, first: nat, rest: nat)
    requires
        j <= k,
    ensures
        chunk_offset(j, first, rest) <= chunk_offset(k, first, rest),
    decreases k - j,
{
    if j < k {
        lemma_chunk_offset_step(j, first, rest);
        lemma_chunk_offset_monotone(j + 1, k, first, rest);
    }
}

/// The chunk count is the first number of chunks that holds the whole
/// payload: `n` chunks hold it, and, for `n > 1`, `n - 1` do not.
pub proof fn lemma_chunk_count_bounds(len: nat, first: nat, rest: nat)
    requires
        rest > 0,
    ensures
        ({
            let n = chunk_count(len, first, rest);
            &&& n >= 1
            &&& len <= chunk_offset(n, first, rest)
            &&& n > 1 ==> chunk_offset((n - 1) as nat, first, rest) < len
        }),
{
    if len > first {
        let d: int = len - first;
        let r: int = rest as int;
        let q: int = (d + r - 1) / r;
        vstd::arithmetic::div_mod::lemma_fundamental_div_mod(d + r - 1, r);
        vstd::arithmetic::div_mod::lemma_mod_bound(d + r - 1, r);
        assert(d + r - 1 == r * q + (d + r - 1) % r);
        assert(q >= 1) by (nonlinear_arith)
            requires
                d >= 1,
                r >= 1,
                d + r - 1 == r * q + (d + r - 1) % r,
                0 <= (d + r - 1) % r < r,
        ;
        assert(d <= q * r && (q - 1) * r < d) by (nonlinear_arith)
            requires
                d + r - 1 == r * q + (d + r - 1) % r,
                0 <= (d + r - 1) % r < r,
        ;
        let n = chunk_count(len, first, rest);
        assert(n == 1 + q);
        assert((n - 1) * rest == q * r);
        assert((n - 1 - 1) * rest == (q - 1) * r);
    }
}

/// A number of chunks is the chunk count if it holds the payload and one
/// chunk fewer does not.
pub proof fn lemma_chunk_count_unique(len: nat, first: nat, rest: nat, n: nat)
    requires
        rest > 0,
        n >= 1,
        len <= chunk_offset(n, first, rest),
        n > 1 ==> chunk_offset((n - 1) as nat, first, rest) < len,
    ensures
        n == chunk_count(len, first, rest),
{
    let m = chunk_count(len, first, rest);
    lemma_chunk_count_bounds(len, first, rest);
    if n < m {
        lemma_chunk_offset_monotone(n, (m - 1) as nat, first, rest);
    } else if m < n {
        lemma_chunk_offset_monotone(m, (n - 1) as nat, first, rest);
    }
}

/// A payload within the capacity is cut into at most 129 chunks.
pub proof fn lemma_chunk_count_limit(len: nat, first: nat, rest: nat)
    requires
        rest > 0,
        len <= capacity(first, rest),
    ensures
        chunk_count(len, first, rest) <= 129,
{
    let n = chunk_count(len, first, rest);
    lemma_chunk_count_bounds(len, first, rest);
    if n > 129 {
        lemma_chunk_offset_monotone(129, (n - 1) as nat, first, rest);
    }
}

/// The bytes of a 32-bit value read back give the value.
pub proof fn lemma_be32_roundtrip(v: u32)
    ensures
        be32_bytes(v).len() == 4,
        be32_at(be32_bytes(v), 0) == v,
{
}

/// The bytes of a 16-bit value read back give the value.
pub proof fn lemma_be16_roundtrip(v: u16)
    ensures
        be16_bytes(v).len() == 2,
        be16_at(be16_bytes(v), 0) == v,
{
}

/// The value of four bytes written out gives the bytes.
pub proof fn lemma_be32_bytes_of_value(s: Seq<u8>, at: int)
    requires
        0 <= at,
        at + 4 <= s.len(),
    ensures
        0 <= be32_at(s, at) <= u32::MAX,
        be32_bytes(be32_at(s, at) as u32) == s.subrange(at, at + 4),
{
    let v = be32_at(s, at);
    assert(0 <= v <= u32::MAX);
    assert(v / 0x100_0000 == s[at]);
    assert(v / 0x1_0000 % 0x100 == s[at + 1]);
    assert(v / 0x100 % 0x100 == s[at + 2]);
    assert(v % 0x100 == s[at + 3]);
    assert(be32_bytes(v as u32) =~= s.subrange(at, at + 4));
}

/// The bytes of a 64-bit value read back give the value.
pub proof fn lemma_be64_roundtrip(v: u64)
    ensures
        be64_bytes(v).len() == 8,
        be64_at(be64_bytes(v), 0) == v,
{
    let hi = (v as int / 0x1_0000_0000) as u32;
    let lo = (v as int % 0x1_0000_0000) as u32;
    lemma_be32_roundtrip(hi);
    lemma_be32_roundtrip(lo);
    let b = be64_bytes(v);
    assert(b.len() == 8);
    assert(b[0] == be32_bytes(hi)[0] && b[1] == be32_bytes(hi)[1] && b[2] == be32_bytes(hi)[2]
        && b[3] == be32_bytes(hi)[3]);
    assert(b[4] == be32_bytes(lo)[0] && b[5] == be32_bytes(lo)[1] && b[6] == be32_bytes(lo)[2]
        && b[7] == be32_bytes(lo)[3]);
    assert(be32_at(b, 0) == hi);
    assert(be32_at(b, 4) == lo);
}

/// The value of eight bytes written out gives the bytes.
pub proof fn lemma_be64_bytes_of_value(s: Seq<u8>)
    requires
        s.len() >= 8,
    ensures
        0 <= be64_at(s, 0) <= u64::MAX,
        be64_bytes(be64_at(s, 0) as u64) == s.take(8),
{
    lemma_be32_bytes_of_value(s, 0);
    lemma_be32_bytes_of_value(s, 4);
    let h = be32_at(s, 0);
    let l = be32_at(s, 4);
    let w = h * 0x1_0000_0000 + l;
    assert(0 <= w <= u64::MAX);
    assert(w / 0x1_0000_0000 == h);
    assert(w % 0x1_0000_0000 == l);
    assert(s.subrange(0, 4) + s.subrange(4, 8) =~= s.take(8));
}

/// Reads four bytes from `at` on as a big-endian integer.
pub fn read_be32(data: &[u8], at: usize) -> (v: u32)
    requires
        at + 4 <= data@.len(),
    ensures
        v == be32_at(data@, at as int),
{
    let b0: u32 = data[at] as u32;
    let b1: u32 = data[at + 1] as u32;
    let b2: u32 = data[at + 2] as u32;
    let b3: u32 = data[at + 3] as u32;
    b0 * 0x100_0000 + b1 * 0x1_0000 + b2 * 0x100 + b3
}

/// Reads two bytes from `at` on as a big-endian integer.
pub fn read_be16(data: &[u8], at: usize) -> (v: u16)
    requires
        at + 2 <= data@.len(),
    ensures
        v == be16_at(data@, at as int),
{
    let hi: u16 = data[at] as u16;
    let lo: u16 = data[at + 1] as u16;
    hi * 0x100 + lo
}

/// Appends the big-endian bytes of `v`.
pub fn put_be32(out: &mut Vec<u8>, v: u32)
    ensures
        final(out)@ == old(out)@ + be32_bytes(v),
{
    out.push((v / 0x100_0000) as u8);
    out.push((v / 0x1_0000 % 0x100) as u8);
    out.push((v / 0x100 % 0x100) as u8);
    out.push((v % 0x100) as u8);
    assert(out@ =~= old(out)@ + be32_bytes(v));
}

/// Reads eight bytes from `at` on as a big-endian integer.
pub fn read_be64(data: &[u8], at: usize) -> (v: u64)
    requires
        at + 8 <= data@.len(),
    ensures
        v == be64_at(data@, at as int),
{
    let b0: u64 = data[at] as u64;
    let b1: u64 = data[at + 1] as u64;
    let b2: u64 = data[at + 2] as u64;
    let b3: u64 = data[at + 3] as u64;
    let b4: u64 = data[at + 4] as u64;
    let b5: u64 = data[at + 5] as u64;
    let b6: u64 = data[at + 6] as u64;
    let b7: u64 = data[at + 7] as u64;
    (b0 * 0x100_0000 + b1 * 0x1_0000 + b2 * 0x100 + b3) * 0x1_0000_0000 + (b4 * 0x100_0000 + b5
        * 0x1_0000 + b6 * 0x100 + b7)
}

/// Appends the big-endian bytes of `v`.
pub fn put_be64(out: &mut Vec<u8>, v: u64)
    ensures
        final(out)@ == old(out)@ + be64_bytes(v),
{
    put_be32(out, (v / 0x1_0000_0000) as u32);
    put_be32(out, (v % 0x1_0000_0000) as u32);
    assert(out@ =~= old(out)@ + be64_bytes(v));
}

/// Appends the big-endian bytes of `v`.
pub fn put_be16(out: &mut Vec<u8>, v: u16)
    ensures
        final(out)@ == old(out)@ + be16_bytes(v),
{
    out.push((v / 0x100) as u8);
    out.push((v % 0x100) as u8);
    assert(out@ =~= old(out)@ + be16_bytes(v));
}

/// Appends the bytes of `src` from `lo` up to `hi`.
pub fn put_range(out: &mut Vec<u8>, src: &[u8], lo: usize, hi: usize)
    requires
        lo <= hi <= src@.len(),
    ensures
        final(out)@ == old(out)@ + src@.subrange(lo as int, hi as int),
{
    let mut i: usize = lo;
    while i < hi
        invariant
            lo <= i <= hi <= src@.len(),
            out@ == old(out)@ + src@.subrange(lo as int, i as int),
        decreases hi - i,
    {
        out.push(src[i]);
        i += 1;
        assert(out@ =~= old(out)@ + src@.subrange(lo as int, i as int));
    }
}

/// Appends zero bytes until `out` is `n` bytes long.
pub fn put_padding(out: &mut Vec<u8>, n: usize)
    ensures
        final(out)@ == padded(old(out)@, n as nat),
{
    while out.len() < n
        invariant
            out@.len() >= old(out)@.len(),
            out@.len() > old(out)@.len() ==> out@.len() <= n,
            out@ == old(out)@ + zeros((out@.len() - old(out)@.len()) as nat),
        decreases n - out@.len(),
    {
        out.push(0u8);
        assert(out@ =~= old(out)@ + zeros((out@.len() - old(out)@.len()) as nat));
    }
    assert(out@ =~= padded(old(out)@, n as nat));
}

} // verus!

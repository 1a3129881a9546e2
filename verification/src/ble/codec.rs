//! Cutting a message into the fragments of the Bluetooth LE transport.

use vstd::prelude::*;
use crate::ble::fragment::CONT_HEADER_LEN;
use crate::ble::fragment::FIRST_HEADER_LEN;
use crate::cmd::CTapBLECommand;
use crate::cmd::CTapBLEError;
use crate::wire::be16_bytes;
use crate::wire::capacity;
use crate::wire::capacity_of;
use crate::wire::chunk_count;
use crate::wire::chunk_of;
use crate::wire::chunk_offset;
use crate::wire::contents;
use crate::wire::least;
use crate::wire::lemma_chunk_count_unique;
use crate::wire::lemma_chunk_offset_step;
use crate::wire::put_be16;
use crate::wire::put_range;

verus! {

/// Smallest fragment size that has room for a header and a payload byte.
pub const MIN_FRAGMENT_LEN: usize = 4;

/// Payload bytes that a first fragment of up to `size` bytes holds.
pub open spec fn first_capacity(size: nat) -> nat {
    if size >= 3 {
        (size - 3) as nat
    } else {
        0
    }
}

/// Payload bytes that a continuation fragment of up to `size` bytes holds.
pub open spec fn cont_capacity(size: nat) -> nat {
    if size >= 1 {
        (size - 1) as nat
    } else {
        0
    }
}

/// Longest payload that can be sent in fragments of up to `size` bytes.
pub open spec fn max_message_len(size: nat) -> nat {
    capacity(first_capacity(size), cont_capacity(size))
}

/// The header of fragment `k` of a message.
pub open spec fn header(cmd: CTapBLECommand, len: nat, k: nat) -> Seq<u8> {
    if k == 0 {
        seq![cmd.spec_code()] + be16_bytes(len as u16)
    } else {
        seq![(k - 1) as u8]
    }
}

/// Fragment `k` of a message: the header and the chunk.
pub open spec fn fragment(cmd: CTapBLECommand, payload: Seq<u8>, k: nat, size: nat) -> Seq<u8> {
    header(cmd, payload.len(), k) + chunk_of(payload, k, first_capacity(size), cont_capacity(size))
}

/// The fragments of a message, in the order in which they are sent.
pub open spec fn fragments(cmd: CTapBLECommand, payload: Seq<u8>, size: nat) -> Seq<Seq<u8>> {
    Seq::new(
        chunk_count(payload.len(), first_capacity(size), cont_capacity(size)),
        |k: int| fragment(cmd, payload, k as nat, size),
    )
}

/// What encoding gives: the fragments, or the reason why there are none.
pub open spec fn encoding(cmd: CTapBLECommand, payload: Seq<u8>, size: nat) -> Result<
    Seq<Seq<u8>>,
    CTapBLEError,
> {
    if size < 4 {
        Err(CTapBLEError::InvalidPAR)
    } else if payload.len() > max_message_len(size) {
        Err(CTapBLEError::InvalidLength)
    } else {
        Ok(fragments(cmd, payload, size))
    }
}

/// Longest payload that can be sent in fragments of up to `size` bytes.
pub fn max_message(size: usize) -> (n: usize)
    ensures
        n == max_message_len(size as nat),
{
    let first: usize = if size < FIRST_HEADER_LEN {
        0
    } else {
        size - FIRST_HEADER_LEN
    };
    let rest: usize = if size < CONT_HEADER_LEN {
        0
    } else {
        size - CONT_HEADER_LEN
    };
    capacity_of(first, rest)
}

/// No fragment of a message is longer than the fragment size, and none but
/// the last is shorter.
pub proof fn lemma_fragment_len(cmd: CTapBLECommand, payload: Seq<u8>, k: nat, size: nat)
    requires
        size >= 4,
    ensures
        fragment(cmd, payload, k, size).len() <= size,
        chunk_offset(k + 1, first_capacity(size), cont_capacity(size)) <= payload.len()
            ==> fragment(cmd, payload, k, size).len() == size,
{
    lemma_chunk_offset_step(k, first_capacity(size), cont_capacity(size));
}

/// Encodes a message as fragments of up to `size` bytes each: one first
/// fragment, then as many continuation fragments as the payload needs, with
/// no padding. A size that leaves no room for payload is refused with
/// `InvalidPAR`, a payload longer than the fragments can carry with
/// `InvalidLength`.
pub fn encode(cmd: CTapBLECommand, payload: &[u8], size: usize) -> (r: Result<
    Vec<Vec<u8>>,
    CTapBLEError,
>)
    ensures
        match r {
            Ok(out) => encoding(cmd, payload@, size as nat) == Ok::<Seq<Seq<u8>>, CTapBLEError>(
                contents(out@),
            ),
            Err(e) => encoding(cmd, payload@, size as nat) == Err::<Seq<Seq<u8>>, CTapBLEError>(e),
        },
{
    if size < MIN_FRAGMENT_LEN {
        return Err(CTapBLEError::InvalidPAR);
    }
    let first: usize = size - FIRST_HEADER_LEN;
    let rest: usize = size - CONT_HEADER_LEN;
    let len: usize = payload.len();
    if len > max_message(size) {
        return Err(CTapBLEError::InvalidLength);
    }
    let ghost f = first as nat;
    let ghost r = rest as nat;
    let mut out: Vec<Vec<u8>> = Vec::new();
    let mut head: Vec<u8> = Vec::new();
    head.push(cmd.code());
    put_be16(&mut head, len as u16);
    let taken: usize = if len < first {
        len
    } else {
        first
    };
    put_range(&mut head, payload, 0, taken);
    proof {
        lemma_chunk_offset_step(0, f, r);
        assert(head@ =~= fragment(cmd, payload@, 0, size as nat));
    }
    out.push(head);
    let mut offset: usize = taken;
    let mut seq: u8 = 0;
    while offset < len
        invariant
            size >= 4,
            first == size - 3,
            rest == size - 1,
            f == first,
            r == rest,
            len == payload@.len(),
            len <= capacity(f, r),
            out@.len() == seq + 1,
            seq <= 128,
            offset == least(chunk_offset((seq + 1) as nat, f, r), len as nat),
            chunk_offset(seq as nat, f, r) < len || seq == 0,
            forall|k: int|
                0 <= k < out@.len() ==> (#[trigger] out@[k])@ == fragment(
                    cmd,
                    payload@,
                    k as nat,
                    size as nat,
                ),
        decreases len - offset,
    {
        proof {
            lemma_chunk_offset_step((seq + 1) as nat, f, r);
            assert(seq < 128) by (nonlinear_arith)
                requires
                    f + (seq + 1 - 1) * r < len,
                    len <= f + 128 * r,
                    r > 0,
                    seq <= 128,
            ;
        }
        let mut next: Vec<u8> = Vec::new();
        next.push(seq);
        let left: usize = len - offset;
        let taken: usize = if left < rest {
            left
        } else {
            rest
        };
        put_range(&mut next, payload, offset, offset + taken);
        proof {
            assert(next@ =~= fragment(cmd, payload@, (seq + 1) as nat, size as nat));
        }
        out.push(next);
        offset = offset + taken;
        seq = seq + 1;
    }
    proof {
        let n = out@.len() as nat;
        lemma_chunk_count_unique(len as nat, f, r, n);
        assert(contents(out@) =~= fragments(cmd, payload@, size as nat));
    }
    Ok(out)
}

} // verus!

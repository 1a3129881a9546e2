//! Cutting a message into the frames of the HID transport.

use vstd::prelude::*;
use crate::cmd::CTapBLEError;
use crate::cmd::CTapCHIDCmd;
use crate::hid::packet::CONT_HEADER_LEN;
use crate::hid::packet::FRAME_TYPE_INIT;
use crate::hid::packet::INIT_HEADER_LEN;
use crate::wire::be16_bytes;
use crate::wire::be32_bytes;
use crate::wire::capacity;
use crate::wire::capacity_of;
use crate::wire::chunk_count;
use crate::wire::chunk_of;
use crate::wire::chunk_offset;
use crate::wire::contents;
use crate::wire::least;
use crate::wire::lemma_chunk_count_unique;
use crate::wire::lemma_chunk_offset_step;
use crate::wire::padded;
use crate::wire::put_be16;
use crate::wire::put_be32;
use crate::wire::put_padding;
use crate::wire::put_range;

verus! {

/// Length of the reports of the virtual device.
pub const REPORT_LEN: usize = 64;

/// Shortest report that has room for a header and a payload byte.
pub const MIN_REPORT_LEN: usize = 9;

/// Payload bytes that an initialization frame of a report of `report_len`
/// bytes holds.
pub open spec fn init_capacity(report_len: nat) -> nat {
    if report_len >= 8 {
        (report_len - 8) as nat
    } else {
        0
    }
}

/// Payload bytes that a continuation frame of a report of `report_len` bytes
/// holds.
pub open spec fn cont_capacity(report_len: nat) -> nat {
    if report_len >= 5 {
        (report_len - 5) as nat
    } else {
        0
    }
}

/// Longest payload that can be sent in reports of `report_len` bytes.
pub open spec fn max_message_len(report_len: nat) -> nat {
    capacity(init_capacity(report_len), cont_capacity(report_len))
}

/// The header of frame `k` of a message.
pub open spec fn header(cid: u32, cmd: CTapCHIDCmd, len: nat, k: nat) -> Seq<u8> {
    if k == 0 {
        seq![(0x80 + cmd.spec_code()) as u8] + be32_bytes(cid) + seq![
            (0x80 + cmd.spec_code()) as u8,
        ] + be16_bytes(len as u16)
    } else {
        seq![(k - 1) as u8] + be32_bytes(cid)
    }
}

/// Frame `k` of a message: the header, the chunk, and zero bytes up to the
/// length of a report.
pub open spec fn frame(
    cid: u32,
    cmd: CTapCHIDCmd,
    payload: Seq<u8>,
    k: nat,
    report_len: nat,
) -> Seq<u8> {
    padded(
        header(cid, cmd, payload.len(), k) + chunk_of(
            payload,
            k,
            init_capacity(report_len),
            cont_capacity(report_len),
        ),
        report_len,
    )
}

/// The frames of a message, in the order in which they are sent.
pub open spec fn frames(cid: u32, cmd: CTapCHIDCmd, payload: Seq<u8>, report_len: nat) -> Seq<
    Seq<u8>,
> {
    Seq::new(
        chunk_count(payload.len(), init_capacity(report_len), cont_capacity(report_len)),
        |k: int| frame(cid, cmd, payload, k as nat, report_len),
    )
}

/// What encoding gives: the frames, or the reason why there are none.
pub open spec fn encoding(cid: u32, cmd: CTapCHIDCmd, payload: Seq<u8>, report_len: nat) -> Result<
    Seq<Seq<u8>>,
    CTapBLEError,
> {
    if report_len < 9 {
        Err(CTapBLEError::InvalidPAR)
    } else if payload.len() > max_message_len(report_len) {
        Err(CTapBLEError::InvalidLength)
    } else {
        Ok(frames(cid, cmd, payload, report_len))
    }
}

/// Longest payload that can be sent in reports of `report_len` bytes.
pub fn max_message(report_len: usize) -> (n: usize)
    ensures
        n == max_message_len(report_len as nat),
{
    let first: usize = if report_len < INIT_HEADER_LEN {
        0
    } else {
        report_len - INIT_HEADER_LEN
    };
    let rest: usize = if report_len < CONT_HEADER_LEN {
        0
    } else {
        report_len - CONT_HEADER_LEN
    };
    capacity_of(first, rest)
}

/// Every frame of a message is exactly one report long.
pub proof fn lemma_frame_len(
    cid: u32,
    cmd: CTapCHIDCmd,
    payload: Seq<u8>,
    k: nat,
    report_len: nat,
)
    requires
        report_len >= 9,
    ensures
        frame(cid, cmd, payload, k, report_len).len() == report_len,
{
    let first = init_capacity(report_len);
    let rest = cont_capacity(report_len);
    lemma_chunk_offset_step(k, first, rest);
}

/// Encodes a message as frames of `report_len` bytes each: one
/// initialization frame, then as many continuation frames as the payload
/// needs, the last of them filled up with zero bytes. A report length that
/// leaves no room for payload is refused with `InvalidPAR`, a payload longer
/// than the frames can carry with `InvalidLength`.
pub fn encode(cid: u32, cmd: CTapCHIDCmd, payload: &[u8], report_len: usize) -> (r: Result<
    Vec<Vec<u8>>,
    CTapBLEError,
>)
    ensures
        match r {
            Ok(out) => encoding(cid, cmd, payload@, report_len as nat) == Ok::<
                Seq<Seq<u8>>,
                CTapBLEError,
            >(contents(out@)),
            Err(e) => encoding(cid, cmd, payload@, report_len as nat) == Err::<
                Seq<Seq<u8>>,
                CTapBLEError,
            >(e),
        },
{
    if report_len < MIN_REPORT_LEN {
        return Err(CTapBLEError::InvalidPAR);
    }
    let first: usize = report_len - INIT_HEADER_LEN;
    let rest: usize = report_len - CONT_HEADER_LEN;
    let len: usize = payload.len();
    if len > max_message(report_len) {
        return Err(CTapBLEError::InvalidLength);
    }
    let ghost f = first as nat;
    let ghost r = rest as nat;
    let mut out: Vec<Vec<u8>> = Vec::new();
    let mut head: Vec<u8> = Vec::new();
    head.push(FRAME_TYPE_INIT + cmd.code());
    put_be32(&mut head, cid);
    head.push(FRAME_TYPE_INIT + cmd.code());
    put_be16(&mut head, len as u16);
    let taken: usize = if len < first {
        len
    } else {
        first
    };
    put_range(&mut head, payload, 0, taken);
    put_padding(&mut head, report_len);
    proof {
        lemma_chunk_offset_step(0, f, r);
        assert(head@ =~= frame(cid, cmd, payload@, 0, report_len as nat));
    }
    out.push(head);
    let mut offset: usize = taken;
    let mut seq: u8 = 0;
    while offset < len
        invariant
            report_len >= 9,
            first == report_len - 8,
            rest == report_len - 5,
            f == first,
            r == rest,
            len == payload@.len(),
            len <= capacity(f, r),
            out@.len() == seq + 1,
            seq <= 128,
            offset == least(chunk_offset((seq + 1) as nat, f, r), len as nat),
            chunk_offset(seq as nat, f, r) < len || seq == 0,
            forall|k: int|
                0 <= k < out@.len() ==> (#[trigger] out@[k])@ == frame(
                    cid,
                    cmd,
                    payload@,
                    k as nat,
                    report_len as nat,
                ),
        decreases len - offset,
    {
        proof {
            lemma_chunk_offset_step((seq + 1) as nat, f, r);
            assert(seq < 128) by (nonlinear_arith)
                requires
                    f + (seq + 1 - 1) * r < len,
                    len <= f + 128 * r,
                    r > 0,
                    seq <= 128,
            ;
        }
        let mut next: Vec<u8> = Vec::new();
        next.push(seq);
        put_be32(&mut next, cid);
        let left: usize = len - offset;
        let taken: usize = if left < rest {
            left
        } else {
            rest
        };
        put_range(&mut next, payload, offset, offset + taken);
        put_padding(&mut next, report_len);
        proof {
            assert(next@ =~= frame(cid, cmd, payload@, (seq + 1) as nat, report_len as nat));
        }
        out.push(next);
        offset = offset + taken;
        seq = seq + 1;
    }
    proof {
        let n = out@.len() as nat;
        lemma_chunk_count_unique(len as nat, f, r, n);
        assert(contents(out@) =~= frames(cid, cmd, payload@, report_len as nat));
    }
    Ok(out)
}

} // verus!

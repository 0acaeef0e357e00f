//! One controller report as stored in `controller.bin` and sent to the studio.
//!
//! A frame is 80 bytes: Unix milliseconds (8), report size (1), sequence number
//! (4), microseconds from reading the report to the console taking it (2, zero
//! if unknown), a padding byte, and 64 report bytes; numbers are little-endian.
use crate::bytes::{push_le, read_le};
use vstd::prelude::*;

verus! {

/// Bytes per frame.
pub const FRAME_SIZE: usize = 80;

/// Report bytes a frame has room for.
pub const REPORT_SIZE: usize = 64;

/// A timestamped report; one without report bytes is a heartbeat.
#[derive(Clone, Copy, Debug)]
pub struct Frame {
    /// Unix time in milliseconds.
    pub timestamp_ms: u64,
    /// How many of the report bytes count.
    pub packet_size: u8,
    /// Counts up by one per frame.
    pub seq: u32,
    /// Microseconds until the console took the report, 0 if unknown.
    pub forward_us: u16,
    /// The report, padded with zeros.
    pub report: [u8; 64],
}

/// The report bytes that count.
pub open spec fn payload_of(f: Frame) -> Seq<u8> {
    if f.packet_size <= 64 {
        f.report@.take(f.packet_size as int)
    } else {
        f.report@
    }
}

/// The bytes a frame is stored as.
pub open spec fn frame_bytes(f: Frame) -> Seq<u8> {
    crate::bytes::le_bytes(f.timestamp_ms as nat, 8) + seq![f.packet_size] + crate::bytes::le_bytes(
        f.seq as nat,
        4,
    ) + crate::bytes::le_bytes(f.forward_us as nat, 2) + seq![0u8] + f.report@
}

/// The frame that 80 bytes store.
pub open spec fn stores(b: Seq<u8>, f: Frame) -> bool {
    &&& f.timestamp_ms == crate::bytes::le_value(b.subrange(0, 8))
    &&& f.packet_size == b[8]
    &&& f.seq == crate::bytes::le_value(b.subrange(9, 13))
    &&& f.forward_us == crate::bytes::le_value(b.subrange(13, 15))
    &&& f.report@ == b.subrange(16, 80)
}

/// The first bytes of a report, padded with zeros.
pub open spec fn padded(data: Seq<u8>) -> Seq<u8> {
    Seq::new(
        64,
        |i: int|
            if i < data.len() {
                data[i]
            } else {
                0u8
            },
    )
}

impl Frame {
    /// A frame of `data`; what exceeds 64 bytes is left out.
    pub fn new(timestamp_ms: u64, seq: u32, data: &[u8]) -> (r: Frame)
        ensures
            r.timestamp_ms == timestamp_ms,
            r.seq == seq,
            r.forward_us == 0,
            r.packet_size == (if data@.len() < 64 {
                data@.len() as int
            } else {
                64
            }),
            r.report@ == padded(data@),
            payload_of(r) == data@.take(r.packet_size as int),
    {
        let n: usize = if data.len() < REPORT_SIZE {
            data.len()
        } else {
            REPORT_SIZE
        };
        let mut report: [u8; 64] = [0u8;64];
        let mut i: usize = 0;
        while i < n
            invariant
                i <= n <= data@.len(),
                n <= 64,
                report@.len() == 64,
                forall|j: int| 0 <= j < i ==> report@[j] == data@[j],
                forall|j: int| i <= j < 64 ==> report@[j] == 0,
            decreases n - i,
        {
            report[i] = data[i];
            i += 1;
        }
        assert(report@ =~= padded(data@));
        let r = Frame { timestamp_ms, packet_size: n as u8, seq, forward_us: 0, report };
        assert(payload_of(r) =~= data@.take(r.packet_size as int));
        r
    }

    /// Read a frame from its 80 bytes.
    pub fn parse(bytes: &[u8]) -> (r: Frame)
        requires
            bytes@.len() == FRAME_SIZE,
        ensures
            stores(bytes@, r),
    {
        let timestamp_ms = read_le(bytes, 0, 8);
        let seq = read_le(bytes, 9, 4);
        let forward_us = read_le(bytes, 13, 2);
        proof {
            reveal_with_fuel(crate::bytes::le_range, 5);
        }
        let mut report: [u8; 64] = [0u8;64];
        let mut i: usize = 0;
        while i < 64
            invariant
                i <= 64,
                bytes@.len() == 80,
                report@.len() == 64,
                forall|j: int| 0 <= j < i ==> report@[j] == bytes@[16 + j],
            decreases 64 - i,
        {
            report[i] = bytes[16 + i];
            i += 1;
        }
        assert(report@ =~= bytes@.subrange(16, 80));
        Frame {
            timestamp_ms,
            packet_size: bytes[8],
            seq: seq as u32,
            forward_us: forward_us as u16,
            report,
        }
    }

    /// The 80 bytes a frame is stored as.
    pub fn to_bytes(&self) -> (r: Vec<u8>)
        ensures
            r@ == frame_bytes(*self),
            r@.len() == FRAME_SIZE,
    {
        let mut out: Vec<u8> = Vec::new();
        push_le(&mut out, self.timestamp_ms, 8);
        out.push(self.packet_size);
        push_le(&mut out, self.seq as u64, 4);
        push_le(&mut out, self.forward_us as u64, 2);
        out.push(0);
        let ghost head = out@;
        let mut i: usize = 0;
        while i < 64
            invariant
                i <= 64,
                out@ == head + self.report@.take(i as int),
            decreases 64 - i,
        {
            out.push(self.report[i]);
            i += 1;
            assert(out@ =~= head + self.report@.take(i as int));
        }
        proof {
            assert(self.report@.take(64) =~= self.report@);
            assert(out@ =~= frame_bytes(*self));
            lemma_frame_len(*self);
        }
        out
    }

    /// The report bytes that count.
    pub fn payload(&self) -> (r: &[u8])
        ensures
            r@ == payload_of(*self),
            r@.len() <= 64,
    {
        let n: usize = if self.packet_size as usize <= REPORT_SIZE {
            self.packet_size as usize
        } else {
            REPORT_SIZE
        };
        let r = vstd::slice::slice_subrange(self.report.as_slice(), 0, n);
        assert(r@ =~= payload_of(*self));
        r
    }
}

/// A frame is stored in 80 bytes.
pub proof fn lemma_frame_len(f: Frame)
    ensures
        frame_bytes(f).len() == 80,
{
    reveal_with_fuel(crate::bytes::le_range, 9);
    crate::bytes::law_le_reads_back(f.timestamp_ms as nat, 8);
    crate::bytes::law_le_reads_back(f.seq as nat, 4);
    crate::bytes::law_le_reads_back(f.forward_us as nat, 2);
}

/// What a stored frame is read back as is the frame.
pub proof fn law_frame_reads_back(f: Frame, g: Frame)
    requires
        stores(frame_bytes(f), g),
    ensures
        g.timestamp_ms == f.timestamp_ms,
        g.packet_size == f.packet_size,
        g.seq == f.seq,
        g.forward_us == f.forward_us,
        g.report@ == f.report@,
{
    reveal_with_fuel(crate::bytes::le_range, 9);
    crate::bytes::law_le_reads_back(f.timestamp_ms as nat, 8);
    crate::bytes::law_le_reads_back(f.seq as nat, 4);
    crate::bytes::law_le_reads_back(f.forward_us as nat, 2);
    let b = frame_bytes(f);
    assert(b.subrange(0, 8) =~= crate::bytes::le_bytes(f.timestamp_ms as nat, 8));
    assert(b.subrange(9, 13) =~= crate::bytes::le_bytes(f.seq as nat, 4));
    assert(b.subrange(13, 15) =~= crate::bytes::le_bytes(f.forward_us as nat, 2));
    assert(b.subrange(16, 80) =~= f.report@);
}

/// A frame's bytes: eight of the time, the size, four of the number, two of the
/// proxy's time, one that is nothing, and the report.
pub proof fn law_frame_layout(f: Frame, i: int)
    requires
        0 <= i < 64,
    ensures
        frame_bytes(f).len() == 80,
        frame_bytes(f).subrange(0, 8) == crate::bytes::le_bytes(f.timestamp_ms as nat, 8),
        frame_bytes(f)[8] == f.packet_size,
        frame_bytes(f).subrange(9, 13) == crate::bytes::le_bytes(f.seq as nat, 4),
        frame_bytes(f).subrange(13, 15) == crate::bytes::le_bytes(f.forward_us as nat, 2),
        frame_bytes(f)[15] == 0,
        frame_bytes(f)[16 + i] == f.report@[i],
        frame_bytes(f)[0] == f.timestamp_ms % 256,
        frame_bytes(f)[1] == f.timestamp_ms / 256 % 256,
        frame_bytes(f)[9] == f.seq % 256,
        frame_bytes(f)[10] == f.seq / 256 % 256,
        frame_bytes(f)[13] == f.forward_us % 256,
        frame_bytes(f)[14] == f.forward_us / 256 % 256,
{
    lemma_frame_len(f);
    let t = crate::bytes::le_bytes(f.timestamp_ms as nat, 8);
    let s = crate::bytes::le_bytes(f.seq as nat, 4);
    let u = crate::bytes::le_bytes(f.forward_us as nat, 2);
    crate::bytes::law_lowest_byte_first(f.timestamp_ms as nat, 0, 8);
    crate::bytes::law_lowest_byte_first(f.seq as nat, 0, 4);
    crate::bytes::law_lowest_byte_first(f.forward_us as nat, 0, 2);
    reveal_with_fuel(crate::bytes::le_bytes, 3);
    assert(t[0] == f.timestamp_ms % 256 && t[1] == f.timestamp_ms / 256 % 256);
    assert(s[0] == f.seq % 256 && s[1] == f.seq / 256 % 256);
    assert(u[0] == f.forward_us % 256 && u[1] == f.forward_us / 256 % 256);
    assert(frame_bytes(f).subrange(0, 8) =~= t);
    assert(frame_bytes(f).subrange(9, 13) =~= s);
    assert(frame_bytes(f).subrange(13, 15) =~= u);
    assert(frame_bytes(f)[0] == t[0] && frame_bytes(f)[1] == t[1]);
    assert(frame_bytes(f)[9] == s[0] && frame_bytes(f)[10] == s[1]);
    assert(frame_bytes(f)[13] == u[0] && frame_bytes(f)[14] == u[1]);
}

/// The payload is as many bytes of the report as the size says, and no more than
/// there are.
pub proof fn law_payload_is_the_front(f: Frame, i: int)
    requires
        0 <= i < payload_of(f).len(),
    ensures
        payload_of(f).len() == (if f.packet_size < 64 {
            f.packet_size as int
        } else {
            64
        }),
        payload_of(f)[i] == f.report@[i],
{
}

/// A report that is shorter than its place keeps its bytes and is filled up with
/// zeros; one that is longer loses its end.
pub proof fn law_reports_are_filled_up(data: Seq<u8>, i: int)
    requires
        0 <= i < 64,
    ensures
        padded(data).len() == 64,
        i < data.len() ==> padded(data)[i] == data[i],
        i >= data.len() ==> padded(data)[i] == 0,
{
}

} // verus!

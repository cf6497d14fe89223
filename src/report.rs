use vstd::prelude::*;

use crate::bytes::{
    get_u24, get_u32, get_u64, put_u32, put_u64, read_u24, read_u32, read_u64, splice, u32_bytes,
    u64_bytes, lemma_splice_concat,
};

verus! {

/// Synchronization source identifier of a media stream.
#[derive(Debug, Clone, Copy, PartialEq, Eq, Structural)]
pub struct Ssrc(pub u32);

impl Ssrc {
    /// Writes the identifier big-endian into `buf[at..at + 4]`.
    pub fn write_to(&self, buf: &mut [u8], at: usize)
        requires
            at + 4 <= old(buf)@.len(),
        ensures
            final(buf)@ == splice(old(buf)@, at as int, u32_bytes(self.0)),
    {
        put_u32(buf, at, self.0);
    }
}

/// Length in bytes of an encoded sender info block.
pub const SR_LEN: usize = 24;

/// Length in bytes of an encoded reception report block.
pub const RR_LEN: usize = 24;

/// The sender part of a sender report.
#[derive(Debug, Clone, Copy, PartialEq, Eq, Structural)]
pub struct SenderInfo {
    pub ssrc: Ssrc,
    /// NTP timestamp (seconds in the high 32 bits, fraction in the low 32 bits).
    pub ntp_time: u64,
    pub rtp_time: u32,
    pub sender_packet_count: u32,
    pub sender_octet_count: u32,
}

/// One reception report block.
#[derive(Debug, Clone, Copy, PartialEq, Eq, Structural)]
pub struct ReceiverReport {
    pub ssrc: Ssrc,
    pub fraction_lost: u8,
    /// Cumulative number of packets lost; a 24-bit field on the wire.
    pub packets_lost: u32,
    pub max_seq: u32,
    pub jitter: u32,
    pub last_sr_time: u32,
    pub last_sr_delay: u32,
}

/// One source description chunk; its items are skipped when decoding.
#[derive(Debug, Clone, Copy, PartialEq, Eq, Structural)]
pub struct Sdes {
    pub ssrc: Ssrc,
}

/// One generic negative acknowledgement: a lost packet id and a bitmask of
/// the following lost packets.
#[derive(Debug, Clone, Copy, PartialEq, Eq, Structural)]
pub struct NackEntry {
    pub pid: u16,
    pub blp: u16,
}

/// A transport layer negative acknowledgement for one media source.
#[derive(Debug, PartialEq, Eq)]
pub struct Nack {
    pub ssrc: Ssrc,
    pub reports: Vec<NackEntry>,
}

impl SenderInfo {
    /// The 24 bytes of a sender info block.
    pub open spec fn spec_bytes(self) -> Seq<u8> {
        u32_bytes(self.ssrc.0) + u64_bytes(self.ntp_time) + u32_bytes(self.rtp_time) + u32_bytes(
            self.sender_packet_count,
        ) + u32_bytes(self.sender_octet_count)
    }

    /// The sender info held in `b[i..i + 24]`.
    pub open spec fn spec_parse(b: Seq<u8>, i: int) -> SenderInfo {
        SenderInfo {
            ssrc: Ssrc(read_u32(b, i)),
            ntp_time: read_u64(b, i + 4),
            rtp_time: read_u32(b, i + 12),
            sender_packet_count: read_u32(b, i + 16),
            sender_octet_count: read_u32(b, i + 20),
        }
    }

    /// Writes the block into `buf[at..at + SR_LEN]`.
    pub fn write_to(&self, buf: &mut [u8], at: usize)
        requires
            at + SR_LEN <= old(buf)@.len(),
        ensures
            final(buf)@ == splice(old(buf)@, at as int, self.spec_bytes()),
    {
        let ghost b0 = buf@;
        let _n = buf.len();
        put_u32(buf, at, self.ssrc.0);
        put_u64(buf, at + 4, self.ntp_time);
        put_u32(buf, at + 12, self.rtp_time);
        put_u32(buf, at + 16, self.sender_packet_count);
        put_u32(buf, at + 20, self.sender_octet_count);
        proof {
            let s0 = u32_bytes(self.ssrc.0);
            let s1 = u64_bytes(self.ntp_time);
            let s2 = u32_bytes(self.rtp_time);
            let s3 = u32_bytes(self.sender_packet_count);
            let s4 = u32_bytes(self.sender_octet_count);
            lemma_splice_concat(b0, at as int, s0, s1);
            lemma_splice_concat(b0, at as int, s0 + s1, s2);
            lemma_splice_concat(b0, at as int, s0 + s1 + s2, s3);
            lemma_splice_concat(b0, at as int, s0 + s1 + s2 + s3, s4);
        }
    }

    pub fn parse(buf: &[u8], i: usize) -> (r: SenderInfo)
        requires
            i + SR_LEN <= buf@.len(),
        ensures
            r == SenderInfo::spec_parse(buf@, i as int),
    {
        let _n = buf.len();
        SenderInfo {
            ssrc: Ssrc(get_u32(buf, i)),
            ntp_time: get_u64(buf, i + 4),
            rtp_time: get_u32(buf, i + 12),
            sender_packet_count: get_u32(buf, i + 16),
            sender_octet_count: get_u32(buf, i + 20),
        }
    }
}

impl ReceiverReport {
    /// The 24-bit cumulative loss field fits.
    pub open spec fn wf(self) -> bool {
        self.packets_lost < 0x100_0000
    }

    /// The 24 bytes of a reception report block.
    pub open spec fn spec_bytes(self) -> Seq<u8> {
        u32_bytes(self.ssrc.0) + u32_bytes((((self.fraction_lost as u32) << 24u32) | (
        self.packets_lost & 0xff_ffffu32)) as u32) + u32_bytes(self.max_seq) + u32_bytes(self.jitter)
            + u32_bytes(self.last_sr_time) + u32_bytes(self.last_sr_delay)
    }

    /// The reception report held in `b[i..i + 24]`.
    pub open spec fn spec_parse(b: Seq<u8>, i: int) -> ReceiverReport {
        ReceiverReport {
            ssrc: Ssrc(read_u32(b, i)),
            fraction_lost: b[i + 4],
            packets_lost: read_u24(b, i + 5),
            max_seq: read_u32(b, i + 8),
            jitter: read_u32(b, i + 12),
            last_sr_time: read_u32(b, i + 16),
            last_sr_delay: read_u32(b, i + 20),
        }
    }

    /// Writes the block into `buf[at..at + RR_LEN]`.
    pub fn write_to(&self, buf: &mut [u8], at: usize)
        requires
            at + RR_LEN <= old(buf)@.len(),
        ensures
            final(buf)@ == splice(old(buf)@, at as int, self.spec_bytes()),
    {
        let ghost b0 = buf@;
        let _n = buf.len();
        let loss: u32 = ((self.fraction_lost as u32) << 24u32) | (self.packets_lost & 0xff_ffffu32);
        put_u32(buf, at, self.ssrc.0);
        put_u32(buf, at + 4, loss);
        put_u32(buf, at + 8, self.max_seq);
        put_u32(buf, at + 12, self.jitter);
        put_u32(buf, at + 16, self.last_sr_time);
        put_u32(buf, at + 20, self.last_sr_delay);
        proof {
            let s0 = u32_bytes(self.ssrc.0);
            let s1 = u32_bytes(loss);
            let s2 = u32_bytes(self.max_seq);
            let s3 = u32_bytes(self.jitter);
            let s4 = u32_bytes(self.last_sr_time);
            let s5 = u32_bytes(self.last_sr_delay);
            lemma_splice_concat(b0, at as int, s0, s1);
            lemma_splice_concat(b0, at as int, s0 + s1, s2);
            lemma_splice_concat(b0, at as int, s0 + s1 + s2, s3);
            lemma_splice_concat(b0, at as int, s0 + s1 + s2 + s3, s4);
            lemma_splice_concat(b0, at as int, s0 + s1 + s2 + s3 + s4, s5);
        }
    }

    pub fn parse(buf: &[u8], i: usize) -> (r: ReceiverReport)
        requires
            i + RR_LEN <= buf@.len(),
        ensures
            r == ReceiverReport::spec_parse(buf@, i as int),
            r.wf(),
    {
        let _n = buf.len();
        ReceiverReport {
            ssrc: Ssrc(get_u32(buf, i)),
            fraction_lost: buf[i + 4],
            packets_lost: get_u24(buf, i + 5),
            max_seq: get_u32(buf, i + 8),
            jitter: get_u32(buf, i + 12),
            last_sr_time: get_u32(buf, i + 16),
            last_sr_delay: get_u32(buf, i + 20),
        }
    }
}

} // verus!

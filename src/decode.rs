use vstd::prelude::*;

use crate::bytes::{get_u16, get_u32, read_u16, read_u32};
use crate::compound::smaller;
use crate::feedback::{FbView, RtcpFb};
use crate::header::{parse_header, FeedbackMessageType, PayloadType, RtcpHeader, RtcpType, MAX_LENGTH};
use crate::report::{Nack, NackEntry, ReceiverReport, Sdes, SenderInfo, Ssrc};

verus! {

/// `m` reception report blocks of `p`, from `off` on.
pub open spec fn report_blocks(p: Seq<u8>, off: int, m: int) -> Seq<FbView> {
    Seq::new(m as nat, |i: int| FbView::ReceiverReport(ReceiverReport::spec_parse(p, off + 24 * i)))
}

/// `m` goodbye SSRCs of `p`, from `off` on.
pub open spec fn bye_list(p: Seq<u8>, off: int, m: int) -> Seq<FbView> {
    Seq::new(m as nat, |i: int| FbView::Goodbye(Ssrc(read_u32(p, off + 4 * i))))
}

/// `m` generic NACK entries of `p`, from `off` on.
pub open spec fn nack_entries(p: Seq<u8>, off: int, m: int) -> Seq<NackEntry> {
    Seq::new(
        m as nat,
        |i: int| NackEntry { pid: read_u16(p, off + 4 * i), blp: read_u16(p, off + 4 * i + 2) },
    )
}

/// Where the source description chunk whose items start at `pos` ends: after
/// the terminating zero item type, rounded up to a multiple of 4.
pub open spec fn sdes_chunk_end(p: Seq<u8>, pos: int) -> int
    decreases p.len() - pos,
{
    if pos < 0 || pos >= p.len() {
        p.len() as int
    } else if p[pos] == 0 {
        (pos + 4) / 4 * 4
    } else if pos + 2 + p[pos + 1] >= p.len() {
        p.len() as int
    } else {
        sdes_chunk_end(p, pos + 2 + p[pos + 1])
    }
}

/// Up to `m` source description chunks of `p`, from `off` on.
pub open spec fn sdes_chunks(p: Seq<u8>, off: int, m: int) -> Seq<FbView>
    decreases m,
{
    if m <= 0 || off < 0 || off + 4 > p.len() {
        Seq::empty()
    } else {
        seq![FbView::Sdes(Sdes { ssrc: Ssrc(read_u32(p, off)) })] + sdes_chunks(
            p,
            sdes_chunk_end(p, off + 4),
            m - 1,
        )
    }
}

/// The feedback messages of one packet with header `h` and bytes `p`.
pub open spec fn packet_items(h: RtcpHeader, p: Seq<u8>) -> Seq<FbView> {
    let count = h.fmt.spec_as_u8() as int;
    match h.packet_type {
        RtcpType::SenderReport => if p.len() >= 28 {
            seq![FbView::SenderInfo(SenderInfo::spec_parse(p, 4))] + report_blocks(
                p,
                28,
                smaller(count, (p.len() - 28) / 24),
            )
        } else {
            Seq::empty()
        },
        RtcpType::ReceiverReport => if p.len() >= 8 {
            report_blocks(p, 8, smaller(count, (p.len() - 8) / 24))
        } else {
            Seq::empty()
        },
        RtcpType::SourceDescription => sdes_chunks(p, 4, count),
        RtcpType::Goodbye => bye_list(p, 4, smaller(count, (p.len() - 4) / 4)),
        RtcpType::TransportLayerFeedback => if p.len() >= 12 {
            seq![FbView::Nack(Ssrc(read_u32(p, 8)), nack_entries(p, 12, (p.len() - 12) / 4))]
        } else {
            Seq::empty()
        },
        RtcpType::PayloadSpecificFeedback => match h.fmt {
            FeedbackMessageType::PayloadFeedback(PayloadType::PictureLossIndication) => if p.len()
                >= 12 {
                seq![FbView::Pli(Ssrc(read_u32(p, 8)))]
            } else {
                Seq::empty()
            },
            _ => if p.len() >= 16 {
                seq![FbView::Fir(Ssrc(read_u32(p, 12)))]
            } else {
                Seq::empty()
            },
        },
        _ => Seq::empty(),
    }
}

/// The feedback messages of a buffer of back-to-back packets. Decoding ends
/// at the first invalid header and at a packet that runs past the end.
pub open spec fn decode_all(b: Seq<u8>) -> Seq<FbView>
    decreases b.len(),
{
    match parse_header(b, false) {
        None => Seq::empty(),
        Some(h) => if 4 <= h.length <= b.len() {
            packet_items(h, b.take(h.length as int)) + decode_all(b.skip(h.length as int))
        } else {
            Seq::empty()
        },
    }
}

pub open spec fn views(s: Seq<RtcpFb>) -> Seq<FbView> {
    s.map_values(|f: RtcpFb| f@)
}

fn push_fb(out: &mut Vec<RtcpFb>, f: RtcpFb)
    ensures
        views(final(out)@) == views(old(out)@).push(f@),
{
    let ghost v = f@;
    out.push(f);
    assert(views(out@) =~= views(old(out)@).push(v));
}

/// Decodes the packet with header `h` held in `buf[at..at + h.length]`.
fn decode_packet(buf: &[u8], at: usize, h: &RtcpHeader, out: &mut Vec<RtcpFb>)
    requires
        4 <= h.length <= MAX_LENGTH,
        at + h.length <= buf@.len(),
    ensures
        views(final(out)@) == views(old(out)@) + packet_items(
            *h,
            buf@.subrange(at as int, at + h.length),
        ),
{
    let ghost p = buf@.subrange(at as int, at + h.length);
    let ghost v0 = views(out@);
    let _n = buf.len();
    let len = h.length;
    let count = h.fmt.as_u8() as usize;
    match h.packet_type {
        RtcpType::SenderReport => {
            if len < 28 {
                assert(v0 + Seq::empty() =~= v0);
                return;
            }
            let si = SenderInfo::parse(buf, at + 4);
            assert(SenderInfo::spec_parse(p, 4) == si);
            push_fb(out, RtcpFb::SenderInfo(si));
            let m = if count < (len - 28) / 24 { count } else { (len - 28) / 24 };
            decode_reports(buf, at, len, 28, m, out);
            assert(v0.push(FbView::SenderInfo(si)) + report_blocks(p, 28, m as int) =~= v0 + (
            seq![FbView::SenderInfo(si)] + report_blocks(p, 28, m as int)));
        },
        RtcpType::ReceiverReport => {
            if len < 8 {
                assert(v0 + Seq::empty() =~= v0);
                return;
            }
            let m = if count < (len - 8) / 24 { count } else { (len - 8) / 24 };
            decode_reports(buf, at, len, 8, m, out);
        },
        RtcpType::SourceDescription => {
            decode_sdes(buf, at, len, count, out);
        },
        RtcpType::Goodbye => {
            let m = if count < (len - 4) / 4 { count } else { (len - 4) / 4 };
            decode_byes(buf, at, len, m, out);
        },
        RtcpType::TransportLayerFeedback => {
            if len < 12 {
                assert(v0 + Seq::empty() =~= v0);
                return;
            }
            let ssrc = Ssrc(get_u32(buf, at + 8));
            assert(read_u32(p, 8) == ssrc.0);
            let reports = decode_nack_entries(buf, at, len, (len - 12) / 4);
            let ghost e = reports@;
            push_fb(out, RtcpFb::Nack(Nack { ssrc, reports }));
            assert(v0.push(FbView::Nack(ssrc, e)) =~= v0 + seq![FbView::Nack(ssrc, e)]);
        },
        RtcpType::PayloadSpecificFeedback => {
            match h.fmt {
                FeedbackMessageType::PayloadFeedback(PayloadType::PictureLossIndication) => {
                    if len < 12 {
                        assert(v0 + Seq::empty() =~= v0);
                        return;
                    }
                    let ssrc = Ssrc(get_u32(buf, at + 8));
                    assert(read_u32(p, 8) == ssrc.0);
                    push_fb(out, RtcpFb::Pli(ssrc));
                    assert(v0.push(FbView::Pli(ssrc)) =~= v0 + seq![FbView::Pli(ssrc)]);
                },
                _ => {
                    if len < 16 {
                        assert(v0 + Seq::empty() =~= v0);
                        return;
                    }
                    let ssrc = Ssrc(get_u32(buf, at + 12));
                    assert(read_u32(p, 12) == ssrc.0);
                    push_fb(out, RtcpFb::Fir(ssrc));
                    assert(v0.push(FbView::Fir(ssrc)) =~= v0 + seq![FbView::Fir(ssrc)]);
                },
            }
        },
        _ => {
            assert(v0 + Seq::empty() =~= v0);
        },
    }
}

/// Decodes `m` reception report blocks of the packet at `at`, from `off`
/// on.
fn decode_reports(buf: &[u8], at: usize, len: usize, off: usize, m: usize, out: &mut Vec<RtcpFb>)
    requires
        at + len <= buf@.len(),
        off + 24 * m <= len,
    ensures
        views(final(out)@) == views(old(out)@) + report_blocks(
            buf@.subrange(at as int, at + len),
            off as int,
            m as int,
        ),
{
    let ghost p = buf@.subrange(at as int, at + len);
    let ghost v0 = views(out@);
    let _n = buf.len();
    let mut i: usize = 0;
    assert(v0 + report_blocks(p, off as int, 0) =~= v0);
    while i < m
        invariant
            i <= m,
            at + len <= buf@.len(),
            off + 24 * m <= len,
            buf@.len() <= usize::MAX,
            p == buf@.subrange(at as int, at + len),
            views(out@) == v0 + report_blocks(p, off as int, i as int),
        decreases m - i,
    {
        assert(off + 24 * i + 24 <= off + 24 * m) by (nonlinear_arith)
            requires
                i < m,
        ;
        let r = ReceiverReport::parse(buf, at + off + 24 * i);
        assert(ReceiverReport::spec_parse(p, off + 24 * i) == r);
        push_fb(out, RtcpFb::ReceiverReport(r));
        assert(report_blocks(p, off as int, i + 1) =~= report_blocks(p, off as int, i as int).push(
            FbView::ReceiverReport(r),
        ));
        i = i + 1;
    }
}

/// Decodes `m` goodbye SSRCs of the packet at `at`.
fn decode_byes(buf: &[u8], at: usize, len: usize, m: usize, out: &mut Vec<RtcpFb>)
    requires
        at + len <= buf@.len(),
        4 + 4 * m <= len,
    ensures
        views(final(out)@) == views(old(out)@) + bye_list(
            buf@.subrange(at as int, at + len),
            4,
            m as int,
        ),
{
    let ghost p = buf@.subrange(at as int, at + len);
    let ghost v0 = views(out@);
    let _n = buf.len();
    let mut i: usize = 0;
    assert(v0 + bye_list(p, 4, 0) =~= v0);
    while i < m
        invariant
            i <= m,
            at + len <= buf@.len(),
            4 + 4 * m <= len,
            buf@.len() <= usize::MAX,
            p == buf@.subrange(at as int, at + len),
            views(out@) == v0 + bye_list(p, 4, i as int),
        decreases m - i,
    {
        assert(4 + 4 * i + 4 <= 4 + 4 * m) by (nonlinear_arith)
            requires
                i < m,
        ;
        let s = Ssrc(get_u32(buf, at + 4 + 4 * i));
        assert(read_u32(p, 4 + 4 * i) == s.0);
        push_fb(out, RtcpFb::Goodbye(s));
        assert(bye_list(p, 4, i + 1) =~= bye_list(p, 4, i as int).push(FbView::Goodbye(s)));
        i = i + 1;
    }
}

/// Decodes `m` generic NACK entries of the packet at `at`, from byte 12 on.
fn decode_nack_entries(buf: &[u8], at: usize, len: usize, m: usize) -> (r: Vec<NackEntry>)
    requires
        at + len <= buf@.len(),
        12 + 4 * m <= len,
    ensures
        r@ == nack_entries(buf@.subrange(at as int, at + len), 12, m as int),
{
    let ghost p = buf@.subrange(at as int, at + len);
    let _n = buf.len();
    let mut r: Vec<NackEntry> = Vec::new();
    let mut i: usize = 0;
    while i < m
        invariant
            i <= m,
            at + len <= buf@.len(),
            12 + 4 * m <= len,
            buf@.len() <= usize::MAX,
            p == buf@.subrange(at as int, at + len),
            r@ == nack_entries(p, 12, i as int),
        decreases m - i,
    {
        assert(12 + 4 * i + 4 <= 12 + 4 * m) by (nonlinear_arith)
            requires
                i < m,
        ;
        let e = NackEntry { pid: get_u16(buf, at + 12 + 4 * i), blp: get_u16(buf, at + 14 + 4 * i) };
        assert(read_u16(p, 12 + 4 * i) == e.pid);
        assert(read_u16(p, 12 + 4 * i + 2) == e.blp);
        r.push(e);
        assert(nack_entries(p, 12, i + 1) =~= nack_entries(p, 12, i as int).push(e));
        i = i + 1;
    }
    r
}

/// Where the chunk items starting at `pos` end; see `sdes_chunk_end`.
fn chunk_end(buf: &[u8], at: usize, len: usize, pos: usize) -> (r: usize)
    requires
        at + len <= buf@.len(),
        len <= MAX_LENGTH,
    ensures
        r == sdes_chunk_end(buf@.subrange(at as int, at + len), pos as int),
        r <= len + 3,
{
    let ghost p = buf@.subrange(at as int, at + len);
    let ghost pos0 = pos as int;
    let _n = buf.len();
    let mut cur = pos;
    while cur < len
        invariant
            at + len <= buf@.len(),
            len <= MAX_LENGTH,
            buf@.len() <= usize::MAX,
            p == buf@.subrange(at as int, at + len),
            pos0 == pos,
            sdes_chunk_end(p, cur as int) == sdes_chunk_end(p, pos0),
        decreases len - cur,
    {
        assert(p[cur as int] == buf@[at + cur]);
        if buf[at + cur] == 0 {
            return (cur + 4) / 4 * 4;
        }
        if cur + 1 >= len {
            return len;
        }
        assert(p[cur + 1] == buf@[at + cur + 1]);
        let next = 2 + buf[at + cur + 1] as usize;
        if next >= len - cur {
            return len;
        }
        cur = cur + next;
    }
    len
}

/// Decodes up to `m` source description chunks of the packet at `at`.
fn decode_sdes(buf: &[u8], at: usize, len: usize, m: usize, out: &mut Vec<RtcpFb>)
    requires
        at + len <= buf@.len(),
        4 <= len <= MAX_LENGTH,
    ensures
        views(final(out)@) == views(old(out)@) + sdes_chunks(
            buf@.subrange(at as int, at + len),
            4,
            m as int,
        ),
{
    let ghost p = buf@.subrange(at as int, at + len);
    let ghost v0 = views(out@);
    let _n = buf.len();
    let mut off: usize = 4;
    let mut i: usize = 0;
    assert(v0 + sdes_chunks(p, 4, m as int) =~= views(out@) + sdes_chunks(p, 4, m as int));
    while i < m && off + 4 <= len
        invariant
            i <= m,
            off <= len + 3,
            at + len <= buf@.len(),
            4 <= len <= MAX_LENGTH,
            buf@.len() <= usize::MAX,
            p == buf@.subrange(at as int, at + len),
            v0 + sdes_chunks(p, 4, m as int) == views(out@) + sdes_chunks(
                p,
                off as int,
                (m - i) as int,
            ),
        decreases m - i,
    {
        let s = Ssrc(get_u32(buf, at + off));
        assert(read_u32(p, off as int) == s.0);
        let next = chunk_end(buf, at, len, off + 4);
        let ghost vb = views(out@);
        push_fb(out, RtcpFb::Sdes(Sdes { ssrc: s }));
        proof {
            let x = FbView::Sdes(Sdes { ssrc: s });
            let rest = sdes_chunks(p, next as int, (m - i - 1) as int);
            assert(sdes_chunks(p, off as int, (m - i) as int) == seq![x] + rest);
            assert(vb.push(x) + rest =~= vb + (seq![x] + rest));
        }
        off = next;
        i = i + 1;
    }
    assert(views(out@) + Seq::empty() =~= views(out@));
}

/// The header at `buf[at..]`, read as `RtcpHeader::parse` reads it.
fn parse_at(buf: &[u8], at: usize) -> (r: Option<RtcpHeader>)
    requires
        at <= buf@.len(),
    ensures
        r == parse_header(buf@.skip(at as int), false),
        r matches Some(h) ==> 4 <= h.length <= MAX_LENGTH,
{
    let ghost b = buf@.skip(at as int);
    if buf.len() - at < 8 {
        return None;
    }
    let b0 = buf[at];
    let version = b0 >> 6u8;
    if version != 2 {
        return None;
    }
    let packet_type = match RtcpType::from_u8(buf[at + 1]) {
        Some(t) => t,
        None => return None,
    };
    let fmt = match FeedbackMessageType::decode(packet_type, b0 & 0x1fu8) {
        Some(f) => f,
        None => return None,
    };
    let words = get_u16(buf, at + 2);
    assert(read_u16(b, 2) == words);
    let ssrc = Ssrc(get_u32(buf, at + 4));
    assert(read_u32(b, 4) == ssrc.0);
    Some(
        RtcpHeader {
            version,
            has_padding: b0 & 0x20u8 != 0,
            fmt,
            packet_type,
            length: (words as usize + 1) * 4,
            ssrc,
        },
    )
}

impl RtcpFb {
    /// Decodes the feedback messages of every packet in `buf`, in order.
    /// Decoding ends at the first header that does not parse and at a packet
    /// whose length runs past the end of `buf`.
    pub fn feedback(buf: &[u8]) -> (r: Vec<RtcpFb>)
        ensures
            views(r@) == decode_all(buf@),
    {
        let n = buf.len();
        let mut out: Vec<RtcpFb> = Vec::new();
        let mut at: usize = 0;
        assert(buf@.skip(0) =~= buf@);
        assert(views(out@) + decode_all(buf@) =~= decode_all(buf@));
        while at < n
            invariant
                at <= n,
                n == buf@.len(),
                views(out@) + decode_all(buf@.skip(at as int)) == decode_all(buf@),
            decreases n - at,
        {
            let ghost rest = buf@.skip(at as int);
            let h = match parse_at(buf, at) {
                Some(h) => h,
                None => {
                    assert(views(out@) + Seq::empty() =~= views(out@));
                    return out;
                },
            };
            if h.length > n - at {
                assert(views(out@) + Seq::empty() =~= views(out@));
                return out;
            }
            let ghost v1 = views(out@);
            decode_packet(buf, at, &h, &mut out);
            proof {
                assert(rest.take(h.length as int) =~= buf@.subrange(at as int, at + h.length));
                assert(rest.skip(h.length as int) =~= buf@.skip(at + h.length));
                let tail = decode_all(buf@.skip(at + h.length));
                assert(v1 + (packet_items(h, rest.take(h.length as int)) + tail) =~= views(out@) + tail);
            }
            at = at + h.length;
        }
        assert(buf@.skip(at as int) =~= Seq::<u8>::empty());
        assert(views(out@) + Seq::empty() =~= views(out@));
        out
    }
}

} // verus!

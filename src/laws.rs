use vstd::prelude::*;

use crate::bytes::{
    lemma_u16_round_trip, lemma_u32_at, lemma_u64_at, read_u16, read_u24, u16_bytes, u32_bytes,
    u64_bytes,
};
use crate::compound::{
    build, bye_groups, goodbyes, lemma_rr_blocks_len, receiver_reports, report_groups, rr_blocks,
    rr_group, sender_infos, sr_group,
};
use crate::decode::{decode_all, packet_items, report_blocks};
use crate::feedback::{FbView, RtcpFb};
use crate::header::{first_byte, parse_header, FeedbackMessageType, RtcpHeader, RtcpType};
use crate::report::{ReceiverReport, SenderInfo};

verus! {

/// A header's bytes read back as the same packet type, format and length,
/// whatever follows them; the SSRC too where it belongs to the header.
pub proof fn lemma_header_round_trip(h: RtcpHeader, rest: Seq<u8>)
    requires
        h.wf(),
        FeedbackMessageType::spec_decode(h.packet_type, h.fmt.spec_as_u8()) == Some(h.fmt),
        h.spec_bytes().len() + rest.len() >= 8,
    ensures
        parse_header(h.spec_bytes() + rest, false) matches Some(p) && p.packet_type
            == h.packet_type && p.fmt == h.fmt && p.length == h.length && p.version == 2 && (
        h.spec_len() == 8 ==> p.ssrc == h.ssrc),
{
    let b = h.spec_bytes() + rest;
    let c = h.fmt.spec_as_u8();
    let b0 = first_byte(c);
    assert(b[0] == b0);
    assert((b0 >> 6u8) == 2 && (b0 & 0x1fu8) == c) by (bit_vector)
        requires
            b0 == (0x80u8 | c) as u8,
            c <= 31,
    ;
    assert(b[1] == h.packet_type.spec_code());
    assert(RtcpType::spec_from_u8(h.packet_type.spec_code()) == Some(h.packet_type));
    let words = (h.length / 4 - 1) as u16;
    lemma_u16_round_trip(words);
    assert(b[2] == u16_bytes(words)[0] && b[3] == u16_bytes(words)[1]);
    assert(read_u16(b, 2) == read_u16(u16_bytes(words), 0));
    if h.spec_len() == 8 {
        assert(b.subrange(4, 8) =~= u32_bytes(h.ssrc.0));
        lemma_u32_at(b, 4, h.ssrc.0);
    }
}

/// A sender info block reads back as the sender info it was written from.
pub proof fn lemma_sender_info_round_trip(p: Seq<u8>, i: int, si: SenderInfo)
    requires
        0 <= i,
        i + 24 <= p.len(),
        p.subrange(i, i + 24) == si.spec_bytes(),
    ensures
        SenderInfo::spec_parse(p, i) == si,
{
    let s = si.spec_bytes();
    assert(p.subrange(i, i + 4) =~= s.subrange(0, 4));
    assert(s.subrange(0, 4) =~= u32_bytes(si.ssrc.0));
    assert(p.subrange(i + 4, i + 12) =~= s.subrange(4, 12));
    assert(s.subrange(4, 12) =~= u64_bytes(si.ntp_time));
    assert(p.subrange(i + 12, i + 16) =~= s.subrange(12, 16));
    assert(s.subrange(12, 16) =~= u32_bytes(si.rtp_time));
    assert(p.subrange(i + 16, i + 20) =~= s.subrange(16, 20));
    assert(s.subrange(16, 20) =~= u32_bytes(si.sender_packet_count));
    assert(p.subrange(i + 20, i + 24) =~= s.subrange(20, 24));
    assert(s.subrange(20, 24) =~= u32_bytes(si.sender_octet_count));
    lemma_u32_at(p, i, si.ssrc.0);
    lemma_u64_at(p, i + 4, si.ntp_time);
    lemma_u32_at(p, i + 12, si.rtp_time);
    lemma_u32_at(p, i + 16, si.sender_packet_count);
    lemma_u32_at(p, i + 20, si.sender_octet_count);
}

/// A reception report block reads back as the report it was written from,
/// where its cumulative loss fits the 24-bit field.
pub proof fn lemma_receiver_report_round_trip(p: Seq<u8>, i: int, r: ReceiverReport)
    requires
        r.wf(),
        0 <= i,
        i + 24 <= p.len(),
        p.subrange(i, i + 24) == r.spec_bytes(),
    ensures
        ReceiverReport::spec_parse(p, i) == r,
{
    let s = r.spec_bytes();
    let fl = r.fraction_lost;
    let pl = r.packets_lost;
    let loss = (((fl as u32) << 24u32) | (pl & 0xff_ffffu32)) as u32;
    assert(p.subrange(i, i + 4) =~= s.subrange(0, 4));
    assert(s.subrange(0, 4) =~= u32_bytes(r.ssrc.0));
    assert(p.subrange(i + 8, i + 12) =~= s.subrange(8, 12));
    assert(s.subrange(8, 12) =~= u32_bytes(r.max_seq));
    assert(p.subrange(i + 12, i + 16) =~= s.subrange(12, 16));
    assert(s.subrange(12, 16) =~= u32_bytes(r.jitter));
    assert(p.subrange(i + 16, i + 20) =~= s.subrange(16, 20));
    assert(s.subrange(16, 20) =~= u32_bytes(r.last_sr_time));
    assert(p.subrange(i + 20, i + 24) =~= s.subrange(20, 24));
    assert(s.subrange(20, 24) =~= u32_bytes(r.last_sr_delay));
    lemma_u32_at(p, i, r.ssrc.0);
    lemma_u32_at(p, i + 8, r.max_seq);
    lemma_u32_at(p, i + 12, r.jitter);
    lemma_u32_at(p, i + 16, r.last_sr_time);
    lemma_u32_at(p, i + 20, r.last_sr_delay);
    let (a, b, c, d) = (p[i + 4], p[i + 5], p[i + 6], p[i + 7]);
    assert(a == s[4] && b == s[5] && c == s[6] && d == s[7]);
    assert(a == fl && (((b as u32) << 16u32) | ((c as u32) << 8u32) | (d as u32)) == pl)
        by (bit_vector)
        requires
            loss == ((fl as u32) << 24u32) | (pl & 0xff_ffffu32),
            a == (loss >> 24u32) as u8,
            b == (loss >> 16u32) as u8,
            c == (loss >> 8u32) as u8,
            d == loss as u8,
            pl < 0x100_0000u32,
    ;
    assert(read_u24(p, i + 5) == pl);
}

/// What the builder writes for a queue holding one sender info.
proof fn lemma_build_sender_info(si: SenderInfo, avail: int)
    requires
        avail >= 28,
    ensures
        build(seq![RtcpFb::SenderInfo(si)], avail).0 == sr_group(si, Seq::empty()),
{
    let q = seq![RtcpFb::SenderInfo(si)];
    let e = Seq::<RtcpFb>::empty();
    assert(sender_infos(e) =~= Seq::<SenderInfo>::empty());
    assert(receiver_reports(e) =~= Seq::<ReceiverReport>::empty());
    assert(goodbyes(e).len() == 0);
    assert(q.drop_last() =~= e);
    assert(q.last() == RtcpFb::SenderInfo(si));
    assert(sender_infos(q) =~= seq![si]);
    assert(receiver_reports(q) =~= Seq::<ReceiverReport>::empty());
    assert(goodbyes(q).len() == 0);
    let r = report_groups(seq![si], Seq::empty(), avail);
    assert(seq![si].drop_first() =~= Seq::<SenderInfo>::empty());
    assert(Seq::<ReceiverReport>::empty().take(0) =~= Seq::<ReceiverReport>::empty());
    assert(Seq::<ReceiverReport>::empty().skip(0) =~= Seq::<ReceiverReport>::empty());
    let inner = report_groups(Seq::<SenderInfo>::empty(), Seq::<ReceiverReport>::empty(), avail - 28);
    assert(inner.0 == Seq::<u8>::empty());
    assert(r.0 == sr_group(si, Seq::<ReceiverReport>::empty().take(0)) + inner.0);
    assert(r.0 =~= sr_group(si, Seq::empty()));
    assert(r.0 + bye_groups(goodbyes(q), avail - r.0.len()).0 =~= r.0);
}

/// What the builder writes for a queue holding one reception report.
proof fn lemma_build_receiver_report(rr: ReceiverReport, avail: int)
    requires
        avail >= 32,
    ensures
        build(seq![RtcpFb::ReceiverReport(rr)], avail).0 == rr_group(rr, Seq::empty()),
{
    let q = seq![RtcpFb::ReceiverReport(rr)];
    let e = Seq::<RtcpFb>::empty();
    assert(sender_infos(e) =~= Seq::<SenderInfo>::empty());
    assert(receiver_reports(e) =~= Seq::<ReceiverReport>::empty());
    assert(goodbyes(e).len() == 0);
    assert(q.drop_last() =~= e);
    assert(q.last() == RtcpFb::ReceiverReport(rr));
    assert(sender_infos(q) =~= Seq::<SenderInfo>::empty());
    assert(receiver_reports(q) =~= seq![rr]);
    assert(goodbyes(q).len() == 0);
    let r = report_groups(Seq::empty(), seq![rr], avail);
    assert(seq![rr].subrange(1, 1) =~= Seq::<ReceiverReport>::empty());
    assert(seq![rr].skip(1) =~= Seq::<ReceiverReport>::empty());
    let inner = report_groups(Seq::<SenderInfo>::empty(), Seq::<ReceiverReport>::empty(), avail - 32);
    assert(inner.0 == Seq::<u8>::empty());
    assert(r.0 == rr_group(rr, seq![rr].subrange(1, 1)) + inner.0);
    assert(r.0 =~= rr_group(rr, Seq::empty()));
    assert(r.0 + bye_groups(goodbyes(q), avail - r.0.len()).0 =~= r.0);
}

/// What the builder writes for a reception report queued before a sender
/// info: one sender report carrying the reception report.
proof fn lemma_build_receiver_report_sender_info(rr: ReceiverReport, si: SenderInfo, avail: int)
    requires
        avail >= 52,
    ensures
        build(seq![RtcpFb::ReceiverReport(rr), RtcpFb::SenderInfo(si)], avail).0 == sr_group(
            si,
            seq![rr],
        ),
{
    let q = seq![RtcpFb::ReceiverReport(rr), RtcpFb::SenderInfo(si)];
    let q1 = seq![RtcpFb::ReceiverReport(rr)];
    assert(q.drop_last() =~= q1);
    let e = Seq::<RtcpFb>::empty();
    assert(sender_infos(e) =~= Seq::<SenderInfo>::empty());
    assert(receiver_reports(e) =~= Seq::<ReceiverReport>::empty());
    assert(goodbyes(e).len() == 0);
    assert(q1.drop_last() =~= e);
    assert(q1.last() == RtcpFb::ReceiverReport(rr));
    assert(q.last() == RtcpFb::SenderInfo(si));
    assert(sender_infos(q1) =~= Seq::<SenderInfo>::empty());
    assert(sender_infos(q) =~= seq![si]);
    assert(receiver_reports(q1) =~= seq![rr]);
    assert(receiver_reports(q) =~= seq![rr]);
    assert(goodbyes(q1).len() == 0);
    assert(goodbyes(q).len() == 0);
    assert((avail - 28) / 24 >= 1);
    let r = report_groups(seq![si], seq![rr], avail);
    assert(seq![si].drop_first() =~= Seq::<SenderInfo>::empty());
    assert(seq![rr].take(1) =~= seq![rr]);
    assert(seq![rr].skip(1) =~= Seq::<ReceiverReport>::empty());
    let inner = report_groups(Seq::<SenderInfo>::empty(), Seq::<ReceiverReport>::empty(), avail - 52);
    assert(inner.0 == Seq::<u8>::empty());
    assert(r.0 == sr_group(si, seq![rr].take(1)) + inner.0);
    assert(r.0 =~= sr_group(si, seq![rr]));
    assert(r.0 + bye_groups(goodbyes(q), avail - r.0.len()).0 =~= r.0);
}

proof fn lemma_sr_group_len(si: SenderInfo, rrs: Seq<ReceiverReport>)
    requires
        rrs.len() <= 31,
    ensures
        sr_group(si, rrs).len() == 28 + 24 * rrs.len(),
{
    reveal(sr_group);
    lemma_rr_blocks_len(rrs);
}

/// Encoding one sender info alone takes 28 bytes; one reception report
/// alone takes 32; a reception report together with a sender info, in
/// either order, takes 52, the report riding in the sender report.
pub proof fn lemma_group_sizes(si: SenderInfo, rr: ReceiverReport, avail: int)
    ensures
        avail >= 28 ==> build(seq![RtcpFb::SenderInfo(si)], avail).0.len() == 28,
        avail >= 32 ==> build(seq![RtcpFb::ReceiverReport(rr)], avail).0.len() == 32,
        avail >= 52 ==> build(
            seq![RtcpFb::ReceiverReport(rr), RtcpFb::SenderInfo(si)],
            avail,
        ).0.len() == 52,
{
    if avail >= 28 {
        lemma_build_sender_info(si, avail);
        lemma_sr_group_len(si, Seq::empty());
    }
    if avail >= 32 {
        lemma_build_receiver_report(rr, avail);
        reveal(rr_group);
        lemma_rr_blocks_len(Seq::empty());
    }
    if avail >= 52 {
        lemma_build_receiver_report_sender_info(rr, si, avail);
        lemma_sr_group_len(si, seq![rr]);
    }
}

/// Decoding what the builder wrote for one sender info gives back that
/// sender info, and nothing else.
pub proof fn lemma_sender_info_encode_decode(si: SenderInfo, avail: int)
    requires
        avail >= 28,
    ensures
        decode_all(build(seq![RtcpFb::SenderInfo(si)], avail).0) == seq![FbView::SenderInfo(si)],
{
    lemma_build_sender_info(si, avail);
    reveal(sr_group);
    let fb = RtcpFb::SenderInfo(si);
    let h = fb.spec_as_header(0, 28);
    let body = fb.spec_body() + rr_blocks(Seq::empty());
    let b = h.spec_bytes() + body;
    assert(rr_blocks(Seq::<ReceiverReport>::empty()) =~= Seq::<u8>::empty());
    assert(sr_group(si, Seq::empty()) =~= b);
    lemma_header_round_trip(h, body);
    assert(b.len() == 28);
    let ph = parse_header(b, false).unwrap();
    assert(b.take(28) =~= b);
    assert(b.subrange(4, 28) =~= si.spec_bytes());
    lemma_sender_info_round_trip(b, 4, si);
    assert(report_blocks(b, 28, 0) =~= Seq::<FbView>::empty());
    assert(packet_items(ph, b) =~= seq![FbView::SenderInfo(si)]);
    assert(b.skip(28).len() == 0);
    assert(decode_all(b.skip(28)) == Seq::<FbView>::empty());
    assert(decode_all(b) =~= seq![FbView::SenderInfo(si)]);
}

/// Decoding what the builder wrote for one reception report gives back
/// that report, and nothing else.
pub proof fn lemma_receiver_report_encode_decode(rr: ReceiverReport, avail: int)
    requires
        rr.wf(),
        avail >= 32,
    ensures
        decode_all(build(seq![RtcpFb::ReceiverReport(rr)], avail).0) == seq![
            FbView::ReceiverReport(rr),
        ],
{
    lemma_build_receiver_report(rr, avail);
    reveal(rr_group);
    let fb = RtcpFb::ReceiverReport(rr);
    let h = fb.spec_as_header(1, 32);
    let body = fb.spec_body() + rr_blocks(Seq::empty());
    let b = h.spec_bytes() + body;
    assert(rr_blocks(Seq::<ReceiverReport>::empty()) =~= Seq::<u8>::empty());
    assert(rr_group(rr, Seq::empty()) =~= b);
    lemma_header_round_trip(h, body);
    assert(b.len() == 32);
    let ph = parse_header(b, false).unwrap();
    assert(b.take(32) =~= b);
    assert(b.subrange(8, 32) =~= rr.spec_bytes());
    lemma_receiver_report_round_trip(b, 8, rr);
    assert(report_blocks(b, 8, 1) =~= seq![FbView::ReceiverReport(rr)]);
    assert(packet_items(ph, b) =~= seq![FbView::ReceiverReport(rr)]);
    assert(b.skip(32).len() == 0);
    assert(decode_all(b.skip(32)) == Seq::<FbView>::empty());
    assert(decode_all(b) =~= seq![FbView::ReceiverReport(rr)]);
}

} // verus!

use std::collections::VecDeque;

use rtcp::{
    FeedbackMessageType, Nack, NackEntry, PayloadType, ReceiverReport, RtcpFb, RtcpHeader,
    RtcpType, Sdes, SenderInfo, Ssrc,
};

const NOW: u64 = 0xe5a1_2b3c_4d5e_6f70;

fn sr(ssrc: u32, ntp_time: u64) -> RtcpFb {
    RtcpFb::SenderInfo(SenderInfo {
        ssrc: Ssrc(ssrc),
        ntp_time,
        rtp_time: 4,
        sender_packet_count: 5,
        sender_octet_count: 6,
    })
}

fn rr(ssrc: u32) -> RtcpFb {
    RtcpFb::ReceiverReport(ReceiverReport {
        ssrc: Ssrc(ssrc),
        fraction_lost: 3,
        packets_lost: 1234,
        max_seq: 4000,
        jitter: 5,
        last_sr_time: 12,
        last_sr_delay: 1,
    })
}

#[test]
fn test_sr() {
    let mut buf = vec![0; 1200];

    let now = NOW;

    let mut fb = VecDeque::new();
    fb.push_back(sr(1, now));

    let n = RtcpFb::build_feedback(&mut fb, &mut buf);
    buf.truncate(n);
    assert_eq!(n, 28);

    let mut iter = RtcpFb::feedback(&buf).into_iter();

    assert_eq!(iter.next(), Some(sr(1, now)));
}

#[test]
fn test_rr() {
    let mut buf = vec![0; 1200];

    let mut fb = VecDeque::new();
    fb.push_back(rr(2));

    let n = RtcpFb::build_feedback(&mut fb, &mut buf);
    buf.truncate(n);
    assert_eq!(n, 32);

    let mut iter = RtcpFb::feedback(&buf).into_iter();

    assert_eq!(iter.next(), Some(rr(2)));
}

#[test]
fn test_sr_rr() {
    let mut buf = vec![0; 1200];

    let now = NOW;

    let mut fb = VecDeque::new();
    fb.push_back(rr(2));
    fb.push_back(sr(1, now));

    let n = RtcpFb::build_feedback(&mut fb, &mut buf);
    buf.truncate(n);
    assert_eq!(n, 52);

    let mut iter = RtcpFb::feedback(&buf).into_iter();

    assert_eq!(iter.next(), Some(sr(1, now)));
    assert_eq!(iter.next(), Some(rr(2)));
}

#[test]
fn test_sr_rr_more_than_31() {
    let mut buf = vec![0; 1200];

    let now = NOW;

    let mut fb = VecDeque::new();
    for i in 0..33 {
        fb.push_back(rr(i + 2));
    }
    fb.push_back(sr(1, now));

    let n = RtcpFb::build_feedback(&mut fb, &mut buf);
    buf.truncate(n);
    assert_eq!(n, 828);

    let mut iter = RtcpFb::feedback(&buf).into_iter();

    assert_eq!(iter.next(), Some(sr(1, now)));
    for i in 0..33 {
        fb.push_back(rr(i + 2));
    }
}

#[test]
fn more_than_31_decodes_every_report_in_order() {
    let mut buf = vec![0; 1200];
    let mut fb = VecDeque::new();
    for i in 0..33 {
        fb.push_back(rr(i + 2));
    }
    fb.push_back(sr(1, NOW));
    let n = RtcpFb::build_feedback(&mut fb, &mut buf);
    assert!(fb.is_empty());
    buf.truncate(n);
    let out = RtcpFb::feedback(&buf);
    assert_eq!(out.len(), 34);
    assert_eq!(out[0], sr(1, NOW));
    for i in 0..33 {
        assert_eq!(out[i + 1], rr(i as u32 + 2));
    }
    // The first packet is a sender report with 31 reports, the second a
    // receiver report with 2.
    assert_eq!(buf[0], 0x80 | 31);
    assert_eq!(buf[1], 200);
    assert_eq!(buf[772], 0x80 | 2);
    assert_eq!(buf[773], 201);
}

#[test]
fn receiver_reports_alone_are_capped_at_31_per_packet() {
    let mut buf = vec![0; 2000];
    let mut fb = VecDeque::new();
    for i in 0..40 {
        fb.push_back(rr(i));
    }
    let n = RtcpFb::build_feedback(&mut fb, &mut buf);
    // 32 + 30 * 24 for the first packet, 32 + 8 * 24 for the second.
    assert_eq!(n, 752 + 224);
    assert_eq!(buf[0], 0x80 | 31);
    assert_eq!(buf[752], 0x80 | 9);
    assert_eq!(RtcpFb::feedback(&buf[..n]).len(), 40);
}

#[test]
fn sender_info_bytes_on_the_wire() {
    let mut buf = vec![0xaa; 40];
    let mut fb = VecDeque::new();
    fb.push_back(sr(0x0102_0304, 0x1112_1314_1516_1718));
    let n = RtcpFb::build_feedback(&mut fb, &mut buf);
    assert_eq!(n, 28);
    assert_eq!(
        &buf[..28],
        &[
            0x80, 200, 0, 6, 1, 2, 3, 4, 0x11, 0x12, 0x13, 0x14, 0x15, 0x16, 0x17, 0x18, 0, 0, 0,
            4, 0, 0, 0, 5, 0, 0, 0, 6
        ]
    );
    // The rest of the buffer is left alone.
    assert!(buf[28..].iter().all(|b| *b == 0xaa));
}

#[test]
fn receiver_report_bytes_on_the_wire() {
    let mut buf = vec![0; 32];
    let mut fb = VecDeque::new();
    fb.push_back(rr(9));
    assert_eq!(RtcpFb::build_feedback(&mut fb, &mut buf), 32);
    assert_eq!(
        buf,
        vec![
            0x81, 201, 0, 7, 0, 0, 0, 0, 0, 0, 0, 9, 3, 0, 0x04, 0xd2, 0, 0, 0x0f, 0xa0, 0, 0, 0,
            5, 0, 0, 0, 12, 0, 0, 0, 1
        ]
    );
}

#[test]
fn insufficient_buffer_leaves_queue_untouched() {
    let mut buf = vec![0; 27];
    let mut fb = VecDeque::new();
    fb.push_back(rr(2));
    fb.push_back(sr(1, NOW));
    let n = RtcpFb::build_feedback(&mut fb, &mut buf);
    assert_eq!(n, 0);
    assert_eq!(fb.len(), 2);
    assert_eq!(fb[0], rr(2));
    assert_eq!(fb[1], sr(1, NOW));

    let mut buf = vec![0; 31];
    let mut fb = VecDeque::new();
    fb.push_back(rr(2));
    assert_eq!(RtcpFb::build_feedback(&mut fb, &mut buf), 0);
    assert_eq!(fb.len(), 1);
}

#[test]
fn partial_flush_keeps_the_rest_sorted() {
    // Room for the sender report and one reception report only.
    let mut buf = vec![0; 60];
    let mut fb = VecDeque::new();
    fb.push_back(RtcpFb::Goodbye(Ssrc(7)));
    fb.push_back(rr(2));
    fb.push_back(rr(3));
    fb.push_back(sr(1, NOW));
    let n = RtcpFb::build_feedback(&mut fb, &mut buf);
    assert_eq!(n, 52);
    assert_eq!(fb.len(), 2);
    assert_eq!(fb[0], rr(3));
    assert_eq!(fb[1], RtcpFb::Goodbye(Ssrc(7)));
}

#[test]
fn goodbyes_are_grouped() {
    let mut buf = vec![0; 100];
    let mut fb = VecDeque::new();
    fb.push_back(RtcpFb::Goodbye(Ssrc(7)));
    fb.push_back(RtcpFb::Pli(Ssrc(3)));
    fb.push_back(RtcpFb::Goodbye(Ssrc(8)));
    fb.push_back(RtcpFb::Goodbye(Ssrc(9)));
    let n = RtcpFb::build_feedback(&mut fb, &mut buf);
    assert_eq!(n, 16);
    assert_eq!(&buf[..4], &[0x80 | 3, 203, 0, 3]);
    // Picture loss indications are not encoded and stay queued.
    assert_eq!(fb.len(), 1);
    assert_eq!(fb[0], RtcpFb::Pli(Ssrc(3)));
    let out = RtcpFb::feedback(&buf[..n]);
    assert_eq!(
        out,
        vec![RtcpFb::Goodbye(Ssrc(7)), RtcpFb::Goodbye(Ssrc(8)), RtcpFb::Goodbye(Ssrc(9))]
    );
}

#[test]
fn nothing_encodable_writes_nothing() {
    let mut buf = vec![0; 100];
    let mut fb = VecDeque::new();
    fb.push_back(RtcpFb::Fir(Ssrc(1)));
    fb.push_back(RtcpFb::Pli(Ssrc(2)));
    assert_eq!(RtcpFb::build_feedback(&mut fb, &mut buf), 0);
    assert_eq!(fb.len(), 2);
    assert_eq!(fb[0], RtcpFb::Fir(Ssrc(1)));
}

#[test]
fn header_too_short_or_bad_version() {
    assert!(RtcpHeader::parse(&[0x80, 200, 0, 6, 0, 0, 0], false).is_none());
    assert!(RtcpHeader::parse(&[], false).is_none());
    assert!(RtcpHeader::parse(&[0x40, 200, 0, 6, 0, 0, 0, 1], false).is_none());
    assert!(RtcpHeader::parse(&[0xc0, 200, 0, 6, 0, 0, 0, 1], false).is_none());
    assert!(RtcpHeader::parse(&[0x80, 199, 0, 6, 0, 0, 0, 1], false).is_none());
    // Transport feedback with an unknown kind.
    assert!(RtcpHeader::parse(&[0x82, 205, 0, 2, 0, 0, 0, 1], false).is_none());
}

#[test]
fn header_fields() {
    let h = RtcpHeader::parse(&[0xa1, 201, 0, 7, 1, 2, 3, 4], false).unwrap();
    assert_eq!(h.version, 2);
    assert!(h.has_padding);
    assert_eq!(h.fmt, FeedbackMessageType::ReceptionReport(1));
    assert_eq!(h.packet_type, RtcpType::ReceiverReport);
    assert_eq!(h.length, 32);
    assert_eq!(h.ssrc, Ssrc(0x0102_0304));
    let h = RtcpHeader::parse(&[0x84, 206, 0, 4, 0, 0, 0, 0], false).unwrap();
    assert_eq!(h.fmt, FeedbackMessageType::PayloadFeedback(PayloadType::FullIntraRequest));
    assert_eq!(h.length, 20);
}

#[test]
fn srtcp_requires_report_first() {
    let bye = [0x81, 203, 0, 1, 0, 0, 0, 7];
    assert!(RtcpHeader::parse(&bye, false).is_some());
    assert!(RtcpHeader::parse(&bye, true).is_none());
    let rr_only = [0x80, 201, 0, 1, 0, 0, 0, 0];
    assert!(RtcpHeader::parse(&rr_only, true).is_some());
}

#[test]
fn length_is_recomputed_on_decode() {
    let mut buf = vec![0; 200];
    let mut fb = VecDeque::new();
    fb.push_back(sr(1, NOW));
    fb.push_back(rr(2));
    fb.push_back(rr(3));
    let n = RtcpFb::build_feedback(&mut fb, &mut buf);
    assert_eq!(n % 4, 0);
    let h = RtcpHeader::parse(&buf, false).unwrap();
    assert_eq!(h.length, 76);
    assert_eq!(h.length, n);
}

#[test]
fn decode_feedback_kinds() {
    let buf = [
        // Generic NACK with two entries for media SSRC 5.
        0x81, 205, 0, 4, 0, 0, 0, 0, 0, 0, 0, 5, 0, 10, 0, 1, 0, 20, 0, 3, //
        // Picture loss indication for SSRC 6.
        0x81, 206, 0, 2, 0, 0, 0, 0, 0, 0, 0, 6, //
        // Full intra request for SSRC 7.
        0x84, 206, 0, 4, 0, 0, 0, 0, 0, 0, 0, 0, 0, 0, 0, 7, 1, 0, 0, 0, //
        // Source description: one chunk with a CNAME item.
        0x81, 202, 0, 3, 0, 0, 0, 8, 1, 3, b'a', b'b', b'c', 0, 0, 0,
    ];
    let out = RtcpFb::feedback(&buf);
    assert_eq!(
        out,
        vec![
            RtcpFb::Nack(Nack {
                ssrc: Ssrc(5),
                reports: vec![NackEntry { pid: 10, blp: 1 }, NackEntry { pid: 20, blp: 3 }],
            }),
            RtcpFb::Pli(Ssrc(6)),
            RtcpFb::Fir(Ssrc(7)),
            RtcpFb::Sdes(Sdes { ssrc: Ssrc(8) }),
        ]
    );
    assert_eq!(out[1].ssrc(), Ssrc(6));
}

#[test]
fn decode_stops_at_corrupt_tail() {
    let mut buf = vec![0; 100];
    let mut fb = VecDeque::new();
    fb.push_back(rr(2));
    let n = RtcpFb::build_feedback(&mut fb, &mut buf);
    buf.truncate(n);
    buf.extend_from_slice(&[0x40, 200, 0, 6, 0, 0, 0, 0]);
    assert_eq!(RtcpFb::feedback(&buf), vec![rr(2)]);
    // A packet that claims more bytes than there are is dropped.
    let short = [0x81, 203, 0, 5, 0, 0, 0, 7];
    assert!(RtcpFb::feedback(&short).is_empty());
}

#[test]
fn ssrc_and_ord_no() {
    assert_eq!(sr(4, NOW).ssrc(), Ssrc(4));
    assert_eq!(rr(5).ssrc(), Ssrc(5));
    assert_eq!(RtcpFb::Goodbye(Ssrc(6)).ssrc(), Ssrc(6));
    assert_eq!(sr(4, NOW).ord_no(), 0);
    assert_eq!(RtcpFb::Fir(Ssrc(1)).ord_no(), 6);
    assert_eq!(RtcpType::ReceiverReport.header_len(), 8);
    assert_eq!(RtcpType::Goodbye.header_len(), 4);
    assert_eq!(RtcpType::from_u8(207), Some(RtcpType::ExtendedReport));
    assert_eq!(RtcpType::from_u8(208), None);
}

#[test]
fn round_trip_extreme_values() {
    let si = RtcpFb::SenderInfo(SenderInfo {
        ssrc: Ssrc(u32::MAX),
        ntp_time: u64::MAX,
        rtp_time: 0,
        sender_packet_count: u32::MAX,
        sender_octet_count: 1,
    });
    let r = RtcpFb::ReceiverReport(ReceiverReport {
        ssrc: Ssrc(0),
        fraction_lost: 255,
        packets_lost: 0xff_ffff,
        max_seq: u32::MAX,
        jitter: 0,
        last_sr_time: u32::MAX,
        last_sr_delay: 7,
    });
    let mut buf = vec![0; 52];
    let mut fb = VecDeque::new();
    fb.push_back(r);
    fb.push_back(si);
    let n = RtcpFb::build_feedback(&mut fb, &mut buf);
    assert_eq!(n, 52);
    let out = RtcpFb::feedback(&buf);
    assert_eq!(out.len(), 2);
    assert_eq!(out[0].ssrc(), Ssrc(u32::MAX));
    assert!(matches!(&out[0], RtcpFb::SenderInfo(s) if s.ntp_time == u64::MAX));
    assert!(matches!(&out[1], RtcpFb::ReceiverReport(x) if x.packets_lost == 0xff_ffff && x.fraction_lost == 255));
}

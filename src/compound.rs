use vstd::prelude::*;

use std::collections::VecDeque;

use crate::bytes::{lemma_splice_concat, splice, u32_bytes};
use crate::feedback::{RtcpFb, BYE_MIN_LEN, RR_MIN_LEN, SR_MIN_LEN};
use crate::header::MAX_COUNT;
use crate::report::{ReceiverReport, SenderInfo, Ssrc, RR_LEN};

verus! {

/// The smaller of `a` and `b`.
pub open spec fn smaller(a: int, b: int) -> int {
    if a < b {
        a
    } else {
        b
    }
}

/// The sender infos of `q`, in queue order.
pub open spec fn sender_infos(q: Seq<RtcpFb>) -> Seq<SenderInfo>
    decreases q.len(),
{
    if q.len() == 0 {
        Seq::empty()
    } else {
        let p = sender_infos(q.drop_last());
        match q.last() {
            RtcpFb::SenderInfo(s) => p.push(s),
            _ => p,
        }
    }
}

/// The reception reports of `q`, in queue order.
pub open spec fn receiver_reports(q: Seq<RtcpFb>) -> Seq<ReceiverReport>
    decreases q.len(),
{
    if q.len() == 0 {
        Seq::empty()
    } else {
        let p = receiver_reports(q.drop_last());
        match q.last() {
            RtcpFb::ReceiverReport(r) => p.push(r),
            _ => p,
        }
    }
}

/// The goodbyes of `q`, in queue order.
pub open spec fn goodbyes(q: Seq<RtcpFb>) -> Seq<Ssrc>
    decreases q.len(),
{
    if q.len() == 0 {
        Seq::empty()
    } else {
        let p = goodbyes(q.drop_last());
        match q.last() {
            RtcpFb::Goodbye(s) => p.push(s),
            _ => p,
        }
    }
}

/// The messages of `q` whose kind has position `k`, in queue order.
pub open spec fn of_kind(q: Seq<RtcpFb>, k: usize) -> Seq<RtcpFb>
    decreases q.len(),
{
    if q.len() == 0 {
        Seq::empty()
    } else {
        let p = of_kind(q.drop_last(), k);
        if q.last().spec_ord_no() == k {
            p.push(q.last())
        } else {
            p
        }
    }
}

/// The messages that are never encoded (source descriptions, negative
/// acknowledgements, picture loss and full intra requests), sorted by kind.
pub open spec fn unencoded(q: Seq<RtcpFb>) -> Seq<RtcpFb> {
    of_kind(q, 3) + of_kind(q, 4) + of_kind(q, 5) + of_kind(q, 6)
}

/// A queue sorted by kind: sender infos, reception reports, goodbyes, then
/// the rest.
pub open spec fn sorted_queue(
    si: Seq<SenderInfo>,
    rr: Seq<ReceiverReport>,
    gb: Seq<Ssrc>,
    rest: Seq<RtcpFb>,
) -> Seq<RtcpFb> {
    si.map_values(|s: SenderInfo| RtcpFb::SenderInfo(s)) + rr.map_values(
        |r: ReceiverReport| RtcpFb::ReceiverReport(r),
    ) + gb.map_values(|s: Ssrc| RtcpFb::Goodbye(s)) + rest
}

pub open spec fn rr_blocks(rrs: Seq<ReceiverReport>) -> Seq<u8>
    decreases rrs.len(),
{
    if rrs.len() == 0 {
        Seq::empty()
    } else {
        rr_blocks(rrs.drop_last()) + rrs.last().spec_bytes()
    }
}

pub open spec fn ssrc_blocks(s: Seq<Ssrc>) -> Seq<u8>
    decreases s.len(),
{
    if s.len() == 0 {
        Seq::empty()
    } else {
        ssrc_blocks(s.drop_last()) + u32_bytes(s.last().0)
    }
}

/// A sender report: the sender info followed by `rrs`.
#[verifier::opaque]
pub open spec fn sr_group(si: SenderInfo, rrs: Seq<ReceiverReport>) -> Seq<u8> {
    let fb = RtcpFb::SenderInfo(si);
    fb.spec_as_header(rrs.len() as u8, (SR_MIN_LEN + RR_LEN * rrs.len()) as usize).spec_bytes()
        + fb.spec_body() + rr_blocks(rrs)
}

/// A receiver report: `first` followed by `rrs`.
#[verifier::opaque]
pub open spec fn rr_group(first: ReceiverReport, rrs: Seq<ReceiverReport>) -> Seq<u8> {
    let fb = RtcpFb::ReceiverReport(first);
    fb.spec_as_header((rrs.len() + 1) as u8, (RR_MIN_LEN + RR_LEN * rrs.len()) as usize).spec_bytes()
        + fb.spec_body() + rr_blocks(rrs)
}

/// A goodbye packet: `first` followed by `rest`.
#[verifier::opaque]
pub open spec fn bye_group(first: Ssrc, rest: Seq<Ssrc>) -> Seq<u8> {
    let fb = RtcpFb::Goodbye(first);
    fb.spec_as_header((rest.len() + 1) as u8, (BYE_MIN_LEN + 4 * rest.len()) as usize).spec_bytes()
        + fb.spec_body() + ssrc_blocks(rest)
}

/// Sender and receiver reports written into `avail` bytes: the bytes, and
/// the sender infos and reception reports left over.
pub open spec fn report_groups(si: Seq<SenderInfo>, rr: Seq<ReceiverReport>, avail: int) -> (
    Seq<u8>,
    Seq<SenderInfo>,
    Seq<ReceiverReport>,
)
    decreases si.len() + rr.len(),
{
    if si.len() > 0 {
        if avail < SR_MIN_LEN {
            (Seq::empty(), si, rr)
        } else {
            let k = smaller(smaller(rr.len() as int, MAX_COUNT as int), (avail - SR_MIN_LEN) / 24);
            let r = report_groups(si.drop_first(), rr.skip(k), avail - SR_MIN_LEN - 24 * k);
            (sr_group(si[0], rr.take(k)) + r.0, r.1, r.2)
        }
    } else if rr.len() > 0 {
        if avail < RR_MIN_LEN {
            (Seq::empty(), si, rr)
        } else {
            let k = smaller(
                smaller(rr.len() - 1, MAX_COUNT - 1),
                (avail - RR_MIN_LEN) / 24,
            );
            let r = report_groups(si, rr.skip(k + 1), avail - RR_MIN_LEN - 24 * k);
            (rr_group(rr[0], rr.subrange(1, k + 1)) + r.0, r.1, r.2)
        }
    } else {
        (Seq::empty(), si, rr)
    }
}

/// Goodbye packets written into `avail` bytes: the bytes, and the goodbyes
/// left over.
pub open spec fn bye_groups(gb: Seq<Ssrc>, avail: int) -> (Seq<u8>, Seq<Ssrc>)
    decreases gb.len(),
{
    if gb.len() > 0 {
        if avail < BYE_MIN_LEN {
            (Seq::empty(), gb)
        } else {
            let k = smaller(smaller(gb.len() - 1, MAX_COUNT - 1), (avail - BYE_MIN_LEN) / 4);
            let r = bye_groups(gb.skip(k + 1), avail - BYE_MIN_LEN - 4 * k);
            (bye_group(gb[0], gb.subrange(1, k + 1)) + r.0, r.1)
        }
    } else {
        (Seq::empty(), gb)
    }
}

/// Not even one packet led by the first message of the sorted queue fits
/// into `avail` bytes (or no message can be encoded at all).
pub open spec fn nothing_fits(q: Seq<RtcpFb>, avail: int) -> bool {
    if sender_infos(q).len() > 0 {
        avail < SR_MIN_LEN
    } else if receiver_reports(q).len() > 0 {
        avail < RR_MIN_LEN
    } else if goodbyes(q).len() > 0 {
        avail < BYE_MIN_LEN
    } else {
        true
    }
}

/// What `build_feedback` does with queue `q` and `avail` bytes of buffer:
/// the bytes written, and the queue afterwards.
pub open spec fn build(q: Seq<RtcpFb>, avail: int) -> (Seq<u8>, Seq<RtcpFb>) {
    if nothing_fits(q, avail) {
        (Seq::empty(), q)
    } else {
        let r = report_groups(sender_infos(q), receiver_reports(q), avail);
        if r.1.len() > 0 || r.2.len() > 0 {
            (r.0, sorted_queue(r.1, r.2, goodbyes(q), unencoded(q)))
        } else {
            let g = bye_groups(goodbyes(q), avail - r.0.len());
            (r.0 + g.0, sorted_queue(r.1, r.2, g.1, unencoded(q)))
        }
    }
}

pub proof fn lemma_rr_blocks_len(rrs: Seq<ReceiverReport>)
    ensures
        rr_blocks(rrs).len() == 24 * rrs.len(),
    decreases rrs.len(),
{
    if rrs.len() > 0 {
        lemma_rr_blocks_len(rrs.drop_last());
    }
}

pub proof fn lemma_ssrc_blocks_len(s: Seq<Ssrc>)
    ensures
        ssrc_blocks(s).len() == 4 * s.len(),
    decreases s.len(),
{
    if s.len() > 0 {
        lemma_ssrc_blocks_len(s.drop_last());
    }
}

/// Pops `k` reception reports off `rr` and writes them one after the other
/// from `at` on.
fn write_rr_blocks(rr: &mut VecDeque<ReceiverReport>, k: usize, buf: &mut [u8], at: usize)
    requires
        k <= old(rr)@.len(),
        at + 24 * k <= old(buf)@.len(),
    ensures
        final(rr)@ == old(rr)@.skip(k as int),
        final(buf)@ == splice(old(buf)@, at as int, rr_blocks(old(rr)@.take(k as int))),
{
    let ghost rr0 = rr@;
    let ghost b0 = buf@;
    let _n = buf.len();
    let mut i: usize = 0;
    assert(rr0.take(0) =~= Seq::<ReceiverReport>::empty());
    assert(splice(b0, at as int, Seq::empty()) =~= b0);
    while i < k
        invariant
            i <= k,
            k <= rr0.len(),
            at + 24 * k <= b0.len(),
            b0.len() <= usize::MAX,
            buf@.len() == b0.len(),
            rr@ == rr0.skip(i as int),
            buf@ == splice(b0, at as int, rr_blocks(rr0.take(i as int))),
        decreases k - i,
    {
        let r = rr.pop_front().unwrap();
        proof {
            lemma_rr_blocks_len(rr0.take(i as int));
            assert(rr0.take(i + 1).drop_last() =~= rr0.take(i as int));
            assert(rr@ =~= rr0.skip(i + 1));
            assert(24 * i + 24 <= 24 * k) by (nonlinear_arith)
                requires
                    i < k,
            ;
        }
        r.write_to(buf, at + 24 * i);
        proof {
            lemma_splice_concat(b0, at as int, rr_blocks(rr0.take(i as int)), r.spec_bytes());
        }
        i = i + 1;
    }
}

/// Pops `k` SSRCs off `gb` and writes them one after the other from `at` on.
fn write_ssrc_blocks(gb: &mut VecDeque<Ssrc>, k: usize, buf: &mut [u8], at: usize)
    requires
        k <= old(gb)@.len(),
        at + 4 * k <= old(buf)@.len(),
    ensures
        final(gb)@ == old(gb)@.skip(k as int),
        final(buf)@ == splice(old(buf)@, at as int, ssrc_blocks(old(gb)@.take(k as int))),
{
    let ghost gb0 = gb@;
    let ghost b0 = buf@;
    let _n = buf.len();
    let mut i: usize = 0;
    assert(gb0.take(0) =~= Seq::<Ssrc>::empty());
    assert(splice(b0, at as int, Seq::empty()) =~= b0);
    while i < k
        invariant
            i <= k,
            k <= gb0.len(),
            at + 4 * k <= b0.len(),
            b0.len() <= usize::MAX,
            buf@.len() == b0.len(),
            gb@ == gb0.skip(i as int),
            buf@ == splice(b0, at as int, ssrc_blocks(gb0.take(i as int))),
        decreases k - i,
    {
        let s = gb.pop_front().unwrap();
        proof {
            lemma_ssrc_blocks_len(gb0.take(i as int));
            assert(gb0.take(i + 1).drop_last() =~= gb0.take(i as int));
            assert(gb@ =~= gb0.skip(i + 1));
            assert(4 * i + 4 <= 4 * k) by (nonlinear_arith)
                requires
                    i < k,
            ;
        }
        s.write_to(buf, at + 4 * i);
        proof {
            lemma_splice_concat(b0, at as int, ssrc_blocks(gb0.take(i as int)), u32_bytes(s.0));
        }
        i = i + 1;
    }
}

/// Whether not even the first packet of the sorted queue fits.
fn fits_nothing(q: &VecDeque<RtcpFb>, avail: usize) -> (r: bool)
    ensures
        r == nothing_fits(q@, avail as int),
{
    let mut has_si = false;
    let mut has_rr = false;
    let mut has_gb = false;
    let mut i: usize = 0;
    while i < q.len()
        invariant
            i <= q@.len(),
            has_si == (sender_infos(q@.take(i as int)).len() > 0),
            has_rr == (receiver_reports(q@.take(i as int)).len() > 0),
            has_gb == (goodbyes(q@.take(i as int)).len() > 0),
        decreases q@.len() - i,
    {
        proof {
            assert(q@.take(i + 1).drop_last() =~= q@.take(i as int));
        }
        match &q[i] {
            RtcpFb::SenderInfo(_) => has_si = true,
            RtcpFb::ReceiverReport(_) => has_rr = true,
            RtcpFb::Goodbye(_) => has_gb = true,
            _ => {},
        }
        i = i + 1;
    }
    assert(q@.take(i as int) =~= q@);
    if has_si {
        avail < SR_MIN_LEN
    } else if has_rr {
        avail < RR_MIN_LEN
    } else if has_gb {
        avail < BYE_MIN_LEN
    } else {
        true
    }
}

/// Empties `q` into its sender infos, reception reports, goodbyes and the
/// rest sorted by kind; each part keeps queue order.
fn split_by_kind(q: &mut VecDeque<RtcpFb>) -> (r: (
    VecDeque<SenderInfo>,
    VecDeque<ReceiverReport>,
    VecDeque<Ssrc>,
    VecDeque<RtcpFb>,
))
    ensures
        final(q)@ == Seq::<RtcpFb>::empty(),
        r.0@ == sender_infos(old(q)@),
        r.1@ == receiver_reports(old(q)@),
        r.2@ == goodbyes(old(q)@),
        r.3@ == unencoded(old(q)@),
{
    let ghost q0 = q@;
    let mut si: VecDeque<SenderInfo> = VecDeque::new();
    let mut rr: VecDeque<ReceiverReport> = VecDeque::new();
    let mut gb: VecDeque<Ssrc> = VecDeque::new();
    let mut sdes: VecDeque<RtcpFb> = VecDeque::new();
    let mut nack: VecDeque<RtcpFb> = VecDeque::new();
    let mut pli: VecDeque<RtcpFb> = VecDeque::new();
    let mut fir: VecDeque<RtcpFb> = VecDeque::new();
    let ghost mut i: int = 0;
    assert(q0.skip(0) =~= q0);
    while q.len() > 0
        invariant
            0 <= i <= q0.len(),
            q@ == q0.skip(i),
            si@ == sender_infos(q0.take(i)),
            rr@ == receiver_reports(q0.take(i)),
            gb@ == goodbyes(q0.take(i)),
            sdes@ == of_kind(q0.take(i), 3),
            nack@ == of_kind(q0.take(i), 4),
            pli@ == of_kind(q0.take(i), 5),
            fir@ == of_kind(q0.take(i), 6),
        decreases q@.len(),
    {
        let f = q.pop_front().unwrap();
        proof {
            assert(q0.take(i + 1).drop_last() =~= q0.take(i));
            assert(q0.take(i + 1).last() == f);
            assert(q@ =~= q0.skip(i + 1));
            i = i + 1;
        }
        match f {
            RtcpFb::SenderInfo(s) => si.push_back(s),
            RtcpFb::ReceiverReport(r) => rr.push_back(r),
            RtcpFb::Goodbye(s) => gb.push_back(s),
            RtcpFb::Sdes(_) => sdes.push_back(f),
            RtcpFb::Nack(_) => nack.push_back(f),
            RtcpFb::Pli(_) => pli.push_back(f),
            RtcpFb::Fir(_) => fir.push_back(f),
        }
    }
    assert(q0.take(i) =~= q0);
    sdes.append(&mut nack);
    sdes.append(&mut pli);
    sdes.append(&mut fir);
    (si, rr, gb, sdes)
}

/// Puts back what was not written, sorted by kind.
fn refill(
    q: &mut VecDeque<RtcpFb>,
    si: VecDeque<SenderInfo>,
    rr: VecDeque<ReceiverReport>,
    gb: VecDeque<Ssrc>,
    rest: VecDeque<RtcpFb>,
)
    requires
        old(q)@ == Seq::<RtcpFb>::empty(),
    ensures
        final(q)@ == sorted_queue(si@, rr@, gb@, rest@),
{
    let ghost (si0, rr0, gb0) = (si@, rr@, gb@);
    let (mut si, mut rr, mut gb, mut rest) = (si, rr, gb, rest);
    let ghost mut i: int = 0;
    assert(si0.take(0).map_values(|s: SenderInfo| RtcpFb::SenderInfo(s)) =~= q@);
    while si.len() > 0
        invariant
            0 <= i <= si0.len(),
            si@ == si0.skip(i),
            q@ == si0.take(i).map_values(|s: SenderInfo| RtcpFb::SenderInfo(s)),
        decreases si@.len(),
    {
        let s = si.pop_front().unwrap();
        q.push_back(RtcpFb::SenderInfo(s));
        proof {
            assert(si0.take(i + 1).map_values(|s: SenderInfo| RtcpFb::SenderInfo(s)) =~= q@);
            assert(si@ =~= si0.skip(i + 1));
            i = i + 1;
        }
    }
    assert(si0.take(i) =~= si0);
    let ghost q1 = q@;
    proof {
        i = 0;
    }
    assert(q1 + rr0.take(0).map_values(|r: ReceiverReport| RtcpFb::ReceiverReport(r)) =~= q@);
    while rr.len() > 0
        invariant
            0 <= i <= rr0.len(),
            rr@ == rr0.skip(i),
            q@ == q1 + rr0.take(i).map_values(|r: ReceiverReport| RtcpFb::ReceiverReport(r)),
        decreases rr@.len(),
    {
        let r = rr.pop_front().unwrap();
        q.push_back(RtcpFb::ReceiverReport(r));
        proof {
            assert(q1 + rr0.take(i + 1).map_values(|r: ReceiverReport| RtcpFb::ReceiverReport(r))
                =~= q@);
            assert(rr@ =~= rr0.skip(i + 1));
            i = i + 1;
        }
    }
    assert(rr0.take(i) =~= rr0);
    let ghost q2 = q@;
    proof {
        i = 0;
    }
    assert(q2 + gb0.take(0).map_values(|s: Ssrc| RtcpFb::Goodbye(s)) =~= q@);
    while gb.len() > 0
        invariant
            0 <= i <= gb0.len(),
            gb@ == gb0.skip(i),
            q@ == q2 + gb0.take(i).map_values(|s: Ssrc| RtcpFb::Goodbye(s)),
        decreases gb@.len(),
    {
        let s = gb.pop_front().unwrap();
        q.push_back(RtcpFb::Goodbye(s));
        proof {
            assert(q2 + gb0.take(i + 1).map_values(|s: Ssrc| RtcpFb::Goodbye(s)) =~= q@);
            assert(gb@ =~= gb0.skip(i + 1));
            i = i + 1;
        }
    }
    assert(gb0.take(i) =~= gb0);
    q.append(&mut rest);
}

/// Writes a sender report led by `s` and carrying the first `k` reports of
/// `rr`, which it pops, from `at` on.
fn write_sr_group(s: SenderInfo, rr: &mut VecDeque<ReceiverReport>, k: usize, buf: &mut [u8], at: usize)
    requires
        k <= old(rr)@.len(),
        k <= MAX_COUNT,
        at + SR_MIN_LEN + 24 * k <= old(buf)@.len(),
    ensures
        final(rr)@ == old(rr)@.skip(k as int),
        final(buf)@ == splice(old(buf)@, at as int, sr_group(s, old(rr)@.take(k as int))),
        sr_group(s, old(rr)@.take(k as int)).len() == SR_MIN_LEN + 24 * k,
{
    let _n = buf.len();
    let ghost b0 = buf@;
    let ghost rr0 = rr@;
    let length = SR_MIN_LEN + RR_LEN * k;
    let fb = RtcpFb::SenderInfo(s);
    let header = fb.as_header(k as u8, length);
    header.write_to(buf, at);
    fb.write_to(buf, at + header.len());
    write_rr_blocks(rr, k, buf, at + SR_MIN_LEN);
    proof {
        reveal(sr_group);
        let hb = header.spec_bytes();
        let body = fb.spec_body();
        let bl = rr_blocks(rr0.take(k as int));
        lemma_rr_blocks_len(rr0.take(k as int));
        lemma_splice_concat(b0, at as int, hb, body);
        lemma_splice_concat(b0, at as int, hb + body, bl);
    }
}

/// Writes a receiver report led by `first` and carrying the first `k`
/// reports of `rr`, which it pops, from `at` on.
fn write_rr_group(
    first: ReceiverReport,
    rr: &mut VecDeque<ReceiverReport>,
    k: usize,
    buf: &mut [u8],
    at: usize,
)
    requires
        k <= old(rr)@.len(),
        k < MAX_COUNT,
        at + RR_MIN_LEN + 24 * k <= old(buf)@.len(),
    ensures
        final(rr)@ == old(rr)@.skip(k as int),
        final(buf)@ == splice(old(buf)@, at as int, rr_group(first, old(rr)@.take(k as int))),
        rr_group(first, old(rr)@.take(k as int)).len() == RR_MIN_LEN + 24 * k,
{
    let _n = buf.len();
    let ghost b0 = buf@;
    let ghost rr0 = rr@;
    let length = RR_MIN_LEN + RR_LEN * k;
    let fb = RtcpFb::ReceiverReport(first);
    let header = fb.as_header((k + 1) as u8, length);
    header.write_to(buf, at);
    fb.write_to(buf, at + header.len());
    write_rr_blocks(rr, k, buf, at + RR_MIN_LEN);
    proof {
        reveal(rr_group);
        let hb = header.spec_bytes();
        let body = fb.spec_body();
        let bl = rr_blocks(rr0.take(k as int));
        lemma_rr_blocks_len(rr0.take(k as int));
        lemma_splice_concat(b0, at as int, hb, body);
        lemma_splice_concat(b0, at as int, hb + body, bl);
    }
}

/// Writes a goodbye packet led by `first` and carrying the first `k` SSRCs
/// of `gb`, which it pops, from `at` on.
fn write_bye_group(first: Ssrc, gb: &mut VecDeque<Ssrc>, k: usize, buf: &mut [u8], at: usize)
    requires
        k <= old(gb)@.len(),
        k < MAX_COUNT,
        at + BYE_MIN_LEN + 4 * k <= old(buf)@.len(),
    ensures
        final(gb)@ == old(gb)@.skip(k as int),
        final(buf)@ == splice(old(buf)@, at as int, bye_group(first, old(gb)@.take(k as int))),
        bye_group(first, old(gb)@.take(k as int)).len() == BYE_MIN_LEN + 4 * k,
{
    let _n = buf.len();
    let ghost b0 = buf@;
    let ghost gb0 = gb@;
    let length = BYE_MIN_LEN + 4 * k;
    let fb = RtcpFb::Goodbye(first);
    let header = fb.as_header((k + 1) as u8, length);
    header.write_to(buf, at);
    fb.write_to(buf, at + header.len());
    write_ssrc_blocks(gb, k, buf, at + BYE_MIN_LEN);
    proof {
        reveal(bye_group);
        let hb = header.spec_bytes();
        let body = fb.spec_body();
        let bl = ssrc_blocks(gb0.take(k as int));
        lemma_ssrc_blocks_len(gb0.take(k as int));
        lemma_splice_concat(b0, at as int, hb, body);
        lemma_splice_concat(b0, at as int, hb + body, bl);
    }
}

/// Writes the first packet of the report phase: a sender report where a
/// sender info is left, else a receiver report. `None` where it does not
/// fit, with nothing changed.
fn report_step(
    si: &mut VecDeque<SenderInfo>,
    rr: &mut VecDeque<ReceiverReport>,
    buf: &mut [u8],
    at: usize,
) -> (r: Option<usize>)
    requires
        old(si)@.len() > 0 || old(rr)@.len() > 0,
        at <= old(buf)@.len(),
    ensures
        ({
            let avail = old(buf)@.len() - at;
            let full = report_groups(old(si)@, old(rr)@, avail);
            match r {
                None => {
                    &&& full == (Seq::<u8>::empty(), old(si)@, old(rr)@)
                    &&& final(buf)@ == old(buf)@
                    &&& final(si)@ == old(si)@
                    &&& final(rr)@ == old(rr)@
                },
                Some(len) => {
                    let g = final(buf)@.subrange(at as int, at + len);
                    let rest = report_groups(final(si)@, final(rr)@, avail - len);
                    &&& at + len <= old(buf)@.len()
                    &&& len % 4 == 0
                    &&& final(buf)@ == splice(old(buf)@, at as int, g)
                    &&& full == (g + rest.0, rest.1, rest.2)
                    &&& final(si)@.len() + final(rr)@.len() < old(si)@.len() + old(rr)@.len()
                },
            }
        }),
{
    let n = buf.len();
    let avail = n - at;
    let ghost b0 = buf@;
    let ghost si0 = si@;
    let ghost rr0 = rr@;
    if si.len() > 0 {
        if avail < SR_MIN_LEN {
            return None;
        }
        let s = si.pop_front().unwrap();
        let mut k = rr.len();
        if k > MAX_COUNT as usize {
            k = MAX_COUNT as usize;
        }
        if k > (avail - SR_MIN_LEN) / RR_LEN {
            k = (avail - SR_MIN_LEN) / RR_LEN;
        }
        assert(RR_LEN * k <= avail - SR_MIN_LEN) by (nonlinear_arith)
            requires
                k <= (avail - SR_MIN_LEN) / 24,
                avail >= SR_MIN_LEN,
        ;
        // Length of the sender info and the reports that ride with it.
        let length = SR_MIN_LEN + RR_LEN * k;
        write_sr_group(s, rr, k, buf, at);
        proof {
            let g = sr_group(s, rr0.take(k as int));
            assert(buf@.subrange(at as int, at + length) =~= g);
            assert(si@ =~= si0.drop_first());
        }
        Some(length)
    } else {
        if avail < RR_MIN_LEN {
            return None;
        }
        let first = rr.pop_front().unwrap();
        let ghost rr_mid = rr@;
        let mut k = rr.len();
        if k > (MAX_COUNT - 1) as usize {
            k = (MAX_COUNT - 1) as usize;
        }
        if k > (avail - RR_MIN_LEN) / RR_LEN {
            k = (avail - RR_MIN_LEN) / RR_LEN;
        }
        assert(RR_LEN * k <= avail - RR_MIN_LEN) by (nonlinear_arith)
            requires
                k <= (avail - RR_MIN_LEN) / 24,
                avail >= RR_MIN_LEN,
        ;
        // Length of the first report and the ones that ride with it.
        let length = RR_MIN_LEN + RR_LEN * k;
        write_rr_group(first, rr, k, buf, at);
        proof {
            let extra = rr0.subrange(1, k + 1);
            assert(rr_mid.take(k as int) =~= extra);
            assert(rr@ =~= rr0.skip(k + 1));
            assert(buf@.subrange(at as int, at + length) =~= rr_group(first, extra));
        }
        Some(length)
    }
}

/// Writes the first goodbye packet. `None` where it does not fit, with
/// nothing changed.
fn bye_step(gb: &mut VecDeque<Ssrc>, buf: &mut [u8], at: usize) -> (r: Option<usize>)
    requires
        old(gb)@.len() > 0,
        at <= old(buf)@.len(),
    ensures
        ({
            let avail = old(buf)@.len() - at;
            let full = bye_groups(old(gb)@, avail);
            match r {
                None => {
                    &&& full == (Seq::<u8>::empty(), old(gb)@)
                    &&& final(buf)@ == old(buf)@
                    &&& final(gb)@ == old(gb)@
                },
                Some(len) => {
                    let g = final(buf)@.subrange(at as int, at + len);
                    let rest = bye_groups(final(gb)@, avail - len);
                    &&& at + len <= old(buf)@.len()
                    &&& len % 4 == 0
                    &&& final(buf)@ == splice(old(buf)@, at as int, g)
                    &&& full == (g + rest.0, rest.1)
                    &&& final(gb)@.len() < old(gb)@.len()
                },
            }
        }),
{
    let n = buf.len();
    let avail = n - at;
    let ghost gb0 = gb@;
    if avail < BYE_MIN_LEN {
        return None;
    }
    let first = gb.pop_front().unwrap();
    let ghost gb_mid = gb@;
    let mut k = gb.len();
    if k > (MAX_COUNT - 1) as usize {
        k = (MAX_COUNT - 1) as usize;
    }
    if k > (avail - BYE_MIN_LEN) / 4 {
        k = (avail - BYE_MIN_LEN) / 4;
    }
    assert(4 * k <= avail - BYE_MIN_LEN) by (nonlinear_arith)
        requires
            k <= (avail - BYE_MIN_LEN) / 4,
            avail >= BYE_MIN_LEN,
    ;
    // Length of the first goodbye and the ones that ride with it.
    let length = BYE_MIN_LEN + 4 * k;
    write_bye_group(first, gb, k, buf, at);
    proof {
        let extra = gb0.subrange(1, k + 1);
        assert(gb_mid.take(k as int) =~= extra);
        assert(gb@ =~= gb0.skip(k + 1));
        assert(buf@.subrange(at as int, at + length) =~= bye_group(first, extra));
    }
    Some(length)
}

impl RtcpFb {
    /// Writes as much of the queue as fits into `buf` as one compound
    /// packet and returns the number of bytes written.
    ///
    /// The queue is sorted by kind (sender infos, reception reports,
    /// goodbyes, then the rest, each kind in queue order). Each sender info
    /// leads a sender report and takes up to 31 reception reports with it;
    /// reception reports left over form receiver reports of up to 31 blocks.
    /// Goodbyes follow in packets of up to 31 SSRCs, once every report has
    /// been written. Writing stops at the first packet that does not fit.
    /// What was not written stays in the queue, in sorted order; source
    /// descriptions, negative acknowledgements, picture loss and full intra
    /// requests are never written and always stay. Where not even the first
    /// packet fits, nothing is written and the queue is left as it was.
    #[must_use]
    pub fn build_feedback(feedback: &mut VecDeque<Self>, buf: &mut [u8]) -> (r: usize)
        ensures
            r == build(old(feedback)@, old(buf)@.len() as int).0.len(),
            final(buf)@ == splice(old(buf)@, 0, build(old(feedback)@, old(buf)@.len() as int).0),
            final(feedback)@ == build(old(feedback)@, old(buf)@.len() as int).1,
            r <= old(buf)@.len(),
            r % 4 == 0,
            nothing_fits(old(feedback)@, old(buf)@.len() as int) ==> r == 0 && final(feedback)@
                == old(feedback)@,
    {
        let n = buf.len();
        if fits_nothing(feedback, n) {
            assert(splice(buf@, 0, Seq::empty()) =~= buf@);
            return 0;
        }
        let ghost q0 = feedback@;
        let ghost b0 = buf@;
        let (mut si, mut rr, mut gb, rest) = split_by_kind(feedback);
        let ghost si0 = si@;
        let ghost rr0 = rr@;
        let ghost gb0 = gb@;
        let mut abs: usize = 0;
        let ghost mut written: Seq<u8> = Seq::empty();
        assert(splice(b0, 0, Seq::empty()) =~= b0);
        assert(written + report_groups(si0, rr0, n as int).0 =~= report_groups(si0, rr0, n as int).0);
        while si.len() > 0 || rr.len() > 0
            invariant
                n == b0.len(),
                abs <= n,
                abs % 4 == 0,
                written.len() == abs,
                buf@ == splice(b0, 0, written),
                report_groups(si0, rr0, n as int).0 == written + report_groups(si@, rr@, n - abs).0,
                report_groups(si0, rr0, n as int).1 == report_groups(si@, rr@, n - abs).1,
                report_groups(si0, rr0, n as int).2 == report_groups(si@, rr@, n - abs).2,
            ensures
                n == b0.len(),
                abs <= n,
                abs % 4 == 0,
                written.len() == abs,
                buf@ == splice(b0, 0, written),
                report_groups(si0, rr0, n as int) == (written, si@, rr@),
            decreases si@.len() + rr@.len(),
        {
            let ghost w_before = written;
            let ghost b_before = buf@;
            match report_step(&mut si, &mut rr, buf, abs) {
                None => {
                    assert(written + Seq::empty() =~= written);
                    break;
                },
                Some(length) => {
                    proof {
                        let g = buf@.subrange(abs as int, abs + length);
                        lemma_splice_concat(b0, 0, written, g);
                        written = written + g;
                        let r = report_groups(si@, rr@, n - abs - length);
                        assert(w_before + (g + r.0) =~= written + r.0);
                    }
                    abs = abs + length;
                },
            }
        }
        if si.len() > 0 || rr.len() > 0 {
            refill(feedback, si, rr, gb, rest);
            return abs;
        }
        let ghost rlen = abs as int;
        let ghost reports = written;
        let ghost mut byes: Seq<u8> = Seq::empty();
        assert(reports + byes =~= written);
        assert(byes + bye_groups(gb0, n - rlen).0 =~= bye_groups(gb0, n - rlen).0);
        while gb.len() > 0
            invariant
                n == b0.len(),
                rlen <= abs <= n,
                abs % 4 == 0,
                reports.len() == rlen,
                byes.len() == abs - rlen,
                buf@ == splice(b0, 0, reports + byes),
                bye_groups(gb0, n - rlen).0 == byes + bye_groups(gb@, n - abs).0,
                bye_groups(gb0, n - rlen).1 == bye_groups(gb@, n - abs).1,
            ensures
                rlen <= abs <= n,
                abs % 4 == 0,
                byes.len() == abs - rlen,
                buf@ == splice(b0, 0, reports + byes),
                bye_groups(gb0, n - rlen) == (byes, gb@),
            decreases gb@.len(),
        {
            let ghost y_before = byes;
            match bye_step(&mut gb, buf, abs) {
                None => {
                    assert(byes + Seq::empty() =~= byes);
                    break;
                },
                Some(length) => {
                    proof {
                        let g = buf@.subrange(abs as int, abs + length);
                        lemma_splice_concat(b0, 0, reports + byes, g);
                        assert(reports + byes + g =~= reports + (byes + g));
                        byes = byes + g;
                        let r = bye_groups(gb@, n - abs - length);
                        assert(y_before + (g + r.0) =~= byes + r.0);
                    }
                    abs = abs + length;
                },
            }
        }
        refill(feedback, si, rr, gb, rest);
        abs
    }
}

} // verus!

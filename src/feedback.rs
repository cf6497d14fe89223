use vstd::prelude::*;

use crate::bytes::{splice, u32_bytes};
use crate::header::{FeedbackMessageType, PayloadType, RtcpHeader, RtcpType, TransportType};
use crate::report::{Nack, NackEntry, ReceiverReport, Sdes, SenderInfo, Ssrc, RR_LEN, SR_LEN};

verus! {

/// One feedback message, as exchanged with the session layer.
#[derive(Debug, PartialEq, Eq)]
pub enum RtcpFb {
    SenderInfo(SenderInfo),
    ReceiverReport(ReceiverReport),
    Sdes(Sdes),
    Goodbye(Ssrc),
    Nack(Nack),
    Pli(Ssrc),
    Fir(Ssrc),
}

/// A feedback message as a mathematical value.
pub enum FbView {
    SenderInfo(SenderInfo),
    ReceiverReport(ReceiverReport),
    Sdes(Sdes),
    Goodbye(Ssrc),
    Nack(Ssrc, Seq<NackEntry>),
    Pli(Ssrc),
    Fir(Ssrc),
}

impl View for RtcpFb {
    type V = FbView;

    open spec fn view(&self) -> FbView {
        match self {
            RtcpFb::SenderInfo(v) => FbView::SenderInfo(*v),
            RtcpFb::ReceiverReport(v) => FbView::ReceiverReport(*v),
            RtcpFb::Sdes(v) => FbView::Sdes(*v),
            RtcpFb::Goodbye(v) => FbView::Goodbye(*v),
            RtcpFb::Nack(v) => FbView::Nack(v.ssrc, v.reports@),
            RtcpFb::Pli(v) => FbView::Pli(*v),
            RtcpFb::Fir(v) => FbView::Fir(*v),
        }
    }
}

/// Bytes needed by a sender report holding only its sender info.
pub const SR_MIN_LEN: usize = 28;

/// Bytes needed by a receiver report holding one report block.
pub const RR_MIN_LEN: usize = 32;

/// Bytes needed by a goodbye packet holding one SSRC.
pub const BYE_MIN_LEN: usize = 8;

impl RtcpFb {
    /// Position of the message's kind in a compound packet.
    pub open spec fn spec_ord_no(&self) -> usize {
        match self {
            RtcpFb::SenderInfo(_) => 0,
            RtcpFb::ReceiverReport(_) => 1,
            RtcpFb::Goodbye(_) => 2,
            RtcpFb::Sdes(_) => 3,
            RtcpFb::Nack(_) => 4,
            RtcpFb::Pli(_) => 5,
            RtcpFb::Fir(_) => 6,
        }
    }

    pub fn ord_no(&self) -> (r: usize)
        ensures
            r == self.spec_ord_no(),
    {
        match self {
            RtcpFb::SenderInfo(_) => 0,
            RtcpFb::ReceiverReport(_) => 1,
            RtcpFb::Goodbye(_) => 2,
            RtcpFb::Sdes(_) => 3,
            RtcpFb::Nack(_) => 4,
            RtcpFb::Pli(_) => 5,
            RtcpFb::Fir(_) => 6,
        }
    }

    pub open spec fn spec_ssrc(&self) -> Ssrc {
        match self {
            RtcpFb::SenderInfo(v) => v.ssrc,
            RtcpFb::ReceiverReport(v) => v.ssrc,
            RtcpFb::Sdes(v) => v.ssrc,
            RtcpFb::Goodbye(v) => *v,
            RtcpFb::Nack(v) => v.ssrc,
            RtcpFb::Pli(v) => *v,
            RtcpFb::Fir(v) => *v,
        }
    }

    /// The SSRC that the message is about.
    pub fn ssrc(&self) -> (r: Ssrc)
        ensures
            r == self.spec_ssrc(),
    {
        match self {
            RtcpFb::SenderInfo(v) => v.ssrc,
            RtcpFb::ReceiverReport(v) => v.ssrc,
            RtcpFb::Sdes(v) => v.ssrc,
            RtcpFb::Goodbye(v) => *v,
            RtcpFb::Nack(v) => v.ssrc,
            RtcpFb::Pli(v) => *v,
            RtcpFb::Fir(v) => *v,
        }
    }

    /// Messages whose bodies this library can encode: sender info,
    /// reception reports and goodbyes. The other kinds are decode-only.
    pub open spec fn is_encodable(&self) -> bool {
        self is SenderInfo || self is ReceiverReport || self is Goodbye
    }

    /// The body bytes that `write_to` produces.
    pub open spec fn spec_body(&self) -> Seq<u8> {
        match self {
            RtcpFb::SenderInfo(v) => v.spec_bytes(),
            RtcpFb::ReceiverReport(v) => v.spec_bytes(),
            RtcpFb::Goodbye(v) => u32_bytes(v.0),
            _ => Seq::empty(),
        }
    }

    pub open spec fn spec_body_len(&self) -> usize {
        match self {
            RtcpFb::SenderInfo(_) => SR_LEN,
            RtcpFb::ReceiverReport(_) => RR_LEN,
            _ => 4,
        }
    }

    /// Writes the message's body into `buf` from `at` on.
    pub fn write_to(&self, buf: &mut [u8], at: usize)
        requires
            self.is_encodable(),
            at + self.spec_body_len() <= old(buf)@.len(),
        ensures
            final(buf)@ == splice(old(buf)@, at as int, self.spec_body()),
            self.spec_body().len() == self.spec_body_len(),
    {
        match self {
            RtcpFb::SenderInfo(v) => v.write_to(buf, at),
            RtcpFb::ReceiverReport(v) => v.write_to(buf, at),
            RtcpFb::Goodbye(v) => v.write_to(buf, at),
            _ => {},
        }
    }

    /// The header that starts a packet led by this message.
    pub open spec fn spec_as_header(&self, count: u8, length: usize) -> RtcpHeader {
        let (fmt, packet_type, ssrc) = match self {
            RtcpFb::SenderInfo(v) => (
                FeedbackMessageType::ReceptionReport(count),
                RtcpType::SenderReport,
                v.ssrc,
            ),
            RtcpFb::ReceiverReport(_) => (
                FeedbackMessageType::ReceptionReport(count),
                RtcpType::ReceiverReport,
                Ssrc(0),
            ),
            RtcpFb::Sdes(_) => (
                FeedbackMessageType::SourceCount(count),
                RtcpType::SourceDescription,
                Ssrc(0),
            ),
            RtcpFb::Goodbye(_) => (
                FeedbackMessageType::SourceCount(count),
                RtcpType::Goodbye,
                Ssrc(0),
            ),
            RtcpFb::Nack(_) => (
                FeedbackMessageType::TransportFeedback(TransportType::Nack),
                RtcpType::TransportLayerFeedback,
                Ssrc(0),
            ),
            RtcpFb::Pli(_) => (
                FeedbackMessageType::PayloadFeedback(PayloadType::PictureLossIndication),
                RtcpType::PayloadSpecificFeedback,
                Ssrc(0),
            ),
            RtcpFb::Fir(_) => (
                FeedbackMessageType::PayloadFeedback(PayloadType::FullIntraRequest),
                RtcpType::PayloadSpecificFeedback,
                Ssrc(0),
            ),
        };
        RtcpHeader { version: 2, has_padding: false, fmt, packet_type, length, ssrc }
    }

    pub fn as_header(&self, count: u8, length: usize) -> (r: RtcpHeader)
        ensures
            r == self.spec_as_header(count, length),
    {
        let (fmt, packet_type, ssrc) = match self {
            RtcpFb::SenderInfo(v) => (
                FeedbackMessageType::ReceptionReport(count),
                RtcpType::SenderReport,
                v.ssrc,
            ),
            RtcpFb::ReceiverReport(_) => (
                FeedbackMessageType::ReceptionReport(count),
                RtcpType::ReceiverReport,
                Ssrc(0),
            ),
            RtcpFb::Sdes(_) => (
                FeedbackMessageType::SourceCount(count),
                RtcpType::SourceDescription,
                Ssrc(0),
            ),
            RtcpFb::Goodbye(_) => (
                FeedbackMessageType::SourceCount(count),
                RtcpType::Goodbye,
                Ssrc(0),
            ),
            RtcpFb::Nack(_) => (
                FeedbackMessageType::TransportFeedback(TransportType::Nack),
                RtcpType::TransportLayerFeedback,
                Ssrc(0),
            ),
            RtcpFb::Pli(_) => (
                FeedbackMessageType::PayloadFeedback(PayloadType::PictureLossIndication),
                RtcpType::PayloadSpecificFeedback,
                Ssrc(0),
            ),
            RtcpFb::Fir(_) => (
                FeedbackMessageType::PayloadFeedback(PayloadType::FullIntraRequest),
                RtcpType::PayloadSpecificFeedback,
                Ssrc(0),
            ),
        };
        RtcpHeader { version: 2, has_padding: false, fmt, packet_type, length, ssrc }
    }
}

} // verus!

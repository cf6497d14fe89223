use vstd::prelude::*;

use crate::bytes::{get_u16, get_u32, put_u16, put_u32, read_u16, read_u32, splice, u16_bytes, u32_bytes, lemma_splice_concat};
use crate::report::Ssrc;

verus! {

/// Kind of RTCP packet.
#[derive(Debug, Clone, Copy, PartialEq, Eq, Structural)]
pub enum RtcpType {
    SenderReport,
    ReceiverReport,
    SourceDescription,
    Goodbye,
    ApplicationDefined,
    TransportLayerFeedback,
    PayloadSpecificFeedback,
    ExtendedReport,
}

/// Transport layer feedback kinds that are recognized.
#[derive(Debug, Clone, Copy, PartialEq, Eq, Structural)]
pub enum TransportType {
    Nack,
}

/// Payload specific feedback kinds that are recognized.
#[derive(Debug, Clone, Copy, PartialEq, Eq, Structural)]
pub enum PayloadType {
    PictureLossIndication,
    FullIntraRequest,
}

/// The meaning of the 5-bit format field, which depends on the packet type.
#[derive(Debug, Clone, Copy, PartialEq, Eq, Structural)]
pub enum FeedbackMessageType {
    ReceptionReport(u8),
    SourceCount(u8),
    Subtype(u8),
    TransportFeedback(TransportType),
    PayloadFeedback(PayloadType),
    NotUsed,
}

/// Largest value of a 5-bit count field.
pub const MAX_COUNT: u8 = 31;

/// Largest packet length that the 16-bit length field can express.
pub const MAX_LENGTH: usize = 262144;

impl RtcpType {
    /// The packet type code on the wire.
    pub open spec fn spec_code(self) -> u8 {
        match self {
            RtcpType::SenderReport => 200,
            RtcpType::ReceiverReport => 201,
            RtcpType::SourceDescription => 202,
            RtcpType::Goodbye => 203,
            RtcpType::ApplicationDefined => 204,
            RtcpType::TransportLayerFeedback => 205,
            RtcpType::PayloadSpecificFeedback => 206,
            RtcpType::ExtendedReport => 207,
        }
    }

    pub fn code(&self) -> (r: u8)
        ensures
            r == self.spec_code(),
    {
        match self {
            RtcpType::SenderReport => 200,
            RtcpType::ReceiverReport => 201,
            RtcpType::SourceDescription => 202,
            RtcpType::Goodbye => 203,
            RtcpType::ApplicationDefined => 204,
            RtcpType::TransportLayerFeedback => 205,
            RtcpType::PayloadSpecificFeedback => 206,
            RtcpType::ExtendedReport => 207,
        }
    }

    /// Header length in bytes: 8 where the SSRC after the first four bytes
    /// belongs to the header, 4 where it belongs to the body.
    pub open spec fn spec_header_len(self) -> usize {
        match self {
            RtcpType::ReceiverReport | RtcpType::TransportLayerFeedback
            | RtcpType::PayloadSpecificFeedback | RtcpType::ExtendedReport => 8,
            _ => 4,
        }
    }

    pub fn header_len(&self) -> (r: usize)
        ensures
            r == self.spec_header_len(),
    {
        match self {
            // The sender SSRC is the actual sender info SSRC.
            RtcpType::SenderReport => 4,
            // The first SSRC is the "sender", which is useless and sent as 0.
            RtcpType::ReceiverReport => 8,
            // The first SSRC is part of the chunks of SDES.
            RtcpType::SourceDescription => 4,
            // The first SSRC is an actual goodbye.
            RtcpType::Goodbye => 4,
            RtcpType::ApplicationDefined => 4,
            // The first SSRC is the "sender", which is useless and sent as 0.
            RtcpType::TransportLayerFeedback => 8,
            RtcpType::PayloadSpecificFeedback => 8,
            RtcpType::ExtendedReport => 8,
        }
    }

    pub open spec fn spec_from_u8(v: u8) -> Option<RtcpType> {
        if v == 200 {
            Some(RtcpType::SenderReport)
        } else if v == 201 {
            Some(RtcpType::ReceiverReport)
        } else if v == 202 {
            Some(RtcpType::SourceDescription)
        } else if v == 203 {
            Some(RtcpType::Goodbye)
        } else if v == 204 {
            Some(RtcpType::ApplicationDefined)
        } else if v == 205 {
            Some(RtcpType::TransportLayerFeedback)
        } else if v == 206 {
            Some(RtcpType::PayloadSpecificFeedback)
        } else if v == 207 {
            Some(RtcpType::ExtendedReport)
        } else {
            None
        }
    }

    pub fn from_u8(v: u8) -> (r: Option<Self>)
        ensures
            r == Self::spec_from_u8(v),
            r matches Some(t) ==> t.spec_code() == v,
    {
        match v {
            200 => Some(RtcpType::SenderReport),
            201 => Some(RtcpType::ReceiverReport),
            202 => Some(RtcpType::SourceDescription),
            203 => Some(RtcpType::Goodbye),
            204 => Some(RtcpType::ApplicationDefined),
            205 => Some(RtcpType::TransportLayerFeedback),
            206 => Some(RtcpType::PayloadSpecificFeedback),
            207 => Some(RtcpType::ExtendedReport),
            _ => None,
        }
    }
}

impl TransportType {
    pub open spec fn spec_from_u8(v: u8) -> Option<TransportType> {
        if v == 1 {
            Some(TransportType::Nack)
        } else {
            None
        }
    }

    pub fn from_u8(v: u8) -> (r: Option<Self>)
        ensures
            r == Self::spec_from_u8(v),
    {
        if v == 1 {
            Some(TransportType::Nack)
        } else {
            None
        }
    }
}

impl PayloadType {
    pub open spec fn spec_from_u8(v: u8) -> Option<PayloadType> {
        if v == 1 {
            Some(PayloadType::PictureLossIndication)
        } else if v == 4 {
            Some(PayloadType::FullIntraRequest)
        } else {
            None
        }
    }

    pub fn from_u8(v: u8) -> (r: Option<Self>)
        ensures
            r == Self::spec_from_u8(v),
    {
        if v == 1 {
            Some(PayloadType::PictureLossIndication)
        } else if v == 4 {
            Some(PayloadType::FullIntraRequest)
        } else {
            None
        }
    }
}

impl FeedbackMessageType {
    /// The 5-bit value of the format field.
    pub open spec fn spec_as_u8(self) -> u8 {
        match self {
            FeedbackMessageType::ReceptionReport(c) => c,
            FeedbackMessageType::SourceCount(c) => c,
            FeedbackMessageType::Subtype(c) => c,
            FeedbackMessageType::TransportFeedback(TransportType::Nack) => 1,
            FeedbackMessageType::PayloadFeedback(PayloadType::PictureLossIndication) => 1,
            FeedbackMessageType::PayloadFeedback(PayloadType::FullIntraRequest) => 4,
            FeedbackMessageType::NotUsed => 0,
        }
    }

    pub fn as_u8(&self) -> (r: u8)
        ensures
            r == self.spec_as_u8(),
    {
        match self {
            FeedbackMessageType::ReceptionReport(c) => *c,
            FeedbackMessageType::SourceCount(c) => *c,
            FeedbackMessageType::Subtype(c) => *c,
            FeedbackMessageType::TransportFeedback(TransportType::Nack) => 1,
            FeedbackMessageType::PayloadFeedback(PayloadType::PictureLossIndication) => 1,
            FeedbackMessageType::PayloadFeedback(PayloadType::FullIntraRequest) => 4,
            FeedbackMessageType::NotUsed => 0,
        }
    }

    /// How the 5-bit format value `n` reads for packet type `t`.
    pub open spec fn spec_decode(t: RtcpType, n: u8) -> Option<FeedbackMessageType> {
        match t {
            RtcpType::SenderReport | RtcpType::ReceiverReport => Some(
                FeedbackMessageType::ReceptionReport(n),
            ),
            RtcpType::SourceDescription | RtcpType::Goodbye => Some(
                FeedbackMessageType::SourceCount(n),
            ),
            RtcpType::ApplicationDefined => Some(FeedbackMessageType::Subtype(n)),
            RtcpType::TransportLayerFeedback => match TransportType::spec_from_u8(n) {
                Some(k) => Some(FeedbackMessageType::TransportFeedback(k)),
                None => None,
            },
            RtcpType::PayloadSpecificFeedback => match PayloadType::spec_from_u8(n) {
                Some(k) => Some(FeedbackMessageType::PayloadFeedback(k)),
                None => None,
            },
            RtcpType::ExtendedReport => Some(FeedbackMessageType::NotUsed),
        }
    }

    pub fn decode(t: RtcpType, n: u8) -> (r: Option<FeedbackMessageType>)
        ensures
            r == Self::spec_decode(t, n),
    {
        match t {
            RtcpType::SenderReport | RtcpType::ReceiverReport => Some(
                FeedbackMessageType::ReceptionReport(n),
            ),
            RtcpType::SourceDescription | RtcpType::Goodbye => Some(
                FeedbackMessageType::SourceCount(n),
            ),
            RtcpType::ApplicationDefined => Some(FeedbackMessageType::Subtype(n)),
            RtcpType::TransportLayerFeedback => match TransportType::from_u8(n) {
                Some(k) => Some(FeedbackMessageType::TransportFeedback(k)),
                None => None,
            },
            RtcpType::PayloadSpecificFeedback => match PayloadType::from_u8(n) {
                Some(k) => Some(FeedbackMessageType::PayloadFeedback(k)),
                None => None,
            },
            RtcpType::ExtendedReport => Some(FeedbackMessageType::NotUsed),
        }
    }
}

/// The common header of every RTCP packet.
#[derive(Debug, Clone, Copy, PartialEq, Eq, Structural)]
pub struct RtcpHeader {
    pub version: u8,
    pub has_padding: bool,
    pub fmt: FeedbackMessageType,
    pub packet_type: RtcpType,
    /// Length of the RTCP packet in bytes, including the header.
    pub length: usize,
    /// There is always an SSRC following the first 4 bytes; sometimes it
    /// counts towards the header, sometimes it does not.
    pub ssrc: Ssrc,
}

/// The first header byte: version 2, no padding, and the format value.
pub open spec fn first_byte(fmt: u8) -> u8 {
    (0x80u8 | fmt) as u8
}

/// The header that the bytes `b` start with, if they start with a valid one.
pub open spec fn parse_header(b: Seq<u8>, is_srtcp: bool) -> Option<RtcpHeader> {
    if b.len() < 8 || (b[0] >> 6u8) != 2 {
        None
    } else {
        match RtcpType::spec_from_u8(b[1]) {
            None => None,
            Some(t) => match FeedbackMessageType::spec_decode(t, b[0] & 0x1fu8) {
                None => None,
                Some(fmt) => if is_srtcp && t != RtcpType::SenderReport && t
                    != RtcpType::ReceiverReport {
                    None
                } else {
                    Some(
                        RtcpHeader {
                            version: 2,
                            has_padding: b[0] & 0x20u8 != 0,
                            fmt,
                            packet_type: t,
                            length: ((read_u16(b, 2) + 1) * 4) as usize,
                            ssrc: Ssrc(read_u32(b, 4)),
                        },
                    )
                },
            },
        }
    }
}

impl RtcpHeader {
    /// A header that can be written: a 5-bit format value and a length that
    /// is a non-zero multiple of 4 within what the length field expresses.
    pub open spec fn wf(self) -> bool {
        &&& self.fmt.spec_as_u8() <= MAX_COUNT
        &&& self.length % 4 == 0
        &&& 4 <= self.length <= MAX_LENGTH
    }

    pub open spec fn spec_len(self) -> usize {
        self.packet_type.spec_header_len()
    }

    /// The bytes that `write_to` puts at the start of the packet.
    pub open spec fn spec_bytes(self) -> Seq<u8> {
        seq![first_byte(self.fmt.spec_as_u8()), self.packet_type.spec_code()] + u16_bytes(
            (self.length / 4 - 1) as u16,
        ) + if self.spec_len() == 8 {
            u32_bytes(self.ssrc.0)
        } else {
            Seq::empty()
        }
    }

    pub fn parse(buf: &[u8], is_srtcp: bool) -> (r: Option<RtcpHeader>)
        ensures
            r == parse_header(buf@, is_srtcp),
            buf@.len() < 8 ==> r is None,
            buf@.len() >= 8 && (buf@[0] >> 6u8) != 2 ==> r is None,
            is_srtcp && buf@.len() >= 2 && buf@[1] == RtcpType::Goodbye.spec_code() ==> r is None,
    {
        if buf.len() < 8 {
            return None;
        }
        let version = buf[0] >> 6u8;
        if version != 2 {
            return None;
        }
        let has_padding = buf[0] & 0x20u8 != 0;
        let fmt_n = buf[0] & 0x1fu8;
        let packet_type = match RtcpType::from_u8(buf[1]) {
            Some(t) => t,
            None => return None,
        };
        let fmt = match FeedbackMessageType::decode(packet_type, fmt_n) {
            Some(f) => f,
            None => return None,
        };
        if is_srtcp && packet_type != RtcpType::SenderReport && packet_type
            != RtcpType::ReceiverReport {
            // The first packet of a compound SRTCP packet must be a report.
            return None;
        }
        // https://tools.ietf.org/html/rfc3550#section-6.4.1
        //   The length of this RTCP packet in 32-bit words minus one,
        //   including the header and any padding.
        let length = (get_u16(buf, 2) as usize + 1) * 4;
        // There is always an SSRC after the first 4 octets.
        let ssrc = Ssrc(get_u32(buf, 4));
        Some(RtcpHeader { version, has_padding, fmt, packet_type, length, ssrc })
    }

    pub fn len(&self) -> (r: usize)
        ensures
            r == self.spec_len(),
    {
        self.packet_type.header_len()
    }

    /// Writes the header into `buf` from `at` on; the SSRC only where it
    /// belongs to the header.
    pub fn write_to(&self, buf: &mut [u8], at: usize)
        requires
            self.wf(),
            at + self.spec_len() <= old(buf)@.len(),
        ensures
            final(buf)@ == splice(old(buf)@, at as int, self.spec_bytes()),
    {
        let ghost b0 = buf@;
        let _n = buf.len();
        let fmt = self.fmt.as_u8();
        buf[at] = 0x80u8 | fmt;
        buf[at + 1] = self.packet_type.code();
        let words = ((self.length / 4) - 1) as u16;
        put_u16(buf, at + 2, words);
        let ghost s0 = seq![first_byte(fmt), self.packet_type.spec_code()];
        assert(buf@ =~= splice(splice(b0, at as int, s0), at + 2, u16_bytes(words)));
        proof {
            lemma_splice_concat(b0, at as int, s0, u16_bytes(words));
        }
        if self.len() == 8 {
            put_u32(buf, at + 4, self.ssrc.0);
            proof {
                lemma_splice_concat(b0, at as int, s0 + u16_bytes(words), u32_bytes(self.ssrc.0));
            }
        } else {
            assert(self.spec_bytes() =~= s0 + u16_bytes(words));
        }
    }
}

} // verus!

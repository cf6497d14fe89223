use vstd::prelude::*;

pub mod bytes;
pub mod compound;
pub mod decode;
pub mod feedback;
pub mod header;
pub mod laws;
pub mod report;

pub use feedback::{FbView, RtcpFb};
pub use header::{FeedbackMessageType, PayloadType, RtcpHeader, RtcpType, TransportType};
pub use report::{Nack, NackEntry, ReceiverReport, Sdes, SenderInfo, Ssrc};

verus! {

} // verus!

//! The connection states and the send and receive sequence spaces
//! (RFC 793, section 3.2).

use vstd::prelude::*;

verus! {

/// The states a connection moves through.
#[derive(Clone, Copy, Debug, PartialEq, Eq, Structural)]
pub enum State {
    Listen,
    SynSent,
    SynRcvd,
    Estab,
    FinWait1,
    FinWait2,
    CloseWait,
    LastAck,
    Closing,
    TimeWait,
    Closed,
}

impl State {
    /// The states in which acknowledgments and payload are processed.
    pub open spec fn is_synchronized(self) -> bool {
        self is Estab || self is FinWait1 || self is FinWait2
    }

    /// The states in which the peer has been heard to finish sending.
    pub open spec fn receive_side_closed(self) -> bool {
        self is TimeWait || self is CloseWait || self is LastAck || self is Closed
            || self is Closing
    }

    /// The states in which this side has finished sending.
    pub open spec fn send_side_closed(self) -> bool {
        self is FinWait1 || self is FinWait2 || self is Closing || self is TimeWait
            || self is LastAck || self is Closed
    }

    /// The states in which nothing is owed to the peer any more.
    pub open spec fn is_quiescent(self) -> bool {
        self is FinWait2 || self is TimeWait || self is Closed
    }
}

/// State of the send sequence space (RFC 793, figure 4).
///
/// ```text
///      1         2          3          4
/// ----------|----------|----------|----------
///        SND.UNA    SND.NXT    SND.UNA
///                             + SND.WND
///
/// 1 - old sequence numbers which have been acknowledged
/// 2 - sequence numbers of unacknowledged data
/// 3 - sequence numbers allowed for new data transmission
/// 4 - future sequence numbers which are not yet allowed
/// ```
#[derive(Clone, Copy, Debug, PartialEq, Eq)]
pub struct SendSequenceSpace {
    /// send unacknowledged
    pub una: u32,
    /// send next
    pub nxt: u32,
    /// send window
    pub wnd: u16,
    /// send urgent pointer
    pub up: bool,
    /// segment sequence number used for last window update
    pub wl1: usize,
    /// segment acknowledgment number used for last window update
    pub wl2: usize,
    /// initial send sequence number
    pub iss: u32,
}

/// State of the receive sequence space (RFC 793, figure 5).
///
/// ```text
///      1          2          3
/// ----------|----------|----------
///        RCV.NXT    RCV.NXT
///                  + RCV.WND
///
/// 1 - old sequence numbers which have been acknowledged
/// 2 - sequence numbers allowed for new reception
/// 3 - future sequence numbers which are not yet allowed
/// ```
#[derive(Clone, Copy, Debug, PartialEq, Eq)]
pub struct RecvSequenceSpace {
    /// receive next
    pub nxt: u32,
    /// receive window
    pub wnd: u16,
    /// receive urgent pointer
    pub up: bool,
    /// initial receive sequence number
    pub irs: u32,
}

} // verus!

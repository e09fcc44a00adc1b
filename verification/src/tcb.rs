//! The mathematical model of a connection.
//!
//! A [`Tcb`] (transmission control block, in the words of RFC 793) is the
//! record of one endpoint with its byte queues and its outbox taken as
//! sequences. Every operation of the engine is a function from one such
//! record to the next; the executable engine is proved to compute exactly
//! these functions.

use vstd::prelude::*;
use crate::seqnum::{precedes, seq_minus, seq_plus, strictly_between};
use crate::space::{RecvSequenceSpace, SendSequenceSpace, State};
use crate::timers::{ascending, recorded, retained, retransmission_due, srtt_after, SendRecord, INITIAL_SRTT};
use crate::wire::{frame_of, FrameView, Ipv4Fields, TcpFields, IPV4_HEADER_LEN, TCP_HEADER_LEN};

verus! {

/// The largest frame handed to the network, in bytes.
pub const MTU: usize = 1500;

/// The window a fresh connection advertises and assumes.
pub const DEFAULT_WINDOW: u16 = 1024;

/// The initial send sequence number of every connection.
pub const INITIAL_SEQ: u32 = 0;

/// The time to live of every outbound frame.
pub const TIME_TO_LIVE: u8 = 64;

/// The most payload one frame carries: the MTU less the two headers.
pub open spec fn max_payload() -> nat {
    (MTU - IPV4_HEADER_LEN - TCP_HEADER_LEN) as nat
}

/// The smaller of two numbers.
pub open spec fn least(a: nat, b: nat) -> nat {
    if a <= b {
        a
    } else {
        b
    }
}

/// Length of a segment in sequence space: its payload bytes, and one more
/// for each of SYN and FIN.
pub open spec fn segment_len(seg: TcpFields, data_len: nat) -> nat {
    data_len + (if seg.syn { 1nat } else { 0 }) + (if seg.fin { 1nat } else { 0 })
}

/// The acceptability test of RFC 793, section 3.3, for a segment of length
/// `len` that starts at `seq`.
pub open spec fn acceptable(recv: RecvSequenceSpace, seq: u32, len: nat) -> bool {
    let before = seq_minus(recv.nxt, 1);
    let wend = seq_plus(recv.nxt, recv.wnd as nat);
    if len == 0 {
        if recv.wnd == 0 {
            seq == recv.nxt
        } else {
            strictly_between(before, seq, wend)
        }
    } else {
        recv.wnd != 0 && (strictly_between(before, seq, wend) || strictly_between(
            before,
            seq_plus(seq, (len - 1) as nat),
            wend,
        ))
    }
}

/// The record of one endpoint.
#[verifier::ext_equal]
pub struct Tcb {
    pub state: State,
    pub send: SendSequenceSpace,
    pub recv: RecvSequenceSpace,
    /// The IPv4 header of the last frame, and the template of the next.
    pub ip: Ipv4Fields,
    /// The TCP header of the last frame, and the template of the next. Its
    /// `syn`, `fin` and `rst` flags are latched: they go out with the next frame.
    pub tcp: TcpFields,
    pub send_times: Seq<SendRecord>,
    pub srtt: u64,
    /// Bytes received and not yet consumed.
    pub incoming: Seq<u8>,
    /// Bytes the application has queued: those in flight, then those not yet sent.
    pub unacked: Seq<u8>,
    /// The application has closed its sending side.
    pub closed: bool,
    /// The sequence number of the FIN, once it has been scheduled.
    pub closed_at: Option<u32>,
    /// Frames built and not yet handed to the network, oldest first.
    pub outgoing: Seq<FrameView>,
}

impl Tcb {
    /// The send times are ascending and the round-trip estimate is positive.
    pub open spec fn timers_wf(self) -> bool {
        ascending(self.send_times) && self.srtt > 0
    }

    /// The invariant of a connection between operations: the timers are
    /// well formed, no SYN is latched, and a FIN is latched only once its
    /// sequence number has been fixed.
    pub open spec fn wf(self) -> bool {
        &&& self.timers_wf()
        &&& !self.tcp.syn
        &&& self.tcp.fin ==> self.closed_at is Some
    }

    // ------------------------------------------------------------------
    // Building a segment
    // ------------------------------------------------------------------

    /// `seq` is the number right after the FIN: a segment written there
    /// carries no payload.
    pub open spec fn past_fin(self, seq: u32) -> bool {
        self.closed_at matches Some(c) && seq == seq_plus(c, 1)
    }

    /// Where in `unacked` the payload of a segment at `seq` starts.
    pub open spec fn payload_offset(self, seq: u32) -> nat {
        if self.past_fin(seq) {
            0
        } else {
            seq_minus(seq, self.send.una) as nat
        }
    }

    /// How many payload bytes a segment at `seq` carries when at most `limit`
    /// are asked for: no more than are queued from its offset on, and no
    /// more than fit in one frame.
    pub open spec fn payload_len(self, seq: u32, limit: nat) -> nat {
        let offset = self.payload_offset(seq);
        let queued = if offset <= self.unacked.len() {
            (self.unacked.len() - offset) as nat
        } else {
            0
        };
        let limit = if self.past_fin(seq) {
            0
        } else {
            limit
        };
        least(least(limit, queued), max_payload())
    }

    /// The payload of a segment at `seq`.
    pub open spec fn payload(self, seq: u32, limit: nat) -> Seq<u8> {
        let offset = self.payload_offset(seq) as int;
        let n = self.payload_len(seq, limit) as int;
        if n == 0 {
            Seq::empty()
        } else {
            self.unacked.subrange(offset, offset + n)
        }
    }

    /// The TCP header of a segment at `seq`, before its checksum is computed.
    pub open spec fn header_at(self, seq: u32) -> TcpFields {
        TcpFields { sequence_number: seq, acknowledgment_number: self.recv.nxt, ..self.tcp }
    }

    /// The frame that a segment at `seq` goes out in.
    pub open spec fn frame_at(self, seq: u32, limit: nat) -> FrameView {
        let payload = self.payload(seq, limit);
        let ip = Ipv4Fields {
            payload_len: (TCP_HEADER_LEN + payload.len()) as u16,
            ..self.ip
        };
        frame_of(ip, self.header_at(seq), payload)
    }

    /// The sequence number that follows a segment at `seq`: past its payload
    /// and past each latched SYN and FIN.
    pub open spec fn end_of_segment(self, seq: u32, limit: nat) -> u32 {
        seq_plus(
            seq,
            self.payload_len(seq, limit) + (if self.tcp.syn { 1nat } else { 0 }) + (if self.tcp.fin {
                1nat
            } else {
                0
            }),
        )
    }

    /// Emits one segment at `seq` with at most `limit` payload bytes.
    ///
    /// The segment carries the latched flags, which are then cleared;
    /// `snd.nxt` moves forward to the segment's end if that lies ahead; and
    /// `seq` is stamped with `now`.
    pub open spec fn write(self, seq: u32, limit: nat, now: u64) -> Tcb {
        let frame = self.frame_at(seq, limit);
        let end = self.end_of_segment(seq, limit);
        Tcb {
            ip: frame.ip,
            tcp: TcpFields { syn: false, fin: false, ..frame.tcp },
            send: SendSequenceSpace {
                nxt: if precedes(self.send.nxt, end) {
                    end
                } else {
                    self.send.nxt
                },
                ..self.send
            },
            send_times: recorded(self.send_times, seq, now),
            outgoing: self.outgoing.push(frame),
            ..self
        }
    }

    /// Emits a segment without payload at `snd.nxt`.
    pub open spec fn bare_ack(self, now: u64) -> Tcb {
        self.write(self.send.nxt, 0, now)
    }

    /// Latches RST and emits a segment without payload at `snd.nxt`.
    pub open spec fn send_rst(self, now: u64) -> Tcb {
        (Tcb {
            tcp: TcpFields {
                rst: true,
                sequence_number: 0,
                acknowledgment_number: 0,
                ..self.tcp
            },
            ..self
        }).bare_ack(now)
    }

    // ------------------------------------------------------------------
    // Opening
    // ------------------------------------------------------------------

    /// The record of a connection opened towards the sender of the segment
    /// `(ip, tcp)`, before its first segment is emitted.
    pub open spec fn fresh(ip: Ipv4Fields, tcp: TcpFields, active: bool) -> Tcb {
        Tcb {
            state: if active {
                State::SynSent
            } else {
                State::SynRcvd
            },
            send: SendSequenceSpace {
                iss: INITIAL_SEQ,
                una: INITIAL_SEQ,
                nxt: INITIAL_SEQ,
                wnd: DEFAULT_WINDOW,
                up: false,
                wl1: 0,
                wl2: 0,
            },
            recv: RecvSequenceSpace {
                irs: tcp.sequence_number,
                nxt: seq_plus(tcp.sequence_number, 1),
                wnd: tcp.window_size,
                up: false,
            },
            ip: Ipv4Fields {
                payload_len: 0,
                time_to_live: TIME_TO_LIVE,
                source: ip.destination,
                destination: ip.source,
            },
            tcp: TcpFields {
                source_port: tcp.destination_port,
                destination_port: tcp.source_port,
                sequence_number: INITIAL_SEQ,
                acknowledgment_number: 0,
                fin: false,
                syn: true,
                rst: false,
                ack: !active,
                window_size: DEFAULT_WINDOW,
                checksum: 0,
            },
            send_times: Seq::empty(),
            srtt: INITIAL_SRTT,
            incoming: Seq::empty(),
            unacked: Seq::empty(),
            closed: false,
            closed_at: None,
            outgoing: Seq::empty(),
        }
    }

    /// The record right after a passive (`active == false`) or an active
    /// open: the fresh record with its SYN emitted.
    pub open spec fn opened(ip: Ipv4Fields, tcp: TcpFields, active: bool, now: u64) -> Tcb {
        Self::fresh(ip, tcp, active).write(INITIAL_SEQ, 0, now)
    }

    // ------------------------------------------------------------------
    // Ticks
    // ------------------------------------------------------------------

    /// The distance from `snd.una` forward to `snd.nxt`.
    pub open spec fn span(self) -> nat {
        seq_minus(self.send.nxt, self.send.una) as nat
    }

    /// `snd.una` and `snd.nxt` are in order: nothing is outstanding, or the
    /// number before `snd.una` precedes the number after `snd.nxt`.
    pub open spec fn send_space_ordered(self) -> bool {
        precedes(seq_minus(self.send.una, 1), seq_plus(self.send.nxt, 1)) || self.send.una
            == self.send.nxt
    }

    /// Sequence numbers in flight: from `snd.una` up to the FIN if it has
    /// been scheduled, and up to `snd.nxt` otherwise. An unacknowledged SYN
    /// counts as one of them.
    pub open spec fn in_flight(self) -> nat {
        let upto = match self.closed_at {
            Some(c) => c,
            None => self.send.nxt,
        };
        seq_minus(upto, self.send.una) as nat
    }

    /// The SYN is among what is in flight: `snd.una` is still the initial
    /// sequence number, and something is in flight.
    pub open spec fn syn_in_flight(self) -> bool {
        self.send.una == self.send.iss && self.in_flight() > 0
    }

    /// Bytes of the queue in flight: what is in flight, less the SYN while
    /// it is unacknowledged. The SYN occupies a sequence number and no byte
    /// of `unacked`.
    pub open spec fn bytes_in_flight(self) -> nat {
        if self.syn_in_flight() {
            (self.in_flight() - 1) as nat
        } else {
            self.in_flight()
        }
    }

    /// The queue holds at least as many bytes as are in flight.
    pub open spec fn flight_queued(self) -> bool {
        self.bytes_in_flight() <= self.unacked.len()
    }

    /// What is in flight, the SYN included, fits in the send window.
    pub open spec fn flight_in_window(self) -> bool {
        self.in_flight() <= self.send.wnd
    }

    /// Bytes queued and not yet sent: the queue less what is in flight, and
    /// none where more is in flight than is queued.
    pub open spec fn unsent(self) -> nat {
        if self.unacked.len() >= self.in_flight() {
            (self.unacked.len() - self.in_flight()) as nat
        } else {
            0
        }
    }

    /// Sequence numbers the window still allows: the window less what is in
    /// flight, and none where more is in flight than the window holds.
    pub open spec fn allowed(self) -> nat {
        if self.send.wnd >= self.in_flight() {
            (self.send.wnd - self.in_flight()) as nat
        } else {
            0
        }
    }

    /// Schedules the FIN: latches the flag and, the first time, fixes the
    /// FIN's sequence number right after the queued bytes.
    pub open spec fn schedule_fin(self) -> Tcb {
        Tcb {
            tcp: TcpFields { fin: true, ..self.tcp },
            closed_at: match self.closed_at {
                Some(c) => Some(c),
                None => Some(seq_plus(self.send.una, self.unacked.len())),
            },
            ..self
        }
    }

    /// A tick that finds the oldest segment overdue: everything from
    /// `snd.una` on that fits the window is sent again.
    pub open spec fn retransmit(self, now: u64) -> Tcb {
        let resend = least(self.unacked.len(), self.send.wnd as nat);
        let s = if resend < self.send.wnd && self.closed {
            self.schedule_fin()
        } else {
            self
        };
        if resend == 0 {
            s
        } else {
            s.write(s.send.una, resend, now)
        }
    }

    /// A tick that finds nothing overdue: bytes not yet sent go out as far
    /// as the window allows.
    pub open spec fn send_new(self, now: u64) -> Tcb {
        let unsent = self.unsent();
        let allowed = self.allowed();
        if unsent == 0 && self.closed_at is Some {
            self
        } else if allowed == 0 {
            self
        } else {
            let send = least(unsent, allowed);
            let s = if send < allowed && self.closed && self.closed_at is None {
                self.schedule_fin()
            } else {
                self
            };
            if send == 0 {
                s
            } else {
                s.write(s.send.nxt, send, now)
            }
        }
    }

    /// One clock tick at the instant `now`.
    pub open spec fn on_tick(self, now: u64) -> Tcb {
        if self.state.is_quiescent() {
            self
        } else if retransmission_due(self.send_times, self.srtt, self.send.una, now) {
            self.retransmit(now)
        } else {
            self.send_new(now)
        }
    }

    // ------------------------------------------------------------------
    // Inbound segments
    // ------------------------------------------------------------------

    /// The acknowledgment number covers the SYN: it lies strictly between
    /// the number before `snd.una` and the number after `snd.nxt`.
    pub open spec fn syn_acknowledged(self, ackn: u32) -> bool {
        strictly_between(seq_minus(self.send.una, 1), ackn, seq_plus(self.send.nxt, 1))
    }

    /// Completes the handshake. After a passive open any segment whose
    /// acknowledgment covers the SYN does; after an active open the segment
    /// must carry the peer's SYN as well.
    pub open spec fn complete_handshake(self, seg: TcpFields) -> Tcb {
        let opening = self.state is SynRcvd || (self.state is SynSent && seg.syn);
        if opening && self.syn_acknowledged(seg.acknowledgment_number) {
            Tcb { state: State::Estab, ..self }
        } else {
            self
        }
    }

    /// The acknowledgment `ackn` covers something new: it lies after
    /// `snd.una` and not after `snd.nxt`, in a state that processes it.
    pub open spec fn acknowledges(self, ackn: u32) -> bool {
        self.state.is_synchronized() && strictly_between(
            self.send.una,
            ackn,
            seq_plus(self.send.nxt, 1),
        )
    }

    /// The sequence number of the first byte of `unacked`: `snd.una`, or the
    /// number after it while the SYN still occupies `snd.una`.
    pub open spec fn data_start(self) -> u32 {
        if self.send.una == self.send.iss {
            seq_plus(self.send.una, 1)
        } else {
            self.send.una
        }
    }

    /// How many bytes leave the front of `unacked` under the acknowledgment.
    pub open spec fn acked_bytes(self, ackn: u32) -> nat {
        least(seq_minus(ackn, self.data_start()) as nat, self.unacked.len())
    }

    /// Processes the acknowledgment number of a segment.
    pub open spec fn process_ack(self, ackn: u32, now: u64) -> Tcb {
        if self.acknowledges(ackn) {
            Tcb {
                unacked: self.unacked.skip(self.acked_bytes(ackn) as int),
                send_times: retained(self.send_times, self.send.una, ackn),
                srtt: srtt_after(self.send_times, self.send.una, ackn, now, self.srtt),
                send: SendSequenceSpace { una: ackn, ..self.send },
                ..self
            }
        } else {
            self
        }
    }

    /// The FIN has been sent and acknowledged.
    pub open spec fn fin_acked(self) -> bool {
        self.closed_at matches Some(c) && self.send.una == seq_plus(c, 1)
    }

    /// Moves on once the FIN is acknowledged.
    pub open spec fn note_fin_acked(self) -> Tcb {
        if self.fin_acked() {
            Tcb {
                state: match self.state {
                    State::FinWait1 => State::FinWait2,
                    State::Closing => State::TimeWait,
                    State::LastAck => State::Closed,
                    s => s,
                },
                ..self
            }
        } else {
            self
        }
    }

    /// Where in `data` the bytes not yet received start, for a segment at
    /// `seq`: at `rcv.nxt`, or at the very start where `rcv.nxt` lies beyond
    /// the payload.
    pub open spec fn unread_at(self, seq: u32, data_len: nat) -> nat {
        let at = seq_minus(self.recv.nxt, seq) as nat;
        if at > data_len {
            0
        } else {
            at
        }
    }

    /// Takes in the payload of a segment at `seq` and acknowledges it.
    pub open spec fn receive_data(self, seq: u32, data: Seq<u8>, now: u64) -> Tcb {
        if data.len() > 0 && self.state.is_synchronized() {
            (Tcb {
                incoming: self.incoming + data.skip(self.unread_at(seq, data.len()) as int),
                recv: RecvSequenceSpace { nxt: seq_plus(seq, data.len()), ..self.recv },
                ..self
            }).bare_ack(now)
        } else {
            self
        }
    }

    /// Takes in the FIN of a segment and acknowledges it. A FIN in a state
    /// that does not expect one is ignored.
    pub open spec fn receive_fin(self, now: u64) -> Tcb {
        if self.state.is_synchronized() {
            let acked = (Tcb {
                recv: RecvSequenceSpace { nxt: seq_plus(self.recv.nxt, 1), ..self.recv },
                ..self
            }).bare_ack(now);
            Tcb {
                state: match self.state {
                    State::FinWait1 => State::Closing,
                    _ => State::TimeWait,
                },
                ..acked
            }
        } else {
            self
        }
    }

    /// What an acceptable segment with the ACK flag does.
    pub open spec fn process(self, seg: TcpFields, data: Seq<u8>, now: u64) -> Tcb {
        let s = self.complete_handshake(seg);
        let s = s.process_ack(seg.acknowledgment_number, now);
        let s = s.note_fin_acked();
        let s = s.receive_data(seg.sequence_number, data, now);
        if seg.fin {
            s.receive_fin(now)
        } else {
            s
        }
    }

    /// The segment passes the acceptability test.
    pub open spec fn accepts(self, seg: TcpFields, data_len: nat) -> bool {
        acceptable(self.recv, seg.sequence_number, segment_len(seg, data_len))
    }

    /// The payload of the segment will be taken in.
    pub open spec fn takes_payload(self, seg: TcpFields, data_len: nat) -> bool {
        &&& self.accepts(seg, data_len)
        &&& seg.ack
        &&& data_len > 0
        &&& self.complete_handshake(seg).state.is_synchronized()
    }

    /// The payload of the segment starts at or before `rcv.nxt` and reaches
    /// it, or ends exactly one number short of it.
    pub open spec fn in_sequence(self, seg: TcpFields, data_len: nat) -> bool {
        let at = seq_minus(self.recv.nxt, seg.sequence_number) as nat;
        at <= data_len + 1
    }

    /// The segment is one the engine can process: if its payload is taken
    /// in, the payload is in sequence.
    pub open spec fn expects(self, seg: TcpFields, data_len: nat) -> bool {
        self.takes_payload(seg, data_len) ==> self.in_sequence(seg, data_len)
    }

    /// One inbound segment at the instant `now`.
    pub open spec fn on_packet(self, seg: TcpFields, data: Seq<u8>, now: u64) -> Tcb {
        if !self.accepts(seg, data.len()) {
            self.bare_ack(now)
        } else if !seg.ack {
            if seg.syn {
                Tcb {
                    recv: RecvSequenceSpace { nxt: seq_plus(seg.sequence_number, 1), ..self.recv },
                    ..self
                }
            } else {
                self
            }
        } else {
            self.process(seg, data, now)
        }
    }

    // ------------------------------------------------------------------
    // The application's side
    // ------------------------------------------------------------------

    /// Whether `close` succeeds in the given state.
    pub open spec fn can_close(self) -> bool {
        match self.state {
            State::SynRcvd | State::Estab | State::CloseWait | State::FinWait1 | State::FinWait2
            | State::Closing | State::LastAck => true,
            _ => false,
        }
    }

    /// The application closes its sending side.
    pub open spec fn close(self) -> Tcb {
        Tcb {
            closed: true,
            state: match self.state {
                State::SynRcvd | State::Estab => State::FinWait1,
                State::CloseWait => State::LastAck,
                s => s,
            },
            ..self
        }
    }

    /// Whether reading, and whether writing, can make progress.
    pub open spec fn availability(self) -> (bool, bool) {
        (
            self.state.receive_side_closed() || self.incoming.len() > 0,
            self.state.send_side_closed() || self.unacked.len() > 0,
        )
    }
}

} // verus!

//! The executable connection engine.
//!
//! A [`Connection`] is driven by three events: the segment that opens it,
//! every further inbound segment, and clock ticks. It answers by changing
//! its record and by queueing frames in `outgoing`, which the caller hands
//! to the network in order. The caller also supplies the time, in
//! nanoseconds from an origin of its choice.

use vstd::prelude::*;
use std::collections::VecDeque;
use crate::available::Available;
use crate::error::TcpError;
use crate::laws::{
    lemma_opened, lemma_tick_keeps_closed_at, lemma_tick_keeps_flight, lemma_tick_leaves_the_rest,
};
use crate::queue::{copy_range, drain_front, extend_from};
use crate::seqnum::{
    advance, distance, is_between_wrapped, lemma_seq_plus_twice, predecessor, seq_plus, successor,
    wrapping_lt,
};
use crate::space::{RecvSequenceSpace, SendSequenceSpace, State};
use crate::tcb::{
    acceptable, max_payload, segment_len, Tcb, DEFAULT_WINDOW, INITIAL_SEQ, MTU, TIME_TO_LIVE,
};
use crate::timers::Timers;
use crate::wire::{
    frame_views, payload_room, seal, Frame, Ipv4Fields, TcpFields, IPV4_HEADER_LEN, TCP_HEADER_LEN,
};

verus! {

/// One TCP endpoint.
#[derive(Clone, Debug)]
pub struct Connection {
    pub state: State,
    pub send: SendSequenceSpace,
    pub recv: RecvSequenceSpace,
    /// The IPv4 header of the last frame, and the template of the next.
    pub ip: Ipv4Fields,
    /// The TCP header of the last frame, and the template of the next.
    pub tcp: TcpFields,
    pub timers: Timers,
    /// Bytes received and not yet consumed.
    pub incoming: VecDeque<u8>,
    /// Bytes queued by the application, sent or not, and not yet acknowledged.
    pub unacked: VecDeque<u8>,
    /// The application has closed its sending side.
    pub closed: bool,
    /// The sequence number of the FIN, once it has been scheduled.
    pub closed_at: Option<u32>,
    /// Frames to hand to the network, oldest first.
    pub outgoing: Vec<Frame>,
}

impl View for Connection {
    type V = Tcb;

    open spec fn view(&self) -> Tcb {
        Tcb {
            state: self.state,
            send: self.send,
            recv: self.recv,
            ip: self.ip,
            tcp: self.tcp,
            send_times: self.timers.send_times@,
            srtt: self.timers.srtt,
            incoming: self.incoming@,
            unacked: self.unacked@,
            closed: self.closed,
            closed_at: self.closed_at,
            outgoing: frame_views(self.outgoing@),
        }
    }
}

/// The acceptability test of RFC 793, section 3.3, on a segment with the
/// header `seg` and `data_len` bytes of payload.
pub fn is_acceptable(recv: &RecvSequenceSpace, seg: &TcpFields, data_len: usize) -> (ok: bool)
    ensures
        ok == acceptable(*recv, seg.sequence_number, segment_len(*seg, data_len as nat)),
{
    let seqn = seg.sequence_number;
    let before = predecessor(recv.nxt);
    let wend = advance(recv.nxt, recv.wnd as usize);
    let flags: usize = if seg.syn && seg.fin {
        2
    } else if seg.syn || seg.fin {
        1
    } else {
        0
    };
    if data_len == 0 && flags == 0 {
        if recv.wnd == 0 {
            seqn == recv.nxt
        } else {
            is_between_wrapped(before, seqn, wend)
        }
    } else if recv.wnd == 0 {
        false
    } else {
        // the last sequence number the segment occupies
        let last = if data_len == 0 {
            advance(seqn, flags - 1)
        } else {
            proof {
                lemma_seq_plus_twice(seqn, (data_len - 1) as nat, flags as nat);
            }
            advance(advance(seqn, data_len - 1), flags)
        };
        is_between_wrapped(before, seqn, wend) || is_between_wrapped(before, last, wend)
    }
}

impl Connection {
    /// Every queued frame is as long as its IPv4 header says: 20 bytes of
    /// IPv4 header, then the IPv4 payload, which holds at least the 20
    /// bytes of the TCP header.
    pub open spec fn framed(&self) -> bool {
        forall|i: int|
            0 <= i < self.outgoing@.len() ==> {
                &&& (#[trigger] self.outgoing@[i]).ip.payload_len >= TCP_HEADER_LEN
                &&& self.outgoing@[i].bytes@.len() == IPV4_HEADER_LEN
                    + self.outgoing@[i].ip.payload_len
            }
    }

    /// The invariant of a connection between operations: the send times
    /// are in ascending order, the round-trip estimate is positive, no SYN
    /// is latched, a FIN is latched only once `closed_at` is set, and the
    /// queued frames have the length their headers say.
    pub open spec fn wf(&self) -> bool {
        self@.wf() && self.framed()
    }

    /// The record of a connection towards the sender of `(ip_h, tcp_h)`
    /// before anything has been sent.
    fn fresh(ip_h: &Ipv4Fields, tcp_h: &TcpFields, active: bool) -> (c: Connection)
        ensures
            c@ == Tcb::fresh(*ip_h, *tcp_h, active),
            c.timers.wf(),
            c.framed(),
    {
        Connection {
            state: if active {
                State::SynSent
            } else {
                State::SynRcvd
            },
            send: SendSequenceSpace {
                iss: INITIAL_SEQ,
                una: INITIAL_SEQ,
                nxt: INITIAL_SEQ,
                wnd: DEFAULT_WINDOW,
                up: false,
                wl1: 0,
                wl2: 0,
            },
            recv: RecvSequenceSpace {
                irs: tcp_h.sequence_number,
                nxt: successor(tcp_h.sequence_number),
                wnd: tcp_h.window_size,
                up: false,
            },
            ip: Ipv4Fields {
                payload_len: 0,
                time_to_live: TIME_TO_LIVE,
                source: ip_h.destination,
                destination: ip_h.source,
            },
            tcp: TcpFields {
                source_port: tcp_h.destination_port,
                destination_port: tcp_h.source_port,
                sequence_number: INITIAL_SEQ,
                acknowledgment_number: 0,
                fin: false,
                syn: true,
                rst: false,
                ack: !active,
                window_size: DEFAULT_WINDOW,
                checksum: 0,
            },
            timers: Timers::new(),
            incoming: VecDeque::new(),
            unacked: VecDeque::new(),
            closed: false,
            closed_at: None,
            outgoing: Vec::new(),
        }
    }

    /// Opens a connection passively, in answer to the segment `(ip_h, tcp_h)`.
    ///
    /// A segment without SYN opens nothing. Otherwise the new connection is
    /// in `SynRcvd`, expects the byte after the peer's SYN, and has its own
    /// SYN with ACK queued in `outgoing`. Payload that comes with the SYN is
    /// not taken in.
    pub fn accept(ip_h: &Ipv4Fields, tcp_h: &TcpFields, data: &[u8], now: u64) -> (r: Option<
        Connection,
    >)
        ensures
            r is Some <==> tcp_h.syn,
            r matches Some(c) ==> c@ == Tcb::opened(*ip_h, *tcp_h, false, now) && c.wf(),
            r matches Some(c) ==> c@.flight_queued() && c@.flight_in_window(),
    {
        if !tcp_h.syn {
            return None;
        }
        proof {
            lemma_opened(*ip_h, *tcp_h, false, now);
        }
        let mut c = Self::fresh(ip_h, tcp_h, false);
        let nxt = c.send.nxt;
        c.write(nxt, 0, now);
        Some(c)
    }

    /// Opens a connection actively towards the sender of `(ip_h, tcp_h)`.
    ///
    /// A segment without SYN opens nothing. Otherwise the new connection is
    /// in `SynSent` and has its SYN, without ACK, queued in `outgoing`.
    /// Payload that comes with the segment is not taken in.
    pub fn connect(ip_h: &Ipv4Fields, tcp_h: &TcpFields, data: &[u8], now: u64) -> (r: Option<
        Connection,
    >)
        ensures
            r is Some <==> tcp_h.syn,
            r matches Some(c) ==> c@ == Tcb::opened(*ip_h, *tcp_h, true, now) && c.wf(),
            r matches Some(c) ==> c@.flight_queued() && c@.flight_in_window(),
    {
        if !tcp_h.syn {
            return None;
        }
        proof {
            lemma_opened(*ip_h, *tcp_h, true, now);
        }
        let mut c = Self::fresh(ip_h, tcp_h, true);
        let nxt = c.send.nxt;
        c.write(nxt, 0, now);
        Some(c)
    }

    /// Copies out the payload of a segment at `seq` that may carry `limit` bytes.
    fn payload_at(&self, seq: u32, limit: usize) -> (payload: Vec<u8>)
        ensures
            payload@ == self@.payload(seq, limit as nat),
            payload@.len() == self@.payload_len(seq, limit as nat),
            payload@.len() <= max_payload(),
    {
        let mut offset: usize = distance(seq, self.send.una) as usize;
        let mut limit = limit;
        if let Some(closed_at) = self.closed_at {
            if seq == successor(closed_at) {
                // past the FIN there is nothing to carry
                offset = 0;
                limit = 0;
            }
        }
        let queued: usize = if offset <= self.unacked.len() {
            self.unacked.len() - offset
        } else {
            0
        };
        let room = payload_room(&self.ip, &self.tcp, MTU);
        let wanted = if limit < queued {
            limit
        } else {
            queued
        };
        let n = if wanted < room {
            wanted
        } else {
            room
        };
        if n == 0 {
            Vec::new()
        } else {
            copy_range(&self.unacked, offset, n)
        }
    }

    /// Emits one segment with sequence number `seq` and at most `limit`
    /// bytes of payload, and returns how many bytes it carries.
    ///
    /// The payload is drawn from `unacked`, starting `seq - snd.una` bytes
    /// in; a segment right after the FIN carries none. The segment
    /// acknowledges `rcv.nxt` and carries the latched flags, which are then
    /// cleared. `snd.nxt` advances to the end of the segment if that lies
    /// ahead, `seq` is stamped with `now`, and the frame joins `outgoing`.
    pub fn write(&mut self, seq: u32, limit: usize, now: u64) -> (n: usize)
        requires
            old(self).timers.wf(),
        ensures
            final(self)@ == old(self)@.write(seq, limit as nat, now),
            n == old(self)@.payload_len(seq, limit as nat),
            final(self)@.wf(),
            old(self).framed() ==> final(self).framed(),
    {
        let payload = self.payload_at(seq, limit);
        let n = payload.len();
        let flags: usize = if self.tcp.syn && self.tcp.fin {
            2
        } else if self.tcp.syn || self.tcp.fin {
            1
        } else {
            0
        };
        // the segment ends past its payload and past each of SYN and FIN
        let next_seq = advance(seq, n + flags);

        self.tcp.sequence_number = seq;
        self.tcp.acknowledgment_number = self.recv.nxt;
        let frame = seal(&mut self.ip, &mut self.tcp, payload);
        self.tcp.syn = false;
        self.tcp.fin = false;
        if wrapping_lt(self.send.nxt, next_seq) {
            self.send.nxt = next_seq;
        }
        self.timers.record(seq, now);
        proof {
            assert(frame_views(self.outgoing@.push(frame)) =~= frame_views(self.outgoing@).push(
                frame@,
            ));
        }
        self.outgoing.push(frame);
        assert(self@ =~= old(self)@.write(seq, limit as nat, now));
        n
    }

    /// Latches RST and emits a segment without payload at `snd.nxt`.
    pub fn send_rst(&mut self, now: u64)
        requires
            old(self).timers.wf(),
        ensures
            final(self)@ == old(self)@.send_rst(now),
            final(self)@.wf(),
            old(self).framed() ==> final(self).framed(),
    {
        self.tcp.rst = true;
        self.tcp.sequence_number = 0;
        self.tcp.acknowledgment_number = 0;
        let nxt = self.send.nxt;
        self.write(nxt, 0, now);
    }

    /// Whether the peer has been heard to finish sending.
    pub fn is_rcv_closed(&self) -> (r: bool)
        ensures
            r == self@.state.receive_side_closed(),
    {
        match self.state {
            State::TimeWait | State::CloseWait | State::LastAck | State::Closed | State::Closing => {
                true
            },
            _ => false,
        }
    }

    /// Whether this side has finished sending.
    pub fn is_snd_closed(&self) -> (r: bool)
        ensures
            r == self@.state.send_side_closed(),
    {
        match self.state {
            State::FinWait1
            | State::FinWait2
            | State::Closing
            | State::TimeWait
            | State::LastAck
            | State::Closed => true,
            _ => false,
        }
    }

    /// What the connection offers its application: `READ` once the peer has
    /// finished or bytes wait in `incoming`, `WRITE` once this side has
    /// finished or bytes wait in `unacked`.
    pub fn availability(&self) -> (a: Available)
        ensures
            a@ == self@.availability(),
    {
        let read = self.is_rcv_closed() || self.incoming.len() > 0;
        let write = self.is_snd_closed() || self.unacked.len() > 0;
        Available::new(read, write)
    }

    /// Closes the sending side. The FIN itself goes out with a later tick.
    ///
    /// Fails with [`TcpError::NotConnected`] in `Listen`, `SynSent`,
    /// `TimeWait` and `Closed`; the wish to close is noted all the same.
    pub fn close(&mut self) -> (r: Result<(), TcpError>)
        ensures
            final(self)@ == old(self)@.close(),
            r is Ok <==> old(self)@.can_close(),
            r is Err ==> r == Err::<(), TcpError>(TcpError::NotConnected),
            old(self).wf() ==> final(self).wf(),
    {
        self.closed = true;
        match self.state {
            State::SynRcvd | State::Estab => {
                self.state = State::FinWait1;
            },
            State::CloseWait => {
                self.state = State::LastAck;
            },
            State::FinWait1 | State::FinWait2 | State::Closing | State::LastAck => {},
            _ => {
                assert(self@ =~= old(self)@.close());
                return Err(TcpError::NotConnected);
            },
        }
        assert(self@ =~= old(self)@.close());
        Ok(())
    }

    /// Hands over the frames queued for the network, oldest first, and
    /// leaves the queue empty.
    pub fn take_outgoing(&mut self) -> (frames: Vec<Frame>)
        ensures
            frame_views(frames@) == old(self)@.outgoing,
            final(self)@ == (Tcb { outgoing: Seq::empty(), ..old(self)@ }),
            old(self).wf() ==> final(self).wf(),
    {
        let mut frames: Vec<Frame> = Vec::new();
        std::mem::swap(&mut self.outgoing, &mut frames);
        assert(self@ =~= (Tcb { outgoing: Seq::empty(), ..old(self)@ }));
        frames
    }

    // ------------------------------------------------------------------
    // Ticks
    // ------------------------------------------------------------------

    /// Sequence numbers in flight.
    fn in_flight(&self) -> (n: usize)
        ensures
            n == self@.in_flight(),
    {
        let upto = match self.closed_at {
            Some(c) => c,
            None => self.send.nxt,
        };
        distance(upto, self.send.una) as usize
    }

    /// Latches the FIN and, the first time, fixes its sequence number.
    fn schedule_fin(&mut self)
        ensures
            final(self)@ == old(self)@.schedule_fin(),
            old(self).wf() ==> final(self).wf(),
    {
        self.tcp.fin = true;
        if self.closed_at.is_none() {
            self.closed_at = Some(advance(self.send.una, self.unacked.len()));
        }
        assert(self@ =~= old(self)@.schedule_fin());
    }

    /// Sends again, from `snd.una`, what fits the window.
    fn retransmit(&mut self, now: u64)
        requires
            old(self).wf(),
        ensures
            final(self)@ == old(self)@.retransmit(now),
            final(self).wf(),
    {
        let queued = self.unacked.len();
        let wnd = self.send.wnd as usize;
        let resend = if queued < wnd {
            queued
        } else {
            wnd
        };
        if resend < wnd && self.closed {
            // room is left in the window: the FIN can ride along
            self.schedule_fin();
        }
        if resend == 0 {
            return ;
        }
        let una = self.send.una;
        self.write(una, resend, now);
    }

    /// Sends bytes not yet sent, as far as the window allows.
    fn send_new(&mut self, now: u64)
        requires
            old(self).wf(),
        ensures
            final(self)@ == old(self)@.send_new(now),
            final(self).wf(),
    {
        let in_flight = self.in_flight();
        // where more is in flight than is queued or allowed, nothing is
        // unsent or allowed
        let unsent = self.unacked.len().saturating_sub(in_flight);
        if unsent == 0 && self.closed_at.is_some() {
            return ;
        }
        let allowed = (self.send.wnd as usize).saturating_sub(in_flight);
        if allowed == 0 {
            return ;
        }
        let send = if unsent < allowed {
            unsent
        } else {
            allowed
        };
        if send < allowed && self.closed && self.closed_at.is_none() {
            // room is left in the window: the FIN can ride along
            self.schedule_fin();
        }
        if send == 0 {
            return ;
        }
        let nxt = self.send.nxt;
        self.write(nxt, send, now);
    }

    /// One clock tick at the instant `now`.
    ///
    /// Nothing happens in `FinWait2`, `TimeWait` and `Closed`. Otherwise, if
    /// the oldest unacknowledged segment has waited more than a second and
    /// more than one and a half round-trip estimates, the queue is sent
    /// again from `snd.una`; if not, bytes not yet sent go out as far as
    /// the window allows. Either way the FIN rides along once the
    /// application has closed and the window has room left.
    ///
    /// A tick is possible in every state, right after the opening too: with
    /// nothing but the SYN in flight it finds nothing unsent and leaves the
    /// record as it is.
    pub fn on_tick(&mut self, now: u64)
        requires
            old(self).wf(),
        ensures
            final(self)@ == old(self)@.on_tick(now),
            final(self).wf(),
            final(self).state == old(self).state,
            final(self).incoming@ == old(self).incoming@,
            final(self).unacked@ == old(self).unacked@,
            final(self).send == (SendSequenceSpace { nxt: final(self).send.nxt, ..old(self).send }),
            final(self).recv == old(self).recv,
            final(self).closed == old(self).closed,
            final(self).timers.srtt == old(self).timers.srtt,
            old(self).closed_at is Some ==> final(self).closed_at == old(self).closed_at,
            old(self)@.flight_queued() ==> final(self)@.flight_queued(),
    {
        proof {
            lemma_tick_leaves_the_rest(self@, now);
            if self@.closed_at is Some {
                lemma_tick_keeps_closed_at(self@, now);
            }
            if self@.flight_queued() {
                lemma_tick_keeps_flight(self@, now);
            }
        }
        match self.state {
            State::FinWait2 | State::TimeWait | State::Closed => {
                // nothing is owed to the peer
                return ;
            },
            _ => {},
        }
        if self.timers.due(self.send.una, now) {
            self.retransmit(now);
        } else {
            self.send_new(now);
        }
    }

    // ------------------------------------------------------------------
    // Inbound segments
    // ------------------------------------------------------------------

    /// Whether [`Connection::on_packet`] may be called with this segment:
    /// if its payload will be taken in, the payload must start at or before
    /// `rcv.nxt` and reach it, or end exactly one number short of it.
    pub fn expects(&self, seg: &TcpFields, data_len: usize) -> (r: bool)
        ensures
            r == self@.expects(*seg, data_len as nat),
    {
        if !is_acceptable(&self.recv, seg, data_len) || !seg.ack || data_len == 0 {
            return true;
        }
        let synchronized = match self.state {
            State::Estab | State::FinWait1 | State::FinWait2 => true,
            State::SynRcvd => self.syn_acknowledged(seg.acknowledgment_number),
            State::SynSent => seg.syn && self.syn_acknowledged(seg.acknowledgment_number),
            _ => false,
        };
        if !synchronized {
            return true;
        }
        let at = distance(self.recv.nxt, seg.sequence_number) as usize;
        at <= data_len || at - data_len == 1
    }

    /// Whether the acknowledgment number covers the SYN.
    fn syn_acknowledged(&self, ackn: u32) -> (r: bool)
        ensures
            r == self@.syn_acknowledged(ackn),
    {
        is_between_wrapped(predecessor(self.send.una), ackn, successor(self.send.nxt))
    }

    /// Completes the handshake if the segment acknowledges the SYN and,
    /// after an active open, carries the peer's SYN.
    fn complete_handshake(&mut self, seg: &TcpFields)
        ensures
            final(self)@ == old(self)@.complete_handshake(*seg),
            old(self).wf() ==> final(self).wf(),
    {
        let opening = match self.state {
            State::SynRcvd => true,
            State::SynSent => seg.syn,
            _ => false,
        };
        if opening && self.syn_acknowledged(seg.acknowledgment_number) {
            // only the SYN is in flight, so it is the SYN that was acknowledged
            self.state = State::Estab;
        }
        assert(self@ =~= old(self)@.complete_handshake(*seg));
    }

    /// Drops what `ackn` acknowledges from `unacked` and from the send
    /// times, and moves `snd.una` up to it.
    fn process_ack(&mut self, ackn: u32, now: u64)
        requires
            old(self).wf(),
        ensures
            final(self)@ == old(self)@.process_ack(ackn, now),
            final(self).wf(),
    {
        let synchronized = match self.state {
            State::Estab | State::FinWait1 | State::FinWait2 => true,
            _ => false,
        };
        if synchronized && is_between_wrapped(self.send.una, ackn, successor(self.send.nxt)) {
            let data_start = if self.send.una == self.send.iss {
                // the SYN still occupies `snd.una`; the queue starts after it
                successor(self.send.una)
            } else {
                self.send.una
            };
            let acked = distance(ackn, data_start) as usize;
            let queued = self.unacked.len();
            let n = if acked < queued {
                acked
            } else {
                queued
            };
            drain_front(&mut self.unacked, n);
            self.timers.acknowledge(self.send.una, ackn, now);
            self.send.una = ackn;
        }
        assert(self@ =~= old(self)@.process_ack(ackn, now));
    }

    /// Moves on if the FIN has been acknowledged.
    fn note_fin_acked(&mut self)
        ensures
            final(self)@ == old(self)@.note_fin_acked(),
            old(self).wf() ==> final(self).wf(),
    {
        if let Some(closed_at) = self.closed_at {
            if self.send.una == successor(closed_at) {
                match self.state {
                    State::FinWait1 => {
                        self.state = State::FinWait2;
                    },
                    State::Closing => {
                        self.state = State::TimeWait;
                    },
                    State::LastAck => {
                        self.state = State::Closed;
                    },
                    _ => {},
                }
            }
        }
        assert(self@ =~= old(self)@.note_fin_acked());
    }

    /// Takes in the payload of a segment at `seq` and acknowledges it.
    fn receive_data(&mut self, seq: u32, data: &[u8], now: u64)
        requires
            old(self).wf(),
        ensures
            final(self)@ == old(self)@.receive_data(seq, data@, now),
            final(self).wf(),
    {
        let synchronized = match self.state {
            State::Estab | State::FinWait1 | State::FinWait2 => true,
            _ => false,
        };
        if data.len() > 0 && synchronized {
            let mut unread_at = distance(self.recv.nxt, seq) as usize;
            if unread_at > data.len() {
                // the segment repeats a FIN that was taken in before
                unread_at = 0;
            }
            extend_from(&mut self.incoming, data, unread_at);
            self.recv.nxt = advance(seq, data.len());
            let ghost taken = self@;
            assert(taken =~= (Tcb {
                incoming: old(self)@.incoming + data@.skip(
                    old(self)@.unread_at(seq, data@.len()) as int,
                ),
                recv: RecvSequenceSpace { nxt: seq_plus(seq, data@.len()), ..old(self)@.recv },
                ..old(self)@
            }));
            let nxt = self.send.nxt;
            self.write(nxt, 0, now);
        }
    }

    /// Takes in a FIN and acknowledges it; a FIN that the state does not
    /// expect is ignored.
    fn receive_fin(&mut self, now: u64)
        requires
            old(self).wf(),
        ensures
            final(self)@ == old(self)@.receive_fin(now),
            final(self).wf(),
    {
        let next = match self.state {
            State::FinWait1 => State::Closing,
            State::FinWait2 | State::Estab => State::TimeWait,
            _ => {
                return ;
            },
        };
        self.recv.nxt = successor(self.recv.nxt);
        let ghost counted = self@;
        assert(counted =~= (Tcb {
            recv: RecvSequenceSpace { nxt: seq_plus(old(self)@.recv.nxt, 1), ..old(self)@.recv },
            ..old(self)@
        }));
        let nxt = self.send.nxt;
        self.write(nxt, 0, now);
        self.state = next;
        assert(self@ =~= old(self)@.receive_fin(now));
    }

    /// One inbound segment at the instant `now`: its IPv4 header, its TCP
    /// header and its payload. Returns what the connection offers afterwards.
    /// The IPv4 header is not consulted: matching addresses to connections
    /// is the caller's business.
    ///
    /// A segment that fails the acceptability test is answered with a bare
    /// acknowledgment and otherwise ignored. An acceptable segment without
    /// ACK only moves `rcv.nxt` past a SYN. Any other segment is processed
    /// in this order: completion of the handshake, the acknowledgment
    /// number, acknowledgment of the FIN, payload, FIN.
    ///
    /// The one condition on the segment is [`Connection::expects`]: payload
    /// that will be taken in must not start beyond `rcv.nxt`.
    pub fn on_packet(&mut self, ip_h: &Ipv4Fields, tcp_h: &TcpFields, data: &[u8], now: u64) -> (a:
        Available)
        requires
            old(self).wf(),
            old(self)@.expects(*tcp_h, data@.len()),
        ensures
            final(self)@ == old(self)@.on_packet(*tcp_h, data@, now),
            a@ == final(self)@.availability(),
            final(self).wf(),
            final(self).closed_at == old(self).closed_at,
    {
        if !is_acceptable(&self.recv, tcp_h, data.len()) {
            let nxt = self.send.nxt;
            self.write(nxt, 0, now);
            return self.availability();
        }
        if !tcp_h.ack {
            if tcp_h.syn {
                // a SYN of the initial handshake
                self.recv.nxt = successor(tcp_h.sequence_number);
            }
            assert(self@ =~= old(self)@.on_packet(*tcp_h, data@, now));
            return self.availability();
        }
        let ackn = tcp_h.acknowledgment_number;
        self.complete_handshake(tcp_h);
        self.process_ack(ackn, now);
        self.note_fin_acked();
        self.receive_data(tcp_h.sequence_number, data, now);
        if tcp_h.fin {
            self.receive_fin(now);
        }
        self.availability()
    }
}

} // verus!

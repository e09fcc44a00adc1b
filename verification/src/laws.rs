//! What holds of every connection, proved of the model in [`crate::tcb`].
//!
//! Each law is a proof function: its parameters are the record and the
//! event the law speaks of, its `requires` the law's conditions, its
//! `ensures` the law.

use vstd::prelude::*;
use crate::seqnum::{
    lemma_seq_plus_small, lemma_seq_plus_twice, precedes, seq_minus, seq_plus, HALF_SPACE,
};
use crate::space::{RecvSequenceSpace, SendSequenceSpace};
use crate::tcb::{least, max_payload, segment_len, Tcb, INITIAL_SEQ};
use crate::timers::{
    lemma_nothing_settled, lemma_recorded_ascending, lemma_retained_ascending,
    lemma_srtt_after_positive, retained, srtt_after, SendRecord,
};
use crate::wire::{Ipv4Fields, TcpFields};

verus! {

// ----------------------------------------------------------------------
// One emitted segment
// ----------------------------------------------------------------------

/// Emitting a segment establishes the invariant, whatever flags were latched.
pub proof fn lemma_write_establishes_wf(pre: Tcb, seq: u32, limit: nat, now: u64)
    requires
        pre.timers_wf(),
    ensures
        pre.write(seq, limit, now).wf(),
        pre.write(seq, limit, now).srtt == pre.srtt,
{
    lemma_recorded_ascending(pre.send_times, seq, now);
}

/// What emitting a segment does to the send sequence space: `snd.nxt` stays
/// or moves to the end of the segment, which lies at most a full payload and
/// two flags after `seq`; nothing else that the flight is counted from moves.
pub proof fn lemma_write_moves_nxt_only(pre: Tcb, seq: u32, limit: nat, now: u64)
    ensures
        ({
            let post = pre.write(seq, limit, now);
            let n = pre.payload_len(seq, limit);
            let flags = (if pre.tcp.syn { 1nat } else { 0 }) + (if pre.tcp.fin { 1nat } else { 0 });
            let end = pre.end_of_segment(seq, limit);
            &&& post.send == (SendSequenceSpace { nxt: post.send.nxt, ..pre.send })
            &&& post.closed_at == pre.closed_at
            &&& post.unacked == pre.unacked
            &&& post.incoming == pre.incoming
            &&& post.recv == pre.recv
            &&& post.state == pre.state
            &&& post.closed == pre.closed
            &&& post.srtt == pre.srtt
            &&& n <= limit
            &&& n <= max_payload()
            &&& !pre.past_fin(seq) ==> n + seq_minus(seq, pre.send.una) <= pre.unacked.len() || n == 0
            &&& pre.past_fin(seq) ==> n == 0
            &&& seq_minus(end, seq) == n + flags
            &&& post.send.nxt == if precedes(pre.send.nxt, end) { end } else { pre.send.nxt }
        }),
{
    let n = pre.payload_len(seq, limit);
    let flags = (if pre.tcp.syn { 1nat } else { 0 }) + (if pre.tcp.fin { 1nat } else { 0 });
    lemma_seq_plus_small(seq, n + flags);
}

/// `post` is `pre` after at most one segment without payload at `snd.nxt`:
/// on the sending side nothing has moved but `snd.nxt`, and that by one
/// only where a latched FIN went out.
pub open spec fn acknowledged(pre: Tcb, post: Tcb) -> bool {
    &&& post.wf()
    &&& post.send == (SendSequenceSpace { nxt: post.send.nxt, ..pre.send })
    &&& post.closed_at == pre.closed_at
    &&& post.unacked == pre.unacked
    &&& post.closed == pre.closed
    &&& post.srtt == pre.srtt
    &&& post.tcp.fin ==> pre.tcp.fin
    &&& post.send.nxt == pre.send.nxt || (pre.tcp.fin && !post.tcp.fin && post.send.nxt
        == seq_plus(pre.send.nxt, 1))
}

/// A bare acknowledgment changes the sending side as [`acknowledged`]
/// says, and leaves state, `incoming` and the receive space alone.
pub proof fn lemma_bare_ack(pre: Tcb, now: u64)
    requires
        pre.wf(),
    ensures
        acknowledged(pre, pre.bare_ack(now)),
        pre.bare_ack(now).state == pre.state,
        pre.bare_ack(now).incoming == pre.incoming,
        pre.bare_ack(now).recv == pre.recv,
        !pre.bare_ack(now).tcp.fin,
{
    lemma_write_moves_nxt_only(pre, pre.send.nxt, 0, now);
    lemma_write_establishes_wf(pre, pre.send.nxt, 0, now);
    lemma_seq_plus_small(pre.send.nxt, 1);
    lemma_seq_plus_small(pre.send.nxt, 0);
}

/// Taking in payload changes the sending side by one bare acknowledgment
/// at most, and leaves the state alone.
pub proof fn lemma_receive_data(pre: Tcb, seq: u32, data: Seq<u8>, now: u64)
    requires
        pre.wf(),
    ensures
        acknowledged(pre, pre.receive_data(seq, data, now)),
        pre.receive_data(seq, data, now).state == pre.state,
{
    if data.len() > 0 && pre.state.is_synchronized() {
        let taken = Tcb {
            incoming: pre.incoming + data.skip(pre.unread_at(seq, data.len()) as int),
            recv: RecvSequenceSpace { nxt: seq_plus(seq, data.len()), ..pre.recv },
            ..pre
        };
        lemma_bare_ack(taken, now);
    }
}

/// Taking in a FIN changes the sending side by one bare acknowledgment at
/// most, and leaves `incoming` alone.
pub proof fn lemma_receive_fin(pre: Tcb, now: u64)
    requires
        pre.wf(),
    ensures
        acknowledged(pre, pre.receive_fin(now)),
        pre.receive_fin(now).incoming == pre.incoming,
        pre.state.is_synchronized() || pre.receive_fin(now) == pre,
{
    if pre.state.is_synchronized() {
        let counted = Tcb {
            recv: RecvSequenceSpace { nxt: seq_plus(pre.recv.nxt, 1), ..pre.recv },
            ..pre
        };
        lemma_bare_ack(counted, now);
    }
}

/// What [`acknowledged`] keeps: the flight within the queue and within the
/// window, and `snd.nxt` within one of where it was.
pub proof fn lemma_acknowledged_keeps(pre: Tcb, post: Tcb)
    requires
        pre.wf(),
        acknowledged(pre, post),
    ensures
        pre.flight_queued() ==> post.flight_queued(),
        pre.flight_in_window() ==> post.flight_in_window(),
        pre.span() + 1 < HALF_SPACE ==> post.span() == pre.span() + if post.send.nxt
            == pre.send.nxt {
            0nat
        } else {
            1
        },
{
    lemma_seq_plus_small(pre.send.nxt, 1);
}

// ----------------------------------------------------------------------
// The invariant
// ----------------------------------------------------------------------

/// A connection is well formed from the moment it is opened. Its SYN is
/// then the one thing in flight: no byte of the queue is, the flight fits
/// the window, and the send space is ordered.
pub proof fn lemma_opened(ip: Ipv4Fields, tcp: TcpFields, active: bool, now: u64)
    ensures
        Tcb::opened(ip, tcp, active, now).wf(),
        Tcb::opened(ip, tcp, active, now).in_flight() == 1,
        Tcb::opened(ip, tcp, active, now).bytes_in_flight() == 0,
        Tcb::opened(ip, tcp, active, now).flight_queued(),
        Tcb::opened(ip, tcp, active, now).flight_in_window(),
        Tcb::opened(ip, tcp, active, now).send_space_ordered(),
{
    let fresh = Tcb::fresh(ip, tcp, active);
    lemma_write_establishes_wf(fresh, INITIAL_SEQ, 0, now);
    lemma_write_moves_nxt_only(fresh, INITIAL_SEQ, 0, now);
    lemma_ordered_by_span(Tcb::opened(ip, tcp, active, now));
}

/// A tick keeps the invariant; in particular the round-trip estimate stays
/// positive.
pub proof fn lemma_tick_keeps_wf(pre: Tcb, now: u64)
    requires
        pre.wf(),
    ensures
        pre.on_tick(now).wf(),
        pre.on_tick(now).srtt > 0,
{
    let resend = least(pre.unacked.len(), pre.send.wnd as nat);
    lemma_write_establishes_wf(pre, pre.send.una, resend, now);
    lemma_write_establishes_wf(pre.schedule_fin(), pre.send.una, resend, now);
    let send = least(pre.unsent(), pre.allowed());
    lemma_write_establishes_wf(pre, pre.send.nxt, send, now);
    lemma_write_establishes_wf(pre.schedule_fin(), pre.send.nxt, send, now);
}

/// A tick works on the sending side only: the state, both queues,
/// `snd.una`, the window, the receive space, the `closed` flag and the
/// round-trip estimate are as they were.
pub proof fn lemma_tick_leaves_the_rest(pre: Tcb, now: u64)
    ensures
        ({
            let post = pre.on_tick(now);
            &&& post.state == pre.state
            &&& post.incoming == pre.incoming
            &&& post.unacked == pre.unacked
            &&& post.send == (SendSequenceSpace { nxt: post.send.nxt, ..pre.send })
            &&& post.recv == pre.recv
            &&& post.closed == pre.closed
            &&& post.srtt == pre.srtt
        }),
{
    let resend = least(pre.unacked.len(), pre.send.wnd as nat);
    lemma_write_moves_nxt_only(pre, pre.send.una, resend, now);
    lemma_write_moves_nxt_only(pre.schedule_fin(), pre.send.una, resend, now);
    let send = least(pre.unsent(), pre.allowed());
    lemma_write_moves_nxt_only(pre, pre.send.nxt, send, now);
    lemma_write_moves_nxt_only(pre.schedule_fin(), pre.send.nxt, send, now);
}

/// An acknowledgment keeps the invariant.
pub proof fn lemma_ack_keeps_wf(pre: Tcb, ackn: u32, now: u64)
    requires
        pre.wf(),
    ensures
        pre.process_ack(ackn, now).wf(),
        pre.process_ack(ackn, now).tcp == pre.tcp,
        pre.process_ack(ackn, now).state == pre.state,
        pre.process_ack(ackn, now).closed_at == pre.closed_at,
{
    lemma_retained_ascending(pre.send_times, pre.send.una, ackn);
    lemma_srtt_after_positive(pre.send_times, pre.send.una, ackn, now, pre.srtt);
}

/// The record of an acceptable segment with ACK before its payload is
/// looked at: the handshake completed, the acknowledgment processed, and
/// the acknowledgment of the FIN noted.
pub open spec fn after_ack(pre: Tcb, seg: TcpFields, now: u64) -> Tcb {
    pre.complete_handshake(seg).process_ack(seg.acknowledgment_number, now).note_fin_acked()
}

/// Payload and FIN change what an acceptable segment with ACK leaves by
/// two bare acknowledgments at most, of which only the first can carry a
/// latched FIN.
pub proof fn lemma_process_tail(pre: Tcb, seg: TcpFields, data: Seq<u8>, now: u64)
    requires
        pre.wf(),
    ensures
        after_ack(pre, seg, now).wf(),
        acknowledged(after_ack(pre, seg, now), pre.process(seg, data, now)),
{
    let ackn = seg.acknowledgment_number;
    lemma_ack_keeps_wf(pre.complete_handshake(seg), ackn, now);
    let s3 = after_ack(pre, seg, now);
    lemma_receive_data(s3, seg.sequence_number, data, now);
    let s4 = s3.receive_data(seg.sequence_number, data, now);
    lemma_receive_fin(s4, now);
    lemma_seq_plus_small(s3.send.nxt, 1);
}

/// An inbound segment keeps the invariant; in particular the round-trip
/// estimate stays positive.
pub proof fn lemma_packet_keeps_wf(pre: Tcb, seg: TcpFields, data: Seq<u8>, now: u64)
    requires
        pre.wf(),
    ensures
        pre.on_packet(seg, data, now).wf(),
        pre.on_packet(seg, data, now).srtt > 0,
{
    lemma_bare_ack(pre, now);
    lemma_process_tail(pre, seg, data, now);
}

/// An inbound segment changes the round-trip estimate only by processing
/// its acknowledgment: every send time strictly between `snd.una` and the
/// acknowledgment number then contributes its age as a sample, in
/// ascending order. Otherwise the estimate is as it was.
pub proof fn lemma_packet_estimate(pre: Tcb, seg: TcpFields, data: Seq<u8>, now: u64)
    requires
        pre.wf(),
    ensures
        pre.on_packet(seg, data, now).srtt == if pre.accepts(seg, data.len()) && seg.ack
            && pre.complete_handshake(seg).acknowledges(seg.acknowledgment_number) {
            srtt_after(pre.send_times, pre.send.una, seg.acknowledgment_number, now, pre.srtt)
        } else {
            pre.srtt
        },
        pre.on_packet(seg, data, now).srtt > 0,
{
    lemma_bare_ack(pre, now);
    lemma_process_tail(pre, seg, data, now);
}

// ----------------------------------------------------------------------
// The FIN's sequence number
// ----------------------------------------------------------------------

/// Once the FIN's sequence number is fixed, no tick changes it.
pub proof fn lemma_tick_keeps_closed_at(pre: Tcb, now: u64)
    requires
        pre.closed_at is Some,
    ensures
        pre.on_tick(now).closed_at == pre.closed_at,
{
}

/// No inbound segment changes the FIN's sequence number, fixed or not.
pub proof fn lemma_packet_keeps_closed_at(pre: Tcb, seg: TcpFields, data: Seq<u8>, now: u64)
    ensures
        pre.on_packet(seg, data, now).closed_at == pre.closed_at,
{
}

/// Neither closing, nor emitting a segment, nor a reset changes the FIN's
/// sequence number.
pub proof fn lemma_calls_keep_closed_at(pre: Tcb, seq: u32, limit: nat, now: u64)
    ensures
        pre.close().closed_at == pre.closed_at,
        pre.write(seq, limit, now).closed_at == pre.closed_at,
        pre.send_rst(now).closed_at == pre.closed_at,
{
}

// ----------------------------------------------------------------------
// The closed connection
// ----------------------------------------------------------------------

/// A tick changes nothing in a closed connection, and so emits nothing.
pub proof fn lemma_closed_tick_is_silent(pre: Tcb, now: u64)
    requires
        pre.state is Closed,
    ensures
        pre.on_tick(now) == pre,
{
}

/// An acceptable segment makes a closed connection emit nothing and leaves
/// it closed.
pub proof fn lemma_closed_packet_is_silent(pre: Tcb, seg: TcpFields, data: Seq<u8>, now: u64)
    requires
        pre.state is Closed,
        pre.accepts(seg, data.len()),
    ensures
        pre.on_packet(seg, data, now).outgoing == pre.outgoing,
        pre.on_packet(seg, data, now).state is Closed,
{
}

// ----------------------------------------------------------------------
// Duplicate acknowledgments
// ----------------------------------------------------------------------

/// An acknowledgment of `una` itself settles no send time: the records and
/// the round-trip estimate are left as they are.
pub proof fn lemma_duplicate_ack_settles_nothing(
    send_times: Seq<SendRecord>,
    una: u32,
    now: u64,
    srtt: u64,
)
    ensures
        retained(send_times, una, una) == send_times,
        srtt_after(send_times, una, una, now, srtt) == srtt,
{
    lemma_nothing_settled(send_times, una, una, now, srtt);
}

/// An acknowledgment of `snd.una` itself acknowledges nothing new: the
/// record is left as it is.
pub proof fn lemma_duplicate_ack_is_noop(pre: Tcb, now: u64)
    ensures
        pre.process_ack(pre.send.una, now) == pre,
{
}

/// A segment that acknowledges `snd.una` leaves `unacked` alone. If it is
/// acceptable and carries neither payload nor FIN, it leaves the send times,
/// the round-trip estimate and the send sequence space alone as well.
pub proof fn lemma_duplicate_ack_segment(pre: Tcb, seg: TcpFields, data: Seq<u8>, now: u64)
    requires
        seg.acknowledgment_number == pre.send.una,
    ensures
        pre.on_packet(seg, data, now).unacked == pre.unacked,
        pre.accepts(seg, data.len()) && data.len() == 0 && !seg.fin ==> {
            &&& pre.on_packet(seg, data, now).send_times == pre.send_times
            &&& pre.on_packet(seg, data, now).srtt == pre.srtt
            &&& pre.on_packet(seg, data, now).send == pre.send
            &&& pre.on_packet(seg, data, now).outgoing == pre.outgoing
        },
{
}

// ----------------------------------------------------------------------
// What is in flight
// ----------------------------------------------------------------------

/// A retransmission keeps the bytes in flight within the queue.
pub proof fn lemma_retransmit_keeps_flight(pre: Tcb, now: u64)
    requires
        pre.wf(),
        pre.flight_queued(),
    ensures
        pre.retransmit(now).flight_queued(),
{
    let queued = pre.unacked.len();
    let wnd = pre.send.wnd as nat;
    let resend = least(queued, wnd);
    if queued < wnd {
        lemma_seq_plus_small(pre.send.una, queued);
    }
    let s = if resend < wnd && pre.closed {
        pre.schedule_fin()
    } else {
        pre
    };
    assert(s.flight_queued());
    lemma_write_moves_nxt_only(s, s.send.una, resend, now);
}

/// Sending new bytes keeps the bytes in flight within the queue.
pub proof fn lemma_send_new_keeps_flight(pre: Tcb, now: u64)
    requires
        pre.wf(),
        pre.flight_queued(),
    ensures
        pre.send_new(now).flight_queued(),
{
    let queued = pre.unacked.len();
    let wnd = pre.send.wnd as nat;
    let send = least(pre.unsent(), pre.allowed());
    if queued < wnd {
        lemma_seq_plus_small(pre.send.una, queued);
    }
    let s = if send < pre.allowed() && pre.closed && pre.closed_at is None {
        pre.schedule_fin()
    } else {
        pre
    };
    assert(s.flight_queued());
    lemma_write_moves_nxt_only(s, s.send.nxt, send, now);
}

/// A tick keeps the bytes in flight within the queue, in every state.
pub proof fn lemma_tick_keeps_flight(pre: Tcb, now: u64)
    requires
        pre.wf(),
        pre.flight_queued(),
    ensures
        pre.on_tick(now).flight_queued(),
{
    lemma_retransmit_keeps_flight(pre, now);
    lemma_send_new_keeps_flight(pre, now);
}

/// A tick keeps what is in flight within the window.
pub proof fn lemma_tick_keeps_window(pre: Tcb, now: u64)
    requires
        pre.wf(),
        pre.flight_in_window(),
    ensures
        pre.on_tick(now).flight_in_window(),
{
    let queued = pre.unacked.len();
    let wnd = pre.send.wnd as nat;
    if queued < wnd {
        lemma_seq_plus_small(pre.send.una, queued);
    }
    let resend = least(queued, wnd);
    lemma_write_moves_nxt_only(pre, pre.send.una, resend, now);
    lemma_write_moves_nxt_only(pre.schedule_fin(), pre.send.una, resend, now);
    let send = least(pre.unsent(), pre.allowed());
    lemma_write_moves_nxt_only(pre, pre.send.nxt, send, now);
    lemma_write_moves_nxt_only(pre.schedule_fin(), pre.send.nxt, send, now);
}

/// The segment's acknowledgment reaches past the FIN's sequence number:
/// it is processed, and it covers more than is in flight up to the FIN.
pub open spec fn acks_past_fin(pre: Tcb, seg: TcpFields, data_len: nat) -> bool {
    &&& pre.closed_at is Some
    &&& pre.accepts(seg, data_len)
    &&& seg.ack
    &&& pre.complete_handshake(seg).acknowledges(seg.acknowledgment_number)
    &&& seq_minus(seg.acknowledgment_number, pre.send.una) > pre.in_flight()
}

/// An acknowledgment that is processed never reaches past `snd.nxt`.
pub proof fn lemma_ack_within_span(pre: Tcb, ackn: u32)
    requires
        pre.acknowledges(ackn),
    ensures
        0 < seq_minus(ackn, pre.send.una) <= pre.span(),
        pre.span() < u32::MAX,
{
    lemma_seq_plus_small(pre.send.nxt, 1);
}

/// What an acknowledgment does to the flight: while it stays within what is
/// in flight, the flight shrinks by what it covers, and the queue by no
/// more than that, less the SYN.
pub proof fn lemma_ack_shrinks_flight(pre: Tcb, ackn: u32, now: u64)
    requires
        pre.acknowledges(ackn),
        seq_minus(ackn, pre.send.una) <= pre.in_flight(),
    ensures
        pre.process_ack(ackn, now).in_flight() == pre.in_flight() - seq_minus(ackn, pre.send.una),
        pre.flight_queued() ==> pre.process_ack(ackn, now).flight_queued(),
        pre.flight_in_window() ==> pre.process_ack(ackn, now).flight_in_window(),
{
    lemma_seq_plus_small(pre.send.una, 1);
    lemma_ack_within_span(pre, ackn);
}

/// A segment keeps the bytes in flight within the queue, and the flight
/// within the window, unless its acknowledgment reaches past the FIN's
/// sequence number.
pub proof fn lemma_packet_keeps_flight(pre: Tcb, seg: TcpFields, data: Seq<u8>, now: u64)
    requires
        pre.wf(),
        !acks_past_fin(pre, seg, data.len()),
    ensures
        pre.flight_queued() ==> pre.on_packet(seg, data, now).flight_queued(),
        pre.flight_in_window() ==> pre.on_packet(seg, data, now).flight_in_window(),
{
    let ackn = seg.acknowledgment_number;
    lemma_bare_ack(pre, now);
    lemma_acknowledged_keeps(pre, pre.bare_ack(now));
    if pre.accepts(seg, data.len()) && seg.ack {
        let s1 = pre.complete_handshake(seg);
        if s1.acknowledges(ackn) {
            if pre.closed_at is None {
                lemma_ack_within_span(s1, ackn);
            }
            lemma_ack_shrinks_flight(s1, ackn, now);
        }
        let s3 = after_ack(pre, seg, now);
        assert(pre.flight_queued() ==> s3.flight_queued());
        assert(pre.flight_in_window() ==> s3.flight_in_window());
        lemma_process_tail(pre, seg, data, now);
        lemma_acknowledged_keeps(s3, pre.process(seg, data, now));
    }
}

// ----------------------------------------------------------------------
// The order of `snd.una` and `snd.nxt`
// ----------------------------------------------------------------------

/// The most that one emitted segment moves `snd.nxt`: a full payload and
/// the FIN.
pub open spec fn max_step() -> nat {
    max_payload() + 1
}

/// The send space is ordered exactly when `snd.nxt` is less than 2^31 - 2
/// ahead of `snd.una`, or directly behind it.
pub proof fn lemma_ordered_by_span(pre: Tcb)
    ensures
        pre.send_space_ordered() <==> (pre.span() < HALF_SPACE - 2 || pre.span() == u32::MAX),
{
    lemma_seq_plus_small(pre.send.nxt, 1);
}

/// While no FIN is scheduled and the flight fits the window, the send
/// space is ordered.
pub proof fn lemma_window_orders_send_space(pre: Tcb)
    requires
        pre.closed_at is None,
        pre.flight_in_window(),
    ensures
        pre.send_space_ordered(),
{
    lemma_ordered_by_span(pre);
}

/// A segment emitted at `snd.una` or at `snd.nxt` moves `snd.nxt` ahead by
/// its own length at most, as long as the two are less than half the
/// sequence space apart.
pub proof fn lemma_write_step(pre: Tcb, seq: u32, limit: nat, now: u64)
    requires
        !pre.tcp.syn,
        seq == pre.send.una || seq == pre.send.nxt,
        pre.span() + max_step() < HALF_SPACE - 2,
    ensures
        pre.write(seq, limit, now).span() <= pre.span() + max_step(),
        pre.write(seq, limit, now).send.una == pre.send.una,
{
    lemma_write_moves_nxt_only(pre, seq, limit, now);
}

/// A retransmission moves `snd.nxt` ahead by one full segment at most.
pub proof fn lemma_retransmit_step(pre: Tcb, now: u64)
    requires
        pre.wf(),
        pre.span() + max_step() < HALF_SPACE - 2,
    ensures
        pre.retransmit(now).span() <= pre.span() + max_step(),
{
    let resend = least(pre.unacked.len(), pre.send.wnd as nat);
    let s = if resend < pre.send.wnd && pre.closed {
        pre.schedule_fin()
    } else {
        pre
    };
    assert(s.span() == pre.span() && !s.tcp.syn && s.send == pre.send);
    if resend != 0 {
        lemma_write_step(s, s.send.una, resend, now);
    }
}

/// Sending new bytes moves `snd.nxt` ahead by one full segment at most.
pub proof fn lemma_send_new_step(pre: Tcb, now: u64)
    requires
        pre.wf(),
        pre.span() + max_step() < HALF_SPACE - 2,
    ensures
        pre.send_new(now).span() <= pre.span() + max_step(),
{
    let unsent = pre.unsent();
    let allowed = pre.allowed();
    let send = least(unsent, allowed);
    let s = if send < allowed && pre.closed && pre.closed_at is None {
        pre.schedule_fin()
    } else {
        pre
    };
    assert(s.span() == pre.span() && !s.tcp.syn && s.send == pre.send);
    if !(unsent == 0 && pre.closed_at is Some) && allowed != 0 && send != 0 {
        lemma_write_step(s, s.send.nxt, send, now);
    }
}

/// A tick moves `snd.nxt` ahead by one full segment at most. So it leaves
/// the send space ordered whenever one more full segment still fits below
/// half the sequence space.
pub proof fn lemma_tick_keeps_order(pre: Tcb, now: u64)
    requires
        pre.wf(),
        pre.span() + max_step() < HALF_SPACE - 2,
    ensures
        pre.on_tick(now).span() <= pre.span() + max_step(),
        pre.on_tick(now).send_space_ordered(),
{
    lemma_retransmit_step(pre, now);
    lemma_send_new_step(pre, now);
    lemma_ordered_by_span(pre.on_tick(now));
}

/// An acknowledgment that is processed moves `snd.una` ahead and never
/// past `snd.nxt`.
pub proof fn lemma_ack_shrinks_span(pre: Tcb, ackn: u32, now: u64)
    ensures
        pre.process_ack(ackn, now).span() <= pre.span(),
{
    if pre.acknowledges(ackn) {
        lemma_ack_within_span(pre, ackn);
    }
}

/// A segment moves `snd.nxt` ahead by one at most. So it leaves the send
/// space ordered whenever one more sequence number still fits below half
/// the sequence space.
pub proof fn lemma_packet_keeps_order(pre: Tcb, seg: TcpFields, data: Seq<u8>, now: u64)
    requires
        pre.wf(),
        pre.span() + 1 < HALF_SPACE - 2,
    ensures
        pre.on_packet(seg, data, now).span() <= pre.span() + 1,
        pre.on_packet(seg, data, now).send_space_ordered(),
{
    lemma_bare_ack(pre, now);
    lemma_acknowledged_keeps(pre, pre.bare_ack(now));
    if pre.accepts(seg, data.len()) && seg.ack {
        lemma_ack_shrinks_span(pre.complete_handshake(seg), seg.acknowledgment_number, now);
        let s3 = after_ack(pre, seg, now);
        assert(s3.span() <= pre.span());
        lemma_process_tail(pre, seg, data, now);
        lemma_acknowledged_keeps(s3, pre.process(seg, data, now));
    }
    lemma_ordered_by_span(pre.on_packet(seg, data, now));
}

// ----------------------------------------------------------------------
// Duplicate payload
// ----------------------------------------------------------------------

/// A segment whose last sequence number lies just before `rcv.nxt`, and
/// whose length is at most half the sequence space, is not acceptable.
pub proof fn lemma_old_segment_rejected(pre: Tcb, seg: TcpFields, data_len: nat)
    requires
        0 < segment_len(seg, data_len) <= HALF_SPACE,
        pre.recv.nxt == seq_plus(seg.sequence_number, segment_len(seg, data_len)),
    ensures
        !pre.accepts(seg, data_len),
{
    let len = segment_len(seg, data_len);
    lemma_seq_plus_small(seg.sequence_number, len);
    lemma_seq_plus_small(seg.sequence_number, (len - 1) as nat);
}

/// A segment that lies wholly before `rcv.nxt` and ends right there, as
/// one does that was taken in before, is answered with one segment without
/// payload at `snd.nxt` that acknowledges `rcv.nxt`, and changes nothing
/// else: state, `incoming`, `unacked`, `snd.una` and the receive sequence
/// space stay.
pub proof fn lemma_repeated_segment(pre: Tcb, seg: TcpFields, data: Seq<u8>, now: u64)
    requires
        0 < segment_len(seg, data.len()) <= HALF_SPACE,
        pre.recv.nxt == seq_plus(seg.sequence_number, segment_len(seg, data.len())),
    ensures
        ({
            let post = pre.on_packet(seg, data, now);
            let answer = pre.frame_at(pre.send.nxt, 0);
            &&& post == pre.bare_ack(now)
            &&& post.outgoing == pre.outgoing.push(answer)
            &&& pre.payload(pre.send.nxt, 0).len() == 0
            &&& answer.tcp.sequence_number == pre.send.nxt
            &&& answer.tcp.acknowledgment_number == pre.recv.nxt
            &&& post.state == pre.state
            &&& post.incoming == pre.incoming
            &&& post.unacked == pre.unacked
            &&& post.send.una == pre.send.una
            &&& post.recv == pre.recv
            &&& post.closed_at == pre.closed_at
        }),
{
    lemma_old_segment_rejected(pre, seg, data.len());
}

/// A payload that arrives in sequence is taken in whole, and `rcv.nxt`
/// moves past the segment.
pub proof fn lemma_payload_taken(pre: Tcb, seg: TcpFields, data: Seq<u8>, now: u64)
    requires
        !seg.syn,
        pre.takes_payload(seg, data.len()),
        pre.recv.nxt == seg.sequence_number,
    ensures
        pre.on_packet(seg, data, now).incoming == pre.incoming + data,
        pre.on_packet(seg, data, now).recv.nxt == seq_plus(
            seg.sequence_number,
            segment_len(seg, data.len()),
        ),
        pre.on_packet(seg, data, now).recv.wnd == pre.recv.wnd,
{
    let s3 = after_ack(pre, seg, now);
    assert(s3.state.is_synchronized());
    assert(s3.recv == pre.recv);
    assert(s3.incoming == pre.incoming);
    assert(data.skip(0) =~= data);
    let s4 = s3.receive_data(seg.sequence_number, data, now);
    assert(s4.state.is_synchronized());
    lemma_seq_plus_twice(seg.sequence_number, data.len(), 1);
}

/// A payload delivered twice is taken in once. If the first delivery was in
/// sequence and taken in, the second is answered with one segment without
/// payload at `snd.nxt` and changes nothing else: state, `incoming`,
/// `unacked`, `snd.una` and the receive sequence space are as the first
/// delivery left them.
pub proof fn lemma_duplicate_payload(
    pre: Tcb,
    seg: TcpFields,
    data: Seq<u8>,
    first: u64,
    second: u64,
)
    requires
        !seg.syn,
        data.len() < HALF_SPACE,
        pre.takes_payload(seg, data.len()),
        pre.recv.nxt == seg.sequence_number,
    ensures
        ({
            let once = pre.on_packet(seg, data, first);
            let twice = once.on_packet(seg, data, second);
            &&& once.incoming == pre.incoming + data
            &&& twice == once.bare_ack(second)
            &&& twice.state == once.state
            &&& twice.incoming == once.incoming
            &&& twice.unacked == once.unacked
            &&& twice.send.una == once.send.una
            &&& twice.recv == once.recv
            &&& twice.outgoing == once.outgoing.push(once.frame_at(once.send.nxt, 0))
            &&& once.payload(once.send.nxt, 0).len() == 0
            &&& once.frame_at(once.send.nxt, 0).tcp.sequence_number == once.send.nxt
            &&& once.frame_at(once.send.nxt, 0).tcp.acknowledgment_number == once.recv.nxt
        }),
{
    lemma_payload_taken(pre, seg, data, first);
    let once = pre.on_packet(seg, data, first);
    lemma_old_segment_rejected(once, seg, data.len());
}

} // verus!

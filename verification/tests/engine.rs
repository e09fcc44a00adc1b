//! Single operations of the engine on chosen states.

use tcp_engine::available::Available;
use tcp_engine::connection::{is_acceptable, Connection};
use tcp_engine::error::TcpError;
use tcp_engine::space::{RecvSequenceSpace, State};
use tcp_engine::wire::{Ipv4Fields, TcpFields};

const ALL_STATES: [State; 11] = [
    State::Listen,
    State::SynSent,
    State::SynRcvd,
    State::Estab,
    State::FinWait1,
    State::FinWait2,
    State::CloseWait,
    State::LastAck,
    State::Closing,
    State::TimeWait,
    State::Closed,
];

fn peer_ip() -> Ipv4Fields {
    Ipv4Fields { payload_len: 20, time_to_live: 64, source: [10, 0, 0, 2], destination: [10, 0, 0, 1] }
}

fn segment(seq: u32, ack: Option<u32>) -> TcpFields {
    TcpFields {
        source_port: 4000,
        destination_port: 80,
        sequence_number: seq,
        acknowledgment_number: ack.unwrap_or(0),
        fin: false,
        syn: false,
        rst: false,
        ack: ack.is_some(),
        window_size: 512,
        checksum: 0,
    }
}

fn syn(seq: u32) -> TcpFields {
    TcpFields { syn: true, ..segment(seq, None) }
}

fn established() -> Connection {
    let mut c = Connection::accept(&peer_ip(), &syn(1000), &[], 0).expect("a SYN opens");
    c.on_packet(&peer_ip(), &segment(1001, Some(1)), &[], 0);
    assert_eq!(c.state, State::Estab);
    c.take_outgoing();
    c
}

fn in_state(state: State) -> Connection {
    let mut c = established();
    c.state = state;
    c
}

fn recv(nxt: u32, wnd: u16) -> RecvSequenceSpace {
    RecvSequenceSpace { nxt, wnd, up: false, irs: nxt.wrapping_sub(1) }
}

#[test]
fn a_segment_without_syn_opens_nothing() {
    assert!(Connection::accept(&peer_ip(), &segment(1000, None), &[], 0).is_none());
    assert!(Connection::accept(&peer_ip(), &segment(1000, Some(5)), &[], 0).is_none());
    assert!(Connection::connect(&peer_ip(), &segment(1000, None), &[], 0).is_none());
}

#[test]
fn passive_open_sets_up_both_sequence_spaces() {
    let c = Connection::accept(&peer_ip(), &syn(0xFFFF_FFFF), &[], 77).unwrap();
    assert_eq!(c.state, State::SynRcvd);
    assert_eq!((c.send.iss, c.send.una, c.send.nxt, c.send.wnd), (0, 0, 1, 1024));
    assert_eq!((c.recv.irs, c.recv.nxt, c.recv.wnd), (0xFFFF_FFFF, 0, 512));
    assert!(!c.closed);
    assert_eq!(c.closed_at, None);
    assert!(c.incoming.is_empty() && c.unacked.is_empty());
    assert_eq!(c.timers.send_times.len(), 1);
    assert_eq!((c.timers.send_times[0].seq, c.timers.send_times[0].at), (0, 77));
    assert_eq!(c.timers.srtt, 60_000_000_000);
    assert!(!c.tcp.syn && c.tcp.ack && !c.tcp.fin && !c.tcp.rst);
    assert_eq!(c.outgoing.len(), 1);
}

#[test]
fn active_open_sends_a_syn_without_ack() {
    let mut c = Connection::connect(&peer_ip(), &syn(1000), &[], 0).unwrap();
    assert_eq!(c.state, State::SynSent);
    assert_eq!((c.send.una, c.send.nxt), (0, 1));
    assert_eq!(c.recv.nxt, 1001);
    let frames = c.take_outgoing();
    assert_eq!(frames.len(), 1);
    assert!(frames[0].tcp.syn && !frames[0].tcp.ack);
    assert_eq!(frames[0].tcp.sequence_number, 0);
    assert_eq!(c.close(), Err(TcpError::NotConnected));
}

#[test]
fn tick_right_after_the_opening_changes_nothing() {
    for active in [false, true] {
        let mut c = if active {
            Connection::connect(&peer_ip(), &syn(1000), &[], 0).unwrap()
        } else {
            Connection::accept(&peer_ip(), &syn(1000), &[], 0).unwrap()
        };
        c.take_outgoing();
        let state = c.state;
        for now in [0, 1, 1_000_000_000, 89_000_000_000] {
            c.on_tick(now);
            assert!(c.outgoing.is_empty());
            assert_eq!(c.state, state);
            assert_eq!((c.send.una, c.send.nxt), (0, 1));
            assert_eq!(c.closed_at, None);
            assert_eq!(c.timers.srtt, 60_000_000_000);
            assert_eq!(c.timers.send_times.len(), 1);
        }
        // the SYN is overdue: there is nothing in the queue to send again
        c.on_tick(91_000_000_000);
        assert!(c.outgoing.is_empty());
        assert_eq!((c.send.una, c.send.nxt), (0, 1));
    }
}

#[test]
fn tick_during_the_handshake_counts_the_syn_as_in_flight() {
    let mut c = Connection::accept(&peer_ip(), &syn(1000), &[], 0).unwrap();
    c.take_outgoing();
    // one byte is queued and one number, the SYN, is in flight: none unsent
    c.unacked.push_back(7);
    c.on_tick(1);
    assert!(c.outgoing.is_empty());
    assert_eq!(c.send.nxt, 1);
    // once the SYN is acknowledged the byte goes out
    c.on_packet(&peer_ip(), &segment(1001, Some(1)), &[], 2);
    assert_eq!(c.unacked.len(), 1);
    c.on_tick(3);
    let frames = c.take_outgoing();
    assert_eq!(frames.len(), 1);
    assert_eq!(frames[0].tcp.sequence_number, 1);
    assert_eq!(&frames[0].bytes[40..], &[7u8][..]);
}

#[test]
fn tick_in_quiescent_states_does_nothing() {
    for state in [State::FinWait2, State::TimeWait, State::Closed] {
        let mut c = in_state(state);
        c.send.nxt = 500;
        c.unacked.push_back(1);
        c.on_tick(u64::MAX);
        assert!(c.outgoing.is_empty());
        assert_eq!(c.send.nxt, 500);
        assert_eq!(c.state, state);
    }
}

#[test]
fn tick_with_more_in_flight_than_queued_or_allowed_sends_nothing_new() {
    let mut c = established();
    c.send.nxt = 3;
    c.unacked.push_back(1);
    c.on_tick(0);
    assert!(c.outgoing.is_empty());
    assert_eq!(c.send.nxt, 3);
    // queued, but the window is used up
    c.unacked.extend([2u8, 3, 4]);
    c.send.wnd = 1;
    c.on_tick(0);
    assert!(c.outgoing.is_empty());
    assert_eq!(c.send.nxt, 3);
    // with room in the window the byte not yet sent goes out
    c.send.wnd = 8;
    c.on_tick(0);
    let frames = c.take_outgoing();
    assert_eq!(frames[0].tcp.sequence_number, 3);
    assert_eq!(&frames[0].bytes[40..], &[3u8, 4][..]);
}

#[test]
fn tick_leaves_everything_but_the_sending_side() {
    let mut c = established();
    c.unacked.extend([1u8, 2, 3]);
    c.incoming.extend([9u8, 8]);
    let (state, recv, closed, srtt) = (c.state, c.recv, c.closed, c.timers.srtt);
    let (una, wnd, iss) = (c.send.una, c.send.wnd, c.send.iss);
    let (incoming, unacked) = (c.incoming.clone(), c.unacked.clone());
    for now in [0, 5, 100_000_000_000, 300_000_000_000] {
        c.on_tick(now);
        assert_eq!((c.state, c.recv, c.closed, c.timers.srtt), (state, recv, closed, srtt));
        assert_eq!((c.send.una, c.send.wnd, c.send.iss), (una, wnd, iss));
        assert_eq!(c.incoming, incoming);
        assert_eq!(c.unacked, unacked);
    }
    assert_eq!(c.take_outgoing().len(), 3);
}

#[test]
fn active_open_is_established_by_syn_and_ack() {
    let mut c = Connection::connect(&peer_ip(), &syn(1000), &[], 0).unwrap();
    c.take_outgoing();
    // an acknowledgment without SYN does not complete an active open
    c.on_packet(&peer_ip(), &segment(1001, Some(1)), &[], 1);
    assert_eq!(c.state, State::SynSent);
    assert_eq!(c.send.una, 0);
    // nor does a SYN whose acknowledgment misses ours
    c.on_packet(&peer_ip(), &TcpFields { syn: true, ..segment(1001, Some(9)) }, &[], 1);
    assert_eq!(c.state, State::SynSent);
    // SYN and ACK of our SYN do, and the acknowledgment is processed
    c.on_packet(&peer_ip(), &TcpFields { syn: true, ..segment(1001, Some(1)) }, &[], 2);
    assert_eq!(c.state, State::Estab);
    assert_eq!(c.send.una, 1);
    assert!(c.outgoing.is_empty());
    assert_eq!(c.close(), Ok(()));
    assert_eq!(c.state, State::FinWait1);
}

#[test]
fn passive_open_is_established_by_any_acknowledgment_of_the_syn() {
    let mut c = Connection::accept(&peer_ip(), &syn(1000), &[], 0).unwrap();
    c.on_packet(&peer_ip(), &segment(1001, Some(9)), &[], 1);
    assert_eq!(c.state, State::SynRcvd);
    c.on_packet(&peer_ip(), &segment(1001, Some(1)), &[], 1);
    assert_eq!(c.state, State::Estab);
}

#[test]
fn close_in_every_state() {
    for state in ALL_STATES {
        let mut c = in_state(state);
        let r = c.close();
        assert!(c.closed);
        let (ok, next) = match state {
            State::SynRcvd | State::Estab => (true, State::FinWait1),
            State::CloseWait => (true, State::LastAck),
            State::FinWait1 | State::FinWait2 | State::Closing | State::LastAck => (true, state),
            _ => (false, state),
        };
        assert_eq!(r.is_ok(), ok);
        if !ok {
            assert_eq!(r, Err(TcpError::NotConnected));
        }
        assert_eq!(c.state, next);
        assert!(c.outgoing.is_empty());
    }
}

#[test]
fn error_message() {
    assert_eq!(TcpError::NotConnected.message(), "already closing");
}

#[test]
fn availability_in_every_state() {
    for state in ALL_STATES {
        let rcv_closed = matches!(
            state,
            State::TimeWait | State::CloseWait | State::LastAck | State::Closed | State::Closing
        );
        let snd_closed = matches!(
            state,
            State::FinWait1 | State::FinWait2 | State::Closing | State::TimeWait | State::LastAck
                | State::Closed
        );
        let mut c = in_state(state);
        assert_eq!(c.is_rcv_closed(), rcv_closed);
        assert_eq!(c.is_snd_closed(), snd_closed);
        let a = c.availability();
        assert_eq!(a.readable(), rcv_closed);
        assert_eq!(a.writable(), snd_closed);
        c.incoming.push_back(1);
        assert!(c.availability().readable());
        assert_eq!(c.availability().writable(), snd_closed);
        c.unacked.push_back(1);
        assert!(c.availability().writable());
        assert_eq!(c.availability().bits(), 3);
    }
}

#[test]
fn available_bits() {
    assert_eq!(Available::READ, 1);
    assert_eq!(Available::WRITE, 2);
    assert_eq!(Available::empty().bits(), 0);
    assert_eq!(Available::new(true, false).bits(), 1);
    assert_eq!(Available::new(false, true).bits(), 2);
    assert_eq!(Available::new(true, true).bits(), 3);
    assert!(!Available::empty().readable() && !Available::empty().writable());
    assert_eq!(Available::new(true, false), Available::new(true, false));
}

#[test]
fn on_packet_reports_availability() {
    let mut c = established();
    let a = c.on_packet(&peer_ip(), &segment(1001, Some(1)), &[9], 0);
    assert!(a.readable() && !a.writable());
}

#[test]
fn acceptability_of_empty_segment_in_zero_window() {
    assert!(is_acceptable(&recv(100, 0), &segment(100, Some(0)), 0));
    assert!(!is_acceptable(&recv(100, 0), &segment(101, Some(0)), 0));
    assert!(!is_acceptable(&recv(100, 0), &segment(99, Some(0)), 0));
}

#[test]
fn acceptability_of_empty_segment_in_open_window() {
    let r = recv(100, 10);
    assert!(!is_acceptable(&r, &segment(99, Some(0)), 0));
    assert!(is_acceptable(&r, &segment(100, Some(0)), 0));
    assert!(is_acceptable(&r, &segment(109, Some(0)), 0));
    assert!(!is_acceptable(&r, &segment(110, Some(0)), 0));
}

#[test]
fn acceptability_of_segment_with_length_in_zero_window() {
    assert!(!is_acceptable(&recv(100, 0), &segment(100, Some(0)), 1));
    assert!(!is_acceptable(&recv(100, 0), &syn(100), 0));
    assert!(!is_acceptable(&recv(100, 0), &TcpFields { fin: true, ..segment(100, Some(0)) }, 0));
}

#[test]
fn acceptability_of_segment_with_length_in_open_window() {
    let r = recv(100, 10);
    // starts in the window
    assert!(is_acceptable(&r, &segment(100, Some(0)), 500));
    assert!(is_acceptable(&r, &segment(109, Some(0)), 1));
    // starts before the window and ends in it
    assert!(is_acceptable(&r, &segment(90, Some(0)), 11));
    assert!(!is_acceptable(&r, &segment(90, Some(0)), 10));
    // SYN and FIN count one each
    assert!(is_acceptable(&r, &TcpFields { fin: true, ..segment(90, Some(0)) }, 10));
    assert!(is_acceptable(&r, &TcpFields { fin: true, ..syn(90) }, 9));
    assert!(!is_acceptable(&r, &TcpFields { fin: true, ..syn(90) }, 8));
    assert!(is_acceptable(&r, &syn(100), 0));
    assert!(!is_acceptable(&r, &syn(99), 0));
    // starts beyond the window
    assert!(!is_acceptable(&r, &segment(110, Some(0)), 1));
}

#[test]
fn acceptability_across_the_wrap() {
    let r = recv(0xFFFF_FFFE, 4);
    assert!(is_acceptable(&r, &segment(0xFFFF_FFFE, Some(0)), 0));
    assert!(is_acceptable(&r, &segment(1, Some(0)), 0));
    assert!(!is_acceptable(&r, &segment(2, Some(0)), 0));
    assert!(is_acceptable(&r, &segment(0xFFFF_FFF0, Some(0)), 15));
    assert!(!is_acceptable(&r, &segment(0xFFFF_FFF0, Some(0)), 14));
}

#[test]
fn duplicate_ack_changes_neither_queue_nor_send_times() {
    let mut c = established();
    c.unacked.extend([1u8, 2, 3]);
    c.on_tick(0);
    c.take_outgoing();
    let queue = c.unacked.clone();
    let timers = c.timers.clone();
    let send = c.send;
    c.on_packet(&peer_ip(), &segment(1001, Some(c.send.una)), &[], 5);
    assert_eq!(c.unacked, queue);
    assert_eq!(c.timers, timers);
    assert_eq!(c.send, send);
    assert!(c.outgoing.is_empty());
}

#[test]
fn duplicate_payload_is_acknowledged_and_taken_once() {
    let mut c = established();
    c.on_packet(&peer_ip(), &segment(1001, Some(1)), &[7, 8, 9], 0);
    assert_eq!(c.incoming.len(), 3);
    assert_eq!(c.take_outgoing().len(), 1);
    let recv = c.recv;
    assert!(c.expects(&segment(1001, Some(1)), 3));
    c.on_packet(&peer_ip(), &segment(1001, Some(1)), &[7, 8, 9], 1);
    assert_eq!(c.incoming.iter().copied().collect::<Vec<u8>>(), vec![7, 8, 9]);
    assert_eq!(c.recv, recv);
    let frames = c.take_outgoing();
    assert_eq!(frames.len(), 1);
    assert_eq!(frames[0].bytes.len(), 40);
    assert_eq!(frames[0].tcp.acknowledgment_number, 1004);
    assert_eq!(frames[0].tcp.sequence_number, 1);
}

#[test]
fn overlapping_payload_is_taken_from_rcv_nxt_on() {
    let mut c = established();
    c.on_packet(&peer_ip(), &segment(1001, Some(1)), &[1, 2, 3], 0);
    c.on_packet(&peer_ip(), &segment(1002, Some(1)), &[2, 3, 4, 5], 0);
    assert_eq!(c.incoming.iter().copied().collect::<Vec<u8>>(), vec![1, 2, 3, 4, 5]);
    assert_eq!(c.recv.nxt, 1006);
}

#[test]
fn payload_ahead_of_rcv_nxt_is_not_expected() {
    let c = established();
    assert!(c.expects(&segment(1001, Some(1)), 4));
    assert!(!c.expects(&segment(1003, Some(1)), 4));
    // without ACK, or in a state that takes no payload, anything goes
    assert!(c.expects(&segment(1003, None), 4));
    assert!(in_state(State::TimeWait).expects(&segment(1003, Some(1)), 4));
    // not acceptable at all: only acknowledged
    assert!(c.expects(&segment(5000, Some(1)), 4));
}

#[test]
fn payload_during_handshake_is_expected_once_the_syn_is_acknowledged() {
    let mut c = Connection::accept(&peer_ip(), &syn(1000), &[], 0).unwrap();
    c.take_outgoing();
    assert!(!c.expects(&segment(1003, Some(1)), 4));
    assert!(c.expects(&segment(1003, Some(9)), 4));
    assert!(c.expects(&segment(1001, Some(1)), 4));
    c.on_packet(&peer_ip(), &segment(1001, Some(1)), &[1, 2, 3, 4], 0);
    assert_eq!(c.state, State::Estab);
    assert_eq!(c.send.una, 1);
    assert_eq!(c.incoming.len(), 4);
}

#[test]
fn closed_connection_stays_silent() {
    let mut c = in_state(State::Closed);
    c.unacked.push_back(1);
    c.closed = true;
    c.on_tick(u64::MAX);
    assert!(c.outgoing.is_empty());
    // acceptable segments of every kind
    c.on_packet(&peer_ip(), &segment(1001, Some(1)), &[], 0);
    c.on_packet(&peer_ip(), &segment(1001, Some(1)), &[1, 2], 0);
    c.on_packet(&peer_ip(), &TcpFields { fin: true, ..segment(1001, Some(1)) }, &[], 0);
    c.on_packet(&peer_ip(), &segment(1001, None), &[], 0);
    assert!(c.outgoing.is_empty());
    assert_eq!(c.state, State::Closed);
    assert!(c.incoming.is_empty());
    assert_eq!(c.recv.nxt, 1001);
}

#[test]
fn closed_connection_still_acknowledges_what_it_rejects() {
    let mut c = in_state(State::Closed);
    c.on_packet(&peer_ip(), &segment(5000, Some(1)), &[], 0);
    assert_eq!(c.outgoing.len(), 1);
    assert_eq!(c.state, State::Closed);
}

#[test]
fn fin_in_a_state_that_expects_none_is_ignored() {
    for state in [State::Listen, State::SynSent, State::CloseWait, State::LastAck, State::Closing,
        State::TimeWait, State::Closed]
    {
        let mut c = in_state(state);
        c.on_packet(&peer_ip(), &TcpFields { fin: true, ..segment(1001, Some(1)) }, &[], 0);
        assert_eq!(c.state, state);
        assert_eq!(c.recv.nxt, 1001);
        assert!(c.outgoing.is_empty());
    }
}

#[test]
fn syn_without_ack_moves_rcv_nxt_only() {
    let mut c = established();
    let a = c.on_packet(&peer_ip(), &syn(1005), &[], 0);
    assert_eq!(c.recv.nxt, 1006);
    assert_eq!(c.state, State::Estab);
    assert!(c.outgoing.is_empty());
    assert_eq!(a.bits(), 0);
    c.on_packet(&peer_ip(), &segment(1006, None), &[1], 0);
    assert_eq!(c.recv.nxt, 1006);
    assert!(c.incoming.is_empty());
    assert!(c.outgoing.is_empty());
}

#[test]
fn closed_at_is_fixed_once() {
    let mut c = established();
    c.unacked.extend([1u8, 2]);
    c.close().unwrap();
    c.on_tick(0);
    assert_eq!(c.closed_at, Some(3));
    c.take_outgoing();
    // more bytes and a retransmission later, the FIN is where it was
    c.unacked.extend([3u8, 4, 5]);
    c.on_tick(200_000_000_000);
    assert_eq!(c.closed_at, Some(3));
    assert_eq!(c.take_outgoing().len(), 1);
    c.on_packet(&peer_ip(), &segment(1001, Some(2)), &[], 0);
    assert_eq!(c.closed_at, Some(3));
    c.on_tick(200_000_000_000);
    assert_eq!(c.closed_at, Some(3));
    let _ = c.close();
    assert_eq!(c.closed_at, Some(3));
}

#[test]
fn retransmission_resends_from_una_with_the_fin() {
    let mut c = established();
    c.unacked.extend([1u8, 2]);
    c.close().unwrap();
    c.on_tick(0);
    let first = c.take_outgoing();
    assert!(first[0].tcp.fin);
    assert_eq!(c.send.nxt, 4);
    c.on_tick(91_000_000_000);
    let again = c.take_outgoing();
    assert_eq!(again.len(), 1);
    assert_eq!(again[0].tcp.sequence_number, 1);
    assert!(again[0].tcp.fin);
    assert_eq!(&again[0].bytes[40..], &[1u8, 2][..]);
    assert_eq!(c.send.nxt, 4);
}

#[test]
fn window_limits_new_data() {
    let mut c = established();
    c.send.wnd = 3;
    c.unacked.extend([1u8, 2, 3, 4, 5]);
    c.on_tick(0);
    let frames = c.take_outgoing();
    assert_eq!(&frames[0].bytes[40..], &[1u8, 2, 3][..]);
    assert_eq!(c.send.nxt, 4);
    // the window is full
    c.on_tick(1);
    assert!(c.outgoing.is_empty());
    c.on_packet(&peer_ip(), &segment(1001, Some(3)), &[], 2);
    assert_eq!(c.unacked.iter().copied().collect::<Vec<u8>>(), vec![3, 4, 5]);
    c.on_tick(3);
    let frames = c.take_outgoing();
    assert_eq!(frames[0].tcp.sequence_number, 4);
    assert_eq!(&frames[0].bytes[40..], &[4u8, 5][..]);
}

#[test]
fn first_acknowledgment_spares_the_queue_while_the_syn_is_outstanding() {
    let mut c = Connection::accept(&peer_ip(), &syn(1000), &[], 0).unwrap();
    c.take_outgoing();
    c.unacked.extend([1u8, 2, 3]);
    c.on_packet(&peer_ip(), &segment(1001, Some(1)), &[], 0);
    assert_eq!(c.state, State::Estab);
    assert_eq!(c.send.una, 1);
    assert_eq!(c.unacked.len(), 3);
}

#[test]
fn write_clips_payload_to_the_frame() {
    let mut c = established();
    c.unacked.extend(std::iter::repeat(7u8).take(3000));
    let n = c.write(1, 3000, 0);
    assert_eq!(n, 1460);
    let frames = c.take_outgoing();
    assert_eq!(frames[0].bytes.len(), 1500);
    assert_eq!(frames[0].ip.payload_len, 1480);
    assert_eq!(c.send.nxt, 1461);
}

#[test]
fn write_draws_payload_from_the_offset() {
    let mut c = established();
    c.unacked.extend([10u8, 11, 12, 13, 14]);
    assert_eq!(c.write(3, 2, 0), 2);
    assert_eq!(&c.take_outgoing()[0].bytes[40..], &[12u8, 13][..]);
    assert_eq!(c.send.nxt, 5);
    // the limit is not reached when the queue ends first
    assert_eq!(c.write(4, 10, 0), 2);
    assert_eq!(&c.take_outgoing()[0].bytes[40..], &[13u8, 14][..]);
    // beyond the queue there is nothing to carry
    assert_eq!(c.write(9, 10, 0), 0);
    assert_eq!(c.take_outgoing()[0].bytes.len(), 40);
    assert_eq!(c.send.nxt, 9);
}

#[test]
fn write_past_the_fin_carries_nothing() {
    let mut c = established();
    c.unacked.extend([10u8, 11]);
    c.closed_at = Some(3);
    assert_eq!(c.write(4, 2, 0), 0);
    assert_eq!(c.take_outgoing()[0].bytes.len(), 40);
}

#[test]
fn write_keeps_snd_nxt_when_the_segment_ends_behind_it() {
    let mut c = established();
    c.unacked.extend([1u8, 2, 3, 4]);
    c.send.nxt = 5;
    assert_eq!(c.write(1, 2, 9), 2);
    assert_eq!(c.send.nxt, 5);
    assert_eq!(c.timers.earliest(1), Some(9));
}

#[test]
fn reset_goes_out_with_the_next_segment_and_stays_latched() {
    let mut c = established();
    c.send_rst(0);
    let frames = c.take_outgoing();
    assert_eq!(frames.len(), 1);
    assert!(frames[0].tcp.rst);
    assert_eq!(frames[0].tcp.sequence_number, 1);
    assert_eq!(frames[0].tcp.acknowledgment_number, 1001);
    assert_eq!(frames[0].bytes.len(), 40);
    assert!(c.tcp.rst);
}

#[test]
fn take_outgoing_empties_the_outbox() {
    let mut c = Connection::accept(&peer_ip(), &syn(1000), &[], 0).unwrap();
    assert_eq!(c.take_outgoing().len(), 1);
    assert!(c.take_outgoing().is_empty());
    assert!(c.outgoing.is_empty());
}

#[test]
fn send_space_stays_ordered_along_an_exchange() {
    fn ordered(c: &Connection) -> bool {
        let una = c.send.una;
        let nxt = c.send.nxt;
        tcp_engine::seqnum::wrapping_lt(una.wrapping_sub(1), nxt.wrapping_add(1)) || una == nxt
    }
    let mut c = established();
    c.send.una = 0xFFFF_FFF0;
    c.send.nxt = 0xFFFF_FFF0;
    assert!(ordered(&c));
    for round in 0..40u64 {
        c.unacked.extend(std::iter::repeat(round as u8).take(700));
            c.on_tick(round);
        assert!(ordered(&c));
        assert!(c.send.nxt.wrapping_sub(c.send.una) as usize <= c.unacked.len());
        let ack = c.send.una.wrapping_add(300);
        c.on_packet(&peer_ip(), &segment(1001, Some(ack)), &[], round);
        assert!(ordered(&c));
        assert!(c.send.nxt.wrapping_sub(c.send.una) as usize <= c.unacked.len());
        assert!(c.timers.srtt > 0);
    }
}

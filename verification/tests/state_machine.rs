use tcp_core::codec::TcpHdr;
use tcp_core::conn::{Connection, State, RCV_WND_INIT, TIME_WAIT_TICKS};
use tcp_core::table::{ConnTable, Quad};

fn seg(seq: u32, ack: u32, syn: bool, ackf: bool, fin: bool, rst: bool, wnd: u16) -> TcpHdr {
    TcpHdr {
        src_port: 4000,
        dst_port: 80,
        seq,
        ack,
        flag_syn: syn,
        flag_ack: ackf,
        flag_fin: fin,
        flag_rst: rst,
        wnd,
    }
}

/// Drive a fresh connection through the three-way handshake:
/// SYN(seq=100) answered by SYN+ACK(seq=isn, ack=101), then
/// ACK(seq=101, ack=isn+1).
fn established(isn: u32) -> Connection {
    let mut c = Connection::default();
    let (out, rm) = c.on_segment(&seg(100, 0, true, false, false, false, 1024), &[], isn);
    assert_eq!(out.len(), 1);
    assert!(!rm);
    let (out2, rm2) = c.on_segment(
        &seg(101, isn.wrapping_add(1), false, true, false, false, 1024),
        &[],
        0,
    );
    assert!(out2.is_empty());
    assert!(!rm2);
    assert_eq!(c.current_state(), State::Estab);
    c
}

#[test]
fn handshake_establishes_connection() {
    // client sends SYN(seq=100) -> server answers SYN+ACK(seq=S, ack=101)
    let mut c = Connection::default();
    let (out, rm) = c.on_segment(&seg(100, 0, true, false, false, false, 1024), &[], 700);
    assert!(!rm);
    assert_eq!(out.len(), 1);
    let sa = out[0];
    assert!(sa.flag_syn && sa.flag_ack && !sa.flag_fin && !sa.flag_rst);
    assert_eq!(sa.seq, 700);
    assert_eq!(sa.ack, 101);
    assert_eq!(sa.src_port, 80);
    assert_eq!(sa.dst_port, 4000);
    assert_eq!(sa.wnd, RCV_WND_INIT);
    assert_eq!(c.current_state(), State::SynRcvd);
    // client sends ACK(seq=101, ack=S+1) -> ESTABLISHED
    let (out2, rm2) = c.on_segment(&seg(101, 701, false, true, false, false, 1024), &[], 0);
    assert!(out2.is_empty());
    assert!(!rm2);
    assert_eq!(c.current_state(), State::Estab);
    assert_eq!(c.send_space().una, 701);
    assert_eq!(c.recv_space().nxt, 101);
}

#[test]
fn handshake_across_sequence_wraparound() {
    let mut c = Connection::default();
    let (out, _) = c.on_segment(
        &seg(0xFFFF_FFFF, 0, true, false, false, false, 512),
        &[],
        0xFFFF_FFFE,
    );
    assert_eq!(out[0].ack, 0);
    assert_eq!(c.recv_space().nxt, 0);
    assert_eq!(c.recv_space().irs, 0xFFFF_FFFF);
    assert_eq!(c.send_space().nxt, 0xFFFF_FFFF);
    assert_eq!(c.send_space().una, 0xFFFF_FFFE);
}

#[test]
fn wrong_ack_stays_syn_received() {
    let mut c = Connection::default();
    c.on_segment(&seg(100, 0, true, false, false, false, 1024), &[], 700);
    assert_eq!(c.current_state(), State::SynRcvd);
    // an ACK that does not cover the SYN+ACK leaves the state alone
    let (_, rm) = c.on_segment(&seg(101, 702, false, true, false, false, 1024), &[], 0);
    assert!(!rm);
    assert_eq!(c.current_state(), State::SynRcvd);
    let (_, rm2) = c.on_segment(&seg(101, 700, false, true, false, false, 1024), &[], 0);
    assert!(!rm2);
    assert_eq!(c.current_state(), State::SynRcvd);
}

#[test]
fn listen_ignores_non_syn() {
    let mut c = Connection::default();
    let (out, rm) = c.on_segment(&seg(5, 9, false, true, false, false, 64), &[], 1);
    assert!(out.is_empty());
    assert!(!rm);
    assert_eq!(c.current_state(), State::Listen);
}

#[test]
fn out_of_window_segment_dropped() {
    let mut c = established(700);
    // sequence number fully outside [recv.nxt, recv.nxt + recv.wnd)
    let bad_seq = 101u32.wrapping_add(RCV_WND_INIT as u32);
    let (out, rm) = c.on_segment(&seg(bad_seq, 701, false, true, false, false, 1024), b"zz", 0);
    assert!(!rm);
    assert_eq!(c.current_state(), State::Estab);
    // recv.nxt did not advance, and a resynchronizing ACK was sent
    assert_eq!(c.recv_space().nxt, 101);
    assert_eq!(out.len(), 1);
    assert!(out[0].flag_ack && !out[0].flag_syn && !out[0].flag_fin);
    assert_eq!(out[0].ack, 101);
    assert!(c.take_received().is_empty());
}

#[test]
fn in_order_data_is_acked_and_delivered() {
    let mut c = established(700);
    let (out, _) = c.on_segment(&seg(101, 701, false, true, false, false, 1024), b"hello", 0);
    assert_eq!(c.recv_space().nxt, 106);
    assert_eq!(out.len(), 1);
    assert_eq!(out[0].ack, 106);
    // the advertised window shrank by the buffered bytes
    assert_eq!(c.recv_space().wnd, RCV_WND_INIT - 5);
    assert_eq!(c.take_received(), b"hello".to_vec());
    // reading restores the advertised window
    assert_eq!(c.recv_space().wnd, RCV_WND_INIT);
}

#[test]
fn out_of_order_data_provokes_duplicate_ack() {
    let mut c = established(700);
    // in the window, but not at recv.nxt: dropped, duplicate ACK
    let (out, _) = c.on_segment(&seg(105, 701, false, true, false, false, 1024), b"late", 0);
    assert_eq!(c.recv_space().nxt, 101);
    assert_eq!(out.len(), 1);
    assert_eq!(out[0].ack, 101);
    assert!(c.take_received().is_empty());
}

#[test]
fn in_window_syn_gets_challenge_ack() {
    let mut c = established(700);
    let (out, rm) = c.on_segment(&seg(101, 701, true, true, false, false, 1024), &[], 0);
    assert!(!rm);
    assert_eq!(c.current_state(), State::Estab);
    assert_eq!(out.len(), 1);
    assert_eq!(out[0].ack, 101);
}

#[test]
fn fin_then_local_close_then_last_ack() {
    // ESTABLISHED receives FIN(seq=101): ACK(ack=102), CLOSE_WAIT
    let mut c = established(700);
    let (out, rm) = c.on_segment(&seg(101, 701, false, true, true, false, 1024), &[], 0);
    assert!(!rm);
    assert_eq!(out.len(), 1);
    assert_eq!(out[0].ack, 102);
    assert_eq!(c.current_state(), State::CloseWait);
    // local close: FIN goes out, LAST_ACK
    let (fin, rm2) = c.close(80, 4000);
    assert!(!rm2);
    let fin = fin.expect("a FIN is owed");
    assert!(fin.flag_fin && fin.flag_ack);
    assert_eq!(fin.seq, 701);
    assert_eq!(fin.ack, 102);
    assert_eq!(c.current_state(), State::LastAck);
    // the peer's ACK of our FIN: CLOSED, entry finished
    let (out3, rm3) = c.on_segment(&seg(102, 702, false, true, false, false, 1024), &[], 0);
    assert!(out3.is_empty());
    assert!(rm3);
    assert_eq!(c.current_state(), State::Closed);
}

#[test]
fn orderly_close_through_time_wait() {
    let mut c = established(700);
    // local close first: FIN_WAIT_1
    let (fin, _) = c.close(80, 4000);
    assert_eq!(fin.unwrap().seq, 701);
    assert_eq!(c.current_state(), State::FinWait1);
    // peer ACKs our FIN: FIN_WAIT_2
    let (_, _) = c.on_segment(&seg(101, 702, false, true, false, false, 1024), &[], 0);
    assert_eq!(c.current_state(), State::FinWait2);
    // peer's FIN: ACK it, TIME_WAIT
    let (out, _) = c.on_segment(&seg(101, 702, false, true, true, false, 1024), &[], 0);
    assert_eq!(out.len(), 1);
    assert_eq!(out[0].ack, 102);
    assert_eq!(c.current_state(), State::TimeWait);
    // quiescence drains to CLOSED
    let mut removed = false;
    for _ in 0..TIME_WAIT_TICKS {
        removed = c.on_timer();
    }
    assert!(removed);
    assert_eq!(c.current_state(), State::Closed);
}

#[test]
fn simultaneous_close_goes_through_closing() {
    let mut c = established(700);
    c.close(80, 4000);
    assert_eq!(c.current_state(), State::FinWait1);
    // the peer's FIN arrives before its ACK of ours
    let (out, _) = c.on_segment(&seg(101, 701, false, true, true, false, 1024), &[], 0);
    assert_eq!(out[0].ack, 102);
    assert_eq!(c.current_state(), State::Closing);
    // now the ACK of our FIN: TIME_WAIT
    let (_, _) = c.on_segment(&seg(102, 702, false, true, false, false, 1024), &[], 0);
    assert_eq!(c.current_state(), State::TimeWait);
}

#[test]
fn write_is_bounded_by_peer_window() {
    let mut c = Connection::default();
    c.on_segment(&seg(100, 0, true, false, false, false, 1024), &[], 700);
    // the handshake ACK advertises a window of 4 bytes
    c.on_segment(&seg(101, 701, false, true, false, false, 4), &[], 0);
    assert_eq!(c.current_state(), State::Estab);
    let (n, hdr) = c.write(b"0123456789", 80, 4000);
    assert_eq!(n, 4);
    let hdr = hdr.unwrap();
    assert_eq!(hdr.seq, 701);
    assert_eq!(hdr.ack, 101);
    assert_eq!(c.send_space().nxt, 705);
    // the window is full: nothing more may go out
    let (n2, hdr2) = c.write(b"ab", 80, 4000);
    assert_eq!(n2, 0);
    assert!(hdr2.is_none());
    // the peer ACKs two bytes: room for two more
    c.on_segment(&seg(101, 703, false, true, false, false, 4), &[], 0);
    assert_eq!(c.send_space().una, 703);
    let (n3, _) = c.write(b"ab", 80, 4000);
    assert_eq!(n3, 2);
}

#[test]
fn rst_removes_table_entry() {
    let mut t = ConnTable::new();
    let q = Quad { src_ip: 0x0A00_0001, src_port: 4000, dst_ip: 0x0A00_0002, dst_port: 80 };
    t.process_segment(&q, &seg(100, 0, true, false, false, false, 1024), &[], 700);
    t.process_segment(&q, &seg(101, 701, false, true, false, false, 1024), &[], 0);
    assert_eq!(t.quads().len(), 1);
    // an in-window RST: the entry disappears at once, nothing is sent
    let out = t.process_segment(&q, &seg(101, 701, false, false, false, true, 1024), &[], 0);
    assert!(out.is_empty());
    assert_eq!(t.quads().len(), 0);
}

#[test]
fn rst_in_syn_received_removes_entry() {
    let mut t = ConnTable::new();
    let q = Quad { src_ip: 1, src_port: 5, dst_ip: 2, dst_port: 80 };
    t.process_segment(&q, &seg(100, 0, true, false, false, false, 64), &[], 9);
    assert_eq!(t.quads().len(), 1);
    let out = t.process_segment(&q, &seg(101, 0, false, false, false, true, 64), &[], 0);
    assert!(out.is_empty());
    assert_eq!(t.quads().len(), 0);
}

#[test]
fn table_keeps_one_entry_per_quad() {
    let mut t = ConnTable::new();
    let q1 = Quad { src_ip: 1, src_port: 10, dst_ip: 2, dst_port: 80 };
    let q2 = Quad { src_ip: 1, src_port: 11, dst_ip: 2, dst_port: 80 };
    t.process_segment(&q1, &seg(100, 0, true, false, false, false, 64), &[], 1);
    t.process_segment(&q1, &seg(101, 2, false, true, false, false, 64), &[], 1);
    t.process_segment(&q2, &seg(200, 0, true, false, false, false, 64), &[], 7);
    let quads = t.quads();
    assert_eq!(quads.len(), 2);
    assert!(quads.contains(&q1) && quads.contains(&q2));
}

#[test]
fn table_rejects_connections_beyond_capacity() {
    let mut t = ConnTable::new();
    for i in 0..1024u32 {
        let q = Quad { src_ip: i, src_port: 1, dst_ip: 9, dst_port: 80 };
        let out = t.process_segment(&q, &seg(1, 0, true, false, false, false, 64), &[], 5);
        assert_eq!(out.len(), 1);
    }
    assert_eq!(t.quads().len(), 1024);
    // the next new four-tuple is rejected outright
    let q = Quad { src_ip: 5000, src_port: 1, dst_ip: 9, dst_port: 80 };
    let out = t.process_segment(&q, &seg(1, 0, true, false, false, false, 64), &[], 5);
    assert!(out.is_empty());
    assert_eq!(t.quads().len(), 1024);
    // while an existing connection is still served: an in-window RST
    // (seq = rcv.nxt = 2 after its SYN) removes its entry
    let q0 = Quad { src_ip: 0, src_port: 1, dst_ip: 9, dst_port: 80 };
    let out2 = t.process_segment(&q0, &seg(2, 0, false, false, false, true, 64), &[], 0);
    assert!(out2.is_empty());
    assert_eq!(t.quads().len(), 1023);
}

#[test]
fn stale_window_update_is_ignored() {
    let mut c = established(700);
    // a newer segment updates the window
    c.on_segment(&seg(101, 701, false, true, false, false, 2000), b"a", 0);
    assert_eq!(c.send_space().wnd, 2000);
    // an older (lower seq/ack) segment must not shrink it back
    c.on_segment(&seg(101, 701, false, true, false, false, 50), &[], 0);
    assert_eq!(c.send_space().wnd, 2000);
}

//! The TCP connection state machine (RFC 793, passive-open endpoint).
//!
//! The protocol logic is stated once, mathematically, as the transition
//! function [`step`] over a connection's model [`ConnModel`]; the
//! executable [`Connection`] methods are proved to follow it exactly.

use vstd::prelude::*;
use crate::codec::TcpHdr;
use crate::seqnum::{
    seq_add, seq_sub, seq_lt, seq_le, seg_acceptable, ack_acceptable,
    wrap_add, wrap_sub, wrapping_lt, segment_acceptable, is_ack_acceptable,
    lemma_seq_add_sub, lemma_seq_sub_add, lemma_seq_sub_chain,
};

verus! {

/// TCP connection states.
#[derive(Clone, Copy, PartialEq, Eq, Structural, Debug)]
pub enum State {
    Closed,
    Listen,
    SynRcvd,
    Estab,
    FinWait1,
    FinWait2,
    CloseWait,
    Closing,
    LastAck,
    TimeWait,
}

/// Receive window advertised for a fresh connection, in bytes.
pub const RCV_WND_INIT: u16 = 4096;

/// Quiescence ticks a connection lingers in TimeWait before it closes.
pub const TIME_WAIT_TICKS: u32 = 8;

/// Send sequence space (RFC 793 `SND.*`).
#[derive(Clone, Copy, PartialEq, Eq, Structural, Debug)]
pub struct SendSeq {
    /// oldest unacknowledged sequence number
    pub una: u32,
    /// next sequence number to send
    pub nxt: u32,
    /// the peer's advertised receive window
    pub wnd: u16,
    /// urgent flag (stored, never acted on)
    pub up: bool,
    /// segment sequence number of the last window update taken
    pub wl1: u32,
    /// segment acknowledgment number of the last window update taken
    pub wl2: u32,
    /// our initial send sequence number
    pub iss: u32,
}

/// Receive sequence space (RFC 793 `RCV.*`).
#[derive(Clone, Copy, PartialEq, Eq, Structural, Debug)]
pub struct RecvSeq {
    /// next sequence number expected from the peer
    pub nxt: u32,
    /// the window we advertise to the peer
    pub wnd: u16,
    /// urgent flag (stored, never acted on)
    pub up: bool,
    /// the peer's initial sequence number
    pub irs: u32,
}

/// One live TCP endpoint pairing.
pub struct Connection {
    pub state: State,
    pub snd: SendSeq,
    pub rcv: RecvSeq,
    /// bytes received in order and acknowledged, awaiting the local reader
    pub incoming: Vec<u8>,
    /// bytes sent but not yet acknowledged by the peer
    pub unacked: Vec<u8>,
    /// TimeWait quiescence countdown
    pub timer: u32,
}

/// Mathematical image of a connection: its state tag, both sequence
/// spaces, and the two buffers as sequences.
#[verifier::ext_equal]
pub struct ConnModel {
    pub state: State,
    pub snd: SendSeq,
    pub rcv: RecvSeq,
    pub incoming: Seq<u8>,
    pub unacked: Seq<u8>,
    pub timer: u32,
}

impl View for Connection {
    type V = ConnModel;

    open spec fn view(&self) -> ConnModel {
        ConnModel {
            state: self.state,
            snd: self.snd,
            rcv: self.rcv,
            incoming: self.incoming@,
            unacked: self.unacked@,
            timer: self.timer,
        }
    }
}

/// What processing one segment does: the connection afterwards, the
/// control segments to transmit (in order), and whether the connection
/// table entry is finished.
#[verifier::ext_equal]
pub struct Step {
    pub post: ConnModel,
    pub out: Seq<TcpHdr>,
    pub remove: bool,
}

/// What a local request (close, tick) does.
#[verifier::ext_equal]
pub struct Action {
    pub post: ConnModel,
    pub out: Option<TcpHdr>,
    pub remove: bool,
}

/// The model of a freshly created passive connection.
pub open spec fn init_model() -> ConnModel {
    ConnModel {
        state: State::Listen,
        snd: SendSeq { una: 0, nxt: 0, wnd: 0, up: false, wl1: 0, wl2: 0, iss: 0 },
        rcv: RecvSeq { nxt: 0, wnd: RCV_WND_INIT, up: false, irs: 0 },
        incoming: Seq::empty(),
        unacked: Seq::empty(),
        timer: 0,
    }
}

/// Sequence-number footprint of a segment: payload bytes, plus one for
/// SYN and one for FIN.
pub open spec fn seg_len_of(h: TcpHdr, plen: int) -> u32 {
    (plen + (if h.flag_syn { 1int } else { 0int }) + (if h.flag_fin { 1int } else { 0int })) as u32
}

/// The pure-ACK header reporting the connection's current receive state,
/// ports reversed from the inbound segment.
pub open spec fn ack_reply(m: ConnModel, h: TcpHdr) -> TcpHdr {
    TcpHdr {
        src_port: h.dst_port,
        dst_port: h.src_port,
        seq: m.snd.nxt,
        ack: m.rcv.nxt,
        flag_syn: false,
        flag_ack: true,
        flag_fin: false,
        flag_rst: false,
        wnd: m.rcv.wnd,
    }
}

/// A step that neither changes the connection nor replies.
pub open spec fn no_action(m: ConnModel) -> Step {
    Step { post: m, out: Seq::empty(), remove: false }
}

/// The connection after an accepted reset: closed, buffers dropped.
pub open spec fn reset_model(m: ConnModel) -> ConnModel {
    ConnModel { state: State::Closed, incoming: Seq::empty(), unacked: Seq::empty(), ..m }
}

/// LISTEN x SYN: record the peer's numbers, adopt `isn` as our initial
/// sequence number, answer SYN+ACK.
pub open spec fn listen_step(m: ConnModel, h: TcpHdr, isn: u32) -> Step {
    let post = ConnModel {
        state: State::SynRcvd,
        snd: SendSeq { una: isn, nxt: seq_add(isn, 1), wnd: h.wnd, up: false, wl1: h.seq, wl2: 0, iss: isn },
        rcv: RecvSeq { nxt: seq_add(h.seq, 1), wnd: RCV_WND_INIT, up: false, irs: h.seq },
        incoming: m.incoming,
        unacked: m.unacked,
        timer: m.timer,
    };
    let synack = TcpHdr {
        src_port: h.dst_port,
        dst_port: h.src_port,
        seq: isn,
        ack: seq_add(h.seq, 1),
        flag_syn: true,
        flag_ack: true,
        flag_fin: false,
        flag_rst: false,
        wnd: RCV_WND_INIT,
    };
    Step { post: post, out: seq![synack], remove: false }
}

/// Window update (RFC 793): adopt the segment's window unless the
/// segment is staler than the last update recorded in `wl1`/`wl2`.
pub open spec fn upd_wnd(s: SendSeq, h: TcpHdr) -> SendSeq {
    if seq_lt(s.wl1, h.seq) || (s.wl1 == h.seq && seq_le(s.wl2, h.ack)) {
        SendSeq { wnd: h.wnd, wl1: h.seq, wl2: h.ack, ..s }
    } else {
        s
    }
}

/// ACK processing past SynRcvd: advance `snd.una`, release acknowledged
/// bytes from the send buffer, take window updates, and retire a sent
/// FIN (FinWait1 -> FinWait2, Closing -> TimeWait, LastAck -> Closed).
pub open spec fn process_ack(m: ConnModel, h: TcpHdr) -> ConnModel {
    if ack_acceptable(m.snd.una, h.ack, m.snd.nxt) {
        let d = seq_sub(h.ack, m.snd.una);
        let released = if d <= m.unacked.len() { m.unacked.skip(d as int) } else { Seq::empty() };
        let fin_acked = h.ack == m.snd.nxt;
        let state = if m.state is FinWait1 && fin_acked {
            State::FinWait2
        } else if m.state is Closing && fin_acked {
            State::TimeWait
        } else if m.state is LastAck && fin_acked {
            State::Closed
        } else {
            m.state
        };
        let timer = if m.state is Closing && fin_acked { TIME_WAIT_TICKS } else { m.timer };
        ConnModel {
            state: state,
            snd: SendSeq { una: h.ack, ..upd_wnd(m.snd, h) },
            unacked: released,
            timer: timer,
            ..m
        }
    } else if seq_sub(h.ack, m.snd.una) == 0 {
        // duplicate ACK: it may still carry a window update
        ConnModel { snd: upd_wnd(m.snd, h), ..m }
    } else {
        // acknowledges data never sent: ignored
        m
    }
}

/// Payload and FIN intake.  Only exactly in-order bytes are consumed
/// (drop-and-wait); any segment carrying data or FIN is answered with an
/// ACK of the resulting `rcv.nxt`, so dropped data provokes a duplicate
/// ACK.  The advertised window shrinks as the receive buffer fills.
pub open spec fn data_step(m: ConnModel, h: TcpHdr, payload: Seq<u8>) -> Step {
    let can_recv = m.state is Estab || m.state is FinWait1 || m.state is FinWait2;
    let in_order = h.seq == m.rcv.nxt;
    let take = if can_recv && in_order {
        if payload.len() <= m.rcv.wnd {
            payload.len() as int
        } else {
            m.rcv.wnd as int
        }
    } else {
        0int
    };
    let fin_taken = can_recv && h.flag_fin && in_order && take == payload.len();
    let incoming = m.incoming + payload.take(take);
    let wnd = if incoming.len() >= RCV_WND_INIT { 0u16 } else { (RCV_WND_INIT - incoming.len()) as u16 };
    let state = if fin_taken {
        if m.state is Estab {
            State::CloseWait
        } else if m.state is FinWait1 {
            State::Closing
        } else {
            State::TimeWait
        }
    } else {
        m.state
    };
    let timer = if fin_taken && m.state is FinWait2 { TIME_WAIT_TICKS } else { m.timer };
    let post = ConnModel {
        state: state,
        rcv: RecvSeq {
            nxt: seq_add(m.rcv.nxt, (take + (if fin_taken { 1int } else { 0int })) as u32),
            wnd: wnd,
            ..m.rcv
        },
        incoming: incoming,
        timer: timer,
        ..m
    };
    let out = if payload.len() > 0 || h.flag_fin { seq![ack_reply(post, h)] } else { Seq::<TcpHdr>::empty() };
    Step { post: post, out: out, remove: false }
}

/// A segment against a synchronized (post-LISTEN) connection: the RFC 793
/// order of tests — sequence acceptability, RST, SYN, ACK — then ACK and
/// data processing.
pub open spec fn sync_step(m: ConnModel, h: TcpHdr, payload: Seq<u8>) -> Step {
    if !seg_acceptable(m.rcv.nxt, m.rcv.wnd, h.seq, seg_len_of(h, payload.len() as int)) {
        // out-of-window: drop, and resynchronize the peer unless it was a RST
        if h.flag_rst {
            no_action(m)
        } else {
            Step { post: m, out: seq![ack_reply(m, h)], remove: false }
        }
    } else if h.flag_rst {
        // acceptable RST: the connection is gone
        Step { post: reset_model(m), out: Seq::empty(), remove: true }
    } else if h.flag_syn {
        // an in-window SYN on a live connection is a violation: challenge ACK
        Step { post: m, out: seq![ack_reply(m, h)], remove: false }
    } else if !h.flag_ack {
        no_action(m)
    } else if m.state is SynRcvd {
        if ack_acceptable(m.snd.una, h.ack, m.snd.nxt) {
            let m1 = ConnModel {
                state: State::Estab,
                snd: SendSeq { una: h.ack, wnd: h.wnd, wl1: h.seq, wl2: h.ack, ..m.snd },
                ..m
            };
            data_step(m1, h, payload)
        } else {
            // an ACK not covering our SYN+ACK leaves the state alone
            no_action(m)
        }
    } else {
        let s = data_step(process_ack(m, h), h, payload);
        Step { post: s.post, out: s.out, remove: s.post.state is Closed }
    }
}

/// The complete transition for one inbound segment.  `isn` is the
/// initial sequence number adopted should this segment open the
/// connection (its freshness is the caller's concern; every value is
/// handled).
pub open spec fn step(m: ConnModel, h: TcpHdr, payload: Seq<u8>, isn: u32) -> Step {
    match m.state {
        State::Closed => no_action(m),
        State::Listen => if h.flag_syn {
            listen_step(m, h, isn)
        } else {
            no_action(m)
        },
        _ => sync_step(m, h, payload),
    }
}

/// A local close request: emit FIN where the handshake is done
/// (Estab/SynRcvd -> FinWait1, CloseWait -> LastAck), tear down a LISTEN
/// entry, and do nothing where a close is already under way.
pub open spec fn close_step(m: ConnModel, local_port: u16, remote_port: u16) -> Action {
    if m.state is Estab || m.state is SynRcvd || m.state is CloseWait {
        let fin = TcpHdr {
            src_port: local_port,
            dst_port: remote_port,
            seq: m.snd.nxt,
            ack: m.rcv.nxt,
            flag_syn: false,
            flag_ack: true,
            flag_fin: true,
            flag_rst: false,
            wnd: m.rcv.wnd,
        };
        let state = if m.state is CloseWait { State::LastAck } else { State::FinWait1 };
        let post = ConnModel { state: state, snd: SendSeq { nxt: seq_add(m.snd.nxt, 1), ..m.snd }, ..m };
        Action { post: post, out: Some(fin), remove: false }
    } else if m.state is Listen {
        Action { post: ConnModel { state: State::Closed, ..m }, out: None, remove: true }
    } else {
        Action { post: m, out: None, remove: false }
    }
}

/// One quiescence tick: TimeWait drains to Closed after its countdown.
pub open spec fn timer_step(m: ConnModel) -> Action {
    if m.state is TimeWait {
        if m.timer <= 1 {
            Action { post: ConnModel { state: State::Closed, timer: 0, ..m }, out: None, remove: true }
        } else {
            Action { post: ConnModel { timer: (m.timer - 1) as u32, ..m }, out: None, remove: false }
        }
    } else {
        Action { post: m, out: None, remove: false }
    }
}

/// How many new bytes the peer's advertised window still allows.
pub open spec fn send_room(m: ConnModel) -> int {
    let inflight = seq_sub(m.snd.nxt, m.snd.una) as int;
    if inflight >= m.snd.wnd { 0 } else { m.snd.wnd - inflight }
}

/// What a local send request does: how many bytes were accepted, and the
/// data segment to transmit (whose payload is the accepted prefix).
#[verifier::ext_equal]
pub struct SendAction {
    pub post: ConnModel,
    pub out: Option<TcpHdr>,
    pub accepted: int,
}

/// A local send request: in Estab or CloseWait, queue and emit at most
/// `send_room` bytes — never more unacknowledged data than `snd.wnd`
/// allows.  The payload of the emitted segment is `data.take(accepted)`.
pub open spec fn send_step(m: ConnModel, data: Seq<u8>, local_port: u16, remote_port: u16) -> SendAction {
    let can = m.state is Estab || m.state is CloseWait;
    let n = if !can {
        0int
    } else if data.len() <= send_room(m) {
        data.len() as int
    } else {
        send_room(m)
    };
    if n > 0 {
        let hdr = TcpHdr {
            src_port: local_port,
            dst_port: remote_port,
            seq: m.snd.nxt,
            ack: m.rcv.nxt,
            flag_syn: false,
            flag_ack: true,
            flag_fin: false,
            flag_rst: false,
            wnd: m.rcv.wnd,
        };
        let post = ConnModel {
            snd: SendSeq { nxt: seq_add(m.snd.nxt, n as u32), ..m.snd },
            unacked: m.unacked + data.take(n),
            ..m
        };
        SendAction { post: post, out: Some(hdr), accepted: n }
    } else {
        SendAction { post: m, out: None, accepted: 0 }
    }
}

/// Well-formedness carried across every transition: the advertised
/// receive window never exceeds its initial allotment, and on a live
/// connection the unacknowledged span `snd.nxt - snd.una` never exceeds
/// what this endpoint can have outstanding.
pub open spec fn conn_wf(m: ConnModel) -> bool {
    &&& m.rcv.wnd <= RCV_WND_INIT
    &&& (m.state is Closed || seq_sub(m.snd.nxt, m.snd.una) <= snd_cap(m))
}

/// State-wise bound on the unacknowledged span: 1 while only our SYN is
/// out, one more than a full window while a FIN is out, a full
/// (16-bit) window otherwise.
pub open spec fn snd_cap(m: ConnModel) -> int {
    if m.state is SynRcvd {
        1
    } else if m.state is FinWait1 || m.state is Closing || m.state is LastAck {
        0x1_0000
    } else {
        0xFFFF
    }
}

/// Processing any segment preserves well-formedness.  In particular
/// `snd.una <= snd.nxt` stays true (wrap-aware), and on a synchronized
/// connection `rcv.nxt` never regresses: it advances by at most the
/// payload length plus one for a FIN.
pub proof fn lemma_step_preserves_wf(m: ConnModel, h: TcpHdr, payload: Seq<u8>, isn: u32)
    requires
        conn_wf(m),
        payload.len() <= 0xFFFF,
    ensures
        conn_wf(step(m, h, payload, isn).post),
        !(m.state is Closed) ==> seq_le(
            step(m, h, payload, isn).post.snd.una,
            step(m, h, payload, isn).post.snd.nxt,
        ),
        !(m.state is Listen) ==> seq_sub(step(m, h, payload, isn).post.rcv.nxt, m.rcv.nxt)
            <= payload.len() + 1,
        !(m.state is Listen) ==> seq_le(m.rcv.nxt, step(m, h, payload, isn).post.rcv.nxt),
{
    let s = step(m, h, payload, isn);
    match m.state {
        State::Closed => {},
        State::Listen => {
            if h.flag_syn {
                lemma_seq_add_sub(isn, 1);
            }
        },
        _ => {
            lemma_sync_wf(m, h, payload);
        },
    }
}

/// The synchronized-state half of `lemma_step_preserves_wf`.
proof fn lemma_sync_wf(m: ConnModel, h: TcpHdr, payload: Seq<u8>)
    requires
        conn_wf(m),
        payload.len() <= 0xFFFF,
        !(m.state is Closed),
        !(m.state is Listen),
    ensures
        conn_wf(sync_step(m, h, payload).post),
        seq_le(sync_step(m, h, payload).post.snd.una, sync_step(m, h, payload).post.snd.nxt),
        seq_sub(sync_step(m, h, payload).post.rcv.nxt, m.rcv.nxt) <= payload.len() + 1,
        seq_le(m.rcv.nxt, sync_step(m, h, payload).post.rcv.nxt),
{
    let slen = seg_len_of(h, payload.len() as int);
    if !seg_acceptable(m.rcv.nxt, m.rcv.wnd, h.seq, slen) {
        lemma_seq_add_sub(m.rcv.nxt, 0);
    } else if h.flag_rst {
        lemma_seq_add_sub(m.rcv.nxt, 0);
    } else if h.flag_syn || !h.flag_ack {
        lemma_seq_add_sub(m.rcv.nxt, 0);
    } else if m.state is SynRcvd {
        if ack_acceptable(m.snd.una, h.ack, m.snd.nxt) {
            let m1 = ConnModel {
                state: State::Estab,
                snd: SendSeq { una: h.ack, wnd: h.wnd, wl1: h.seq, wl2: h.ack, ..m.snd },
                ..m
            };
            lemma_seq_sub_chain(m.snd.una, h.ack, m.snd.nxt);
            lemma_data_wf(m1, h, payload);
        } else {
            lemma_seq_add_sub(m.rcv.nxt, 0);
        }
    } else {
        let m1 = process_ack(m, h);
        if ack_acceptable(m.snd.una, h.ack, m.snd.nxt) {
            lemma_seq_sub_chain(m.snd.una, h.ack, m.snd.nxt);
        }
        assert(conn_wf(m1) && (m1.state is Closed ==> m1.snd.una == m1.snd.nxt));
        lemma_data_wf(m1, h, payload);
    }
}

/// Data intake preserves well-formedness and advances `rcv.nxt` by at
/// most the payload plus one.
proof fn lemma_data_wf(m: ConnModel, h: TcpHdr, payload: Seq<u8>)
    requires
        conn_wf(m),
        payload.len() <= 0xFFFF,
        m.state is Closed ==> m.snd.una == m.snd.nxt,
    ensures
        conn_wf(data_step(m, h, payload).post),
        seq_le(data_step(m, h, payload).post.snd.una, data_step(m, h, payload).post.snd.nxt),
        seq_sub(data_step(m, h, payload).post.rcv.nxt, m.rcv.nxt) <= payload.len() + 1,
        seq_le(m.rcv.nxt, data_step(m, h, payload).post.rcv.nxt),
{
    let can_recv = m.state is Estab || m.state is FinWait1 || m.state is FinWait2;
    let in_order = h.seq == m.rcv.nxt;
    let take = if can_recv && in_order {
        if payload.len() <= m.rcv.wnd {
            payload.len() as int
        } else {
            m.rcv.wnd as int
        }
    } else {
        0int
    };
    let fin_taken = can_recv && h.flag_fin && in_order && take == payload.len();
    let adv = (take + (if fin_taken { 1int } else { 0int })) as u32;
    lemma_seq_add_sub(m.rcv.nxt, adv);
}

/// LISTEN x well-formed SYN carrying sequence number `x`: the connection
/// moves to SynRcvd having recorded `irs = x`, `rcv.nxt = x + 1`, and a
/// fresh `iss = isn`, and emits exactly one SYN+ACK with `seq = isn`,
/// `ack = x + 1`.
pub proof fn lemma_listen_syn(m: ConnModel, h: TcpHdr, payload: Seq<u8>, isn: u32)
    requires
        m.state is Listen,
        h.flag_syn,
    ensures
        ({
            let s = step(m, h, payload, isn);
            &&& s.post.state is SynRcvd
            &&& s.post.rcv.irs == h.seq
            &&& s.post.rcv.nxt == seq_add(h.seq, 1)
            &&& s.post.snd.iss == isn
            &&& s.post.snd.una == isn
            &&& s.post.snd.nxt == seq_add(isn, 1)
            &&& s.out.len() == 1
            &&& s.out[0].flag_syn && s.out[0].flag_ack && !s.out[0].flag_fin && !s.out[0].flag_rst
            &&& s.out[0].seq == isn
            &&& s.out[0].ack == seq_add(h.seq, 1)
            &&& s.out[0].src_port == h.dst_port && s.out[0].dst_port == h.src_port
            &&& !s.remove
        }),
{
}

/// SynRcvd x ACK: exactly the value `iss + 1` — the sequence number of
/// our SYN+ACK plus one — moves the connection to Estab (with
/// `snd.una = ack`); any other ACK value leaves it in SynRcvd.
pub proof fn lemma_synrcvd_ack(m: ConnModel, h: TcpHdr, payload: Seq<u8>, isn: u32)
    requires
        m.state is SynRcvd,
        m.snd.una == m.snd.iss,
        m.snd.nxt == seq_add(m.snd.iss, 1),
        !h.flag_rst,
    ensures
        ({
            let s = step(m, h, payload, isn);
            &&& (h.flag_ack && !h.flag_syn && !h.flag_fin && h.ack == seq_add(m.snd.iss, 1)
                && seg_acceptable(
                m.rcv.nxt,
                m.rcv.wnd,
                h.seq,
                seg_len_of(h, payload.len() as int),
            )) ==> (s.post.state is Estab && s.post.snd.una == h.ack)
            &&& h.ack != seq_add(m.snd.iss, 1) ==> s.post.state is SynRcvd
        }),
{
    lemma_seq_add_sub(m.snd.iss, 1);
    if h.ack != seq_add(m.snd.iss, 1) {
        lemma_seq_sub_add(h.ack, m.snd.iss);
        assert(!ack_acceptable(m.snd.una, h.ack, m.snd.nxt));
    }
}

/// Estab x out-of-window segment: dropped, `rcv.nxt` does not move and
/// the connection does not change at all; unless the segment was a RST,
/// a resynchronizing ACK of the current `rcv.nxt` is sent.
pub proof fn lemma_estab_unacceptable(m: ConnModel, h: TcpHdr, payload: Seq<u8>, isn: u32)
    requires
        m.state is Estab,
        !seg_acceptable(m.rcv.nxt, m.rcv.wnd, h.seq, seg_len_of(h, payload.len() as int)),
    ensures
        ({
            let s = step(m, h, payload, isn);
            &&& s.post == m
            &&& !s.remove
            &&& !h.flag_rst ==> s.out =~= seq![ack_reply(m, h)]
            &&& h.flag_rst ==> s.out.len() == 0
        }),
{
}

/// An acceptable RST in any synchronized (post-LISTEN, non-Closed)
/// state: the connection is closed at once, its buffers are dropped,
/// nothing is sent, and the table entry is removed.
pub proof fn lemma_rst_closes(m: ConnModel, h: TcpHdr, payload: Seq<u8>, isn: u32)
    requires
        !(m.state is Closed),
        !(m.state is Listen),
        h.flag_rst,
        seg_acceptable(m.rcv.nxt, m.rcv.wnd, h.seq, seg_len_of(h, payload.len() as int)),
    ensures
        ({
            let s = step(m, h, payload, isn);
            &&& s.post.state is Closed
            &&& s.remove
            &&& s.out.len() == 0
            &&& s.post.incoming.len() == 0 && s.post.unacked.len() == 0
        }),
{
}

/// Local requests preserve well-formedness too: close, send and the
/// quiescence tick.
pub proof fn lemma_local_preserves_wf(
    m: ConnModel,
    data: Seq<u8>,
    local_port: u16,
    remote_port: u16,
)
    requires
        conn_wf(m),
        data.len() <= 0xFFFF,
    ensures
        conn_wf(close_step(m, local_port, remote_port).post),
        conn_wf(send_step(m, data, local_port, remote_port).post),
        conn_wf(timer_step(m).post),
        close_step(m, local_port, remote_port).post.rcv.nxt == m.rcv.nxt,
        send_step(m, data, local_port, remote_port).post.rcv.nxt == m.rcv.nxt,
        timer_step(m).post.rcv.nxt == m.rcv.nxt,
{
    if m.state is Estab || m.state is SynRcvd || m.state is CloseWait {
        lemma_seq_add_sub(m.snd.nxt, 1);
        lemma_seq_sub_chain(m.snd.una, m.snd.nxt, seq_add(m.snd.nxt, 1));
        assert(seq_sub(seq_add(m.snd.nxt, 1), m.snd.una)
            == seq_sub(seq_add(m.snd.nxt, 1), m.snd.nxt) + seq_sub(m.snd.nxt, m.snd.una)) by {
            lemma_wrap_linear(m.snd.una, m.snd.nxt, 1);
        }
    }
    let sa = send_step(m, data, local_port, remote_port);
    if sa.accepted > 0 {
        lemma_wrap_linear(m.snd.una, m.snd.nxt, sa.accepted as u32);
    }
}

/// Advancing `nxt` by `k` grows the distance from `una` by exactly `k`,
/// as long as the grown distance still fits the circle.
proof fn lemma_wrap_linear(una: u32, nxt: u32, k: u32)
    requires
        seq_sub(nxt, una) + k < 0x1_0000_0000,
    ensures
        seq_sub(seq_add(nxt, k), una) == seq_sub(nxt, una) + k,
{
    lemma_seq_add_sub(nxt, k);
}

/// Append the first `n` bytes of `src` to `dst`.
fn push_n(dst: &mut Vec<u8>, src: &[u8], n: usize)
    requires
        n <= src@.len(),
    ensures
        final(dst)@ == old(dst)@ + src@.take(n as int),
{
    proof {
        assert(dst@ =~= dst@ + src@.take(0));
    }
    let mut i: usize = 0;
    while i < n
        invariant
            i <= n,
            n <= src@.len(),
            dst@ == old(dst)@ + src@.take(i as int),
        decreases n - i,
    {
        let b = src[i];
        dst.push(b);
        proof {
            assert(src@.take((i + 1) as int) =~= src@.take(i as int).push(src@[i as int]));
            assert(old(dst)@ + src@.take((i + 1) as int)
                =~= (old(dst)@ + src@.take(i as int)).push(src@[i as int]));
        }
        i = i + 1;
    }
}

/// Remove the first `n` bytes of `v`.
fn drop_front(v: &mut Vec<u8>, n: usize)
    requires
        n <= old(v)@.len(),
    ensures
        final(v)@ == old(v)@.skip(n as int),
{
    let mut out: Vec<u8> = Vec::new();
    proof {
        assert(out@ =~= v@.subrange(n as int, n as int));
    }
    let mut i: usize = n;
    while i < v.len()
        invariant
            v@ == old(v)@,
            n <= i && i <= v@.len(),
            out@ == v@.subrange(n as int, i as int),
        decreases v@.len() - i,
    {
        let b = v[i];
        out.push(b);
        proof {
            assert(v@.subrange(n as int, (i + 1) as int)
                =~= v@.subrange(n as int, i as int).push(v@[i as int]));
        }
        i = i + 1;
    }
    *v = out;
    proof {
        assert(old(v)@.subrange(n as int, old(v)@.len() as int) =~= old(v)@.skip(n as int));
    }
}

impl Default for State {
    /// A newly created passive connection listens.
    fn default() -> (s: State)
        ensures
            s is Listen,
    {
        State::Listen
    }
}

impl Default for Connection {
    /// A fresh passive connection: LISTEN, empty buffers, zeroed spaces.
    fn default() -> (c: Connection)
        ensures
            c@ == init_model(),
    {
        let c = Connection {
            state: State::Listen,
            snd: SendSeq { una: 0, nxt: 0, wnd: 0, up: false, wl1: 0, wl2: 0, iss: 0 },
            rcv: RecvSeq { nxt: 0, wnd: RCV_WND_INIT, up: false, irs: 0 },
            incoming: Vec::new(),
            unacked: Vec::new(),
            timer: 0,
        };
        proof {
            assert(c@ =~= init_model());
        }
        c
    }
}

impl Connection {
    /// Current protocol state.
    pub fn current_state(&self) -> (s: State)
        ensures
            s == self@.state,
    {
        self.state
    }

    /// Current send sequence space.
    pub fn send_space(&self) -> (s: SendSeq)
        ensures
            s == self@.snd,
    {
        self.snd
    }

    /// Current receive sequence space.
    pub fn recv_space(&self) -> (r: RecvSeq)
        ensures
            r == self@.rcv,
    {
        self.rcv
    }

    /// Hand the in-order received bytes to the application reader and
    /// restore the advertised window.
    pub fn take_received(&mut self) -> (data: Vec<u8>)
        ensures
            data@ == old(self)@.incoming,
            final(self)@ == (ConnModel {
                incoming: Seq::empty(),
                rcv: RecvSeq { wnd: RCV_WND_INIT, ..old(self)@.rcv },
                ..old(self)@
            }),
    {
        let mut data: Vec<u8> = Vec::new();
        let n = self.incoming.len();
        push_n(&mut data, self.incoming.as_slice(), n);
        self.incoming = Vec::new();
        self.rcv.wnd = RCV_WND_INIT;
        proof {
            assert(data@ =~= old(self)@.incoming);
            assert(self@ =~= (ConnModel {
                incoming: Seq::empty(),
                rcv: RecvSeq { wnd: RCV_WND_INIT, ..old(self)@.rcv },
                ..old(self)@
            }));
        }
        data
    }

    /// Build the single resynchronizing ACK for the current state.
    fn make_ack(&self, h: &TcpHdr) -> (out: Vec<TcpHdr>)
        ensures
            out@ == seq![ack_reply(self@, *h)],
    {
        let mut out: Vec<TcpHdr> = Vec::new();
        out.push(TcpHdr {
            src_port: h.dst_port,
            dst_port: h.src_port,
            seq: self.snd.nxt,
            ack: self.rcv.nxt,
            flag_syn: false,
            flag_ack: true,
            flag_fin: false,
            flag_rst: false,
            wnd: self.rcv.wnd,
        });
        proof {
            assert(out@ =~= seq![ack_reply(self@, *h)]);
        }
        out
    }

    /// The LISTEN x SYN transition.
    fn do_listen(&mut self, h: &TcpHdr, isn: u32) -> (r: (Vec<TcpHdr>, bool))
        requires
            old(self)@.state is Listen,
            h.flag_syn,
        ensures
            final(self)@ == listen_step(old(self)@, *h, isn).post,
            r.0@ == listen_step(old(self)@, *h, isn).out,
            r.1 == listen_step(old(self)@, *h, isn).remove,
    {
        self.state = State::SynRcvd;
        self.snd = SendSeq {
            una: isn,
            nxt: wrap_add(isn, 1),
            wnd: h.wnd,
            up: false,
            wl1: h.seq,
            wl2: 0,
            iss: isn,
        };
        self.rcv = RecvSeq { nxt: wrap_add(h.seq, 1), wnd: RCV_WND_INIT, up: false, irs: h.seq };
        let mut out: Vec<TcpHdr> = Vec::new();
        out.push(TcpHdr {
            src_port: h.dst_port,
            dst_port: h.src_port,
            seq: isn,
            ack: wrap_add(h.seq, 1),
            flag_syn: true,
            flag_ack: true,
            flag_fin: false,
            flag_rst: false,
            wnd: RCV_WND_INIT,
        });
        proof {
            assert(self@ =~= listen_step(old(self)@, *h, isn).post);
            assert(out@ =~= listen_step(old(self)@, *h, isn).out);
        }
        (out, false)
    }

    /// ACK processing for a synchronized connection (mirrors `process_ack`).
    fn do_ack(&mut self, h: &TcpHdr)
        ensures
            final(self)@ == process_ack(old(self)@, *h),
    {
        if is_ack_acceptable(self.snd.una, h.ack, self.snd.nxt) {
            let d = wrap_sub(h.ack, self.snd.una);
            let fin_acked = h.ack == self.snd.nxt;
            // release acknowledged bytes
            if (d as usize) <= self.unacked.len() {
                drop_front(&mut self.unacked, d as usize);
            } else {
                self.unacked = Vec::new();
                proof {
                    assert(self@.unacked =~= Seq::<u8>::empty());
                }
            }
            // window update
            if wrapping_lt(self.snd.wl1, h.seq)
                || (self.snd.wl1 == h.seq
                    && (self.snd.wl2 == h.ack || wrapping_lt(self.snd.wl2, h.ack))) {
                self.snd.wnd = h.wnd;
                self.snd.wl1 = h.seq;
                self.snd.wl2 = h.ack;
            }
            self.snd.una = h.ack;
            // retire a sent FIN
            if fin_acked {
                match self.state {
                    State::FinWait1 => {
                        self.state = State::FinWait2;
                    },
                    State::Closing => {
                        self.state = State::TimeWait;
                        self.timer = TIME_WAIT_TICKS;
                    },
                    State::LastAck => {
                        self.state = State::Closed;
                    },
                    _ => {},
                }
            }
            proof {
                assert(self@ =~= process_ack(old(self)@, *h));
            }
        } else if wrap_sub(h.ack, self.snd.una) == 0 {
            // duplicate ACK: it may still carry a window update
            if wrapping_lt(self.snd.wl1, h.seq)
                || (self.snd.wl1 == h.seq
                    && (self.snd.wl2 == h.ack || wrapping_lt(self.snd.wl2, h.ack))) {
                self.snd.wnd = h.wnd;
                self.snd.wl1 = h.seq;
                self.snd.wl2 = h.ack;
            }
            proof {
                assert(self@ =~= process_ack(old(self)@, *h));
            }
        } else {
            proof {
                assert(self@ =~= process_ack(old(self)@, *h));
            }
        }
    }

    /// Payload and FIN intake (mirrors `data_step`).
    fn do_data(&mut self, h: &TcpHdr, payload: &[u8]) -> (r: (Vec<TcpHdr>, bool))
        requires
            payload@.len() <= 0xFFFF,
        ensures
            final(self)@ == data_step(old(self)@, *h, payload@).post,
            r.0@ == data_step(old(self)@, *h, payload@).out,
            r.1 == data_step(old(self)@, *h, payload@).remove,
    {
        let can_recv = matches!(self.state, State::Estab | State::FinWait1 | State::FinWait2);
        let in_order = h.seq == self.rcv.nxt;
        let take: usize = if can_recv && in_order {
            if payload.len() <= self.rcv.wnd as usize {
                payload.len()
            } else {
                self.rcv.wnd as usize
            }
        } else {
            0
        };
        let fin_taken = can_recv && h.flag_fin && in_order && take == payload.len();
        push_n(&mut self.incoming, payload, take);
        let filled = self.incoming.len();
        self.rcv.wnd = if filled >= RCV_WND_INIT as usize {
            0
        } else {
            (RCV_WND_INIT as usize - filled) as u16
        };
        let adv: u32 = take as u32 + (if fin_taken { 1 } else { 0 });
        self.rcv.nxt = wrap_add(self.rcv.nxt, adv);
        if fin_taken {
            match self.state {
                State::Estab => {
                    self.state = State::CloseWait;
                },
                State::FinWait1 => {
                    self.state = State::Closing;
                },
                _ => {
                    self.state = State::TimeWait;
                    self.timer = TIME_WAIT_TICKS;
                },
            }
        }
        let mut out: Vec<TcpHdr> = Vec::new();
        if payload.len() > 0 || h.flag_fin {
            out.push(TcpHdr {
                src_port: h.dst_port,
                dst_port: h.src_port,
                seq: self.snd.nxt,
                ack: self.rcv.nxt,
                flag_syn: false,
                flag_ack: true,
                flag_fin: false,
                flag_rst: false,
                wnd: self.rcv.wnd,
            });
        }
        proof {
            assert(self@ =~= data_step(old(self)@, *h, payload@).post);
            assert(out@ =~= data_step(old(self)@, *h, payload@).out);
        }
        (out, false)
    }

    /// A segment against a synchronized connection (mirrors `sync_step`).
    fn do_sync(&mut self, h: &TcpHdr, payload: &[u8]) -> (r: (Vec<TcpHdr>, bool))
        requires
            payload@.len() <= 0xFFFF,
            !(old(self)@.state is Closed),
            !(old(self)@.state is Listen),
        ensures
            final(self)@ == sync_step(old(self)@, *h, payload@).post,
            r.0@ == sync_step(old(self)@, *h, payload@).out,
            r.1 == sync_step(old(self)@, *h, payload@).remove,
    {
        let seg_len: u32 = payload.len() as u32 + (if h.flag_syn { 1 } else { 0 }) + (if h.flag_fin {
            1
        } else {
            0
        });
        if !segment_acceptable(self.rcv.nxt, self.rcv.wnd, h.seq, seg_len) {
            if h.flag_rst {
                (Vec::new(), false)
            } else {
                (self.make_ack(h), false)
            }
        } else if h.flag_rst {
            self.state = State::Closed;
            self.incoming = Vec::new();
            self.unacked = Vec::new();
            proof {
                assert(self@ =~= reset_model(old(self)@));
            }
            (Vec::new(), true)
        } else if h.flag_syn {
            (self.make_ack(h), false)
        } else if !h.flag_ack {
            (Vec::new(), false)
        } else if matches!(self.state, State::SynRcvd) {
            if is_ack_acceptable(self.snd.una, h.ack, self.snd.nxt) {
                self.state = State::Estab;
                self.snd.una = h.ack;
                self.snd.wnd = h.wnd;
                self.snd.wl1 = h.seq;
                self.snd.wl2 = h.ack;
                let r = self.do_data(h, payload);
                (r.0, r.1)
            } else {
                (Vec::new(), false)
            }
        } else {
            self.do_ack(h);
            let r = self.do_data(h, payload);
            let remove = matches!(self.state, State::Closed);
            (r.0, remove)
        }
    }

    /// Process one inbound, already-parsed segment against this
    /// connection.  `isn` is the initial sequence number adopted if this
    /// segment opens the connection.  Returns the control segments to
    /// transmit, in order, and whether the connection is finished and
    /// should leave the table.
    pub fn on_segment(&mut self, h: &TcpHdr, payload: &[u8], isn: u32) -> (r: (Vec<TcpHdr>, bool))
        requires
            payload@.len() <= 0xFFFF,
        ensures
            final(self)@ == step(old(self)@, *h, payload@, isn).post,
            r.0@ == step(old(self)@, *h, payload@, isn).out,
            r.1 == step(old(self)@, *h, payload@, isn).remove,
    {
        match self.state {
            State::Closed => (Vec::new(), false),
            State::Listen => {
                if h.flag_syn {
                    self.do_listen(h, isn)
                } else {
                    (Vec::new(), false)
                }
            },
            _ => self.do_sync(h, payload),
        }
    }

    /// Request a local close: emit a FIN where one is owed.  Returns the
    /// segment to send and whether the table entry is finished.
    pub fn close(&mut self, local_port: u16, remote_port: u16) -> (r: (Option<TcpHdr>, bool))
        ensures
            final(self)@ == close_step(old(self)@, local_port, remote_port).post,
            r.0 == close_step(old(self)@, local_port, remote_port).out,
            r.1 == close_step(old(self)@, local_port, remote_port).remove,
    {
        match self.state {
            State::Estab | State::SynRcvd | State::CloseWait => {
                let fin = TcpHdr {
                    src_port: local_port,
                    dst_port: remote_port,
                    seq: self.snd.nxt,
                    ack: self.rcv.nxt,
                    flag_syn: false,
                    flag_ack: true,
                    flag_fin: true,
                    flag_rst: false,
                    wnd: self.rcv.wnd,
                };
                self.state = if matches!(self.state, State::CloseWait) {
                    State::LastAck
                } else {
                    State::FinWait1
                };
                self.snd.nxt = wrap_add(self.snd.nxt, 1);
                (Some(fin), false)
            },
            State::Listen => {
                self.state = State::Closed;
                (None, true)
            },
            _ => (None, false),
        }
    }

    /// Drive the TimeWait quiescence countdown; one call is one tick.
    /// Returns whether the table entry is finished.
    pub fn on_timer(&mut self) -> (remove: bool)
        ensures
            final(self)@ == timer_step(old(self)@).post,
            remove == timer_step(old(self)@).remove,
    {
        match self.state {
            State::TimeWait => {
                if self.timer <= 1 {
                    self.timer = 0;
                    self.state = State::Closed;
                    true
                } else {
                    self.timer = self.timer - 1;
                    false
                }
            },
            _ => false,
        }
    }

    /// Queue application bytes for transmission, bounded by the peer's
    /// advertised window.  Returns how many bytes were accepted and the
    /// header of the data segment to send; its payload is the accepted
    /// prefix of `data`.
    pub fn write(&mut self, data: &[u8], local_port: u16, remote_port: u16) -> (r: (
        usize,
        Option<TcpHdr>,
    ))
        requires
            data@.len() <= 0xFFFF,
        ensures
            final(self)@ == send_step(old(self)@, data@, local_port, remote_port).post,
            r.0 as int == send_step(old(self)@, data@, local_port, remote_port).accepted,
            r.1 == send_step(old(self)@, data@, local_port, remote_port).out,
    {
        let can = matches!(self.state, State::Estab | State::CloseWait);
        let inflight = wrap_sub(self.snd.nxt, self.snd.una);
        let room: usize = if inflight >= self.snd.wnd as u32 {
            0
        } else {
            (self.snd.wnd as u32 - inflight) as usize
        };
        let n: usize = if !can {
            0
        } else if data.len() <= room {
            data.len()
        } else {
            room
        };
        if n > 0 {
            let hdr = TcpHdr {
                src_port: local_port,
                dst_port: remote_port,
                seq: self.snd.nxt,
                ack: self.rcv.nxt,
                flag_syn: false,
                flag_ack: true,
                flag_fin: false,
                flag_rst: false,
                wnd: self.rcv.wnd,
            };
            push_n(&mut self.unacked, data, n);
            self.snd.nxt = wrap_add(self.snd.nxt, n as u32);
            proof {
                assert(self@ =~= send_step(old(self)@, data@, local_port, remote_port).post);
            }
            (n, Some(hdr))
        } else {
            (0, None)
        }
    }
}

} // verus!

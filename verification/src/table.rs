//! The frame dispatcher and connection table: routing raw frames from
//! the tunnel device to the owning connection, one entry per four-tuple.

use vstd::prelude::*;
use vstd::slice::slice_subrange;
use crate::codec::{
    TcpHdr, Ipv4Hdr, ParseError, parse_tcp, parse_ipv4, build_tcp, build_ipv4, be16,
    spec_parse_tcp, spec_parse_ipv4, spec_build_tcp, spec_build_ipv4,
};
use crate::conn::{Connection, ConnModel, step, init_model, close_step, timer_step};

verus! {

/// The four-tuple identifying one connection: remote endpoint first,
/// local endpoint second, addresses as 32-bit big-endian integers.
#[derive(Clone, Copy, PartialEq, Eq, Structural, Hash, Debug)]
pub struct Quad {
    pub src_ip: u32,
    pub src_port: u16,
    pub dst_ip: u32,
    pub dst_port: u16,
}

/// The most connections the table will hold at once: an inbound SYN for
/// a new four-tuple beyond this is dropped rather than grown into.
pub const MAX_CONNS: usize = 1024;

/// The connection table: a mapping from four-tuple to connection state,
/// with exactly one entry per four-tuple.
pub struct ConnTable {
    pub entries: Vec<(Quad, Connection)>,
}

/// The mapping an entry list denotes.
pub open spec fn entries_map(s: Seq<(Quad, Connection)>) -> Map<Quad, ConnModel>
    decreases s.len(),
{
    if s.len() == 0 {
        Map::empty()
    } else {
        entries_map(s.drop_last()).insert(s.last().0, s.last().1@)
    }
}

/// Key uniqueness: no four-tuple owns two entries.
pub open spec fn tbl_wf(s: Seq<(Quad, Connection)>) -> bool {
    forall|i: int, j: int| 0 <= i < j < s.len() ==> s[i].0 != s[j].0
}

impl View for ConnTable {
    type V = Map<Quad, ConnModel>;

    open spec fn view(&self) -> Map<Quad, ConnModel> {
        entries_map(self.entries@)
    }
}

impl ConnTable {
    /// Key uniqueness, carried by every operation.
    pub open spec fn wf(&self) -> bool {
        tbl_wf(self.entries@)
    }
}

/// An entry's key is in the map, bound to that entry's connection.
proof fn lemma_entries_map_index(s: Seq<(Quad, Connection)>, i: int)
    requires
        tbl_wf(s),
        0 <= i < s.len(),
    ensures
        entries_map(s).contains_key(s[i].0),
        entries_map(s)[s[i].0] == s[i].1@,
    decreases s.len(),
{
    if i < s.len() - 1 {
        lemma_entries_map_index(s.drop_last(), i);
    }
}

/// A key on no entry is not in the map.
proof fn lemma_entries_map_absent(s: Seq<(Quad, Connection)>, q: Quad)
    requires
        forall|i: int| 0 <= i < s.len() ==> s[i].0 != q,
    ensures
        !entries_map(s).contains_key(q),
    decreases s.len(),
{
    if s.len() > 0 {
        lemma_entries_map_absent(s.drop_last(), q);
    }
}

/// Removing entry `i` removes exactly its key from the map.
proof fn lemma_entries_map_remove(s: Seq<(Quad, Connection)>, i: int)
    requires
        tbl_wf(s),
        0 <= i < s.len(),
    ensures
        entries_map(s.remove(i)) =~= entries_map(s).remove(s[i].0),
        tbl_wf(s.remove(i)),
        forall|j: int| 0 <= j < s.len() - 1 ==> #[trigger] s.remove(i)[j].0 != s[i].0,
    decreases s.len(),
{
    let q = s[i].0;
    assert forall|j: int| 0 <= j < s.len() - 1 implies #[trigger] s.remove(i)[j].0 != q by {
        if j < i {
            assert(s.remove(i)[j] == s[j]);
        } else {
            assert(s.remove(i)[j] == s[j + 1]);
        }
    }
    if i == s.len() - 1 {
        assert(s.remove(i) =~= s.drop_last());
        lemma_entries_map_absent(s.drop_last(), q);
        assert(entries_map(s.drop_last()) =~= entries_map(s.drop_last()).insert(q, s[i].1@).remove(
            q,
        ));
    } else {
        lemma_entries_map_remove(s.drop_last(), i);
        assert(s.remove(i).drop_last() =~= s.drop_last().remove(i));
        assert(s.remove(i).last() == s.last());
        assert(entries_map(s.remove(i)) == entries_map(s.drop_last().remove(i)).insert(
            s.last().0,
            s.last().1@,
        ));
        assert(entries_map(s.remove(i)) =~= entries_map(s).remove(q));
    }
}

/// Appending an entry with a fresh key inserts exactly that binding.
proof fn lemma_entries_map_push(s: Seq<(Quad, Connection)>, q: Quad, c: Connection)
    requires
        tbl_wf(s),
        forall|i: int| 0 <= i < s.len() ==> s[i].0 != q,
    ensures
        entries_map(s.push((q, c))) =~= entries_map(s).insert(q, c@),
        tbl_wf(s.push((q, c))),
{
    assert(s.push((q, c)).drop_last() =~= s);
}

impl ConnTable {
    /// An empty table.
    pub fn new() -> (t: ConnTable)
        ensures
            t@ =~= Map::<Quad, ConnModel>::empty(),
            t.wf(),
    {
        ConnTable { entries: Vec::new() }
    }

    /// The index of the entry owning `q`, if any.
    fn find(&self, q: &Quad) -> (r: Option<usize>)
        ensures
            match r {
                Some(i) => i < self.entries@.len() && self.entries@[i as int].0 == *q,
                None => forall|i: int| 0 <= i < self.entries@.len() ==> self.entries@[i].0 != *q,
            },
    {
        let mut i: usize = 0;
        while i < self.entries.len()
            invariant
                i <= self.entries@.len(),
                forall|j: int| 0 <= j < i ==> self.entries@[j].0 != *q,
            decreases self.entries@.len() - i,
        {
            if self.entries[i].0 == *q {
                return Some(i);
            }
            i = i + 1;
        }
        None
    }

    /// The four-tuples currently owning an entry.
    pub fn quads(&self) -> (r: Vec<Quad>)
        ensures
            r@.len() == self.entries@.len(),
            forall|i: int| 0 <= i < r@.len() ==> r@[i] == self.entries@[i].0,
    {
        let mut r: Vec<Quad> = Vec::new();
        let mut i: usize = 0;
        while i < self.entries.len()
            invariant
                i <= self.entries@.len(),
                r@.len() == i,
                forall|j: int| 0 <= j < i ==> r@[j] == self.entries@[j].0,
            decreases self.entries@.len() - i,
        {
            r.push(self.entries[i].0);
            i = i + 1;
        }
        r
    }

    /// Route one parsed segment to its connection — creating a LISTEN
    /// entry for an unknown four-tuple, unless the table is at capacity —
    /// run the state machine, and honor its removal decision.  Returns
    /// the control segments to transmit, in order.
    pub fn process_segment(&mut self, q: &Quad, h: &TcpHdr, payload: &[u8], isn: u32) -> (out: Vec<
        TcpHdr,
    >)
        requires
            old(self).wf(),
            payload@.len() <= 0xFFFF,
        ensures
            final(self).wf(),
            ({
                if !old(self)@.contains_key(*q) && old(self).entries@.len() >= MAX_CONNS {
                    out@ == Seq::<TcpHdr>::empty() && final(self)@ =~= old(self)@
                } else {
                    let pre = if old(self)@.contains_key(*q) {
                        old(self)@[*q]
                    } else {
                        init_model()
                    };
                    let s = step(pre, *h, payload@, isn);
                    &&& out@ == s.out
                    &&& final(self)@ =~= (if s.remove {
                        old(self)@.remove(*q)
                    } else {
                        old(self)@.insert(*q, s.post)
                    })
                }
            }),
    {
        match self.find(q) {
            Some(i) => {
                proof {
                    lemma_entries_map_index(self.entries@, i as int);
                }
                let (qq, mut c) = self.entries.remove(i);
                proof {
                    lemma_entries_map_remove(old(self).entries@, i as int);
                }
                let (out, rm) = c.on_segment(h, payload, isn);
                if rm {
                    out
                } else {
                    proof {
                        lemma_entries_map_push(self.entries@, qq, c);
                        assert(entries_map(self.entries@.push((qq, c))) =~= old(self)@.insert(
                            *q,
                            c@,
                        ));
                    }
                    self.entries.push((qq, c));
                    out
                }
            },
            None => {
                proof {
                    lemma_entries_map_absent(self.entries@, *q);
                }
                if self.entries.len() >= MAX_CONNS {
                    // at capacity: reject the new connection outright
                    return Vec::new();
                }
                let mut c = Connection::default();
                let (out, rm) = c.on_segment(h, payload, isn);
                if rm {
                    proof {
                        assert(old(self)@.remove(*q) =~= old(self)@);
                    }
                    out
                } else {
                    proof {
                        lemma_entries_map_push(self.entries@, *q, c);
                    }
                    self.entries.push((*q, c));
                    out
                }
            },
        }
    }

    /// Request a local close of the connection owning `q`.  Returns the
    /// FIN to transmit, if one is owed.
    pub fn close(&mut self, q: &Quad) -> (out: Option<TcpHdr>)
        requires
            old(self).wf(),
        ensures
            final(self).wf(),
            ({
                if old(self)@.contains_key(*q) {
                    let a = close_step(old(self)@[*q], q.dst_port, q.src_port);
                    &&& out == a.out
                    &&& final(self)@ =~= (if a.remove {
                        old(self)@.remove(*q)
                    } else {
                        old(self)@.insert(*q, a.post)
                    })
                } else {
                    out is None && final(self)@ =~= old(self)@
                }
            }),
    {
        match self.find(q) {
            Some(i) => {
                proof {
                    lemma_entries_map_index(self.entries@, i as int);
                }
                let (qq, mut c) = self.entries.remove(i);
                proof {
                    lemma_entries_map_remove(old(self).entries@, i as int);
                }
                let (out, rm) = c.close(q.dst_port, q.src_port);
                if !rm {
                    proof {
                        lemma_entries_map_push(self.entries@, qq, c);
                    }
                    self.entries.push((qq, c));
                }
                out
            },
            None => {
                proof {
                    lemma_entries_map_absent(self.entries@, *q);
                }
                None
            },
        }
    }

    /// One quiescence tick for the connection owning `q`.
    pub fn tick(&mut self, q: &Quad)
        requires
            old(self).wf(),
        ensures
            final(self).wf(),
            ({
                if old(self)@.contains_key(*q) {
                    let a = timer_step(old(self)@[*q]);
                    final(self)@ =~= (if a.remove {
                        old(self)@.remove(*q)
                    } else {
                        old(self)@.insert(*q, a.post)
                    })
                } else {
                    final(self)@ =~= old(self)@
                }
            }),
    {
        match self.find(q) {
            Some(i) => {
                proof {
                    lemma_entries_map_index(self.entries@, i as int);
                }
                let (qq, mut c) = self.entries.remove(i);
                proof {
                    lemma_entries_map_remove(old(self).entries@, i as int);
                }
                let rm = c.on_timer();
                if !rm {
                    proof {
                        lemma_entries_map_push(self.entries@, qq, c);
                    }
                    self.entries.push((qq, c));
                }
            },
            None => {
                proof {
                    lemma_entries_map_absent(self.entries@, *q);
                }
            },
        }
    }
}

/// The tunnel frame this endpoint transmits for one reply header: a
/// 4-byte tunnel header (flags zero, protocol IPv4), an option-free
/// IPv4 header from our address back to the peer, and the payload-free
/// TCP segment.
pub open spec fn reply_frame(ip: Ipv4Hdr, r: TcpHdr) -> Seq<u8> {
    seq![0u8, 0u8, 8u8, 0u8] + spec_build_ipv4(ip.dst, ip.src, 40, 64, 6) + spec_build_tcp(
        ip.dst,
        ip.src,
        r,
        Seq::empty(),
    )
}

/// Build the transmit frame for one reply header.
fn build_reply_frame(ip: &Ipv4Hdr, r: &TcpHdr) -> (v: Vec<u8>)
    ensures
        v@ == reply_frame(*ip, *r),
{
    let mut v: Vec<u8> = Vec::new();
    v.push(0);
    v.push(0);
    v.push(8);
    v.push(0);
    let mut ipb = build_ipv4(ip.dst, ip.src, 40, 64, 6);
    v.append(&mut ipb);
    let none: Vec<u8> = Vec::new();
    let mut tcpb = build_tcp(ip.dst, ip.src, r, none.as_slice());
    v.append(&mut tcpb);
    proof {
        assert(none@ =~= Seq::<u8>::empty());
        assert(v@ =~= reply_frame(*ip, *r));
    }
    v
}

/// Everything `handle_frame` promises, as a relation between the table
/// before and after, the raw frame, the chosen initial sequence number,
/// the transmitted reply frames, and the reported (non-fatal) parse
/// error: non-IPv4 frames and non-TCP datagrams are dropped silently,
/// unparsable headers are dropped and reported; otherwise the owning
/// connection's `step` decides.
pub open spec fn dispatch_post(
    pre: Map<Quad, ConnModel>,
    post: Map<Quad, ConnModel>,
    frame: Seq<u8>,
    isn: u32,
    out: Seq<Vec<u8>>,
    err: Option<ParseError>,
    full: bool,
) -> bool {
    if frame.len() < 4 || be16(frame[2], frame[3]) != 0x0800 {
        post == pre && out.len() == 0 && err is None
    } else {
        match spec_parse_ipv4(frame.skip(4)) {
            Err(e) => post == pre && out.len() == 0 && err == Some(e),
            Ok(ip) => if ip.protocol != 6 {
                post == pre && out.len() == 0 && err is None
            } else {
                match spec_parse_tcp(frame.skip(4 + ip.header_len as int)) {
                    Err(e) => post == pre && out.len() == 0 && err == Some(e),
                    Ok(ph) => {
                        let h = ph.0;
                        let hl = ph.1;
                        let q = Quad {
                            src_ip: ip.src,
                            src_port: h.src_port,
                            dst_ip: ip.dst,
                            dst_port: h.dst_port,
                        };
                        let payload = frame.skip(4 + ip.header_len as int + hl as int);
                        if !pre.contains_key(q) && full {
                            // table at capacity: the new connection is rejected
                            post == pre && out.len() == 0 && err is None
                        } else {
                            let pre_conn = if pre.contains_key(q) {
                                pre[q]
                            } else {
                                init_model()
                            };
                            let s = step(pre_conn, h, payload, isn);
                            &&& post == (if s.remove {
                                pre.remove(q)
                            } else {
                                pre.insert(q, s.post)
                            })
                            &&& out.len() == s.out.len()
                            &&& forall|i: int|
                                0 <= i < out.len() ==> out[i]@ == reply_frame(ip, s.out[i])
                            &&& err is None
                        }
                    },
                }
            },
        }
    }
}

impl ConnTable {
    /// One inbound frame from the tunnel device, to completion: filter
    /// non-IPv4 frames, parse the headers, route the segment to the
    /// owning connection, and build the reply frames ready for
    /// transmission.  A header parse failure is reported in the second
    /// component (the frame is dropped, the loop continues).  This
    /// performs no protocol logic itself — it is routing plus
    /// malformed-input filtering.
    pub fn handle_frame(&mut self, frame: &[u8], isn: u32) -> (out: (
        Vec<Vec<u8>>,
        Option<ParseError>,
    ))
        requires
            old(self).wf(),
            frame@.len() <= 0xFFFF,
        ensures
            final(self).wf(),
            dispatch_post(
                old(self)@,
                final(self)@,
                frame@,
                isn,
                out.0@,
                out.1,
                old(self).entries@.len() >= MAX_CONNS,
            ),
    {
        if frame.len() < 4 {
            return (Vec::new(), None);
        }
        let proto: u16 = (frame[2] as u16) * 0x100 + (frame[3] as u16);
        if proto != 0x0800 {
            return (Vec::new(), None);
        }
        let ip_bytes = slice_subrange(frame, 4, frame.len());
        proof {
            assert(ip_bytes@ =~= frame@.skip(4));
        }
        match parse_ipv4(ip_bytes) {
            Err(e) => (Vec::new(), Some(e)),
            Ok(ip) => {
                if ip.protocol != 6 {
                    return (Vec::new(), None);
                }
                let tcp_start: usize = 4 + ip.header_len as usize;
                let tcp_bytes = slice_subrange(frame, tcp_start, frame.len());
                proof {
                    assert(tcp_bytes@ =~= frame@.skip(4 + ip.header_len as int));
                }
                match parse_tcp(tcp_bytes) {
                    Err(e) => (Vec::new(), Some(e)),
                    Ok((h, hl)) => {
                        let payload = slice_subrange(frame, tcp_start + hl, frame.len());
                        proof {
                            assert(payload@ =~= frame@.skip(
                                4 + ip.header_len as int + hl as int,
                            ));
                        }
                        let q = Quad {
                            src_ip: ip.src,
                            src_port: h.src_port,
                            dst_ip: ip.dst,
                            dst_port: h.dst_port,
                        };
                        let replies = self.process_segment(&q, &h, payload, isn);
                        let mut out: Vec<Vec<u8>> = Vec::new();
                        let mut i: usize = 0;
                        while i < replies.len()
                            invariant
                                i <= replies@.len(),
                                out@.len() == i,
                                forall|j: int|
                                    0 <= j < i ==> out@[j]@ == reply_frame(ip, replies@[j]),
                            decreases replies@.len() - i,
                        {
                            let f = build_reply_frame(&ip, &replies[i]);
                            out.push(f);
                            i = i + 1;
                        }
                        (out, None)
                    },
                }
            },
        }
    }
}

} // verus!

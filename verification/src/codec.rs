//! Structured views of the IPv4 and TCP headers this endpoint reads and
//! writes, and the byte-level codec for them.

use vstd::prelude::*;

verus! {

/// The TCP header fields the connection logic reads and writes.  Options
/// are tolerated on parse (skipped via the data offset) and never produced.
#[derive(Clone, Copy, PartialEq, Eq, Structural, Debug)]
pub struct TcpHdr {
    pub src_port: u16,
    pub dst_port: u16,
    pub seq: u32,
    pub ack: u32,
    pub flag_syn: bool,
    pub flag_ack: bool,
    pub flag_fin: bool,
    pub flag_rst: bool,
    pub wnd: u16,
}

/// The IPv4 header fields the dispatcher reads; addresses as 32-bit
/// big-endian integers.
#[derive(Clone, Copy, PartialEq, Eq, Structural, Debug)]
pub struct Ipv4Hdr {
    pub src: u32,
    pub dst: u32,
    pub protocol: u8,
    pub header_len: u8,
    pub total_len: u16,
}

/// Header parse failures.
#[derive(Clone, Copy, PartialEq, Eq, Structural, Debug)]
pub enum ParseError {
    /// fewer bytes than the (stated) header length
    Truncated,
    /// IP version field is not 4
    BadVersion,
    /// header-length field below the fixed minimum
    BadHeaderLen,
}

/// A big-endian 16-bit word from two bytes.
pub open spec fn be16(b0: u8, b1: u8) -> u16 {
    (b0 * 0x100 + b1) as u16
}

/// A big-endian 32-bit word from four bytes.
pub open spec fn be32(b0: u8, b1: u8, b2: u8, b3: u8) -> u32 {
    (((b0 * 0x100 + b1) * 0x100 + b2) * 0x100 + b3) as u32
}

/// Parsing a TCP header: fixed-offset big-endian fields; options are
/// skipped via the data-offset field.  Returns the header and the header
/// length in bytes.
pub open spec fn spec_parse_tcp(b: Seq<u8>) -> Result<(TcpHdr, usize), ParseError> {
    if b.len() < 20 {
        Err(ParseError::Truncated)
    } else {
        let off = b[12] / 16;
        if off < 5 {
            Err(ParseError::BadHeaderLen)
        } else if b.len() < off * 4 {
            Err(ParseError::Truncated)
        } else {
            Ok(
                (
                    TcpHdr {
                        src_port: be16(b[0], b[1]),
                        dst_port: be16(b[2], b[3]),
                        seq: be32(b[4], b[5], b[6], b[7]),
                        ack: be32(b[8], b[9], b[10], b[11]),
                        flag_fin: b[13] % 2 == 1,
                        flag_syn: (b[13] / 2) % 2 == 1,
                        flag_rst: (b[13] / 4) % 2 == 1,
                        flag_ack: (b[13] / 16) % 2 == 1,
                        wnd: be16(b[14], b[15]),
                    },
                    (off * 4) as usize,
                ),
            )
        }
    }
}

/// Parsing an IPv4 header: fixed-offset fields, options skipped via the
/// header-length field.
pub open spec fn spec_parse_ipv4(b: Seq<u8>) -> Result<Ipv4Hdr, ParseError> {
    if b.len() < 20 {
        Err(ParseError::Truncated)
    } else if b[0] / 16 != 4 {
        Err(ParseError::BadVersion)
    } else if b[0] % 16 < 5 {
        Err(ParseError::BadHeaderLen)
    } else if b.len() < (b[0] % 16) * 4 {
        Err(ParseError::Truncated)
    } else {
        Ok(
            Ipv4Hdr {
                src: be32(b[12], b[13], b[14], b[15]),
                dst: be32(b[16], b[17], b[18], b[19]),
                protocol: b[9],
                header_len: ((b[0] % 16) * 4) as u8,
                total_len: be16(b[2], b[3]),
            },
        )
    }
}

/// The flags byte this endpoint writes (FIN, SYN, RST, ACK bits).
pub open spec fn flags_byte(h: TcpHdr) -> u8 {
    ((if h.flag_fin { 1int } else { 0int }) + (if h.flag_syn { 2int } else { 0int }) + (if h.flag_rst {
        4int
    } else {
        0int
    }) + (if h.flag_ack { 16int } else { 0int })) as u8
}

/// The 20-byte option-free TCP header for `h` with checksum field `ck`
/// (urgent pointer zero).
pub open spec fn spec_tcp_bytes(h: TcpHdr, ck: u16) -> Seq<u8> {
    seq![
        (h.src_port / 0x100) as u8,
        (h.src_port % 0x100) as u8,
        (h.dst_port / 0x100) as u8,
        (h.dst_port % 0x100) as u8,
        (h.seq / 0x100_0000) as u8,
        ((h.seq / 0x1_0000) % 0x100) as u8,
        ((h.seq / 0x100) % 0x100) as u8,
        (h.seq % 0x100) as u8,
        (h.ack / 0x100_0000) as u8,
        ((h.ack / 0x1_0000) % 0x100) as u8,
        ((h.ack / 0x100) % 0x100) as u8,
        (h.ack % 0x100) as u8,
        0x50u8,
        flags_byte(h),
        (h.wnd / 0x100) as u8,
        (h.wnd % 0x100) as u8,
        (ck / 0x100) as u8,
        (ck % 0x100) as u8,
        0u8,
        0u8,
    ]
}

/// Sum of the big-endian 16-bit words of `b` (an odd trailing byte is
/// padded with zero), taken from the front.
pub open spec fn sum16(b: Seq<u8>) -> int
    decreases b.len(),
{
    if b.len() == 0 {
        0
    } else if b.len() == 1 {
        0x100 * b[0]
    } else {
        0x100 * b[0] + b[1] + sum16(b.skip(2))
    }
}

/// End-around-carry fold of a non-negative sum into 16 bits.
pub open spec fn fold16(n: int) -> int
    decreases n when n >= 0
{
    if n > 0xFFFF {
        fold16(n % 0x1_0000 + n / 0x1_0000)
    } else {
        n
    }
}

/// The Internet checksum: one's complement of the folded word sum.
pub open spec fn checksum16(b: Seq<u8>) -> u16 {
    (0xFFFF - fold16(sum16(b))) as u16
}

/// The word sum is never negative.
pub proof fn lemma_sum16_nonneg(b: Seq<u8>)
    ensures
        sum16(b) >= 0,
    decreases b.len(),
{
    if b.len() >= 2 {
        lemma_sum16_nonneg(b.skip(2));
    }
}

/// Folding a non-negative sum lands in one 16-bit word.
pub proof fn lemma_fold16_range(n: int)
    requires
        n >= 0,
    ensures
        0 <= fold16(n) <= 0xFFFF,
    decreases n,
{
    if n > 0xFFFF {
        lemma_fold16_range(n % 0x1_0000 + n / 0x1_0000);
    }
}

/// The TCP pseudo-header: source and destination address, zero, the TCP
/// protocol number, and the TCP length.
pub open spec fn pseudo_hdr(src: u32, dst: u32, tcp_len: u16) -> Seq<u8> {
    seq![
        (src / 0x100_0000) as u8,
        ((src / 0x1_0000) % 0x100) as u8,
        ((src / 0x100) % 0x100) as u8,
        (src % 0x100) as u8,
        (dst / 0x100_0000) as u8,
        ((dst / 0x1_0000) % 0x100) as u8,
        ((dst / 0x100) % 0x100) as u8,
        (dst % 0x100) as u8,
        0u8,
        6u8,
        (tcp_len / 0x100) as u8,
        (tcp_len % 0x100) as u8,
    ]
}

/// The checksum this endpoint writes into a TCP header: over the
/// pseudo-header, the header with a zeroed checksum field, and the
/// payload.
pub open spec fn spec_tcp_checksum(src: u32, dst: u32, h: TcpHdr, payload: Seq<u8>) -> u16 {
    checksum16(pseudo_hdr(src, dst, (20 + payload.len()) as u16) + spec_tcp_bytes(h, 0) + payload)
}

/// The complete TCP segment this endpoint builds: option-free header
/// with its checksum, then the payload.
pub open spec fn spec_build_tcp(src: u32, dst: u32, h: TcpHdr, payload: Seq<u8>) -> Seq<u8> {
    spec_tcp_bytes(h, spec_tcp_checksum(src, dst, h, payload)) + payload
}

/// The 20-byte option-free IPv4 header (TTL and protocol as given,
/// identification and fragment fields zero) with checksum field `ck`.
pub open spec fn spec_ipv4_bytes(src: u32, dst: u32, total_len: u16, ttl: u8, proto: u8, ck: u16) -> Seq<u8> {
    seq![
        0x45u8,
        0u8,
        (total_len / 0x100) as u8,
        (total_len % 0x100) as u8,
        0u8,
        0u8,
        0u8,
        0u8,
        ttl,
        proto,
        (ck / 0x100) as u8,
        (ck % 0x100) as u8,
        (src / 0x100_0000) as u8,
        ((src / 0x1_0000) % 0x100) as u8,
        ((src / 0x100) % 0x100) as u8,
        (src % 0x100) as u8,
        (dst / 0x100_0000) as u8,
        ((dst / 0x1_0000) % 0x100) as u8,
        ((dst / 0x100) % 0x100) as u8,
        (dst % 0x100) as u8,
    ]
}

/// The IPv4 header this endpoint builds, its checksum computed over the
/// header itself with a zeroed checksum field.
pub open spec fn spec_build_ipv4(src: u32, dst: u32, total_len: u16, ttl: u8, proto: u8) -> Seq<u8> {
    spec_ipv4_bytes(src, dst, total_len, ttl, proto, checksum16(spec_ipv4_bytes(src, dst, total_len, ttl, proto, 0)))
}

/// Append all of `src` to `dst`.
fn push_bytes(dst: &mut Vec<u8>, src: &[u8])
    ensures
        final(dst)@ == old(dst)@ + src@,
{
    proof {
        assert(dst@ =~= dst@ + src@.take(0));
    }
    let mut i: usize = 0;
    while i < src.len()
        invariant
            i <= src@.len(),
            dst@ == old(dst)@ + src@.take(i as int),
        decreases src@.len() - i,
    {
        let b = src[i];
        dst.push(b);
        proof {
            assert(src@.take((i + 1) as int) =~= src@.take(i as int).push(src@[i as int]));
            assert(old(dst)@ + src@.take((i + 1) as int)
                =~= (old(dst)@ + src@.take(i as int)).push(src@[i as int]));
        }
        i = i + 1;
    }
    proof {
        assert(src@.take(src@.len() as int) =~= src@);
    }
}

/// One's-complement Internet checksum of a byte string.
pub fn checksum(b: &[u8]) -> (r: u16)
    requires
        b@.len() <= 0x2_0000,
    ensures
        r == checksum16(b@),
{
    let mut acc: u64 = 0;
    let mut i: usize = 0;
    proof {
        assert(b@.skip(0) =~= b@);
    }
    while i + 2 <= b.len()
        invariant
            i <= b@.len(),
            b@.len() <= 0x2_0000,
            acc <= 0x1_0000 * i,
            sum16(b@) == acc + sum16(b@.skip(i as int)),
        decreases b@.len() - i,
    {
        let w: u64 = (b[i] as u64) * 0x100 + (b[i + 1] as u64);
        proof {
            assert(b@.skip(i as int)[0] == b@[i as int]);
            assert(b@.skip(i as int)[1] == b@[i as int + 1]);
            assert(b@.skip(i as int).skip(2) =~= b@.skip(i as int + 2));
        }
        acc = acc + w;
        i = i + 2;
    }
    if i < b.len() {
        proof {
            assert(b@.skip(i as int)[0] == b@[i as int]);
            assert(b@.skip(i as int).len() == 1);
        }
        acc = acc + (b[i] as u64) * 0x100;
        i = i + 1;
        proof {
            assert(sum16(b@) == acc);
        }
    } else {
        proof {
            assert(b@.skip(i as int).len() == 0);
            assert(sum16(b@) == acc);
        }
    }
    proof {
        lemma_sum16_nonneg(b@);
    }
    let ghost total: int = sum16(b@);
    while acc > 0xFFFF
        invariant
            fold16(acc as int) == fold16(total),
        decreases acc,
    {
        acc = acc % 0x1_0000 + acc / 0x1_0000;
    }
    proof {
        lemma_fold16_range(total);
        assert(fold16(acc as int) == acc);
    }
    (0xFFFFu64 - acc) as u16
}

/// Parse a TCP header from the bytes following the IPv4 header.
pub fn parse_tcp(b: &[u8]) -> (r: Result<(TcpHdr, usize), ParseError>)
    ensures
        r == spec_parse_tcp(b@),
{
    if b.len() < 20 {
        Err(ParseError::Truncated)
    } else {
        let off = b[12] / 16;
        if off < 5 {
            Err(ParseError::BadHeaderLen)
        } else if b.len() < (off as usize) * 4 {
            Err(ParseError::Truncated)
        } else {
            Ok(
                (
                    TcpHdr {
                        src_port: (b[0] as u16) * 0x100 + (b[1] as u16),
                        dst_port: (b[2] as u16) * 0x100 + (b[3] as u16),
                        seq: (((b[4] as u32) * 0x100 + (b[5] as u32)) * 0x100 + (b[6] as u32))
                            * 0x100 + (b[7] as u32),
                        ack: (((b[8] as u32) * 0x100 + (b[9] as u32)) * 0x100 + (b[10] as u32))
                            * 0x100 + (b[11] as u32),
                        flag_fin: b[13] % 2 == 1,
                        flag_syn: (b[13] / 2) % 2 == 1,
                        flag_rst: (b[13] / 4) % 2 == 1,
                        flag_ack: (b[13] / 16) % 2 == 1,
                        wnd: (b[14] as u16) * 0x100 + (b[15] as u16),
                    },
                    (off as usize) * 4,
                ),
            )
        }
    }
}

/// Parse an IPv4 header from the start of a datagram.
pub fn parse_ipv4(b: &[u8]) -> (r: Result<Ipv4Hdr, ParseError>)
    ensures
        r == spec_parse_ipv4(b@),
{
    if b.len() < 20 {
        Err(ParseError::Truncated)
    } else if b[0] / 16 != 4 {
        Err(ParseError::BadVersion)
    } else if b[0] % 16 < 5 {
        Err(ParseError::BadHeaderLen)
    } else if b.len() < ((b[0] % 16) as usize) * 4 {
        Err(ParseError::Truncated)
    } else {
        Ok(
            Ipv4Hdr {
                src: (((b[12] as u32) * 0x100 + (b[13] as u32)) * 0x100 + (b[14] as u32)) * 0x100
                    + (b[15] as u32),
                dst: (((b[16] as u32) * 0x100 + (b[17] as u32)) * 0x100 + (b[18] as u32)) * 0x100
                    + (b[19] as u32),
                protocol: b[9],
                header_len: (b[0] % 16) * 4,
                total_len: (b[2] as u16) * 0x100 + (b[3] as u16),
            },
        )
    }
}

/// The 20 bytes of an option-free TCP header.
fn tcp_hdr_bytes(h: &TcpHdr, ck: u16) -> (v: Vec<u8>)
    ensures
        v@ == spec_tcp_bytes(*h, ck),
{
    let fb: u8 = (if h.flag_fin { 1 } else { 0 }) + (if h.flag_syn { 2 } else { 0 }) + (if h.flag_rst {
        4
    } else {
        0
    }) + (if h.flag_ack { 16 } else { 0 });
    let mut v: Vec<u8> = Vec::new();
    v.push((h.src_port / 0x100) as u8);
    v.push((h.src_port % 0x100) as u8);
    v.push((h.dst_port / 0x100) as u8);
    v.push((h.dst_port % 0x100) as u8);
    v.push((h.seq / 0x100_0000) as u8);
    v.push(((h.seq / 0x1_0000) % 0x100) as u8);
    v.push(((h.seq / 0x100) % 0x100) as u8);
    v.push((h.seq % 0x100) as u8);
    v.push((h.ack / 0x100_0000) as u8);
    v.push(((h.ack / 0x1_0000) % 0x100) as u8);
    v.push(((h.ack / 0x100) % 0x100) as u8);
    v.push((h.ack % 0x100) as u8);
    v.push(0x50);
    v.push(fb);
    v.push((h.wnd / 0x100) as u8);
    v.push((h.wnd % 0x100) as u8);
    v.push((ck / 0x100) as u8);
    v.push((ck % 0x100) as u8);
    v.push(0);
    v.push(0);
    proof {
        assert(v@ =~= spec_tcp_bytes(*h, ck));
    }
    v
}

/// The 12 bytes of the TCP pseudo-header.
fn pseudo_bytes(src: u32, dst: u32, tcp_len: u16) -> (v: Vec<u8>)
    ensures
        v@ == pseudo_hdr(src, dst, tcp_len),
{
    let mut v: Vec<u8> = Vec::new();
    v.push((src / 0x100_0000) as u8);
    v.push(((src / 0x1_0000) % 0x100) as u8);
    v.push(((src / 0x100) % 0x100) as u8);
    v.push((src % 0x100) as u8);
    v.push((dst / 0x100_0000) as u8);
    v.push(((dst / 0x1_0000) % 0x100) as u8);
    v.push(((dst / 0x100) % 0x100) as u8);
    v.push((dst % 0x100) as u8);
    v.push(0);
    v.push(6);
    v.push((tcp_len / 0x100) as u8);
    v.push((tcp_len % 0x100) as u8);
    proof {
        assert(v@ =~= pseudo_hdr(src, dst, tcp_len));
    }
    v
}

/// The 20 bytes of an option-free IPv4 header.
fn ipv4_hdr_bytes(src: u32, dst: u32, total_len: u16, ttl: u8, proto: u8, ck: u16) -> (v: Vec<u8>)
    ensures
        v@ == spec_ipv4_bytes(src, dst, total_len, ttl, proto, ck),
{
    let mut v: Vec<u8> = Vec::new();
    v.push(0x45);
    v.push(0);
    v.push((total_len / 0x100) as u8);
    v.push((total_len % 0x100) as u8);
    v.push(0);
    v.push(0);
    v.push(0);
    v.push(0);
    v.push(ttl);
    v.push(proto);
    v.push((ck / 0x100) as u8);
    v.push((ck % 0x100) as u8);
    v.push((src / 0x100_0000) as u8);
    v.push(((src / 0x1_0000) % 0x100) as u8);
    v.push(((src / 0x100) % 0x100) as u8);
    v.push((src % 0x100) as u8);
    v.push((dst / 0x100_0000) as u8);
    v.push(((dst / 0x1_0000) % 0x100) as u8);
    v.push(((dst / 0x100) % 0x100) as u8);
    v.push((dst % 0x100) as u8);
    proof {
        assert(v@ =~= spec_ipv4_bytes(src, dst, total_len, ttl, proto, ck));
    }
    v
}

/// Build the complete TCP segment (option-free header with its checksum
/// over pseudo-header and payload, then the payload).
pub fn build_tcp(src: u32, dst: u32, h: &TcpHdr, payload: &[u8]) -> (v: Vec<u8>)
    requires
        payload@.len() <= 0xFFFF - 20,
    ensures
        v@ == spec_build_tcp(src, dst, *h, payload@),
{
    let tcp_len: u16 = 20 + payload.len() as u16;
    let mut buf = pseudo_bytes(src, dst, tcp_len);
    let hdr0 = tcp_hdr_bytes(h, 0);
    push_bytes(&mut buf, hdr0.as_slice());
    push_bytes(&mut buf, payload);
    proof {
        assert(buf@ =~= pseudo_hdr(src, dst, (20 + payload@.len()) as u16) + spec_tcp_bytes(*h, 0)
            + payload@);
    }
    let ck = checksum(buf.as_slice());
    let mut out = tcp_hdr_bytes(h, ck);
    push_bytes(&mut out, payload);
    out
}

/// Build the IPv4 header for a datagram of `total_len` bytes.
pub fn build_ipv4(src: u32, dst: u32, total_len: u16, ttl: u8, proto: u8) -> (v: Vec<u8>)
    ensures
        v@ == spec_build_ipv4(src, dst, total_len, ttl, proto),
{
    let h0 = ipv4_hdr_bytes(src, dst, total_len, ttl, proto, 0);
    let ck = checksum(h0.as_slice());
    ipv4_hdr_bytes(src, dst, total_len, ttl, proto, ck)
}

/// Splitting a 16-bit word into bytes and reading it back is lossless.
pub proof fn lemma_be16_split(x: u16)
    ensures
        be16((x / 0x100) as u8, (x % 0x100) as u8) == x,
{
}

/// Splitting a 32-bit word into bytes and reading it back is lossless.
pub proof fn lemma_be32_split(x: u32)
    ensures
        be32(
            (x / 0x100_0000) as u8,
            ((x / 0x1_0000) % 0x100) as u8,
            ((x / 0x100) % 0x100) as u8,
            (x % 0x100) as u8,
        ) == x,
{
}

/// The flags byte decodes back to the four flags.
pub proof fn lemma_flags_split(h: TcpHdr)
    ensures
        (flags_byte(h) % 2 == 1) == h.flag_fin,
        ((flags_byte(h) / 2) % 2 == 1) == h.flag_syn,
        ((flags_byte(h) / 4) % 2 == 1) == h.flag_rst,
        ((flags_byte(h) / 16) % 2 == 1) == h.flag_ack,
{
}

/// Round trip: a TCP segment built by the Segment Builder parses back
/// to identical field values, with the payload following the fixed
/// 20-byte header.
#[verifier::rlimit(50)]
pub proof fn lemma_tcp_round_trip(src: u32, dst: u32, h: TcpHdr, payload: Seq<u8>)
    ensures
        ({
            let b = spec_build_tcp(src, dst, h, payload);
            &&& spec_parse_tcp(b) == Ok::<(TcpHdr, usize), ParseError>((h, 20usize))
            &&& b.skip(20) == payload
        }),
{
    let b = spec_build_tcp(src, dst, h, payload);
    let ck = spec_tcp_checksum(src, dst, h, payload);
    let hdr = spec_tcp_bytes(h, ck);
    assert(b.len() == 20 + payload.len());
    assert forall|i: int| 0 <= i < 20 implies b[i] == hdr[i] by {}
    assert(b[12] == 0x50);
    assert(b[12] / 16 == 5);
    assert(b.skip(20) =~= payload);
    let p = spec_parse_tcp(b);
    assert(p is Ok);
    let g = p->Ok_0.0;
    lemma_be16_split(h.src_port);
    lemma_be16_split(h.dst_port);
    lemma_be16_split(h.wnd);
    lemma_be32_split(h.seq);
    lemma_be32_split(h.ack);
    lemma_flags_split(h);
    assert(g.src_port == h.src_port);
    assert(g.dst_port == h.dst_port);
    assert(g.seq == h.seq);
    assert(g.ack == h.ack);
    assert(g.wnd == h.wnd);
    assert(g.flag_fin == h.flag_fin && g.flag_syn == h.flag_syn && g.flag_rst == h.flag_rst
        && g.flag_ack == h.flag_ack);
    assert(p->Ok_0.1 == 20);
}

/// Round trip: an IPv4 header built by the Segment Builder parses back
/// to the same addresses, protocol, length and a 20-byte header.
pub proof fn lemma_ipv4_round_trip(src: u32, dst: u32, total_len: u16, ttl: u8, proto: u8)
    ensures
        spec_parse_ipv4(spec_build_ipv4(src, dst, total_len, ttl, proto)) == Ok::<
            Ipv4Hdr,
            ParseError,
        >(
            Ipv4Hdr { src: src, dst: dst, protocol: proto, header_len: 20, total_len: total_len },
        ),
{
    let b = spec_build_ipv4(src, dst, total_len, ttl, proto);
    assert(b[0] == 0x45);
    let p = spec_parse_ipv4(b);
    assert(p is Ok);
    assert(p->Ok_0 == (Ipv4Hdr {
        src: src,
        dst: dst,
        protocol: proto,
        header_len: 20,
        total_len: total_len,
    }));
}

} // verus!

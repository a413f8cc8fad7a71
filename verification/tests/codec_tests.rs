use tcp_core::codec::{
    build_ipv4, build_tcp, checksum, parse_ipv4, parse_tcp, ParseError, TcpHdr,
};
use tcp_core::table::ConnTable;

fn sample_hdr() -> TcpHdr {
    TcpHdr {
        src_port: 80,
        dst_port: 4000,
        seq: 0xDEAD_BEEF,
        ack: 0x0102_0304,
        flag_syn: true,
        flag_ack: true,
        flag_fin: false,
        flag_rst: false,
        wnd: 4096,
    }
}

#[test]
fn checksum_word_example() {
    // words 0x0001 0xf203 0xf4f5 0xf6f7 sum to 0x2ddf0, fold to 0xddf2
    let b = [0x00u8, 0x01, 0xf2, 0x03, 0xf4, 0xf5, 0xf6, 0xf7];
    assert_eq!(checksum(&b), !0xddf2u16);
    assert_eq!(checksum(&b), 0x220d);
}

#[test]
fn checksum_odd_length_pads_with_zero() {
    assert_eq!(checksum(&[0x01]), !0x0100u16);
    assert_eq!(checksum(&[]), 0xFFFF);
}

#[test]
fn tcp_build_then_parse_gives_same_fields() {
    let h = sample_hdr();
    let payload = b"some bytes";
    let seg = build_tcp(0x0A00_0001, 0x0A00_0002, &h, payload);
    let (g, hl) = parse_tcp(&seg).expect("built segment parses");
    assert_eq!(hl, 20);
    assert_eq!(g, h);
    assert_eq!(&seg[20..], payload);
}

#[test]
fn ipv4_build_then_parse_gives_same_fields() {
    let b = build_ipv4(0x0A00_0001, 0x0A00_0002, 40, 64, 6);
    let ip = parse_ipv4(&b).expect("built header parses");
    assert_eq!(ip.src, 0x0A00_0001);
    assert_eq!(ip.dst, 0x0A00_0002);
    assert_eq!(ip.protocol, 6);
    assert_eq!(ip.header_len, 20);
    assert_eq!(ip.total_len, 40);
}

#[test]
fn parse_error_variants() {
    // too short
    assert_eq!(parse_tcp(&[0u8; 10]), Err(ParseError::Truncated));
    assert_eq!(parse_ipv4(&[0u8; 19]), Err(ParseError::Truncated));
    // TCP data offset below 5
    let mut t = [0u8; 20];
    t[12] = 0x40;
    assert_eq!(parse_tcp(&t), Err(ParseError::BadHeaderLen));
    // TCP data offset beyond the buffer
    t[12] = 0x60;
    assert_eq!(parse_tcp(&t), Err(ParseError::Truncated));
    // IP version other than 4
    let mut v = [0u8; 20];
    v[0] = 0x55;
    assert_eq!(parse_ipv4(&v), Err(ParseError::BadVersion));
    // IP header length below 5 words
    v[0] = 0x44;
    assert_eq!(parse_ipv4(&v), Err(ParseError::BadHeaderLen));
    // IP header length beyond the buffer
    v[0] = 0x46;
    assert_eq!(parse_ipv4(&v), Err(ParseError::Truncated));
}

#[test]
fn etherparse_reads_built_tcp_identically() {
    let h = sample_hdr();
    let payload = b"abc";
    let src = [10u8, 0, 0, 1];
    let dst = [10u8, 0, 0, 2];
    let seg = build_tcp(u32::from_be_bytes(src), u32::from_be_bytes(dst), &h, payload);
    let s = etherparse::TcpHeaderSlice::from_slice(&seg).expect("etherparse parses our header");
    assert_eq!(s.source_port(), h.src_port);
    assert_eq!(s.destination_port(), h.dst_port);
    assert_eq!(s.sequence_number(), h.seq);
    assert_eq!(s.acknowledgment_number(), h.ack);
    assert_eq!(s.syn(), h.flag_syn);
    assert_eq!(s.ack(), h.flag_ack);
    assert_eq!(s.fin(), h.flag_fin);
    assert_eq!(s.rst(), h.flag_rst);
    assert_eq!(s.window_size(), h.wnd);
    assert_eq!(s.data_offset(), 5);
    // the checksum we wrote is the one etherparse computes
    let expect = s.to_header().calc_checksum_ipv4_raw(src, dst, payload).unwrap();
    assert_eq!(s.checksum(), expect);
}

#[test]
fn etherparse_reads_built_ipv4_identically() {
    let src = [10u8, 0, 0, 1];
    let dst = [10u8, 0, 0, 2];
    let b = build_ipv4(u32::from_be_bytes(src), u32::from_be_bytes(dst), 40, 64, 6);
    let s = etherparse::Ipv4HeaderSlice::from_slice(&b).expect("etherparse parses our header");
    assert_eq!(s.source(), src);
    assert_eq!(s.destination(), dst);
    assert_eq!(s.protocol(), etherparse::IpNumber::TCP);
    assert_eq!(s.ihl(), 5);
    assert_eq!(s.total_len(), 40);
    assert_eq!(s.ttl(), 64);
    let expect = s.to_header().calc_header_checksum();
    assert_eq!(s.header_checksum(), expect);
}

fn frame_for(src_ip: u32, dst_ip: u32, h: &TcpHdr, payload: &[u8]) -> Vec<u8> {
    let tcp = build_tcp(src_ip, dst_ip, h, payload);
    let ip = build_ipv4(src_ip, dst_ip, (20 + tcp.len()) as u16, 64, 6);
    let mut f = vec![0u8, 0, 8, 0];
    f.extend_from_slice(&ip);
    f.extend_from_slice(&tcp);
    f
}

#[test]
fn dispatcher_answers_syn_with_syn_ack_frame() {
    let mut t = ConnTable::new();
    let client = 0x0A00_0001u32;
    let server = 0x0A00_0002u32;
    let syn = TcpHdr {
        src_port: 4000,
        dst_port: 80,
        seq: 100,
        ack: 0,
        flag_syn: true,
        flag_ack: false,
        flag_fin: false,
        flag_rst: false,
        wnd: 1024,
    };
    let (out, err) = t.handle_frame(&frame_for(client, server, &syn, &[]), 700);
    assert!(err.is_none());
    assert_eq!(out.len(), 1);
    let reply = &out[0];
    // tunnel header: flags zero, protocol IPv4
    assert_eq!(&reply[..4], &[0, 0, 8, 0]);
    let ip = parse_ipv4(&reply[4..]).expect("reply IP header parses");
    assert_eq!(ip.src, server);
    assert_eq!(ip.dst, client);
    assert_eq!(ip.protocol, 6);
    let (g, hl) = parse_tcp(&reply[4 + ip.header_len as usize..]).expect("reply TCP parses");
    assert_eq!(hl, 20);
    assert!(g.flag_syn && g.flag_ack);
    assert_eq!(g.seq, 700);
    assert_eq!(g.ack, 101);
    assert_eq!(g.src_port, 80);
    assert_eq!(g.dst_port, 4000);
    assert_eq!(t.quads().len(), 1);
    // complete the handshake: a pure ACK draws no reply
    let ack = TcpHdr { flag_syn: false, flag_ack: true, seq: 101, ack: 701, ..syn };
    let (out2, _) = t.handle_frame(&frame_for(client, server, &ack, &[]), 0);
    assert!(out2.is_empty());
    assert_eq!(t.quads().len(), 1);
}

#[test]
fn dispatcher_ignores_non_ipv4_and_non_tcp() {
    let mut t = ConnTable::new();
    // wrong ethertype: dropped silently
    let (out, err) = t.handle_frame(&[0, 0, 0x86, 0xDD, 0x45, 0, 0, 0], 0);
    assert!(out.is_empty() && err.is_none());
    assert_eq!(t.quads().len(), 0);
    // IPv4 but not TCP (UDP datagram): dropped silently
    let ip = build_ipv4(1, 2, 28, 64, 17);
    let mut f = vec![0u8, 0, 8, 0];
    f.extend_from_slice(&ip);
    f.extend_from_slice(&[0u8; 8]);
    let (out2, err2) = t.handle_frame(&f, 0);
    assert!(out2.is_empty() && err2.is_none());
    assert_eq!(t.quads().len(), 0);
    // a frame too short to carry anything: dropped silently
    let (out3, err3) = t.handle_frame(&[0, 0], 0);
    assert!(out3.is_empty() && err3.is_none());
    // a truncated IP header after a correct tunnel header is reported
    let (out4, err4) = t.handle_frame(&[0, 0, 8, 0, 0x45, 0], 0);
    assert!(out4.is_empty());
    assert_eq!(err4, Some(ParseError::Truncated));
}

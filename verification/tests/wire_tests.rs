use libsponge::buffer::{Buffer, BufferError, BufferList};
use libsponge::ethernet_frame::EthernetFrame;
use libsponge::ethernet_header::{EthernetAddress, EthernetHeader, ETHERNET_TYPE_IPV4};
use libsponge::ipv4_datagram::IPv4Datagram;
use libsponge::parser::{NetParser, NetUnparser, ParseError};
use libsponge::tcp_config::{AddrV4, FDAdapterConfig};
use libsponge::tcp_over_ip::TCPOverIPv4Adapter;
use libsponge::tcp_segment::TCPSegment;
use libsponge::tcp_header::TCPHeader;
use libsponge::wrapping_integers::WrappingU32;

#[test]
fn parser_reads_big_endian_integers() {
    let mut p = NetParser::new(Buffer::new(vec![0x12, 0x34, 0x56, 0x78, 0x9a, 0xbc, 0xde]));
    assert_eq!(p.parse_u16(), 0x1234);
    assert_eq!(p.parse_u32(), 0x56789abc);
    assert_eq!(p.parse_u8(), 0xde);
    assert!(!p.is_err());
    // Reading past the end latches the error and yields zero.
    assert_eq!(p.parse_u16(), 0);
    assert!(p.is_err());
    assert_eq!(p.get_result(), Err(ParseError::PacketTooShort));
}

#[test]
fn unparser_writes_big_endian_integers() {
    let mut v: Vec<u8> = Vec::new();
    NetUnparser::u16(&mut v, 0x1234);
    NetUnparser::u32(&mut v, 0x56789abc);
    NetUnparser::u8(&mut v, 0xde);
    assert_eq!(v, vec![0x12, 0x34, 0x56, 0x78, 0x9a, 0xbc, 0xde]);
}

#[test]
fn parse_error_descriptions() {
    assert_eq!(ParseError::BadChecksum.as_string(), "Bad checksum");
    assert_eq!(
        ParseError::PacketTooShort.as_string(),
        "Not enough data to finish parsing"
    );
}

#[test]
fn tcp_header_round_trip() {
    let mut h = TCPHeader::default();
    h.src_port = 0x1234;
    h.dst_port = 0x4321;
    h.seq_no = WrappingU32::new(0xdeadbeef);
    h.ack_no = WrappingU32::new(0x01020304);
    h.syn = true;
    h.ack = true;
    h.win = 4096;
    let bytes = h.serialize().unwrap();
    assert_eq!(bytes.len(), 20);
    let mut p = NetParser::new(Buffer::new(bytes));
    let mut parsed = TCPHeader::default();
    parsed.parse(&mut p).unwrap();
    assert_eq!(parsed.src_port, 0x1234);
    assert_eq!(parsed.dst_port, 0x4321);
    assert_eq!(parsed.seq_no.raw_val(), 0xdeadbeef);
    assert_eq!(parsed.ack_no.raw_val(), 0x01020304);
    assert!(parsed.syn && parsed.ack && !parsed.fin && !parsed.rst);
    assert_eq!(parsed.win, 4096);
}

#[test]
fn tcp_header_refuses_short_data_offset() {
    let mut h = TCPHeader::default();
    h.data_offset = 4;
    assert_eq!(h.serialize(), Err(ParseError::HeaderTooShort));
}

#[test]
fn tcp_segment_round_trip_with_checksum() {
    let mut seg = TCPSegment::new_empty();
    seg.header.syn = true;
    seg.header.seq_no = WrappingU32::new(77);
    seg.payload = Buffer::new(b"payload".to_vec());
    let wire = seg.serialize(0).unwrap();
    let mut back = TCPSegment::new_empty();
    back.parse(Buffer::new(wire), 0).unwrap();
    assert!(back.header.syn);
    assert_eq!(back.header.seq_no.raw_val(), 77);
    assert_eq!(back.payload.to_vec(), b"payload".to_vec());
}

#[test]
fn tcp_segment_rejects_corrupt_checksum() {
    let mut seg = TCPSegment::new_empty();
    seg.payload = Buffer::new(b"data".to_vec());
    let mut wire = seg.serialize(0).unwrap();
    wire[21] ^= 0xFF;
    let mut back = TCPSegment::new_empty();
    assert_eq!(back.parse(Buffer::new(wire), 0), Err(ParseError::BadChecksum));
}

#[test]
fn ipv4_datagram_round_trip() {
    let mut d = IPv4Datagram::new_empty();
    d.header.src = 0xc0a80001;
    d.header.dst = 0xc0a800c7;
    d.payload = Buffer::new(b"hello ip".to_vec());
    d.header.len = 20 + 8;
    let wire = d.try_serialize().unwrap();
    let mut back = IPv4Datagram::new_empty();
    back.try_parse(Buffer::new(wire)).unwrap();
    assert_eq!(back.header.src, 0xc0a80001);
    assert_eq!(back.header.dst, 0xc0a800c7);
    assert_eq!(back.payload.to_vec(), b"hello ip".to_vec());
}

#[test]
fn ipv4_rejects_corrupt_header_checksum() {
    let mut d = IPv4Datagram::new_empty();
    d.header.len = 20;
    let mut wire = d.try_serialize().unwrap();
    wire[8] ^= 0x01;
    let mut back = IPv4Datagram::new_empty();
    assert!(back.try_parse(Buffer::new(wire)).is_err());
}

#[test]
fn ethernet_frame_round_trip() {
    let mut f = EthernetFrame::new_empty();
    f.header = EthernetHeader {
        dst: EthernetAddress([1, 2, 3, 4, 5, 6]),
        src: EthernetAddress([7, 8, 9, 10, 11, 12]),
        ty: ETHERNET_TYPE_IPV4,
    };
    f.payload = Buffer::new(b"frame body".to_vec());
    let wire = f.serialize();
    let mut back = EthernetFrame::new_empty();
    back.parse(Buffer::new(wire)).unwrap();
    assert_eq!(back.header.dst.0, [1, 2, 3, 4, 5, 6]);
    assert_eq!(back.header.src.0, [7, 8, 9, 10, 11, 12]);
    assert_eq!(back.header.ty, ETHERNET_TYPE_IPV4);
    assert_eq!(back.payload.to_vec(), b"frame body".to_vec());
}

#[test]
fn adapter_wraps_and_unwraps_a_segment() {
    let cfg = FDAdapterConfig {
        source: AddrV4 { ip: 0x0a000001, port: 8080 },
        destination: AddrV4 { ip: 0x0a000002, port: 9090 },
        loss_rate_dn: 0,
        loss_rate_up: 0,
    };
    let back_cfg = FDAdapterConfig {
        source: cfg.destination,
        destination: cfg.source,
        loss_rate_dn: 0,
        loss_rate_up: 0,
    };
    let mut out_side = TCPOverIPv4Adapter::new(cfg);
    let mut in_side = TCPOverIPv4Adapter::new(back_cfg);

    let mut seg = TCPSegment::new_empty();
    seg.header.syn = true;
    seg.payload = Buffer::new(b"abc".to_vec());
    let dgram = out_side.wrap_tcp_in_ip(seg).unwrap();
    assert_eq!(dgram.header.src, 0x0a000001);
    assert_eq!(dgram.header.dst, 0x0a000002);

    let got = in_side.unwrap_tcp_in_ip(&dgram).expect("segment should unwrap");
    assert!(got.header.syn);
    assert_eq!(got.payload.to_vec(), b"abc".to_vec());
    assert_eq!(got.header.src_port, 8080);
    assert_eq!(got.header.dst_port, 9090);
}

#[test]
fn buffer_prefix_removal() {
    let mut b = Buffer::new(b"abcdef".to_vec());
    assert_eq!(b.size(), 6);
    assert_eq!(b.at(1), b'b');
    b.remove_prefix(2);
    assert_eq!(b.to_vec(), b"cdef".to_vec());
    assert!(b.try_remove_prefix(10).is_err());
    assert_eq!(b.to_vec(), b"cdef".to_vec());
    assert_eq!(b.try_at(0), Some(b'c'));
    assert_eq!(b.try_at(9), None);
}

#[test]
fn buffer_list_concatenates_and_splits() {
    let mut l = BufferList::from_buffer(Buffer::new(b"abc".to_vec()));
    let tail = BufferList::from_buffer(Buffer::new(b"defg".to_vec()));
    l.append(tail);
    assert_eq!(l.size(), 7);
    let first = l.try_remove_prefix(5).unwrap();
    assert_eq!(first, b"abcde".to_vec());
    assert_eq!(l.size(), 2);
    assert_eq!(l.try_remove_prefix(9), Err(BufferError::IndexOutOfBounds));
    assert!(l.is_empty());
}

#[test]
fn header_summary_names_flags_and_numbers() {
    let mut h = TCPHeader::default();
    h.syn = true;
    h.ack = true;
    h.seq_no = WrappingU32::new(42);
    h.win = 7;
    let s = h.summary();
    assert!(s.contains('S'));
    assert!(s.contains('A'));
    assert!(s.contains("seq=42"));
    assert!(s.contains("win=7"));
    let long = h.to_string();
    assert!(long.contains("seqno: 42"));
}

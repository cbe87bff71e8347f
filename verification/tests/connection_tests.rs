use libsponge::tcp_config::TCPConfig;
use libsponge::tcp_connection::TCPConnection;
use libsponge::tcp_segment::TCPSegment;
use libsponge::tcp_sender::TCPSender;
use libsponge::util::Milliseconds;
use libsponge::wrapping_integers::WrappingU32;

fn test_config() -> TCPConfig {
    let mut cfg = TCPConfig::default();
    cfg.fixed_isn = Some(WrappingU32::new(0));
    cfg
}

fn pop(conn: &mut TCPConnection) -> TCPSegment {
    conn.pop_segment().expect("expected an outbound segment")
}

#[test]
fn handshake_one_byte_and_graceful_close() {
    let cfg = test_config();
    let mut a = TCPConnection::with_config(&cfg);
    let mut b = TCPConnection::with_config(&cfg);

    // A opens: {SYN, seq=0}.
    a.connect();
    let syn = pop(&mut a);
    assert!(syn.header.syn);
    assert_eq!(syn.header.seq_no.raw_val(), 0);
    assert!(a.pop_segment().is_none());

    // B answers with {SYN|ACK, seq=0, ack=1, win=64000}.
    b.segment_received(&syn);
    let synack = pop(&mut b);
    assert!(synack.header.syn);
    assert!(synack.header.ack);
    assert_eq!(synack.header.seq_no.raw_val(), 0);
    assert_eq!(synack.header.ack_no.raw_val(), 1);
    assert_eq!(synack.header.win, 64000);

    // A acknowledges B's SYN.
    a.segment_received(&synack);
    let ack1 = pop(&mut a);
    assert!(ack1.header.ack);
    assert_eq!(ack1.header.ack_no.raw_val(), 1);
    b.segment_received(&ack1);

    // A sends one byte: {seq=1, ack=1, payload="x"}.
    assert_eq!(a.write(b"x"), 1);
    let data = pop(&mut a);
    assert_eq!(data.header.seq_no.raw_val(), 1);
    assert_eq!(data.header.ack_no.raw_val(), 1);
    assert_eq!(data.payload.to_vec(), b"x".to_vec());
    b.segment_received(&data);
    let ack2 = pop(&mut b);
    assert_eq!(ack2.header.ack_no.raw_val(), 2);
    a.segment_received(&ack2);

    // A closes: {FIN, seq=2, ack=1}; B acknowledges with ack=3.
    a.end_input_stream();
    let fin_a = pop(&mut a);
    assert!(fin_a.header.fin);
    assert_eq!(fin_a.header.seq_no.raw_val(), 2);
    assert_eq!(fin_a.header.ack_no.raw_val(), 1);
    b.segment_received(&fin_a);
    let ack3 = pop(&mut b);
    assert_eq!(ack3.header.ack_no.raw_val(), 3);
    a.segment_received(&ack3);

    // B delivered the byte and saw the end of A's stream.
    assert_eq!(b.read_inbound(16), b"x".to_vec());
    assert!(b.inbound_stream().eof());

    // B closes: {FIN, seq=1, ack=3}; A acknowledges with ack=2.
    b.end_input_stream();
    let fin_b = pop(&mut b);
    assert!(fin_b.header.fin);
    assert_eq!(fin_b.header.seq_no.raw_val(), 1);
    assert_eq!(fin_b.header.ack_no.raw_val(), 3);
    a.segment_received(&fin_b);
    let ack4 = pop(&mut a);
    assert_eq!(ack4.header.ack_no.raw_val(), 2);
    b.segment_received(&ack4);
    assert!(a.inbound_stream().eof());

    // B ended its inbound side first, so it closes without lingering.
    b.tick(Milliseconds(1));
    assert!(!b.active());

    // A lingers for ten times the retransmission timeout.
    a.tick(Milliseconds(5_000));
    assert!(a.active());
    a.tick(Milliseconds(5_000));
    assert!(!a.active());
}

#[test]
fn retransmission_limit_triggers_rst() {
    let cfg = test_config();
    let mut a = TCPConnection::with_config(&cfg);
    a.connect();
    let _syn = pop(&mut a);

    // Every retransmission of the SYN is lost; back-off doubles until
    // the attempt limit is exceeded and the connection aborts.
    let mut saw_rst = false;
    for _ in 0..12 {
        a.tick(Milliseconds(600_000));
        while let Some(seg) = a.pop_segment() {
            if seg.header.rst {
                saw_rst = true;
            }
        }
        if !a.active() {
            break;
        }
    }
    assert!(saw_rst);
    assert!(!a.active());
    assert!(a.inbound_stream().error());
}

#[test]
fn rst_received_in_established_kills_the_connection() {
    let cfg = test_config();
    let mut a = TCPConnection::with_config(&cfg);
    let mut b = TCPConnection::with_config(&cfg);

    a.connect();
    let syn = pop(&mut a);
    b.segment_received(&syn);
    let synack = pop(&mut b);
    a.segment_received(&synack);
    while a.pop_segment().is_some() {}

    let mut rst = TCPSegment::new_empty();
    rst.header.rst = true;
    rst.header.seq_no = WrappingU32::new(1);
    a.segment_received(&rst);

    assert!(!a.active());
    assert!(a.inbound_stream().error());
    assert!(a.pop_segment().is_none());
}

#[test]
fn zero_window_is_probed_without_counting_retransmissions() {
    let cfg = test_config();
    let mut s = TCPSender::with_config(&cfg);
    s.fill_window();
    assert_eq!(s.segments_out().len(), 1);
    let _syn = s.pop_segment().unwrap();

    // The peer acknowledges the SYN but advertises a zero window.
    let accepted = s.ack_received(&WrappingU32::new(1), 0);
    assert!(accepted);
    assert_eq!(s.bytes_in_flight(), 0);

    s.write_in(b"hi");
    s.fill_window();
    // One single-byte probe goes out despite the zero window.
    let probe = s.pop_segment().unwrap();
    assert_eq!(probe.payload.to_vec(), b"h".to_vec());
    assert_eq!(s.bytes_in_flight(), 1);

    // The probe is retransmitted on timeout, but while the advertised
    // window is zero the consecutive-retransmission count stays put.
    s.tick(Milliseconds(1_000));
    let retx = s.pop_segment().unwrap();
    assert_eq!(retx.payload.to_vec(), b"h".to_vec());
    assert_eq!(s.consq_retxs(), 0);
    s.tick(Milliseconds(1_000));
    let retx2 = s.pop_segment().unwrap();
    assert_eq!(retx2.payload.to_vec(), b"h".to_vec());
    assert_eq!(s.consq_retxs(), 0);

    // Once the window opens, the next byte follows.
    let accepted2 = s.ack_received(&WrappingU32::new(2), 1);
    assert!(accepted2);
    let next = s.pop_segment().unwrap();
    assert_eq!(next.payload.to_vec(), b"i".to_vec());
}

#[test]
fn invalid_ack_is_ignored_by_the_sender() {
    let cfg = test_config();
    let mut s = TCPSender::with_config(&cfg);
    s.fill_window();
    let _syn = s.pop_segment().unwrap();
    // An ack beyond anything sent is rejected outright.
    let accepted = s.ack_received(&WrappingU32::new(7), 1000);
    assert!(!accepted);
    assert_eq!(s.bytes_in_flight(), 1);
}

#[test]
fn write_reports_accepted_bytes() {
    let mut cfg = test_config();
    cfg.send_capacity = 4;
    let mut a = TCPConnection::with_config(&cfg);
    assert_eq!(a.write(b""), 0);
    assert_eq!(a.write(b"abcdef"), 4);
    assert_eq!(a.remaining_outbound_capacity(), 0);
}

#[test]
fn random_isn_still_completes_a_round_trip() {
    // Without a fixed ISN the sender draws a random one; acknowledging
    // relative to the SYN's own sequence number must still work.
    let cfg = TCPConfig::default();
    let mut s = TCPSender::with_config(&cfg);
    s.fill_window();
    let syn = s.pop_segment().unwrap();
    assert!(syn.header.syn);
    assert_eq!(s.bytes_in_flight(), 1);
    let isn = syn.header.seq_no;
    let ack = WrappingU32::wrap(1, &isn);
    assert!(s.ack_received(&ack, 1000));
    assert_eq!(s.bytes_in_flight(), 0);
}

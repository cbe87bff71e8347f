use libsponge::byte_stream::ByteStream;

#[test]
fn write_then_read_round_trip() {
    let mut s = ByteStream::new(10);
    assert_eq!(s.write(b"hello"), 5);
    assert_eq!(s.buffer_size(), 5);
    assert_eq!(s.bytes_written(), 5);
    assert_eq!(s.peek_out(3), b"hel".to_vec());
    assert_eq!(s.pop_output(3), b"hel".to_vec());
    assert_eq!(s.bytes_read(), 3);
    assert_eq!(s.read(10), b"lo".to_vec());
    assert_eq!(s.bytes_read(), 5);
    assert!(s.buffer_empty());
}

#[test]
fn write_clamps_to_capacity() {
    let mut s = ByteStream::new(4);
    assert_eq!(s.write(b"abcdef"), 4);
    assert_eq!(s.remaining_capacity(), 0);
    assert_eq!(s.write(b"xyz"), 0);
    assert_eq!(s.read(100), b"abcd".to_vec());
    assert_eq!(s.remaining_capacity(), 4);
}

#[test]
fn counters_are_monotone() {
    let mut s = ByteStream::new(3);
    let mut last_written = 0;
    let mut last_read = 0;
    for _ in 0..5 {
        s.write(b"ab");
        assert!(s.bytes_written() >= last_written);
        last_written = s.bytes_written();
        s.pop_output(1);
        assert!(s.bytes_read() >= last_read);
        last_read = s.bytes_read();
        assert!(s.bytes_read() <= s.bytes_written());
    }
}

#[test]
fn eof_needs_end_of_input_and_empty_buffer() {
    let mut s = ByteStream::new(8);
    s.write(b"ab");
    assert!(!s.eof());
    s.end_input();
    assert!(s.input_ended());
    assert!(!s.eof());
    s.read(2);
    assert!(s.eof());
}

#[test]
fn error_flag_is_sticky() {
    let mut s = ByteStream::new(8);
    assert!(!s.error());
    s.set_error();
    assert!(s.error());
    s.write(b"a");
    assert!(s.error());
}

#[test]
fn over_read_is_clamped() {
    let mut s = ByteStream::new(8);
    s.write(b"xy");
    let got = s.pop_output(50);
    assert_eq!(got, b"xy".to_vec());
    assert_eq!(s.bytes_read(), 2);
}

use libsponge::stream_reassembler::StreamReassembler;

#[test]
fn out_of_order_segments_assemble_in_order() {
    let mut r = StreamReassembler::new(64);
    r.push_substring(b"ld", 3, false);
    assert_eq!(r.unassemble_bytes(), 2);
    r.push_substring(b"wor", 0, false);
    r.push_substring(b"!", 5, true);
    let got = r.read_out(64);
    assert_eq!(got, b"world!".to_vec());
    assert!(r.stream_out().eof());
}

#[test]
fn overlapping_duplicate_yields_each_byte_once() {
    let mut r = StreamReassembler::new(64);
    r.push_substring(b"abcd", 0, false);
    r.push_substring(b"bcde", 1, false);
    let got = r.read_out(64);
    assert_eq!(got, b"abcde".to_vec());
    assert_eq!(r.unassemble_bytes(), 0);
}

#[test]
fn repeated_push_changes_nothing() {
    let mut r = StreamReassembler::new(64);
    r.push_substring(b"cd", 2, false);
    let pending = r.unassemble_bytes();
    let head = r.head_index();
    r.push_substring(b"cd", 2, false);
    assert_eq!(r.unassemble_bytes(), pending);
    assert_eq!(r.head_index(), head);
    r.push_substring(b"ab", 0, false);
    assert_eq!(r.read_out(64), b"abcd".to_vec());
}

#[test]
fn stale_bytes_are_discarded() {
    let mut r = StreamReassembler::new(64);
    r.push_substring(b"ab", 0, false);
    assert_eq!(r.head_index(), 2);
    r.push_substring(b"ab", 0, false);
    assert_eq!(r.head_index(), 2);
    assert_eq!(r.read_out(64), b"ab".to_vec());
}

#[test]
fn bytes_beyond_window_are_refused() {
    let mut r = StreamReassembler::new(4);
    r.push_substring(b"xy", 6, false);
    assert_eq!(r.unassemble_bytes(), 0);
    r.push_substring(b"abcdef", 0, false);
    // Only the four in-window bytes are kept and delivered.
    assert_eq!(r.read_out(16), b"abcd".to_vec());
}

#[test]
fn first_written_byte_wins_on_overlap() {
    let mut r = StreamReassembler::new(64);
    r.push_substring(b"XY", 2, false);
    r.push_substring(b"abcd", 0, false);
    assert_eq!(r.read_out(64), b"abXY".to_vec());
}

#[test]
fn eof_waits_for_missing_bytes() {
    let mut r = StreamReassembler::new(64);
    r.push_substring(b"cd", 2, true);
    assert!(!r.stream_out().input_ended());
    r.push_substring(b"ab", 0, false);
    assert!(r.stream_out().input_ended());
    assert_eq!(r.read_out(64), b"abcd".to_vec());
    assert!(r.stream_out().eof());
}

#[test]
fn reassembler_input_ended_is_never_reported() {
    let mut r = StreamReassembler::new(8);
    r.push_substring(b"a", 0, true);
    assert!(!r.input_ended());
    assert!(r.is_empty());
}

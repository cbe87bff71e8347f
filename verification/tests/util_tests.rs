use libsponge::util::{hexdump, InternetChecksum};

#[test]
fn test_hexdump() {
    let data = b"Hello, World! This is a test.";
    let dump = hexdump(data, 2);
    assert!(dump.contains("4865 6c6c 6f2c 2057  "));
}

#[test]
fn hexdump_shows_printable_characters() {
    let data = b"Hello";
    let dump = hexdump(data, 0);
    assert!(dump.contains("Hello"));
    assert!(dump.contains("00000000: "));
}

#[test]
fn test_checksum() {
    let mut checksum = InternetChecksum::new(0);
    let data = [0x45, 0x00, 0x00, 0x73, 0x00, 0x00, 0x40, 0x00];
    checksum.add(&data);
    // 0x4500 + 0x0073 + 0x0000 + 0x4000 = 0x8573; its complement is
    // 0x7a8c. (0xb861 is the checksum of the full 20-byte header this
    // prefix comes from, checked below.)
    assert_eq!(checksum.value(), 0x7a8c);
}

#[test]
fn checksum_of_full_header_example() {
    // The classic IPv4 header example: with the checksum field zeroed,
    // the computed checksum is 0xb861.
    let mut checksum = InternetChecksum::new(0);
    let data = [
        0x45, 0x00, 0x00, 0x73, 0x00, 0x00, 0x40, 0x00, 0x40, 0x11, 0x00, 0x00, 0xc0, 0xa8,
        0x00, 0x01, 0xc0, 0xa8, 0x00, 0xc7,
    ];
    checksum.add(&data);
    assert_eq!(checksum.value(), 0xb861);
}

#[test]
fn checksum_odd_byte_padded_with_zero() {
    let mut checksum = InternetChecksum::new(0);
    checksum.add(&[0x12, 0x34, 0x56]);
    // 0x1234 + 0x5600 = 0x6834; complement 0x97cb.
    assert_eq!(checksum.value(), 0x97cb);
}

#[test]
fn checksum_folds_carries() {
    let mut checksum = InternetChecksum::new(0);
    checksum.add(&[0xff, 0xff, 0xff, 0xff, 0x00, 0x02]);
    // 0xffff + 0xffff + 0x0002 = 0x20000; folded: 0x0002; complement 0xfffd.
    assert_eq!(checksum.value(), 0xfffd);
}

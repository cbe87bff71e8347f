use libsponge::wrapping_integers::WrappingU32;

#[test]
fn wrap_is_modular_addition() {
    let isn = WrappingU32::new(5);
    assert_eq!(WrappingU32::wrap(3, &isn).raw_val(), 8);
    assert_eq!(WrappingU32::wrap(0xFFFF_FFFF, &isn).raw_val(), 4);
    assert_eq!(WrappingU32::wrap(1 << 32, &isn).raw_val(), 5);
}

#[test]
fn unwrap_recovers_absolute_index() {
    let isn = WrappingU32::new(0);
    let seq = WrappingU32::new(10);
    assert_eq!(WrappingU32::unwrap(&seq, &isn, 0), 10);
    // Same low bits, checkpoint in the next 2^32 window.
    assert_eq!(WrappingU32::unwrap(&seq, &isn, 1 << 32), (1u64 << 32) + 10);
}

#[test]
fn unwrap_chooses_closest_candidate() {
    let isn = WrappingU32::new(0);
    let seq = WrappingU32::new(2);
    // Checkpoint near the top of a window: closest with low bits 2 is
    // one window above.
    let checkpoint = (1u64 << 32) - 3;
    assert_eq!(WrappingU32::unwrap(&seq, &isn, checkpoint), 1u64 << 32 | 2);
}

#[test]
fn wrap_unwrap_round_trip() {
    for &(n, isn) in &[(0u64, 0u32), (1, 0), (3, 17), (0xFFFF_FFFF, 9), (1 << 33, 12345)] {
        let i = WrappingU32::new(isn);
        let wrapped = WrappingU32::wrap(n, &i);
        assert_eq!(WrappingU32::unwrap(&wrapped, &i, n), n);
    }
}

#[test]
fn unwrap_never_underflows() {
    let isn = WrappingU32::new(10);
    let seq = WrappingU32::new(9);
    // Offset is 2^32 - 1; the only non-negative candidate is taken.
    assert_eq!(WrappingU32::unwrap(&seq, &isn, 0), 0xFFFF_FFFF);
}

use rabin::polynomial::shift_left_n_bits_with_mod_64;
use rabin::tables::TransitionTables;

#[test]
fn shift_without_reduction() {
    assert_eq!(shift_left_n_bits_with_mod_64(1, 0), 1);
    assert_eq!(shift_left_n_bits_with_mod_64(1, 8), 0x100);
    assert_eq!(shift_left_n_bits_with_mod_64(0x1234, 16), 0x1234_0000);
    assert_eq!(shift_left_n_bits_with_mod_64(0, 128), 0);
}

#[test]
fn shift_with_reduction() {
    // x^63 * x = x^64, which the polynomial reduces to x^4 + x^3 + x + 1.
    assert_eq!(shift_left_n_bits_with_mod_64(0x8000_0000_0000_0000, 1), 0x1b);
    assert_eq!(shift_left_n_bits_with_mod_64(1, 64), 0x1b);
    assert_eq!(shift_left_n_bits_with_mod_64(1, 128), 0x145);
    assert_eq!(shift_left_n_bits_with_mod_64(0xff, 128), 0xc3c3);
}

#[test]
fn table_entries() {
    let tables = TransitionTables::new();
    assert_eq!(tables.push(0), 0);
    assert_eq!(tables.pop(0), 0);
    assert_eq!(tables.push(1), 0x1b);
    assert_eq!(tables.pop(1), 0x145);
    assert_eq!(tables.push(255), 0x909);
    assert_eq!(tables.pop(255), 0xc3c3);
    for b in 0..=255u8 {
        assert_eq!(tables.push(b), shift_left_n_bits_with_mod_64((b as u64) << 56, 8));
        assert_eq!(tables.pop(b), shift_left_n_bits_with_mod_64(b as u64, 128));
    }
}

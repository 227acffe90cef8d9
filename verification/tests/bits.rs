use range_check::bits::{lebs2ip, log2_ceil};

fn bits_of(value: u64, len: usize) -> Vec<bool> {
    (0..len).map(|i| (value >> i) & 1 == 1).collect()
}

#[test]
fn lebs2ip_of_nothing_is_zero() {
    assert_eq!(lebs2ip(&[]), 0);
}

#[test]
fn lebs2ip_reads_the_low_bit_first() {
    assert_eq!(lebs2ip(&[true, false, false]), 1);
    assert_eq!(lebs2ip(&[false, false, true]), 4);
    assert_eq!(lebs2ip(&[false, true, true, false, true]), 22);
}

#[test]
fn lebs2ip_of_a_byte() {
    assert_eq!(lebs2ip(&bits_of(200, 8)), 200);
    assert_eq!(lebs2ip(&bits_of(0x34, 8)), 0x34);
}

#[test]
fn lebs2ip_takes_64_bits() {
    assert_eq!(lebs2ip(&[true; 64]), u64::MAX);
    let mut top = [false; 64];
    top[63] = true;
    assert_eq!(lebs2ip(&top), 1u64 << 63);
}

#[test]
fn lebs2ip_inverts_the_cut_into_bits() {
    let values: [u64; 6] = [0, 1, 0x1234, 0xdead_beef, u64::MAX - 1, 0x8000_0000_0000_0001];
    for value in values {
        assert_eq!(lebs2ip(&bits_of(value, 64)), value);
        for len in [1usize, 7, 8, 13, 32, 63] {
            assert_eq!(lebs2ip(&bits_of(value, len)), value & ((1u64 << len) - 1));
        }
    }
}

#[test]
fn the_cut_into_bits_inverts_lebs2ip() {
    let patterns: [&[bool]; 4] = [
        &[true],
        &[false, false, false],
        &[true, false, true, true, false, false, true, false, false],
        &[false; 40],
    ];
    for bits in patterns {
        assert_eq!(bits_of(lebs2ip(bits), bits.len()), bits.to_vec());
    }
}

#[test]
fn log2_ceil_of_table_sizes() {
    assert_eq!(log2_ceil(256), 8);
    assert_eq!(log2_ceil(8), 3);
    assert_eq!(log2_ceil(2), 1);
    assert_eq!(log2_ceil(1), 0);
    assert_eq!(log2_ceil(0), 0);
}

#[test]
fn log2_ceil_rounds_up() {
    assert_eq!(log2_ceil(3), 2);
    assert_eq!(log2_ceil(255), 8);
    assert_eq!(log2_ceil(257), 9);
    assert_eq!(log2_ceil(1u64 << 63), 63);
    assert_eq!(log2_ceil((1u64 << 63) + 1), 64);
    assert_eq!(log2_ceil(u64::MAX), 64);
}

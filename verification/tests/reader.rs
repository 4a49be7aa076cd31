use net_location::BitReader;

#[test]
fn reads_most_significant_bit_first() {
    let mut reader = BitReader::new(&[0b1010_0110, 0b1100_0001], 16);
    assert_eq!(reader.read(3), Some(0b101));
    assert_eq!(reader.read(7), Some(0b001_1011));
    assert_eq!(reader.read(6), Some(1));
    assert_eq!(reader.read(1), None);
}

#[test]
fn reads_up_to_32_bits() {
    let bytes = [0xDE, 0xAD, 0xBE, 0xEF, 0x80];
    let mut reader = BitReader::new(&bytes, 40);
    assert_eq!(reader.read(33), None);
    assert_eq!(reader.read(32), Some(0xDEAD_BEEF));
    assert_eq!(reader.read(0), Some(0));
    assert_eq!(reader.read(1), Some(1));
}

#[test]
fn length_is_clamped_to_the_bytes() {
    let mut reader = BitReader::new(&[0xFF], usize::MAX);
    assert_eq!(reader.read(9), None);
    assert_eq!(reader.read(8), Some(0xFF));
    let mut reader = BitReader::new(&[0xFF], 5);
    assert_eq!(reader.read(6), None);
    assert_eq!(reader.read(5), Some(0x1F));
}

#[test]
fn a_failed_read_or_skip_consumes_nothing() {
    let mut reader = BitReader::new(&[0xA5], 8);
    assert!(reader.skip(4));
    assert!(!reader.skip(5));
    assert!(!reader.skip(usize::MAX));
    assert_eq!(reader.read(5), None);
    assert_eq!(reader.read(4), Some(5));
    assert!(reader.skip(0));
    assert!(!reader.skip(1));
}

#[test]
fn two_reads_make_one() {
    let bytes = [0x12, 0x34, 0x56, 0x78];
    for first in 0..=32 {
        let mut reader = BitReader::new(&bytes, 32);
        let high = u64::from(reader.read(first).unwrap());
        let low = u64::from(reader.read(32 - first).unwrap());
        assert_eq!((high << (32 - first)) + low, 0x1234_5678);
    }
}

#[test]
fn two_skips_make_one() {
    let mut twice = BitReader::new(&[0xC3, 0x5A], 16);
    assert!(twice.skip(3) && twice.skip(4));
    let mut once = BitReader::new(&[0xC3, 0x5A], 16);
    assert!(once.skip(7));
    assert_eq!(twice.read(9), once.read(9));
}

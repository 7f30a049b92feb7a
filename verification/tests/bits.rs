use openpid_embedded_hal::bitstream::BitSink;

#[test]
fn bits_pack_msb_first_across_a_byte() {
    let mut sink = BitSink::new();
    sink.write_bits(0b101, 3);
    sink.write_bits(0b11011, 5);
    let bytes = sink.into_bytes();
    assert_eq!(bytes, vec![0b10111011]);
}

#[test]
fn single_bits_fill_one_byte() {
    let mut sink = BitSink::new();
    for bit in [true, false, false, true, false, false, false, true] {
        sink.write_bit(bit);
    }
    let bytes = sink.into_bytes();
    assert_eq!(bytes, vec![0b10010001]);
}

#[test]
fn flush_pads_leftover_with_zero_bits() {
    let mut sink = BitSink::new();
    sink.write_bits(0b1, 1);
    sink.flush();
    let bytes = sink.into_bytes();
    assert_eq!(bytes, vec![0b10000000]);
}

#[test]
fn byte_aligned_writes_after_flush() {
    let mut sink = BitSink::new();
    sink.write_bits(0xF, 4);
    sink.flush();
    sink.write_bytes(&vec![0xAA, 0x55]);
    let bytes = sink.into_bytes();
    assert_eq!(bytes, vec![0xF0, 0xAA, 0x55]);
}

#[test]
fn empty_sink_yields_no_bytes() {
    let sink = BitSink::new();
    let bytes = sink.into_bytes();
    assert!(bytes.is_empty());
}

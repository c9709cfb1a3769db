use automotive_wire_codec::{
    minimal_be_len, read_be_uint, write_all, write_be_uint, write_u128_be, write_u16_be,
    write_u32_be, write_u64_be, write_u8, InsufficientBuffer, InvalidWidth, Sink, SliceSink,
    WriteError,
};

#[test]
fn write_write_u16_be_writes_big_endian_and_counts() {
    let mut buf = [0u8; 4];
    let mut w = SliceSink::new(&mut buf);
    let n = write_u16_be(&mut w, 0x1234).unwrap();
    assert_eq!(n, 2);
    assert_eq!(&buf[..2], &[0x12, 0x34]);
}

#[test]
fn write_write_be_uint_writes_only_low_n_bytes() {
    let mut buf = [0u8; 3];
    let mut w = SliceSink::new(&mut buf);
    // value has high bytes set; only the low 3 must be written, big-endian.
    let n = write_be_uint(&mut w, 0xAABB_CCDD_u128, 3).unwrap();
    assert_eq!(n, 3);
    assert_eq!(buf, [0xBB, 0xCC, 0xDD]);
}

#[test]
fn write_write_all_writes_verbatim() {
    let mut buf = [0u8; 4];
    let mut w = SliceSink::new(&mut buf);
    let n = write_all(&mut w, &[9, 8, 7]).unwrap();
    assert_eq!(n, 3);
    assert_eq!(&buf[..3], &[9, 8, 7]);
}

#[test]
fn write_write_into_too_small_slice_errors_not_panics() {
    let mut buf = [0u8; 1];
    let mut w = SliceSink::new(&mut buf);
    assert!(write_u16_be(&mut w, 0x1234).is_err());
}

#[test]
fn write_be_uint_hostile_width_is_data_error_not_panic() {
    let mut buf = [0u8; 300];
    let mut w = SliceSink::new(&mut buf);
    assert_eq!(
        write_be_uint(&mut w, 0xABCD, 255),
        Err(WriteError::InvalidWidth(InvalidWidth { max: 16, got: 255 }))
    );
}

#[test]
fn write_be_uint_zero_width_writes_nothing() {
    let mut buf = [0xFFu8; 2];
    let mut w = SliceSink::new(&mut buf);
    assert_eq!(write_be_uint(&mut w, 0xABCD, 0).unwrap(), 0);
    assert_eq!(buf, [0xFF, 0xFF]);
}

#[test]
fn write_u128_be_writes_big_endian_and_counts() {
    let v = 0x0102_0304_0506_0708_090A_0B0C_0D0E_0F10_u128;
    let mut buf = [0u8; 16];
    let mut w = SliceSink::new(&mut buf);
    assert_eq!(write_u128_be(&mut w, v).unwrap(), 16);
    assert_eq!(buf, v.to_be_bytes());
}

#[test]
fn minimal_be_len_boundaries() {
    assert_eq!(minimal_be_len(0), 0);
    assert_eq!(minimal_be_len(1), 1);
    assert_eq!(minimal_be_len(0xFF), 1);
    assert_eq!(minimal_be_len(0x100), 2);
    assert_eq!(minimal_be_len(0xFFFF), 2);
    assert_eq!(minimal_be_len(0x1_0000), 3);
    assert_eq!(minimal_be_len(u128::from(u64::MAX)), 8);
    assert_eq!(minimal_be_len(u128::MAX), 16);
}

#[test]
fn write_be_uint_truncates_value_wider_than_n() {
    let mut buf = [0xEEu8; 4];
    let mut w = SliceSink::new(&mut buf);
    assert_eq!(write_be_uint(&mut w, 0x1_0000, 2).unwrap(), 2);
    assert_eq!(&buf[..2], &[0x00, 0x00]); // high byte dropped, reads back as 0
}

#[test]
fn minimal_be_len_pairs_with_write_be_uint() {
    let v = 0x00AB_CDEF_u128;
    let n = minimal_be_len(v);
    assert_eq!(n, 3);
    let mut buf = [0u8; 16];
    let mut w = SliceSink::new(&mut buf);
    assert_eq!(write_be_uint(&mut w, v, minimal_be_len(v)).unwrap(), n);
    assert_eq!(&buf[..n], &[0xAB, 0xCD, 0xEF]);
}

#[test]
fn write_u8_u32_u64_write_big_endian() {
    let mut buf = [0u8; 13];
    let mut w = SliceSink::new(&mut buf);
    assert_eq!(write_u8(&mut w, 0x7F).unwrap(), 1);
    assert_eq!(write_u32_be(&mut w, 0xDEAD_BEEF).unwrap(), 4);
    assert_eq!(write_u64_be(&mut w, 0x0102_0304_0506_0708).unwrap(), 8);
    assert_eq!(w.written(), 13);
    assert_eq!(w.remaining(), 0);
    assert_eq!(
        buf,
        [0x7F, 0xDE, 0xAD, 0xBE, 0xEF, 1, 2, 3, 4, 5, 6, 7, 8]
    );
}

#[test]
fn slice_sink_reports_counts_when_short() {
    let mut buf = [0u8; 5];
    let mut w = SliceSink::new(&mut buf);
    assert_eq!(write_u32_be(&mut w, 1).unwrap(), 4);
    assert_eq!(w.remaining(), 1);
    // the failing write reports the bytes reached so far plus its own width
    assert_eq!(
        write_u16_be(&mut w, 0xFFFF),
        Err(WriteError::Insufficient(InsufficientBuffer { needed: 6, available: 5 }))
    );
    // a failed write takes nothing in
    assert_eq!(w.written(), 4);
    assert_eq!(w.remaining(), 1);
    assert_eq!(buf, [0, 0, 0, 1, 0]);
}

#[test]
fn write_be_uint_then_read_back_low_bytes() {
    let mut buf = [0u8; 16];
    let mut w = SliceSink::new(&mut buf);
    assert_eq!(write_be_uint(&mut w, 0x1234_5678, 3).unwrap(), 3);
    assert_eq!(read_be_uint(&buf, 3).unwrap().0, 0x34_5678);
}

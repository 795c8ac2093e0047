use broker::error::IoError;
use broker::units::utils::Cur;

#[test]
fn reads_big_endian_numbers() {
    let bytes = [0x01, 0x02, 0xFF, 0xFE, 0x80, 0x00, 0x00, 0x00, 0x7F, 1, 2, 3, 4, 5, 6, 7, 8];
    let mut cur = Cur::new(&bytes);
    assert_eq!(cur.remaining(), 17);
    assert_eq!(cur.u16(), Ok(0x0102));
    assert_eq!(cur.i16(), Ok(-2));
    assert_eq!(cur.i32(), Ok(i32::MIN));
    assert_eq!(cur.u8(), Ok(0x7F));
    assert_eq!(cur.u64(), Ok(0x0102_0304_0506_0708));
    assert_eq!(cur.remaining(), 0);
    assert_eq!(cur.u8(), Err(IoError::NotEnoughBytes));
    assert_eq!(cur.need(0), Ok(()));
}

#[test]
fn takes_slices_and_refuses_overreads() {
    let bytes = [9, 8, 7, 6, 5];
    let mut cur = Cur::new(&bytes);
    assert_eq!(cur.take(2), Ok(&bytes[..2]));
    assert_eq!(cur.u32(), Err(IoError::NotEnoughBytes));
    assert_eq!(cur.remaining(), 3);
    assert_eq!(cur.need(4), Err(IoError::NotEnoughBytes));
    assert_eq!(cur.take(3), Ok(&bytes[2..]));
    assert_eq!(cur.take(0), Ok(&bytes[5..]));
}

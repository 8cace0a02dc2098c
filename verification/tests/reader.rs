use bytes::BytesMut;
use rtmp_core::bytesio::IOReadErrorValue;
use rtmp_core::bytesio::Reader;

#[test]
fn reads_are_transactional() {
    let mut r = Reader::new(BytesMut::new());
    r.extend_from_slice(&[0x01, 0x02, 0x03]);
    let e = r.read_u32().unwrap_err();
    assert!(matches!(e.value, IOReadErrorValue::NotEnoughBytes));
    // nothing was consumed
    assert_eq!(r.len(), 3);
    r.extend_from_slice(&[0x04]);
    assert_eq!(r.read_u32().unwrap(), 0x01020304);
    assert_eq!(r.len(), 0);
}

#[test]
fn read_u8_and_u24_big_endian() {
    let mut buf = BytesMut::new();
    buf.extend_from_slice(&[0x7F, 0x00, 0x01, 0x2C, 0xAA]);
    let mut r = Reader::new(buf);
    assert_eq!(r.read_u8().unwrap(), 0x7F);
    assert_eq!(r.read_u24().unwrap(), 300);
    assert_eq!(r.len(), 1);
}

#[test]
fn read_u32_little_endian() {
    let mut r = Reader::new(BytesMut::new());
    r.extend_from_slice(&[0x01, 0x00, 0x00, 0x00]);
    assert_eq!(r.read_u32_le().unwrap(), 1);
}

#[test]
fn read_bytes_takes_a_prefix() {
    let mut r = Reader::new(BytesMut::new());
    r.extend_from_slice(&[1, 2, 3, 4, 5]);
    let front = r.read_bytes(3).unwrap();
    assert_eq!(&front[..], &[1, 2, 3]);
    assert_eq!(r.len(), 2);
    assert!(r.read_bytes(3).is_err());
    assert_eq!(r.len(), 2);
}

#[test]
fn from_error_value() {
    let e = rtmp_core::bytesio::IOReadError::from(IOReadErrorValue::NotEnoughBytes);
    assert!(matches!(e.value, IOReadErrorValue::NotEnoughBytes));
    let io = std::io::Error::new(std::io::ErrorKind::Other, "closed");
    let e2 = rtmp_core::bytesio::IOReadError::from(io);
    assert!(matches!(e2.value, IOReadErrorValue::IO(_)));
}

#[test]
fn read_u16_big_endian() {
    let mut r = Reader::new(BytesMut::new());
    r.extend_from_slice(&[0x12, 0x34]);
    assert_eq!(r.read_u16().unwrap(), 0x1234);
    assert!(r.read_u16().is_err());
}

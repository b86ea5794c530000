use netlink::endian::{native_order, order_of_native_reading, read_u16, read_u32, write_u16, write_u32, ByteOrder};

#[test]
fn reads_little_and_big_endian() {
    let b = [1u8, 2, 3, 4];
    assert_eq!(read_u32(ByteOrder::Little, &b, 0), 0x0403_0201);
    assert_eq!(read_u32(ByteOrder::Big, &b, 0), 0x0102_0304);
    assert_eq!(read_u16(ByteOrder::Little, &b, 1), 0x0302);
    assert_eq!(read_u16(ByteOrder::Big, &b, 1), 0x0203);
}

#[test]
fn write_then_read_gives_value_back() {
    for order in [ByteOrder::Little, ByteOrder::Big] {
        let mut v = vec![0xaau8; 8];
        write_u32(order, &mut v, 2, 0xdead_beef);
        assert_eq!(read_u32(order, &v, 2), 0xdead_beef);
        assert_eq!(v[0], 0xaa);
        assert_eq!(v[1], 0xaa);
        assert_eq!(v[6], 0xaa);
        assert_eq!(v[7], 0xaa);
        write_u16(order, &mut v, 6, 0x1234);
        assert_eq!(read_u16(order, &v, 6), 0x1234);
        assert_eq!(read_u32(order, &v, 2), 0xdead_beef);
    }
    let mut v = vec![0u8; 4];
    write_u32(ByteOrder::Big, &mut v, 0, 0x0102_0304);
    assert_eq!(v, vec![1, 2, 3, 4]);
    write_u32(ByteOrder::Little, &mut v, 0, 0x0102_0304);
    assert_eq!(v, vec![4, 3, 2, 1]);
}

#[test]
fn native_order_is_the_hosts() {
    let expected = if u16::from_ne_bytes([1, 0]) == 1 { ByteOrder::Little } else { ByteOrder::Big };
    assert_eq!(native_order(), expected);
    let mut v = vec![0u8; 4];
    write_u32(native_order(), &mut v, 0, 0x0a0b_0c0d);
    assert_eq!(v, 0x0a0b_0c0du32.to_ne_bytes().to_vec());
}

#[test]
fn order_from_reading_of_one_zero() {
    assert_eq!(order_of_native_reading(1), ByteOrder::Little);
    assert_eq!(order_of_native_reading(256), ByteOrder::Big);
}

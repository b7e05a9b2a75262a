use fig_parser::error::KiwiError;
use fig_parser::wire::ByteBuf;

#[test]
fn reads_bytes_until_end() {
    let data = [7u8, 9];
    let mut bb = ByteBuf::new(&data);
    assert_eq!(bb.read_byte(), Ok(7));
    assert_eq!(bb.read_byte(), Ok(9));
    assert_eq!(bb.read_byte(), Err(KiwiError::UnexpectedEnd));
    assert_eq!(bb.index, 2);
}

#[test]
fn bool_accepts_only_zero_and_one() {
    let data = [0u8, 1, 2];
    let mut bb = ByteBuf::new(&data);
    assert_eq!(bb.read_bool(), Ok(false));
    assert_eq!(bb.read_bool(), Ok(true));
    assert_eq!(bb.read_bool(), Err(KiwiError::InvalidBool));
}

#[test]
fn var_uint_little_endian_groups() {
    let data = [0xAC, 0x02, 0x7f];
    let mut bb = ByteBuf::new(&data);
    assert_eq!(bb.read_var_uint(), Ok(300));
    assert_eq!(bb.read_var_uint(), Ok(127));
    assert_eq!(bb.index, 3);
}

#[test]
fn var_uint_stops_after_five_bytes() {
    let data = [0xff, 0xff, 0xff, 0xff, 0xff, 0x01];
    let mut bb = ByteBuf::new(&data);
    assert_eq!(bb.read_var_uint(), Ok(u32::MAX));
    assert_eq!(bb.index, 5);
    assert_eq!(bb.read_byte(), Ok(1));
}

#[test]
fn var_uint_truncated() {
    let data = [0x80u8];
    let mut bb = ByteBuf::new(&data);
    assert_eq!(bb.read_var_uint(), Err(KiwiError::UnexpectedEnd));
}

#[test]
fn var_uint64_large() {
    let data = [0xff, 0xff, 0xff, 0xff, 0xff, 0xff, 0xff, 0xff, 0xff, 0x01];
    let mut bb = ByteBuf::new(&data);
    assert_eq!(bb.read_var_uint64(), Ok(u64::MAX));
    assert_eq!(bb.index, 10);
}

#[test]
fn var_int_zigzag() {
    let data = [0x00, 0x01, 0x02, 0x03, 0xfe, 0xff, 0xff, 0xff, 0x0f];
    let mut bb = ByteBuf::new(&data);
    assert_eq!(bb.read_var_int(), Ok(0));
    assert_eq!(bb.read_var_int(), Ok(-1));
    assert_eq!(bb.read_var_int(), Ok(1));
    assert_eq!(bb.read_var_int(), Ok(-2));
    assert_eq!(bb.read_var_int(), Ok(i32::MAX));
}

#[test]
fn var_int64_zigzag() {
    let data = [0x03u8, 0x04];
    let mut bb = ByteBuf::new(&data);
    assert_eq!(bb.read_var_int64(), Ok(-2));
    assert_eq!(bb.read_var_int64(), Ok(2));
}

#[test]
fn var_float_rotates_bits() {
    // 1.0f32 = 0x3F800000; stored rotated right by 23: 0x0000007F.
    let bits = 1.0f32.to_bits().rotate_right(23);
    let mut data = vec![0u8];
    data.extend_from_slice(&bits.to_le_bytes());
    let mut bb = ByteBuf::new(&data);
    assert_eq!(bb.read_var_float(), Ok(0));
    assert_eq!(bb.read_var_float(), Ok(1.0f32.to_bits()));
    assert_eq!(bb.index, 5);
}

#[test]
fn var_float_truncated() {
    let data = [0x7fu8, 0x00];
    let mut bb = ByteBuf::new(&data);
    assert_eq!(bb.read_var_float(), Err(KiwiError::TruncatedFloat));
}

#[test]
fn strings_are_zero_terminated() {
    let data = b"abc\0\xff\0rest";
    let mut bb = ByteBuf::new(data);
    assert_eq!(bb.read_string().unwrap(), "abc");
    assert_eq!(bb.read_string().unwrap(), "\u{FFFD}");
    assert_eq!(bb.read_string(), Err(KiwiError::UnterminatedString));
}

#[test]
fn take_bytes_borrows_slice() {
    let data = [1u8, 2, 3, 4];
    let mut bb = ByteBuf::new(&data);
    assert_eq!(bb.take_bytes(3).unwrap(), &[1, 2, 3]);
    assert_eq!(bb.take_bytes(2), Err(KiwiError::TruncatedByteArray));
    assert_eq!(bb.take_bytes(1).unwrap(), &[4]);
}

#[test]
fn failed_var_ints_leave_the_cursor_at_the_end() {
    let data = [1u8, 0x80, 0x81];
    let mut bb = ByteBuf::new(&data);
    bb.index = 1;
    assert_eq!(bb.read_var_uint(), Err(KiwiError::UnexpectedEnd));
    assert_eq!(bb.index, 3);
    bb.index = 1;
    assert_eq!(bb.read_var_uint64(), Err(KiwiError::UnexpectedEnd));
    assert_eq!(bb.index, 3);
    bb.index = 1;
    assert_eq!(bb.read_var_int(), Err(KiwiError::UnexpectedEnd));
    assert_eq!(bb.index, 3);
    bb.index = 1;
    assert_eq!(bb.read_var_int64(), Err(KiwiError::UnexpectedEnd));
    assert_eq!(bb.index, 3);
}

#[test]
fn unterminated_string_leaves_the_cursor_at_the_end() {
    let data = b"x\0abc";
    let mut bb = ByteBuf::new(data);
    assert_eq!(bb.read_string().unwrap(), "x");
    assert_eq!(bb.index, 2);
    assert_eq!(bb.read_string(), Err(KiwiError::UnterminatedString));
    assert_eq!(bb.index, 5);
}

#[test]
fn valid_utf8_strings_decode_exactly() {
    let data = "h\u{e9}llo \u{1F600}\0".as_bytes();
    let mut bb = ByteBuf::new(data);
    assert_eq!(bb.read_string().unwrap(), "h\u{e9}llo \u{1F600}");
    assert_eq!(bb.index, data.len());
}

fn encode_var_int64(n: i64) -> Vec<u8> {
    let mut z = ((n << 1) ^ (n >> 63)) as u64;
    let mut out = Vec::new();
    loop {
        if z < 128 {
            out.push(z as u8);
            return out;
        }
        out.push((z % 128 + 128) as u8);
        z /= 128;
    }
}

#[test]
fn var_int64_round_trips() {
    for n in [0i64, 1, -1, 63, -64, 64, 300, -300, i64::MAX, i64::MIN, 1 << 40, -(1 << 40)] {
        let enc = encode_var_int64(n);
        assert!(enc.len() <= 10);
        let mut bb = ByteBuf::new(&enc);
        assert_eq!(bb.read_var_int64(), Ok(n));
        assert_eq!(bb.index, enc.len());
    }
    assert_eq!(encode_var_int64(i64::MIN).len(), 10);
}

#[test]
fn kiwi_error_messages() {
    assert_eq!(KiwiError::UnexpectedEnd.message(), "unexpected end of kiwi message");
    assert_eq!(KiwiError::NonPrimitiveId(-7).message(), "read_primitive called with non-primitive id -7");
    assert_eq!(KiwiError::BadSkipArrayId(i32::MIN).message(), "skip_primitive array: bad id -2147483648");
    assert_eq!(
        KiwiError::UnknownField { id: 42, message: "Node".to_string() }.message(),
        "unknown field id 42 in message Node"
    );
    assert_eq!(
        KiwiError::UnknownEnumValue { value: 0, def_name: "Kind".to_string() }.message(),
        "unknown enum value 0 for Kind"
    );
    assert_eq!(KiwiError::BadTypeId(12).message(), "type id 12 names no definition");
}

#[test]
fn failed_var_floats_leave_the_cursor_where_the_reader_stops() {
    let data = [0x7fu8, 0x00];
    let mut bb = ByteBuf::new(&data);
    assert_eq!(bb.read_var_float(), Err(KiwiError::TruncatedFloat));
    assert_eq!(bb.index, 1);
    bb.index = 2;
    assert_eq!(bb.read_var_float(), Err(KiwiError::UnexpectedEnd));
    assert_eq!(bb.index, 2);
}

use blockserver::codec::{
    Cursor, FormatError, push_u16_be, push_u32_be, push_u64_be, push_i32_be, push_i64_be,
    read_string_from_cursor, read_varint_from_cursor, write_string_to_vec, write_string_opt,
    write_varint_to_vec,
};
use byteorder::{BigEndian, ByteOrder};

#[test]
fn varint_zero_is_single_zero_byte() {
    assert_eq!(write_varint_to_vec(0), vec![0x00]);
}

#[test]
fn varint_127_is_single_byte() {
    assert_eq!(write_varint_to_vec(127), vec![0x7F]);
}

#[test]
fn varint_128_is_two_bytes() {
    assert_eq!(write_varint_to_vec(128), vec![0x80, 0x01]);
}

#[test]
fn varint_255_is_two_bytes() {
    assert_eq!(write_varint_to_vec(255), vec![0xFF, 0x01]);
}

#[test]
fn varint_negative_one_is_five_bytes() {
    assert_eq!(write_varint_to_vec(-1), vec![0xFF, 0xFF, 0xFF, 0xFF, 0x0F]);
}

#[test]
fn varint_roundtrip_many_values() {
    let values = [
        0, 1, 2, 127, 128, 255, 300, 25565, 767, 2097151, 2147483647, -1, -2, -25565, -2147483648,
    ];
    for &v in values.iter() {
        let encoded = write_varint_to_vec(v);
        assert!(encoded.len() <= 5);
        let mut cur = Cursor::new(encoded);
        assert_eq!(read_varint_from_cursor(&mut cur), Ok(v), "value {}", v);
    }
}

#[test]
fn varint_decode_ignores_trailing_bytes() {
    let mut bytes = write_varint_to_vec(300);
    bytes.extend_from_slice(&[0xAA, 0xBB]);
    let mut cur = Cursor::new(bytes);
    assert_eq!(read_varint_from_cursor(&mut cur), Ok(300));
}

#[test]
fn varint_six_continuation_bytes_fail() {
    let mut cur = Cursor::new(vec![0xFF, 0xFF, 0xFF, 0xFF, 0xFF, 0xFF]);
    assert_eq!(
        read_varint_from_cursor(&mut cur),
        Err(FormatError::VarIntTooLong)
    );
}

#[test]
fn varint_truncated_fails() {
    let mut cur = Cursor::new(vec![0x80]);
    assert_eq!(
        read_varint_from_cursor(&mut cur),
        Err(FormatError::UnexpectedEnd)
    );
}

#[test]
fn string_roundtrip_simple() {
    for s in ["", "sd", "localhost", "minecraft:overworld", "h\u{e9}llo \u{2603} \u{1F600}"] {
        let encoded = write_string_to_vec(s);
        let mut cur = Cursor::new(encoded);
        let back = read_string_from_cursor(&mut cur).expect("decode");
        assert_eq!(back, s);
    }
}

#[test]
fn string_empty_is_single_zero_byte() {
    assert_eq!(write_string_to_vec(""), vec![0x00]);
}

#[test]
fn string_encoding_layout() {
    // length prefix, then UTF-8 bytes
    assert_eq!(write_string_to_vec("sd"), vec![0x02, b's', b'd']);
}

#[test]
fn string_opt_accepts_ordinary_strings() {
    assert_eq!(write_string_opt("sd"), Some(vec![0x02, b's', b'd']));
}

#[test]
fn string_length_prefix_exceeding_bytes_fails() {
    // declared length 5, only 2 bytes follow
    let mut cur = Cursor::new(vec![0x05, b'a', b'b']);
    assert_eq!(
        read_string_from_cursor(&mut cur),
        Err(FormatError::UnexpectedEnd)
    );
}

#[test]
fn string_negative_length_fails() {
    // varint -1 as a length prefix
    let mut bytes = write_varint_to_vec(-1);
    bytes.push(b'a');
    let mut cur = Cursor::new(bytes);
    assert_eq!(
        read_string_from_cursor(&mut cur),
        Err(FormatError::UnexpectedEnd)
    );
}

#[test]
fn string_invalid_utf8_fails() {
    let mut cur = Cursor::new(vec![0x02, 0xFF, 0xFE]);
    assert_eq!(
        read_string_from_cursor(&mut cur),
        Err(FormatError::InvalidUtf8)
    );
}

#[test]
fn big_endian_matches_byteorder() {
    let mut ours: Vec<u8> = Vec::new();
    push_u16_be(&mut ours, 25565);
    let mut theirs = [0u8; 2];
    BigEndian::write_u16(&mut theirs, 25565);
    assert_eq!(&ours[..], &theirs[..]);

    let mut ours: Vec<u8> = Vec::new();
    push_u32_be(&mut ours, 0xDEAD_BEEF);
    let mut theirs = [0u8; 4];
    BigEndian::write_u32(&mut theirs, 0xDEAD_BEEF);
    assert_eq!(&ours[..], &theirs[..]);

    let mut ours: Vec<u8> = Vec::new();
    push_u64_be(&mut ours, 64.0f64.to_bits());
    let mut theirs = [0u8; 8];
    BigEndian::write_f64(&mut theirs, 64.0);
    assert_eq!(&ours[..], &theirs[..]);

    let mut ours: Vec<u8> = Vec::new();
    push_i32_be(&mut ours, -7);
    let mut theirs = [0u8; 4];
    BigEndian::write_i32(&mut theirs, -7);
    assert_eq!(&ours[..], &theirs[..]);

    let mut ours: Vec<u8> = Vec::new();
    push_i64_be(&mut ours, -123456789);
    let mut theirs = [0u8; 8];
    BigEndian::write_i64(&mut theirs, -123456789);
    assert_eq!(&ours[..], &theirs[..]);
}

#[test]
fn big_endian_reads_back() {
    let mut bytes: Vec<u8> = Vec::new();
    push_u16_be(&mut bytes, 4660);
    push_u32_be(&mut bytes, 0x0102_0304);
    push_u64_be(&mut bytes, 1.5f64.to_bits());
    let mut cur = Cursor::new(bytes);
    assert_eq!(cur.read_u16_be(), Ok(4660));
    assert_eq!(cur.read_u32_be(), Ok(0x0102_0304));
    assert_eq!(cur.read_u64_be(), Ok(1.5f64.to_bits()));
    assert_eq!(cur.read_u8(), Err(FormatError::UnexpectedEnd));
}

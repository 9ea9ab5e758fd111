use linear_tools::bytes::{
    append_be_i16, append_be_i32, append_be_u16, append_be_u32, append_be_u64, append_bytes,
    be_i16_at, be_u32_at, be_u64_at, i16_to_u16, i8_to_u8, u8_to_i8,
};
use linear_tools::parse::{after_last_start, middle_of_four, parse_i32, IntErrorKind};

#[test]
fn appends_big_endian_words() {
    let mut buf: Vec<u8> = vec![9];
    append_be_u16(&mut buf, 0x1234);
    append_be_u32(&mut buf, 0xdeadbeef);
    append_be_u64(&mut buf, 0x0102030405060708);
    append_be_i16(&mut buf, -2);
    append_be_i32(&mut buf, -1);
    assert_eq!(
        buf,
        vec![9, 0x12, 0x34, 0xde, 0xad, 0xbe, 0xef, 1, 2, 3, 4, 5, 6, 7, 8, 0xff, 0xfe, 0xff, 0xff, 0xff, 0xff]
    );
}

#[test]
fn appends_match_std_to_be_bytes() {
    for v in [0u64, 1, 255, 256, 0xc3ff13183cca9d9a, u64::MAX] {
        let mut buf = Vec::new();
        append_be_u64(&mut buf, v);
        assert_eq!(buf, v.to_be_bytes().to_vec());
    }
    for v in [i32::MIN, -5, 0, 7, i32::MAX] {
        let mut buf = Vec::new();
        append_be_i32(&mut buf, v);
        assert_eq!(buf, v.to_be_bytes().to_vec());
    }
}

#[test]
fn reads_big_endian_words() {
    let bytes = [0u8, 0x12, 0x34, 0x56, 0x78, 0x9a, 0xbc, 0xde, 0xf0, 0xff, 0xfe];
    assert_eq!(be_u64_at(&bytes, 1), 0x123456789abcdef0);
    assert_eq!(be_u32_at(&bytes, 0), 0x00123456);
    assert_eq!(be_i16_at(&bytes, 9), -2);
    assert_eq!(be_i16_at(&bytes, 0), 0x0012);
}

#[test]
fn signed_byte_conversions() {
    assert_eq!(i8_to_u8(-1), 255);
    assert_eq!(i8_to_u8(5), 5);
    assert_eq!(u8_to_i8(200), -56);
    assert_eq!(u8_to_i8(127), 127);
    assert_eq!(i16_to_u16(-32768), 0x8000);
    assert_eq!(i16_to_u16(300), 300);
}

#[test]
fn append_bytes_concatenates() {
    let mut buf = vec![1u8, 2];
    append_bytes(&mut buf, &[3, 4, 5]);
    assert_eq!(buf, vec![1, 2, 3, 4, 5]);
}

#[test]
fn parse_i32_agrees_with_std() {
    let cases = [
        "", "0", "-0", "+0", "42", "-42", "+42", "007", "-", "+", "--1", "+-1", "1a", " 1", "1 ",
        "2147483647", "2147483648", "-2147483648", "-2147483649", "99999999999999999999",
        "-99999999999999999999", "12x99999999999", "x", "2147483648x", "-2147483649x",
        "99999999999x", "-99999999999x", "+", "-x", "+2147483647", "-2147483648x",
    ];
    for case in cases {
        let expected = case.parse::<i32>().map_err(|e| match e.kind() {
            std::num::IntErrorKind::Empty => IntErrorKind::Empty,
            std::num::IntErrorKind::InvalidDigit => IntErrorKind::InvalidDigit,
            std::num::IntErrorKind::PosOverflow => IntErrorKind::PosOverflow,
            std::num::IntErrorKind::NegOverflow => IntErrorKind::NegOverflow,
            other => panic!("unexpected kind {:?}", other),
        });
        assert_eq!(parse_i32(case.as_bytes()), expected, "input {:?}", case);
    }
}

#[test]
fn finds_the_file_name_start() {
    assert_eq!(after_last_start(b"a/b/c.txt", b'/'), 4);
    assert_eq!(after_last_start(b"name", b'/'), 0);
    assert_eq!(after_last_start(b"dir/", b'/'), 4);
}

#[test]
fn finds_the_middle_of_four_pieces() {
    assert_eq!(middle_of_four(b"r.12.-3.linear", b'.'), Some((2, 4, 7)));
    assert_eq!(middle_of_four(b"r..x.y", b'.'), Some((2, 2, 4)));
    assert_eq!(middle_of_four(b"r.1.linear", b'.'), None);
    assert_eq!(middle_of_four(b"a.b.c.d.e", b'.'), None);
}

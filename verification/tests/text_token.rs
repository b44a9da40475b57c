use chat_relay::text::{bytes_eq, trim};
use chat_relay::token::{generate_token, hex_encode};

#[test]
fn trim_strips_surrounding_whitespace() {
    assert_eq!(trim(b"  hi \r\n"), b"hi".to_vec());
    assert_eq!(trim(b"token\n"), b"token".to_vec());
    assert_eq!(trim(b"untouched"), b"untouched".to_vec());
    assert_eq!(trim(b"\t \r\n"), Vec::<u8>::new());
    assert_eq!(trim(b""), Vec::<u8>::new());
    assert_eq!(trim(b" a b "), b"a b".to_vec());
}

#[test]
fn bytes_eq_compares_contents() {
    assert!(bytes_eq(b"abc", b"abc"));
    assert!(!bytes_eq(b"abc", b"abd"));
    assert!(!bytes_eq(b"abc", b"ab"));
    assert!(bytes_eq(b"", b""));
}

#[test]
fn hex_encode_is_uppercase_two_digits_per_byte() {
    assert_eq!(hex_encode(&vec![0x0f, 0xa0]), b"0FA0".to_vec());
    assert_eq!(hex_encode(&vec![0x00, 0xff, 0x10]), b"00FF10".to_vec());
    assert_eq!(hex_encode(&Vec::new()), Vec::<u8>::new());
}

#[test]
fn generated_token_is_32_hex_digits() {
    let t = generate_token().expect("the system random source works");
    assert_eq!(t.len(), 32);
    assert!(t.iter().all(|b| b.is_ascii_hexdigit() && !b.is_ascii_lowercase()));
    // The token never carries whitespace, so trimming leaves it alone.
    assert_eq!(trim(&t), t);
}

use huff_codegen::hex::{
    ascii_lowercase, byte_to_hex, bytes32_to_string, format_even_bytes, is_code_str, is_hex_str,
    pad_n_bytes, push_for, size_to_hex, str_eq, usize_to_hex,
};
use huff_codegen::opcodes::opcode_from_str;

fn literal(tail: &[u8]) -> [u8; 32] {
    let mut l = [0u8; 32];
    l[32 - tail.len()..].copy_from_slice(tail);
    l
}

#[test]
fn byte_has_two_lower_case_digits() {
    assert_eq!(byte_to_hex(0x00), "00");
    assert_eq!(byte_to_hex(0x5b), "5b");
    assert_eq!(byte_to_hex(0xff), "ff");
    assert_eq!(byte_to_hex(0x0a), "0a");
}

#[test]
fn literal_zero_is_one_zero_byte() {
    assert_eq!(bytes32_to_string(&[0u8; 32]), "00");
}

#[test]
fn literal_drops_leading_zero_bytes() {
    assert_eq!(bytes32_to_string(&literal(&[0x01])), "01");
    assert_eq!(bytes32_to_string(&literal(&[0xa5, 0x7b])), "a57b");
    assert_eq!(bytes32_to_string(&literal(&[0x01, 0x00, 0x00])), "010000");
}

#[test]
fn literal_of_32_bytes_keeps_all() {
    assert_eq!(bytes32_to_string(&[0xffu8; 32]), "ff".repeat(32));
}

#[test]
fn number_has_no_leading_zeros() {
    assert_eq!(usize_to_hex(0), "0");
    assert_eq!(usize_to_hex(4), "4");
    assert_eq!(usize_to_hex(255), "ff");
    assert_eq!(usize_to_hex(256), "100");
    assert_eq!(usize_to_hex(0xabcdef), "abcdef");
}

#[test]
fn size_has_an_even_length() {
    assert_eq!(size_to_hex(0), "00");
    assert_eq!(size_to_hex(4), "04");
    assert_eq!(size_to_hex(0x100), "0100");
    assert_eq!(size_to_hex(0xffff), "ffff");
}

#[test]
fn even_puts_a_zero_in_front_of_an_odd_length() {
    assert_eq!(format_even_bytes("abc".to_string()), "0abc");
    assert_eq!(format_even_bytes("ab".to_string()), "ab");
    assert_eq!(format_even_bytes(String::new()), "");
}

#[test]
fn pad_fills_up_to_the_width() {
    assert_eq!(pad_n_bytes("05", 2), "0005");
    assert_eq!(pad_n_bytes("5", 2), "0005");
    assert_eq!(pad_n_bytes("", 1), "00");
    assert_eq!(pad_n_bytes("03", 32), format!("{}03", "00".repeat(31)));
}

#[test]
fn pad_leaves_a_long_text_as_it_is() {
    assert_eq!(pad_n_bytes("010203", 2), "010203");
    assert_eq!(pad_n_bytes("0102", 2), "0102");
    assert_eq!(pad_n_bytes("01", 0), "01");
}

#[test]
fn push_opcode_goes_by_the_length() {
    assert_eq!(push_for("00"), "6000");
    assert_eq!(push_for("0102"), "610102");
    assert_eq!(push_for(&"ff".repeat(32)), format!("7f{}", "ff".repeat(32)));
}

#[test]
fn opcodes_by_mnemonic() {
    assert_eq!(opcode_from_str("stop"), Some(0x00));
    assert_eq!(opcode_from_str("add"), Some(0x01));
    assert_eq!(opcode_from_str("sha3"), Some(0x20));
    assert_eq!(opcode_from_str("jump"), Some(0x56));
    assert_eq!(opcode_from_str("jumpi"), Some(0x57));
    assert_eq!(opcode_from_str("jumpdest"), Some(0x5b));
    assert_eq!(opcode_from_str("push1"), Some(0x60));
    assert_eq!(opcode_from_str("push2"), Some(0x61));
    assert_eq!(opcode_from_str("push32"), Some(0x7f));
    assert_eq!(opcode_from_str("dup1"), Some(0x80));
    assert_eq!(opcode_from_str("dup16"), Some(0x8f));
    assert_eq!(opcode_from_str("swap1"), Some(0x90));
    assert_eq!(opcode_from_str("swap16"), Some(0x9f));
    assert_eq!(opcode_from_str("log0"), Some(0xa0));
    assert_eq!(opcode_from_str("log4"), Some(0xa4));
    assert_eq!(opcode_from_str("create"), Some(0xf0));
    assert_eq!(opcode_from_str("create2"), Some(0xf5));
    assert_eq!(opcode_from_str("staticcall"), Some(0xfa));
    assert_eq!(opcode_from_str("revert"), Some(0xfd));
    assert_eq!(opcode_from_str("selfdestruct"), Some(0xff));
}

#[test]
fn names_that_are_no_mnemonic() {
    assert_eq!(opcode_from_str("ADD"), None);
    assert_eq!(opcode_from_str("push0"), None);
    assert_eq!(opcode_from_str("push33"), None);
    assert_eq!(opcode_from_str("start"), None);
    assert_eq!(opcode_from_str(""), None);
}

#[test]
fn lower_case_of_ascii_letters() {
    assert_eq!(ascii_lowercase("60FFaB"), "60ffab");
    assert_eq!(ascii_lowercase("61xxxx"), "61xxxx");
    assert_eq!(ascii_lowercase("AZ az 09"), "az az 09");
    assert_eq!(ascii_lowercase(""), "");
}

#[test]
fn strings_compare_by_their_characters() {
    assert!(str_eq("MAIN", "MAIN"));
    assert!(!str_eq("MAIN", "MAI"));
    assert!(!str_eq("MAIN", "MAIM"));
    assert!(str_eq("", ""));
    assert!(str_eq("é", "é"));
}

#[test]
fn hexadecimal_text_is_recognised() {
    assert!(is_hex_str("0123456789abcdefABCDEF"));
    assert!(is_hex_str(""));
    assert!(!is_hex_str("61xxxx"));
    assert!(!is_hex_str("0g"));
    assert!(!is_hex_str("é0"));
    assert!(is_code_str("61xxxx"));
    assert!(is_code_str("5b"));
    assert!(!is_code_str("61yyyy"));
    assert!(!is_code_str("é"));
}

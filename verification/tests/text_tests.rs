use rustlab::text::{
    find_char, parse_u16, parse_u64, push_decimal, push_ipv4, push_upper_hex, split_list,
    split_once,
};

#[test]
fn find_char_gives_the_first_position() {
    assert_eq!(find_char("a:b:c", ':'), Some(1));
    assert_eq!(find_char("été:x", ':'), Some(3));
    assert_eq!(find_char("abc", ':'), None);
    assert_eq!(find_char("", ':'), None);
}

#[test]
fn split_once_cuts_at_the_first_separator() {
    assert_eq!(split_once("a:b:c", ':'), Some(("a".to_string(), "b:c".to_string())));
    assert_eq!(split_once(":", ':'), Some((String::new(), String::new())));
    assert_eq!(split_once("abc", ':'), None);
}

#[test]
fn split_list_keeps_empty_pieces() {
    assert_eq!(split_list("22,80,443", ','), vec!["22", "80", "443"]);
    assert_eq!(split_list("", ','), vec![""]);
    assert_eq!(split_list("a,,b,", ','), vec!["a", "", "b", ""]);
}

#[test]
fn decimal_and_hex_text() {
    let mut s = String::from("n=");
    push_decimal(&mut s, 0);
    assert_eq!(s, "n=0");
    let mut s = String::new();
    push_decimal(&mut s, u64::MAX);
    assert_eq!(s, "18446744073709551615");
    let mut h = String::new();
    push_upper_hex(&mut h, &[0x00, 0x0f, 0xa5, 0xff]);
    assert_eq!(h, "000FA5FF");
    let mut ip = String::new();
    push_ipv4(&mut ip, 0xC0A8_0101);
    assert_eq!(ip, "192.168.1.1");
}

#[test]
fn parsing_reads_back_what_formatting_writes() {
    for n in [0u64, 7, 10, 99, 12345, u64::MAX - 1, u64::MAX] {
        let mut s = String::new();
        push_decimal(&mut s, n);
        assert_eq!(parse_u64(&s), Some(n));
    }
}

#[test]
fn parse_follows_the_standard_grammar() {
    for s in ["0", "+5", "007", "18446744073709551615", "", "+", "-1", "1 ", "1_000", "18446744073709551616", "٣"] {
        assert_eq!(parse_u64(s), s.parse::<u64>().ok(), "input {:?}", s);
        assert_eq!(parse_u16(s), s.parse::<u16>().ok(), "input {:?}", s);
    }
    assert_eq!(parse_u16("65535"), Some(65535));
    assert_eq!(parse_u16("65536"), None);
}

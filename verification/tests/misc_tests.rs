use rustlab::check_elf::{add, is_valid_elf};
use rustlab::french::french;
use rustlab::zero_arith::ZeroArith;

#[test]
fn it_works() {
    let result = add(2, 2);
    assert_eq!(result, 4);
}

fn elf64_header() -> Vec<u8> {
    let mut h = vec![0u8; 64];
    h[0..4].copy_from_slice(&[0x7f, b'E', b'L', b'F']);
    h[4] = 2; // 64-bit
    h[5] = 1; // little endian
    h[6] = 1;
    // e_ehsize = 64, little endian
    h[52] = 64;
    h[53] = 0;
    h
}

#[test]
fn is_valid_elf_accepts_a_header() {
    assert!(is_valid_elf(&elf64_header()));
}

#[test]
fn is_valid_elf_accepts_a_header_size_that_fits_in_both_byte_orders() {
    let mut h = elf64_header();
    h[52] = 0;
    h[53] = 0;
    assert!(is_valid_elf(&h));
    let mut h32 = vec![0u8; 52];
    h32[0..4].copy_from_slice(&[0x7f, b'E', b'L', b'F']);
    h32[4] = 1;
    assert!(is_valid_elf(&h32));
}

#[test]
fn is_valid_elf_refuses_bad_input() {
    assert!(!is_valid_elf(&[]));
    assert!(!is_valid_elf(&[0x7f, b'E', b'L', b'F']));
    let mut bad_magic = elf64_header();
    bad_magic[1] = b'X';
    assert!(!is_valid_elf(&bad_magic));
    let mut bad_class = elf64_header();
    bad_class[4] = 3;
    assert!(!is_valid_elf(&bad_class));
    assert!(!is_valid_elf(&elf64_header()[..60]));
}

#[test]
fn french_writes_words_then_digits() {
    assert_eq!(french(71), "soixante-et-onze (71)");
    assert_eq!(french(1001), "mille-un (1001)");
    assert_eq!(french(0), "zéro (0)");
}

#[test]
fn zero_arith_gives_zero_on_failure() {
    assert_eq!(200u8.zero_add(200u8), 0);
    assert_eq!(200u8.zero_add(50u8), 250);
    assert_eq!(200u8.zero_sub(250u8), 0);
    assert_eq!(200u8.zero_sub(150u8), 50);
    assert_eq!(200u8.zero_div(0), 0);
    assert_eq!(200u8.zero_div(7), 28);
    assert_eq!(16u8.zero_mul(16), 0);
    assert_eq!(15u8.zero_mul(17), 255);
    assert_eq!(i8::MIN.zero_div(-1), 0);
    assert_eq!((-7i8).zero_div(2), -3);
    assert_eq!(i32::MIN.zero_sub(1), 0);
    assert_eq!(u128::MAX.zero_add(1), 0);
    assert_eq!(isize::MAX.zero_mul(2), 0);
    assert_eq!(usize::MAX.zero_sub(usize::MAX), 0);
    assert_eq!(100u64.zero_sub(1), 99);
}

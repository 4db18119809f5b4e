use dipper::bytes::{copy_bytes, read_le64, same_bytes, Bytes20, Bytes32};
use dipper::hexes::{
    address_hex, parse_account, parse_address, parse_b256, parse_batch_id, read_hex32, show_0x,
    HexFault, ParseFault,
};
use dipper::table::ByteTable;
use dipper::text::{decimal, join2, join3, pad_left, pad_right, truth_text};

const DIGITS: &str = "00112233445566778899aabbccddeeff00112233445566778899aabbccddeeff";

#[test]
fn decimal_has_no_leading_zeros() {
    assert_eq!(decimal(0), "0");
    assert_eq!(decimal(7), "7");
    assert_eq!(decimal(10), "10");
    assert_eq!(decimal(9876543210), "9876543210");
    assert_eq!(decimal(u64::MAX), "18446744073709551615");
}

#[test]
fn padding_follows_the_column_width() {
    assert_eq!(pad_left("7", 3), "  7");
    assert_eq!(pad_right("7", 3), "7  ");
    assert_eq!(pad_left("1234", 3), "1234");
    assert_eq!(pad_right("1234", 3), "1234");
    assert_eq!(pad_right("é", 3), format!("{:<3}", "é"));
    assert_eq!(join2("a", "b"), "ab");
    assert_eq!(join3("a", "b", "c"), "abc");
    assert_eq!(truth_text(true), "true");
    assert_eq!(truth_text(false), "false");
}

#[test]
fn bytes_are_compared_and_copied() {
    assert!(same_bytes(b"abc", b"abc"));
    assert!(!same_bytes(b"abc", b"abd"));
    assert!(!same_bytes(b"abc", b"ab"));
    assert_eq!(copy_bytes(b"xyz"), b"xyz".to_vec());
    assert_eq!(read_le64(&[1, 2, 0, 0, 0, 0, 0, 0, 9]), 513);
    assert_eq!(read_le64(&[0xff; 8]), u64::MAX);
}

#[test]
fn thirty_two_bytes_are_read_with_and_without_prefix() {
    let plain = read_hex32(DIGITS).expect("plain");
    let prefixed = read_hex32(&format!("0x{DIGITS}")).expect("prefixed");
    let upper = read_hex32(&DIGITS.to_uppercase()).expect("upper case");
    assert_eq!(plain, prefixed);
    assert_eq!(plain, upper);
    assert_eq!(plain.bytes[1], 0x11);
    assert_eq!(plain.bytes[31], 0xff);
}

#[test]
fn thirty_two_bytes_are_refused_for_the_first_fault() {
    assert_eq!(read_hex32("0xabc"), Err(ParseFault::NotHex(HexFault::Odd)));
    assert_eq!(read_hex32("zz"), Err(ParseFault::NotHex(HexFault::BadByte { byte: b'z', index: 0 })));
    assert_eq!(
        read_hex32("0xab-d"),
        Err(ParseFault::NotHex(HexFault::BadByte { byte: b'-', index: 2 }))
    );
    assert_eq!(read_hex32("0xabcd"), Err(ParseFault::WrongLength(2)));
    assert_eq!(read_hex32(""), Err(ParseFault::WrongLength(0)));
    // An upper-case prefix is no prefix here.
    assert_eq!(
        read_hex32(&format!("0X{DIGITS}")),
        Err(ParseFault::NotHex(HexFault::BadByte { byte: b'X', index: 1 }))
    );
}

#[test]
fn refused_values_say_what_they_were_to_be() {
    let e = parse_b256("zz", "nonce").err().expect("refused");
    assert_eq!(e.message(), "nonce is not valid hex");
    let e = parse_batch_id("0xab").err().expect("refused");
    assert_eq!(e.message(), "batch id must be 32 bytes (64 hex chars), got 1");
    let e = parse_address("0xabcdef").err().expect("refused");
    assert_eq!(e.message(), "chunk address must be 32 bytes (64 hex chars), got 3");
    assert!(parse_b256(DIGITS, "nonce").is_ok());
    assert!(parse_batch_id(DIGITS).is_ok());
    assert!(parse_address(DIGITS).is_ok());
}

#[test]
fn shown_values_read_back() {
    let v = Bytes32 { bytes: core::array::from_fn(|i| (i * 7) as u8) };
    assert_eq!(parse_address(&address_hex(&v)).expect("without prefix"), v);
    assert_eq!(parse_address(&show_0x(&v.bytes)).expect("with prefix"), v);
    assert_eq!(show_0x(&[0xab, 0x01]), "0xab01");
    assert_eq!(show_0x(&[]), "0x");
}

#[test]
fn accounts_are_read() {
    let expected = Bytes20 { bytes: [0x11; 20] };
    let digits = "11".repeat(20);
    assert_eq!(parse_account(&digits), Ok(expected));
    assert_eq!(parse_account(&format!("0x{digits}")), Ok(expected));
    assert_eq!(parse_account(&format!("0X{digits}")), Ok(expected));
    assert_eq!(parse_account(&format!("0x{digits}1")), Err(HexFault::Odd));
    assert_eq!(parse_account("0x1111"), Err(HexFault::Length));
    let mut bad = digits.clone();
    bad.replace_range(4..5, "g");
    assert_eq!(parse_account(&format!("0x{bad}")), Err(HexFault::BadByte { byte: b'g', index: 4 }));
}

#[test]
fn table_keeps_the_latest_value_of_each_key() {
    let mut t = ByteTable::new();
    assert_eq!(t.len(), 0);
    assert!(t.get(b"a").is_none());
    t.insert(b"short".to_vec(), vec![1]);
    t.insert(vec![9; 32], vec![2]);
    // The same first eight bytes, another key.
    let mut sibling = vec![9; 32];
    sibling[31] = 0;
    t.insert(sibling.clone(), vec![3]);
    assert_eq!(t.len(), 3);
    t.insert(vec![9; 32], vec![4, 4]);
    assert_eq!(t.len(), 3);
    assert_eq!(t.get(&[9; 32]), Some(&vec![4, 4]));
    assert_eq!(t.get(&sibling), Some(&vec![3]));
    assert_eq!(t.get(b"short"), Some(&vec![1]));
    assert!(t.get(&[9; 31]).is_none());
}

use alloy_primitives::U256;
use dipper::amount::{format_bzz, is_cuttable, parse_bzz, total_amount, Amount};
use dipper::bytes::{Bytes20, Bytes32};
use dipper::hexes::{show_0x, HexFault};
use dipper::wallet::{
    account_line, address_of, key_from_bytes, load_signer, resolve_keystore_password,
    signer_from_private_key, KeyError, KeyPlan, Password,
};

fn amount(v: U256) -> Amount {
    Amount { limbs: v.into_limbs() }
}

fn small(v: u64) -> Amount {
    Amount { limbs: [v, 0, 0, 0] }
}

const ONE: u64 = 10_000_000_000_000_000;

#[test]
fn amounts_are_read_in_tokens() {
    assert_eq!(parse_bzz("1.0").expect("read"), small(ONE));
    assert_eq!(parse_bzz("1").expect("read"), small(ONE));
    assert_eq!(parse_bzz("5.").expect("read"), small(5 * ONE));
    assert_eq!(parse_bzz(".5").expect("read"), small(ONE / 2));
    assert_eq!(parse_bzz("0.0000000000000001").expect("read"), small(1));
    assert_eq!(parse_bzz("0012.25").expect("read"), small(12 * ONE + ONE / 4));
}

#[test]
fn decimals_beyond_the_sixteenth_are_dropped() {
    assert_eq!(parse_bzz("0.00000000000000019").expect("read"), small(1));
    assert_eq!(parse_bzz("3.99999999999999999999").expect("read"), small(4 * ONE - 1));
}

#[test]
fn amounts_that_are_none_are_refused() {
    let e = parse_bzz("1e5").err().expect("refused");
    assert_eq!(e.message(), "invalid BZZ amount: 1e5");
    assert!(parse_bzz("1.2.3").is_err());
    // 2^256 base units and more.
    let huge = "1".repeat(80);
    assert!(parse_bzz(&huge).is_err());
}

#[test]
fn negative_amounts_are_taken_as_they_are_read() {
    let raw = U256::ZERO.wrapping_sub(U256::from(ONE));
    assert_eq!(parse_bzz("-1").expect("read"), amount(raw));
    assert_eq!(parse_bzz("-").expect("read"), small(0));
}

#[test]
fn amounts_fit_in_256_bits() {
    let top = "11579208923731619542357098500868790785326998466564056403945758.4007913129639935";
    assert_eq!(parse_bzz(top).expect("read"), amount(U256::MAX));
    assert!(parse_bzz("11579208923731619542357098500868790785326998466564056403945758.4007913129639936").is_err());
    let low = "-5789604461865809771178549250434395392663499233282028201972879.2003956564819968";
    assert_eq!(parse_bzz(low).expect("read"), Amount { limbs: [0, 0, 0, 1 << 63] });
    assert!(parse_bzz("-5789604461865809771178549250434395392663499233282028201972879.2003956564819969").is_err());
}

#[test]
fn odd_amounts_are_read_as_digits() {
    assert_eq!(parse_bzz("").expect("read"), small(0));
    assert_eq!(parse_bzz(".").expect("read"), small(0));
    assert_eq!(parse_bzz("1_000").expect("read"), small(1000 * ONE));
    // An underscore among the decimals takes the place of one.
    assert_eq!(parse_bzz("1_0.5_0").expect("read"), small(1050 * (ONE / 1000)));
    assert_eq!(parse_bzz("1.0000000000000000abc").expect("read"), small(ONE));
    assert!(parse_bzz(".-5").is_err());
    assert!(parse_bzz("--1").is_err());
    assert!(parse_bzz("+1").is_err());
    assert!(parse_bzz(" 1").is_err());
}

#[test]
fn amounts_are_cut_between_characters_only() {
    assert!(is_cuttable("1.5"));
    assert!(is_cuttable("é"));
    assert!(is_cuttable("1.0000000000000000é"));
    assert!(!is_cuttable("1.000000000000000é0"));
}

#[test]
fn amounts_are_shown_with_all_decimals() {
    assert_eq!(format_bzz(&small(0)), "0.0000000000000000");
    assert_eq!(format_bzz(&small(1)), "0.0000000000000001");
    assert_eq!(format_bzz(&small(ONE)), "1.0000000000000000");
    assert_eq!(format_bzz(&small(12 * ONE + 5)), "12.0000000000000005");
}

#[test]
fn shown_amounts_read_back() {
    for v in [U256::ZERO, U256::from(1u8), U256::from(ONE), U256::MAX, U256::MAX >> 7] {
        let a = amount(v);
        assert_eq!(parse_bzz(&format_bzz(&a)).expect("read"), a);
    }
}

#[test]
fn cost_is_the_balance_times_the_chunks() {
    assert_eq!(total_amount(&small(3), 4), small(48));
    assert_eq!(total_amount(&small(1), 0), small(1));
    assert_eq!(total_amount(&small(1), 255), amount(U256::from(1u8) << 255));
    // The arithmetic is that of the contract: it wraps.
    assert_eq!(total_amount(&small(2), 255), small(0));
    assert_eq!(total_amount(&small(3), 255), amount(U256::from(1u8) << 255));
}

const KEY_ONE: &str = "0000000000000000000000000000000000000000000000000000000000000001";

#[test]
fn private_keys_are_read() {
    let k = signer_from_private_key(KEY_ONE).expect("a key");
    assert_eq!(k.secret.bytes[31], 1);
    let account = address_of(&k);
    assert_eq!(show_0x(&account.bytes), "0x7e5f4552091a69125d5dfcb7b8c2659029395bdf");
    assert_eq!(account_line(&account), "0x7E5F4552091A69125d5DfCb7b8C2659029395Bdf");
    assert!(signer_from_private_key(&format!("0x{KEY_ONE}")).is_ok());
}

#[test]
fn account_lines_carry_the_checksum() {
    let account = Bytes20 {
        bytes: [
            0x5a, 0xae, 0xb6, 0x05, 0x3f, 0x3e, 0x94, 0xc9, 0xb9, 0xa0, 0x9f, 0x33, 0x66, 0x94,
            0x35, 0xe7, 0xef, 0x1b, 0xea, 0xed,
        ],
    };
    assert_eq!(account_line(&account), "0x5aAeb6053F3E94C9b9A09f33669435E7Ef1BeAed");
}

#[test]
fn what_is_no_private_key_is_refused() {
    let refused = |t: &str| signer_from_private_key(t).err().expect("refused");
    assert_eq!(refused("0x1"), KeyError::NotHex(HexFault::Odd));
    assert_eq!(refused("0x1g"), KeyError::NotHex(HexFault::BadByte { byte: b'g', index: 1 }));
    assert_eq!(refused("0x1234"), KeyError::WrongLength(2));
    assert_eq!(refused(&"00".repeat(32)), KeyError::NotAKey);
    let order = "fffffffffffffffffffffffffffffffebaaedce6af48a03bbfd25e8cd0364141";
    assert_eq!(refused(order), KeyError::NotAKey);
    let below = "fffffffffffffffffffffffffffffffebaaedce6af48a03bbfd25e8cd0364140";
    assert!(signer_from_private_key(below).is_ok());
    assert!(key_from_bytes(Bytes32 { bytes: [0; 32] }).is_none());
    assert!(key_from_bytes(Bytes32 { bytes: [1; 32] }).is_some());
    assert_eq!(KeyError::NotHex(HexFault::Odd).message(), "private key is not valid hex");
    assert_eq!(KeyError::WrongLength(2).message(), "private key must be 32 bytes, got 2");
    assert_eq!(KeyError::NotAKey.message(), "invalid secp256k1 private key");
}

#[test]
fn key_sources_are_tried_in_order() {
    match load_signer(Some(KEY_ONE), Some("file.json"), Some("pw"), None) {
        Ok(KeyPlan::Ready(k)) => assert_eq!(k.secret.bytes[31], 1),
        _ => panic!("the private key comes first"),
    }
    match load_signer(None, Some("file.json"), None, Some("env")) {
        Ok(KeyPlan::Decrypt { path, password: Password::Given(p) }) => {
            assert_eq!(path, "file.json");
            assert_eq!(p, "env");
        }
        _ => panic!("the keystore comes second"),
    }
    match load_signer(None, None, Some("pw"), Some("env")) {
        Err(KeyError::NoSource) => {}
        _ => panic!("without a source there is no key"),
    }
    assert_eq!(
        KeyError::NoSource.message(),
        "no key source provided: pass --private-key or --keystore"
    );
}

#[test]
fn passwords_are_tried_in_order() {
    match resolve_keystore_password(Some("flag"), Some("env")) {
        Password::Given(p) => assert_eq!(p, "flag"),
        Password::Prompt => panic!("the flag comes first"),
    }
    match resolve_keystore_password(None, Some("env")) {
        Password::Given(p) => assert_eq!(p, "env"),
        Password::Prompt => panic!("the environment comes second"),
    }
    assert!(matches!(resolve_keystore_password(None, None), Password::Prompt));
}

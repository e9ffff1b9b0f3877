use atlas_sphere::eth_rpc::{decode_svm_pubkey, pubkey_from_base58, SvmKeyError};
use atlas_sphere::eth_rpc::{
    decode_address, decode_hex_32, decode_hex_param, decode_storage_slot, parse_gas_limit, parse_job_id, parse_u128_value, parse_u64_radix, AddressError, AmountError,
    AmountValue, GasError, GasValue, Hex32Error, HexError, IntErrorKind, StorageSlotError,
};

#[test]
fn decode_address_accepts_20_byte_hex() {
    let addr = format!("0x{}", "11".repeat(20));
    let decoded = decode_address(&addr).expect("address should decode");
    assert_eq!(decoded.len(), 20);
    assert!(decoded.iter().all(|b| *b == 0x11));
}

#[test]
fn decode_address_rejects_wrong_length() {
    let addr = format!("0x{}", "aa".repeat(19));
    let err = decode_address(&addr).expect_err("address must be rejected");
    assert_eq!(err, AddressError::WrongLength);
}

#[test]
fn decode_address_reports_hex_errors() {
    assert_eq!(decode_address("0xabc"), Err(AddressError::InvalidHex(HexError::OddLength)));
    let bad = format!("{}zz{}", "ab".repeat(3), "cd".repeat(16));
    assert_eq!(decode_address(&bad), Err(AddressError::InvalidHex(HexError::InvalidHexCharacter { c: 'z', index: 6 })));
    let no_prefix = "AbCdEf0123456789aBcDeF0123456789abcdef01";
    assert_eq!(decode_address(no_prefix).unwrap()[0], 0xab);
}

#[test]
fn parse_gas_limit_accepts_hex_string() {
    let gas = parse_gas_limit(&GasValue::Text("0x5208".to_string())).expect("hex gas should parse");
    assert_eq!(gas, 21_000);
}

#[test]
fn parse_gas_limit_accepts_numeric_value() {
    let gas = parse_gas_limit(&GasValue::Unsigned(42000)).expect("numeric gas should parse");
    assert_eq!(gas, 42_000);
}

#[test]
fn parse_gas_limit_accepts_decimal_string() {
    let gas = parse_gas_limit(&GasValue::Text("42000".to_string())).expect("decimal string gas should parse");
    assert_eq!(gas, 42_000);
}

#[test]
fn parse_gas_limit_rejects_invalid_type() {
    let err = parse_gas_limit(&GasValue::Other).expect_err("object gas value must be rejected");
    assert_eq!(err, GasError::InvalidGasValue);
}

#[test]
fn parse_gas_limit_uses_default_when_missing() {
    let gas = parse_gas_limit(&GasValue::Absent).expect("default gas should be used");
    assert_eq!(gas, 10_000_000);
}

#[test]
fn gas_strings_fail_as_integer_parsing_does() {
    assert_eq!(parse_gas_limit(&GasValue::Text("".to_string())), Err(GasError::InvalidGas(IntErrorKind::Empty)));
    assert_eq!(parse_gas_limit(&GasValue::Text("0x".to_string())), Err(GasError::InvalidGas(IntErrorKind::Empty)));
    assert_eq!(parse_gas_limit(&GasValue::Text("12a".to_string())), Err(GasError::InvalidGas(IntErrorKind::InvalidDigit)));
    assert_eq!(parse_gas_limit(&GasValue::Text("18446744073709551616".to_string())), Err(GasError::InvalidGas(IntErrorKind::PosOverflow)));
    assert_eq!(parse_gas_limit(&GasValue::Text("+7".to_string())), Ok(7));
}

#[test]
fn radix_parsing_matches_std() {
    for text in ["0", "+15", "-1", "+", "ff", "FF", "zz", "18446744073709551615", "18446744073709551616", "99999999999999999999x"] {
        let cs: Vec<char> = text.chars().collect();
        for radix in [10u32, 16, 36] {
            let ours = parse_u64_radix(&cs, radix);
            let std_result = u64::from_str_radix(text, radix);
            match (ours, std_result) {
                (Ok(a), Ok(b)) => assert_eq!(a, b),
                (Err(_), Err(_)) => {}
                (a, b) => panic!("{} in radix {}: {:?} vs {:?}", text, radix, a, b),
            }
        }
    }
}

#[test]
fn hex_parameters_decode_with_or_without_prefix() {
    assert_eq!(decode_hex_param("0x0aFF"), Ok(vec![0x0a, 0xff]));
    assert_eq!(decode_hex_param("0aff"), Ok(vec![0x0a, 0xff]));
    assert_eq!(decode_hex_param(""), Ok(vec![]));
    assert_eq!(decode_hex_param("0x0x"), Err(HexError::InvalidHexCharacter { c: 'x', index: 1 }));
}

#[test]
fn hex_32_needs_exactly_32_bytes() {
    let ok = format!("0x{}", "ab".repeat(32));
    assert_eq!(decode_hex_32(&ok), Ok([0xab; 32]));
    assert_eq!(decode_hex_32(&"ab".repeat(31)), Err(Hex32Error::WrongLength));
    assert_eq!(decode_hex_32("0xg0"), Err(Hex32Error::InvalidHex(HexError::InvalidHexCharacter { c: 'g', index: 0 })));
}

#[test]
fn job_ids_trim_every_leading_prefix() {
    let id = format!("0x0x{}", "01".repeat(32));
    assert_eq!(parse_job_id(&id), Ok([1u8; 32]));
    assert_eq!(parse_job_id("0x01"), Err(Hex32Error::WrongLength));
}

#[test]
fn amounts_read_decimal_strings_and_integers() {
    assert_eq!(parse_u128_value(&AmountValue::Text("340282366920938463463374607431768211455".to_string())), Ok(u128::MAX));
    assert_eq!(
        parse_u128_value(&AmountValue::Text("340282366920938463463374607431768211456".to_string())),
        Err(AmountError::Invalid(IntErrorKind::PosOverflow))
    );
    assert_eq!(parse_u128_value(&AmountValue::Unsigned(5)), Ok(5));
    assert_eq!(parse_u128_value(&AmountValue::Absent), Err(AmountError::Missing));
    assert_eq!(parse_u128_value(&AmountValue::Other), Err(AmountError::InvalidType));
    assert_eq!(parse_u128_value(&AmountValue::Text("0x10".to_string())), Err(AmountError::Invalid(IntErrorKind::InvalidDigit)));
}

#[test]
fn svm_pubkey_accepts_hex_and_base58() {
    let hex = format!("0x{}", "ab".repeat(32));
    assert_eq!(decode_svm_pubkey(&hex), Ok(vec![0xab; 32]));
    assert_eq!(decode_svm_pubkey(&format!("0x{}", "ab".repeat(20))), Err(SvmKeyError::WrongLength));
    assert_eq!(decode_svm_pubkey("0xzz"), Err(SvmKeyError::InvalidHex(HexError::InvalidHexCharacter { c: 'z', index: 0 })));
    // the system program: 32 zero bytes
    assert_eq!(decode_svm_pubkey("11111111111111111111111111111111"), Ok(vec![0u8; 32]));
    assert_eq!(decode_svm_pubkey("US517G5965aydkZ46HS38QLi7UQiSojurfbQfKCELFx"), Ok(vec![7u8; 32]));
    assert_eq!(decode_svm_pubkey("abc"), Err(SvmKeyError::WrongLength));
    assert_eq!(decode_svm_pubkey("0OIl"), Err(SvmKeyError::InvalidBase58));
    assert_eq!(pubkey_from_base58(None), Err(SvmKeyError::InvalidBase58));
    assert_eq!(pubkey_from_base58(Some(vec![1, 2])), Err(SvmKeyError::WrongLength));
    assert_eq!(pubkey_from_base58(Some(vec![7; 32])), Ok(vec![7; 32]));
}

#[test]
fn storage_slot_is_left_padded_to_32_bytes() {
    let mut expected = [0u8; 32];
    expected[30] = 0x01;
    expected[31] = 0x02;
    assert_eq!(decode_storage_slot("0x0102"), Ok(expected));
    assert_eq!(decode_storage_slot("0102"), Ok(expected));
    assert_eq!(decode_storage_slot("0x"), Ok([0u8; 32]));
    let full = "ab".repeat(32);
    assert_eq!(decode_storage_slot(&full), Ok([0xab; 32]));
    let long = "ab".repeat(33);
    assert_eq!(decode_storage_slot(&long), Err(StorageSlotError::TooLong));
    assert_eq!(decode_storage_slot("0x123"), Err(StorageSlotError::InvalidHex(HexError::OddLength)));
    assert!(matches!(decode_storage_slot("0xzz"), Err(StorageSlotError::InvalidHex(HexError::InvalidHexCharacter { .. }))));
}

use friendly_id::error::DecodeError;
use uuid::Uuid;

#[test]
fn test_decode() {
    assert_eq!(
        friendly_id::decode("5wbwf6yUxVBcr48AMbz9cb").unwrap(),
        Uuid::parse_str("c3587ec5-0976-497f-8374-61e0c2ea3da5")
            .unwrap()
            .as_u128()
    );
}

#[test]
fn test_decode_invalid_value() {
    let result = friendly_id::decode("5+");
    assert!(result.is_err());
    let error = result.unwrap_err();
    println!("{}", error.message());
}

#[test]
fn error_messages() {
    assert_eq!(
        DecodeError::InvalidBase62Byte('+', 1).message(),
        "Invalid character '+' at position 1"
    );
    assert_eq!(
        DecodeError::InvalidBase62Byte('!', 0).message(),
        "Invalid character '!' at position 0"
    );
    assert_eq!(
        DecodeError::InvalidBase62Byte('~', 1234567890).message(),
        "Invalid character '~' at position 1234567890"
    );
    assert_eq!(
        DecodeError::ArithmeticOverflow.message(),
        "Decode result is too large"
    );
}

#[test]
fn test_create() {
    assert!(friendly_id::create().len() > 1);
}

#[test]
fn test_encode() {
    let uuid = Uuid::parse_str("c3587ec5-0976-497f-8374-61e0c2ea3da5").unwrap();
    assert_eq!(friendly_id::encode(uuid.as_u128()), "5wbwf6yUxVBcr48AMbz9cb");
}

#[test]
fn round_trip_small_values() {
    for x in [0u128, 1, 9, 10, 35, 36, 61, 62, 63, 3843, 3844, 1000000] {
        assert_eq!(friendly_id::decode(&friendly_id::encode(x)), Ok(x));
    }
}

#[test]
fn round_trip_large_values() {
    for x in [
        12345678901234567890u128,
        u128::from(u64::MAX),
        u128::from(u64::MAX) + 1,
        u128::MAX - 1,
        u128::MAX,
    ] {
        assert_eq!(friendly_id::decode(&friendly_id::encode(x)), Ok(x));
    }
}

#[test]
fn encode_zero_is_single_zero_symbol() {
    assert_eq!(friendly_id::encode(0), "0");
}

#[test]
fn encode_digit_boundaries() {
    assert_eq!(friendly_id::encode(9), "9");
    assert_eq!(friendly_id::encode(10), "A");
    assert_eq!(friendly_id::encode(35), "Z");
    assert_eq!(friendly_id::encode(36), "a");
    assert_eq!(friendly_id::encode(61), "z");
    assert_eq!(friendly_id::encode(62), "10");
    assert_eq!(friendly_id::encode(3844), "100");
    assert_eq!(friendly_id::encode(12345678901234567890), "EhzL6HwZ5ow");
}

#[test]
fn encode_no_leading_zero_digit() {
    for x in [1u128, 61, 62, 3844, 238328, u128::MAX] {
        assert!(!friendly_id::encode(x).starts_with('0'));
    }
}

#[test]
fn encode_alphabet_closure() {
    for x in [0u128, 61, 62, 12345678901234567890, u128::MAX] {
        for c in friendly_id::encode(x).chars() {
            assert!(c.is_ascii_alphanumeric());
        }
    }
}

#[test]
fn encode_max_value() {
    assert_eq!(friendly_id::encode(u128::MAX), "7n42DGM5Tflk9n8mt7Fhc7");
}

#[test]
fn decode_empty_is_zero() {
    assert_eq!(friendly_id::decode(""), Ok(0));
}

#[test]
fn decode_accepts_leading_zero_digits() {
    assert_eq!(friendly_id::decode("05"), Ok(5));
    assert_eq!(friendly_id::decode("00"), Ok(0));
}

#[test]
fn decode_invalid_character_names_char_and_position() {
    assert_eq!(
        friendly_id::decode("5+"),
        Err(DecodeError::InvalidBase62Byte('+', 1))
    );
    assert_eq!(
        friendly_id::decode("+5"),
        Err(DecodeError::InvalidBase62Byte('+', 0))
    );
    assert_eq!(
        friendly_id::decode("ab cd"),
        Err(DecodeError::InvalidBase62Byte(' ', 2))
    );
    assert_eq!(
        friendly_id::decode("abcé"),
        Err(DecodeError::InvalidBase62Byte('é', 3))
    );
}

#[test]
fn decode_first_invalid_character_wins() {
    assert_eq!(
        friendly_id::decode("a-b_c"),
        Err(DecodeError::InvalidBase62Byte('-', 1))
    );
}

#[test]
fn decode_overflow_is_detected() {
    // The smallest numeral denoting 2^128, one past the largest value.
    assert_eq!(
        friendly_id::decode("7n42DGM5Tflk9n8mt7Fhc8"),
        Err(DecodeError::ArithmeticOverflow)
    );
    // The largest value itself still decodes.
    assert_eq!(
        friendly_id::decode("7n42DGM5Tflk9n8mt7Fhc7"),
        Ok(u128::MAX)
    );
    // A clearly too-long numeral overflows as well.
    assert_eq!(
        friendly_id::decode("zzzzzzzzzzzzzzzzzzzzzzz"),
        Err(DecodeError::ArithmeticOverflow)
    );
}

#[test]
fn decode_overflow_before_later_invalid_character() {
    // The scan runs left to right: the value leaves the 128-bit range
    // before the '+' is reached, so overflow is reported.
    assert_eq!(
        friendly_id::decode("zzzzzzzzzzzzzzzzzzzzzzz+"),
        Err(DecodeError::ArithmeticOverflow)
    );
}

#[test]
fn create_ids_differ() {
    let a = friendly_id::create();
    let b = friendly_id::create();
    assert_ne!(a, b);
    assert!(!a.is_empty());
    for c in a.chars() {
        assert!(c.is_ascii_alphanumeric());
    }
}

#[test]
fn create_round_trips() {
    let id = friendly_id::create();
    let bits = friendly_id::decode(&id).unwrap();
    assert_eq!(friendly_id::encode(bits), id);
}

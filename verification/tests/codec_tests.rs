//! Tests of the scalar codec, the number rendering and parsing, and the
//! simulated memory.

use varcache::error::DebugError;
use varcache::location::VariableLocation;
use varcache::memory::{MemoryInterface, SimulatedMemory};
use varcache::numfmt::{i128_to_decimal, parse_signed_str, parse_unsigned_str, u128_to_decimal,
    u64_to_hex_fixed};
use varcache::scalar::{decode_scalar, encode_scalar, ScalarType};
use varcache::types::VariableName;
use varcache::vtype::VariableType;

fn round_trip(t: ScalarType, text: &str) {
    let bytes = encode_scalar(t, text).expect("the text should encode");
    assert_eq!(bytes.len(), t.width());
    let back = decode_scalar(t, &bytes);
    assert_eq!(back, text);
}

#[test]
fn unsigned_scalars_round_trip() {
    round_trip(ScalarType::U8, "0");
    round_trip(ScalarType::U8, "255");
    round_trip(ScalarType::U16, "65535");
    round_trip(ScalarType::U32, "4294967295");
    round_trip(ScalarType::U64, "18446744073709551615");
    round_trip(ScalarType::U128, "340282366920938463463374607431768211455");
    round_trip(ScalarType::Usize, "42");
}

#[test]
fn signed_scalars_round_trip() {
    round_trip(ScalarType::I8, "-128");
    round_trip(ScalarType::I8, "127");
    round_trip(ScalarType::I16, "-32768");
    round_trip(ScalarType::I32, "-2147483648");
    round_trip(ScalarType::I64, "9223372036854775807");
    round_trip(ScalarType::I128, "-170141183460469231731687303715884105728");
    round_trip(ScalarType::Isize, "-5");
    round_trip(ScalarType::I32, "0");
}

#[test]
fn bool_and_char_round_trip() {
    round_trip(ScalarType::Bool, "true");
    round_trip(ScalarType::Bool, "false");
    round_trip(ScalarType::Char, "A");
    round_trip(ScalarType::Char, "\u{1F600}");
}

#[test]
fn encode_rejects_out_of_range_and_garbage() {
    assert!(encode_scalar(ScalarType::U8, "256").is_none());
    assert!(encode_scalar(ScalarType::I8, "128").is_none());
    assert!(encode_scalar(ScalarType::I8, "-129").is_none());
    assert!(encode_scalar(ScalarType::U32, "-1").is_none());
    assert!(encode_scalar(ScalarType::U32, "ten").is_none());
    assert!(encode_scalar(ScalarType::U32, "").is_none());
    assert!(encode_scalar(ScalarType::Bool, "yes").is_none());
    assert!(encode_scalar(ScalarType::Char, "ab").is_none());
}

#[test]
fn encode_uses_little_endian_bytes() {
    let bytes = encode_scalar(ScalarType::U32, "258").unwrap();
    assert_eq!(bytes, vec![2, 1, 0, 0]);
    let bytes = encode_scalar(ScalarType::I16, "-2").unwrap();
    assert_eq!(bytes, vec![0xfe, 0xff]);
    let bytes = encode_scalar(ScalarType::Bool, "true").unwrap();
    assert_eq!(bytes, vec![1]);
    let bytes = encode_scalar(ScalarType::Char, "A").unwrap();
    assert_eq!(bytes, vec![65, 0, 0, 0]);
}

#[test]
fn decode_tolerates_nonzero_bool_and_bad_char() {
    assert_eq!(decode_scalar(ScalarType::Bool, &vec![7]), "true");
    assert_eq!(decode_scalar(ScalarType::Bool, &vec![0]), "false");
    // 0xD800 is a surrogate, no Unicode scalar value
    assert_eq!(decode_scalar(ScalarType::Char, &vec![0x00, 0xd8, 0, 0]), "?");
}

#[test]
fn scalar_registry_knows_exactly_the_base_names() {
    assert_eq!(ScalarType::from_type_name("bool"), Some(ScalarType::Bool));
    assert_eq!(ScalarType::from_type_name("char"), Some(ScalarType::Char));
    assert_eq!(ScalarType::from_type_name("i128"), Some(ScalarType::I128));
    assert_eq!(ScalarType::from_type_name("usize"), Some(ScalarType::Usize));
    assert_eq!(ScalarType::from_type_name("f32"), None);
    assert_eq!(ScalarType::from_type_name("f64"), None);
    assert_eq!(ScalarType::from_type_name("&str"), None);
    assert_eq!(ScalarType::from_type_name(""), None);
}

#[test]
fn word_size_seam_widens_isize_and_usize() {
    assert_eq!(
        ScalarType::from_type_name_with_word_size("usize", 8),
        Some(ScalarType::U64)
    );
    assert_eq!(
        ScalarType::from_type_name_with_word_size("isize", 8),
        Some(ScalarType::I64)
    );
    assert_eq!(
        ScalarType::from_type_name_with_word_size("usize", 4),
        Some(ScalarType::Usize)
    );
    assert_eq!(
        ScalarType::from_type_name_with_word_size("u32", 8),
        Some(ScalarType::U32)
    );
    assert_eq!(ScalarType::from_type_name_with_word_size("f64", 8), None);
    let wide = ScalarType::from_type_name_with_word_size("usize", 8).unwrap();
    assert_eq!(wide.width(), 8);
    round_trip(wide, "18446744073709551615");
}

#[test]
fn decimal_rendering_matches_std() {
    assert_eq!(u128_to_decimal(0), "0");
    assert_eq!(u128_to_decimal(10), "10");
    assert_eq!(u128_to_decimal(90210), "90210");
    assert_eq!(i128_to_decimal(-1), "-1");
    assert_eq!(i128_to_decimal(i128::MIN), i128::MIN.to_string());
    assert_eq!(u128_to_decimal(u128::MAX), u128::MAX.to_string());
}

#[test]
fn parsing_matches_std() {
    assert_eq!(parse_unsigned_str("42", u128::MAX), Some(42));
    assert_eq!(parse_unsigned_str("+42", u128::MAX), Some(42));
    assert_eq!(parse_unsigned_str("042", u128::MAX), Some(42));
    assert_eq!(parse_unsigned_str("", u128::MAX), None);
    assert_eq!(parse_unsigned_str("+", u128::MAX), None);
    assert_eq!(parse_unsigned_str("4 2", u128::MAX), None);
    assert_eq!(parse_unsigned_str("12", 11), None);
    assert_eq!(parse_signed_str("-7", i128::MIN, i128::MAX), Some(-7));
    assert_eq!(parse_signed_str("-0", i128::MIN, i128::MAX), Some(0));
    assert_eq!(
        parse_signed_str("-170141183460469231731687303715884105728", i128::MIN, i128::MAX),
        Some(i128::MIN)
    );
    assert_eq!(
        parse_signed_str("-170141183460469231731687303715884105729", i128::MIN, i128::MAX),
        None
    );
}

#[test]
fn hex_rendering_is_fixed_width() {
    assert_eq!(u64_to_hex_fixed(0xdead_beef, 8, true), "DEADBEEF");
    assert_eq!(u64_to_hex_fixed(0x2a, 8, true), "0000002A");
    assert_eq!(u64_to_hex_fixed(0x2a, 8, false), "0000002a");
    assert_eq!(u64_to_hex_fixed(0, 4, true), "0000");
}

#[test]
fn simulated_memory_reads_and_writes() {
    let mut mem = SimulatedMemory::new(0x100, vec![1, 2, 3, 4, 5]);
    assert_eq!(mem.read_word_8(0x100).unwrap(), 1);
    assert_eq!(mem.read_word_8(0x104).unwrap(), 5);
    assert!(mem.read_word_8(0x105).is_err());
    assert!(mem.read_word_8(0xff).is_err());
    assert_eq!(mem.read_word_32(0x100).unwrap(), 0x04030201);
    assert!(mem.read_word_32(0x102).is_err());
    assert_eq!(mem.read_bytes(0x101, 3).unwrap(), vec![2, 3, 4]);
    assert!(mem.read_bytes(0x101, 5).is_err());
    assert_eq!(mem.read_bytes(0x100, 0).unwrap(), Vec::<u8>::new());

    mem.write_word_8(0x100, 9).unwrap();
    assert_eq!(mem.read_word_8(0x100).unwrap(), 9);
    mem.write_word_32(0x100, 0x08070605).unwrap();
    assert_eq!(mem.read_bytes(0x100, 4).unwrap(), vec![5, 6, 7, 8]);
    assert!(mem.write_word_32(0x102, 1).is_err());
    // a failed write leaves the bytes unchanged
    assert_eq!(mem.read_bytes(0x100, 5).unwrap(), vec![5, 6, 7, 8, 5]);
    mem.write_bytes(0x103, &vec![0xaa, 0xbb]).unwrap();
    assert_eq!(mem.read_bytes(0x100, 5).unwrap(), vec![5, 6, 7, 0xaa, 0xbb]);
    assert_eq!(mem.read_word_8(0x104).unwrap(), 0xbb);
}

#[test]
fn error_messages_name_their_kind() {
    let m = DebugError::BadParent(7).message();
    assert_eq!(m, "BadParent: no cache entry has the parent key 7");
    let m = DebugError::UnsupportedWrite.message();
    assert_eq!(m, "UnsupportedWrite: string variables are read-only");
    let m = DebugError::MemoryIO("probe gone".to_string()).message();
    assert_eq!(m, "MemoryIO: probe gone");
}

#[test]
fn type_and_location_helpers_render() {
    let t = VariableType::Array {
        entry_type: VariableName::Named("u8".to_string()),
        count: 4,
    };
    assert_eq!(t.display(), "[u8; 4]");
    assert!(t.is_array());
    let p = VariableType::Pointer(Some("&Foo".to_string()));
    assert!(p.is_reference());
    assert!(!VariableType::Pointer(None).is_reference());
    assert!(VariableType::Struct("PhantomData<T>".to_string()).is_phantom_data());
    assert!(!VariableType::Struct("Pha".to_string()).is_phantom_data());
    assert_eq!(VariableType::Namespace.display(), "<namespace>");
    assert_eq!(VariableType::Unknown.display(), "<unknown>");
    let loc = VariableLocation::Address(3735928559);
    assert!(loc.valid());
    assert_eq!(loc.memory_address().unwrap(), 0xdead_beef);
    assert_eq!(loc.debug_text(), "Address(3735928559)");
    assert_eq!(loc.hex_debug_text(), "Address(deadbeef)");
    assert!(!VariableLocation::Unavailable.valid());
    assert!(VariableLocation::Register(3).memory_address().is_err());
    assert_eq!(
        VariableName::StaticScopeRoot.display_text(),
        "Static Variable"
    );
    assert_eq!(VariableName::Unknown.display_text(), "<unknown>");
}

//! The scalar codec registry: for each base type the debugger can show, the
//! pair of routines that decodes target bytes into text and encodes edited
//! text back into target bytes.

use vstd::prelude::*;
use vstd::string::{StrSliceExecFns, StringExecFns};

use crate::bytes::{le_bytes, le_val, lemma_le_bytes_len, lemma_le_val_bound, pow256};
use crate::numfmt::{dec_str, dec_str_signed, parse_signed, parse_signed_str, parse_unsigned,
    parse_unsigned_str};
use crate::strutil::str_eq;

verus! {

/// The closed set of base types whose values the codec can read and write.
/// `isize` and `usize` are taken to be 32 bits wide, the word size of the
/// targeted architectures; when the debug information's address size is
/// known, resolve names through
/// [`ScalarType::from_type_name_with_word_size`] instead, which reads them
/// at that width.
#[derive(Debug, Clone, Copy, PartialEq, Eq, Structural)]
pub enum ScalarType {
    /// `bool`: one byte, any non-zero byte reads as `true`.
    Bool,
    /// `char`: a 32-bit Unicode scalar value.
    Char,
    /// `i8`
    I8,
    /// `i16`
    I16,
    /// `i32`
    I32,
    /// `i64`
    I64,
    /// `i128`
    I128,
    /// `isize`, read and written as 32 bits.
    Isize,
    /// `u8`
    U8,
    /// `u16`
    U16,
    /// `u32`
    U32,
    /// `u64`
    U64,
    /// `u128`
    U128,
    /// `usize`, read and written as 32 bits.
    Usize,
}

/// The scalar type registered under the base-type name `s` on a target
/// whose pointers are `word_size` bytes wide: `isize` and `usize` resolve
/// to the eight-byte codecs on a 64-bit target and to the four-byte
/// default otherwise.
pub open spec fn scalar_from_name_sized_spec(s: Seq<char>, word_size: nat) -> Option<ScalarType> {
    if word_size == 8 && s == "isize"@ {
        Some(ScalarType::I64)
    } else if word_size == 8 && s == "usize"@ {
        Some(ScalarType::U64)
    } else {
        scalar_from_name_spec(s)
    }
}

/// The scalar type registered under the base-type name `s`, if any.
pub open spec fn scalar_from_name_spec(s: Seq<char>) -> Option<ScalarType> {
    if s == "bool"@ {
        Some(ScalarType::Bool)
    } else if s == "char"@ {
        Some(ScalarType::Char)
    } else if s == "i8"@ {
        Some(ScalarType::I8)
    } else if s == "i16"@ {
        Some(ScalarType::I16)
    } else if s == "i32"@ {
        Some(ScalarType::I32)
    } else if s == "i64"@ {
        Some(ScalarType::I64)
    } else if s == "i128"@ {
        Some(ScalarType::I128)
    } else if s == "isize"@ {
        Some(ScalarType::Isize)
    } else if s == "u8"@ {
        Some(ScalarType::U8)
    } else if s == "u16"@ {
        Some(ScalarType::U16)
    } else if s == "u32"@ {
        Some(ScalarType::U32)
    } else if s == "u64"@ {
        Some(ScalarType::U64)
    } else if s == "u128"@ {
        Some(ScalarType::U128)
    } else if s == "usize"@ {
        Some(ScalarType::Usize)
    } else {
        None
    }
}

impl ScalarType {
    /// The number of bytes a value of this type occupies in target memory.
    pub open spec fn width_spec(self) -> nat {
        match self {
            ScalarType::Bool => 1,
            ScalarType::Char => 4,
            ScalarType::I8 => 1,
            ScalarType::I16 => 2,
            ScalarType::I32 => 4,
            ScalarType::I64 => 8,
            ScalarType::I128 => 16,
            ScalarType::Isize => 4,
            ScalarType::U8 => 1,
            ScalarType::U16 => 2,
            ScalarType::U32 => 4,
            ScalarType::U64 => 8,
            ScalarType::U128 => 16,
            ScalarType::Usize => 4,
        }
    }

    /// The type is one of the signed integer types.
    pub open spec fn is_signed_spec(self) -> bool {
        match self {
            ScalarType::I8 => true,
            ScalarType::I16 => true,
            ScalarType::I32 => true,
            ScalarType::I64 => true,
            ScalarType::I128 => true,
            ScalarType::Isize => true,
            _ => false,
        }
    }

    /// The type is one of the unsigned integer types.
    pub open spec fn is_unsigned_spec(self) -> bool {
        match self {
            ScalarType::U8 => true,
            ScalarType::U16 => true,
            ScalarType::U32 => true,
            ScalarType::U64 => true,
            ScalarType::U128 => true,
            ScalarType::Usize => true,
            _ => false,
        }
    }

    /// The largest value an unsigned type of this width can hold.
    pub open spec fn umax_spec(self) -> nat {
        (pow256(self.width_spec()) - 1) as nat
    }

    /// The smallest value a signed type of this width can hold.
    pub open spec fn smin_spec(self) -> int {
        -(pow256(self.width_spec()) as int / 2)
    }

    /// The largest value a signed type of this width can hold.
    pub open spec fn smax_spec(self) -> int {
        pow256(self.width_spec()) as int / 2 - 1
    }

    /// Looks a base-type name up in the registry for a target whose
    /// pointers are `word_size` bytes wide: the seam through which the
    /// debug information's address size, once known, overrides the 32-bit
    /// reading of `isize` and `usize`. [`ScalarType::from_type_name`]
    /// keeps the 32-bit default.
    pub fn from_type_name_with_word_size(name: &str, word_size: usize) -> (r: Option<ScalarType>)
        ensures
            r == scalar_from_name_sized_spec(name@, word_size as nat),
    {
        if word_size == 8 {
            if str_eq(name, "isize") {
                return Some(ScalarType::I64);
            }
            if str_eq(name, "usize") {
                return Some(ScalarType::U64);
            }
        }
        ScalarType::from_type_name(name)
    }

    /// Looks a base-type name up in the registry.
    pub fn from_type_name(name: &str) -> (r: Option<ScalarType>)
        ensures
            r == scalar_from_name_spec(name@),
    {
        if str_eq(name, "bool") {
            Some(ScalarType::Bool)
        } else if str_eq(name, "char") {
            Some(ScalarType::Char)
        } else if str_eq(name, "i8") {
            Some(ScalarType::I8)
        } else if str_eq(name, "i16") {
            Some(ScalarType::I16)
        } else if str_eq(name, "i32") {
            Some(ScalarType::I32)
        } else if str_eq(name, "i64") {
            Some(ScalarType::I64)
        } else if str_eq(name, "i128") {
            Some(ScalarType::I128)
        } else if str_eq(name, "isize") {
            Some(ScalarType::Isize)
        } else if str_eq(name, "u8") {
            Some(ScalarType::U8)
        } else if str_eq(name, "u16") {
            Some(ScalarType::U16)
        } else if str_eq(name, "u32") {
            Some(ScalarType::U32)
        } else if str_eq(name, "u64") {
            Some(ScalarType::U64)
        } else if str_eq(name, "u128") {
            Some(ScalarType::U128)
        } else if str_eq(name, "usize") {
            Some(ScalarType::Usize)
        } else {
            None
        }
    }

    /// The number of bytes a value of this type occupies in target memory.
    pub fn width(self) -> (r: usize)
        ensures
            r == self.width_spec(),
    {
        match self {
            ScalarType::Bool => 1,
            ScalarType::Char => 4,
            ScalarType::I8 => 1,
            ScalarType::I16 => 2,
            ScalarType::I32 => 4,
            ScalarType::I64 => 8,
            ScalarType::I128 => 16,
            ScalarType::Isize => 4,
            ScalarType::U8 => 1,
            ScalarType::U16 => 2,
            ScalarType::U32 => 4,
            ScalarType::U64 => 8,
            ScalarType::U128 => 16,
            ScalarType::Usize => 4,
        }
    }
}

/// The signed value of the little-endian bytes `bs`, read as two's
/// complement.
pub open spec fn sint_val(bs: Seq<u8>) -> int {
    if le_val(bs) >= pow256(bs.len()) / 2 {
        le_val(bs) - pow256(bs.len())
    } else {
        le_val(bs) as int
    }
}

/// The two's-complement representation of `v` in `w` bytes.
pub open spec fn twos_complement(v: int, w: nat) -> nat
    recommends
        -(pow256(w) as int / 2) <= v < pow256(w) as int / 2,
{
    if v >= 0 {
        v as nat
    } else {
        (v + pow256(w)) as nat
    }
}

/// The text the codec renders for a value of type `t` stored in the bytes
/// `bs`: booleans as `true`/`false`, characters as themselves (`?` when the
/// stored word is no Unicode scalar value), integers in decimal.
pub open spec fn decode_text_spec(t: ScalarType, bs: Seq<u8>) -> Seq<char>
    recommends
        bs.len() == t.width_spec(),
{
    match t {
        ScalarType::Bool => if bs[0] != 0 {
            "true"@
        } else {
            "false"@
        },
        ScalarType::Char => {
            let v = le_val(bs) as u32;
            if vstd::utf8::is_scalar(v) {
                seq![v as char]
            } else {
                seq!['?']
            }
        },
        _ => {
            if t.is_signed_spec() {
                dec_str_signed(sint_val(bs))
            } else {
                dec_str(le_val(bs))
            }
        },
    }
}

/// The bytes the codec writes for the text `s` entered for a value of type
/// `t`, or `None` when the text does not parse as such a value.
pub open spec fn encode_bytes_spec(t: ScalarType, s: Seq<char>) -> Option<Seq<u8>> {
    match t {
        ScalarType::Bool => if s == "true"@ {
            Some(seq![1u8])
        } else if s == "false"@ {
            Some(seq![0u8])
        } else {
            None
        },
        ScalarType::Char => if s.len() == 1 {
            Some(le_bytes(s[0] as u32 as nat, 4))
        } else {
            None
        },
        _ => {
            if t.is_signed_spec() {
                match parse_signed(s, t.smin_spec(), t.smax_spec()) {
                    Some(v) => Some(le_bytes(twos_complement(v, t.width_spec()), t.width_spec())),
                    None => None,
                }
            } else {
                match parse_unsigned(s, t.umax_spec()) {
                    Some(v) => Some(le_bytes(v, t.width_spec())),
                    None => None,
                }
            }
        },
    }
}

/// The bytes are a stored value the codec itself could have written:
/// booleans are `0` or `1` and a character word is a Unicode scalar value.
/// Integer bytes are always canonical.
pub open spec fn canonical_scalar_bytes(t: ScalarType, bs: Seq<u8>) -> bool {
    match t {
        ScalarType::Bool => bs[0] == 0 || bs[0] == 1,
        ScalarType::Char => vstd::utf8::is_scalar(le_val(bs) as u32),
        _ => true,
    }
}

/// The width of a scalar is even in value count: `pow256` halves exactly.
proof fn lemma_pow256_even(w: nat)
    requires
        w >= 1,
    ensures
        pow256(w) == 2 * (pow256(w) / 2),
        pow256(w) >= 256,
{
    assert(pow256(w) == 256 * pow256((w - 1) as nat));
    assert(pow256((w - 1) as nat) >= 1) by {
        lemma_pow256_pos((w - 1) as nat);
    }
    assert(256 * pow256((w - 1) as nat) == 2 * (128 * pow256((w - 1) as nat))) by (nonlinear_arith);
    assert(pow256(w) / 2 == 128 * pow256((w - 1) as nat)) by (nonlinear_arith)
        requires
            pow256(w) == 2 * (128 * pow256((w - 1) as nat)),
    ;
    assert(256 * pow256((w - 1) as nat) >= 256) by (nonlinear_arith)
        requires
            pow256((w - 1) as nat) >= 1,
    ;
}

/// `pow256` is positive.
proof fn lemma_pow256_pos(w: nat)
    ensures
        pow256(w) >= 1,
    decreases w,
{
    if w > 0 {
        lemma_pow256_pos((w - 1) as nat);
    }
}

/// Reading back what the codec wrote restores the value: decoding stored
/// bytes to text and encoding that text yields the same bytes again, for
/// every canonical byte string of the scalar's width.
pub proof fn lemma_scalar_bytes_round_trip(t: ScalarType, bs: Seq<u8>)
    requires
        bs.len() == t.width_spec(),
        canonical_scalar_bytes(t, bs),
    ensures
        encode_bytes_spec(t, decode_text_spec(t, bs)) == Some(bs),
{
    crate::bytes::lemma_le_val_bound(bs);
    crate::bytes::lemma_le_bytes_of_val(bs);
    match t {
        ScalarType::Bool => {
            reveal_strlit("true");
            reveal_strlit("false");
            assert("true"@.len() != "false"@.len());
            if bs[0] == 1 {
                assert(seq![1u8] =~= bs);
            } else {
                assert(seq![0u8] =~= bs);
            }
        },
        ScalarType::Char => {
            let v = le_val(bs) as u32;
            assert(le_val(bs) < pow256(4));
            assert(pow256(4) == 0x100000000) by {
                reveal_with_fuel(pow256, 5);
            }
            let c = v as char;
            assert(c as u32 == v);
            assert(le_bytes(c as u32 as nat, 4) == bs);
        },
        _ => {
            let w = t.width_spec();
            lemma_pow256_even(w);
            if t.is_signed_spec() {
                let sv = sint_val(bs);
                assert(t.smin_spec() <= sv <= t.smax_spec());
                crate::numfmt::lemma_parse_signed_round_trip(sv, t.smin_spec(), t.smax_spec());
                assert(twos_complement(sv, w) == le_val(bs));
            } else {
                let v = le_val(bs);
                assert(v <= t.umax_spec());
                crate::numfmt::lemma_parse_unsigned_round_trip(v, t.umax_spec());
            }
        },
    }
}

/// Writing a value and reading it back yields its canonical text: the bytes
/// that encoding produces decode to the canonical rendering of the parsed
/// value (for booleans and characters, to the entered text itself).
pub proof fn lemma_scalar_value_round_trip(t: ScalarType, s: Seq<char>)
    requires
        encode_bytes_spec(t, s) is Some,
    ensures
        encode_bytes_spec(t, s).unwrap().len() == t.width_spec(),
        (t is Bool || t is Char) ==> decode_text_spec(t, encode_bytes_spec(t, s).unwrap()) == s,
        t.is_unsigned_spec() ==> decode_text_spec(t, encode_bytes_spec(t, s).unwrap()) == dec_str(
            parse_unsigned(s, t.umax_spec()).unwrap(),
        ),
        t.is_signed_spec() ==> decode_text_spec(t, encode_bytes_spec(t, s).unwrap())
            == dec_str_signed(parse_signed(s, t.smin_spec(), t.smax_spec()).unwrap()),
{
    let bs = encode_bytes_spec(t, s).unwrap();
    match t {
        ScalarType::Bool => {
            reveal_strlit("true");
            reveal_strlit("false");
            assert("true"@.len() != "false"@.len());
        },
        ScalarType::Char => {
            let c = s[0];
            vstd::utf8::char_is_scalar(c);
            assert((c as u32) < 0x110000);
            lemma_le_bytes_len(c as u32 as nat, 4);
            assert(pow256(4) == 0x100000000) by {
                reveal_with_fuel(pow256, 5);
            }
            crate::bytes::lemma_le_round_trip(c as u32 as nat, 4);
            vstd::utf8::char_u32_cast(c, c as u32);
            assert(decode_text_spec(t, bs) =~= s);
        },
        _ => {
            let w = t.width_spec();
            lemma_pow256_even(w);
            lemma_pow256_pos(w);
            if t.is_signed_spec() {
                let v = parse_signed(s, t.smin_spec(), t.smax_spec()).unwrap();
                let u = twos_complement(v, w);
                assert(u < pow256(w));
                lemma_le_bytes_len(u, w);
                crate::bytes::lemma_le_round_trip(u, w);
                assert(sint_val(bs) == v);
            } else {
                let v = parse_unsigned(s, t.umax_spec()).unwrap();
                assert(v < pow256(w));
                lemma_le_bytes_len(v, w);
                crate::bytes::lemma_le_round_trip(v, w);
            }
        },
    }
}

/// Relies on `char::from_u32`: it yields the character with code point `v`
/// exactly when `v` is a Unicode scalar value.
#[verifier::external_body]
fn char_from_u32(v: u32) -> (r: Option<char>)
    ensures
        r is Some <==> vstd::utf8::is_scalar(v),
        r is Some ==> r.unwrap() as u32 == v,
{
    char::from_u32(v)
}

/// Relies on `String::push`: it appends exactly the one character.
#[verifier::external_body]
fn push_char(s: &mut String, c: char)
    ensures
        final(s)@ == old(s)@.push(c),
{
    s.push(c);
}

/// Builds the one-character string holding `c`.
fn char_to_string(c: char) -> (r: String)
    ensures
        r@ == seq![c],
{
    let mut s = String::new();
    push_char(&mut s, c);
    proof {
        assert(s@ =~= seq![c]);
    }
    s
}

/// Decodes the bytes read from target memory into the text shown for a
/// value of type `t`, as [`decode_text_spec`] describes.
pub fn decode_scalar(t: ScalarType, bytes: &Vec<u8>) -> (r: String)
    requires
        bytes@.len() == t.width_spec(),
    ensures
        r@ == decode_text_spec(t, bytes@),
{
    match t {
        ScalarType::Bool => {
            if bytes[0] != 0 {
                "true".to_owned()
            } else {
                "false".to_owned()
            }
        },
        ScalarType::Char => {
            let v128 = crate::bytes::le_val_u128(bytes);
            proof {
                lemma_le_val_bound(bytes@);
                reveal_with_fuel(pow256, 5);
            }
            let v = v128 as u32;
            match char_from_u32(v) {
                Some(c) => {
                    proof {
                        vstd::utf8::char_u32_cast(c, v);
                    }
                    char_to_string(c)
                },
                None => {
                    proof {
                        reveal_strlit("?");
                        assert("?"@ =~= seq!['?']);
                    }
                    "?".to_owned()
                },
            }
        },
        _ => {
            let v128 = crate::bytes::le_val_u128(bytes);
            proof {
                lemma_le_val_bound(bytes@);
                reveal_with_fuel(pow256, 17);
            }
            if t.is_signed() {
                let half = pow256_half_u128(t.width());
                if v128 >= half {
                    let mag: u128 = if t.width() == 16 {
                        0u128.wrapping_sub(v128)
                    } else {
                        2 * half - v128
                    };
                    let as_neg: i128 = if mag == 0x80000000000000000000000000000000u128 {
                        i128::MIN
                    } else {
                        -(mag as i128)
                    };
                    proof {
                        assert(as_neg as int == sint_val(bytes@));
                    }
                    crate::numfmt::i128_to_decimal(as_neg)
                } else {
                    crate::numfmt::i128_to_decimal(v128 as i128)
                }
            } else {
                crate::numfmt::u128_to_decimal(v128)
            }
        },
    }
}

impl ScalarType {
    /// The type is one of the signed integer types.
    pub fn is_signed(self) -> (r: bool)
        ensures
            r == self.is_signed_spec(),
    {
        match self {
            ScalarType::I8 | ScalarType::I16 | ScalarType::I32 | ScalarType::I64
            | ScalarType::I128 | ScalarType::Isize => true,
            _ => false,
        }
    }
}

/// Half the number of values `w` bytes can hold, i.e. the magnitude of the
/// smallest signed value of that width.
fn pow256_half_u128(w: usize) -> (r: u128)
    requires
        1 <= w <= 16,
    ensures
        r as nat == pow256(w as nat) / 2,
        2 * r as nat == pow256(w as nat),
    decreases w,
{
    proof {
        reveal_with_fuel(pow256, 17);
    }
    if w == 1 {
        0x80
    } else if w == 2 {
        0x8000
    } else if w == 4 {
        0x80000000
    } else if w == 8 {
        0x8000000000000000
    } else if w == 16 {
        0x80000000000000000000000000000000
    } else if w == 3 {
        0x800000
    } else if w == 5 {
        0x8000000000
    } else if w == 6 {
        0x800000000000
    } else if w == 7 {
        0x80000000000000
    } else if w == 9 {
        0x800000000000000000
    } else if w == 10 {
        0x80000000000000000000
    } else if w == 11 {
        0x8000000000000000000000
    } else if w == 12 {
        0x800000000000000000000000
    } else if w == 13 {
        0x80000000000000000000000000
    } else if w == 14 {
        0x8000000000000000000000000000
    } else {
        0x800000000000000000000000000000
    }
}

/// Encodes the text entered for a value of type `t` into the bytes to
/// write, as [`encode_bytes_spec`] describes.
pub fn encode_scalar(t: ScalarType, text: &str) -> (r: Option<Vec<u8>>)
    ensures
        match encode_bytes_spec(t, text@) {
            Some(bs) => r is Some && r.unwrap()@ == bs,
            None => r is None,
        },
{
    match t {
        ScalarType::Bool => {
            if str_eq(text, "true") {
                let mut out: Vec<u8> = Vec::new();
                out.push(1u8);
                proof {
                    assert(out@ =~= seq![1u8]);
                }
                Some(out)
            } else if str_eq(text, "false") {
                let mut out: Vec<u8> = Vec::new();
                out.push(0u8);
                proof {
                    assert(out@ =~= seq![0u8]);
                }
                Some(out)
            } else {
                None
            }
        },
        ScalarType::Char => {
            if text.unicode_len() == 1 {
                let c = text.get_char(0);
                Some(crate::bytes::le_bytes_u128(c as u32 as u128, 4))
            } else {
                None
            }
        },
        _ => {
            let w = t.width();
            proof {
                reveal_with_fuel(pow256, 17);
            }
            if t.is_signed() {
                let half = pow256_half_u128(w);
                let min: i128 = if w == 16 {
                    i128::MIN
                } else {
                    -(half as i128)
                };
                let max: i128 = if w == 16 {
                    i128::MAX
                } else {
                    (half - 1) as i128
                };
                match parse_signed_str(text, min, max) {
                    Some(v) => {
                        let u: u128 = if v >= 0 {
                            v as u128
                        } else {
                            let m: u128 = if v == i128::MIN {
                                0x80000000000000000000000000000000u128
                            } else {
                                (-v) as u128
                            };
                            if w == 16 {
                                0u128.wrapping_sub(m)
                            } else {
                                2 * half - m
                            }
                        };
                        proof {
                            assert(u as nat == twos_complement(v as int, t.width_spec()));
                        }
                        Some(crate::bytes::le_bytes_u128(u, w))
                    },
                    None => None,
                }
            } else {
                let max: u128 = if w == 16 {
                    u128::MAX
                } else {
                    2 * pow256_half_u128(w) - 1
                };
                match parse_unsigned_str(text, max) {
                    Some(v) => Some(crate::bytes::le_bytes_u128(v, w)),
                    None => None,
                }
            }
        },
    }
}

} // verus!

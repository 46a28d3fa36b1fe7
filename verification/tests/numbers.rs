use vurlrs::number::{Num, NAN_BITS, ONE_BITS, SIGN_BIT};
use vurlrs::text::{chars_of, decimal, push_chars, push_decimal, push_str, string_of};

fn num(x: f64) -> Num {
    Num::new(x.to_bits(), format!("{}", x))
}

const SAMPLES: [f64; 24] = [
    0.0,
    -0.0,
    1.0,
    -1.0,
    0.5,
    -0.5,
    1.5,
    -1.5,
    2.0,
    3.999,
    -3.999,
    1e-310,
    -1e-310,
    4503599627370496.0,
    9007199254740993.0,
    -9007199254740993.0,
    9223372036854775808.0,
    -9223372036854775808.0,
    18446744073709551616.0,
    1e300,
    -1e300,
    f64::INFINITY,
    f64::NEG_INFINITY,
    f64::NAN,
];

#[test]
fn the_parts_of_a_number_are_kept() {
    let n = Num::new(5, String::from("five"));
    assert_eq!(n.bits, 5);
    assert_eq!(n.text, "five");
    assert_eq!(n.clone(), n);
}

#[test]
fn the_constants_are_the_bits_of_their_doubles() {
    assert_eq!(ONE_BITS, 1.0f64.to_bits());
    assert_eq!(SIGN_BIT, (-0.0f64).to_bits());
    assert!(f64::from_bits(NAN_BITS).is_nan());
    assert_eq!(Num::nan(), Num::new(NAN_BITS, String::from("NaN")));
    assert_eq!(Num::from_bool(true), num(1.0));
    assert_eq!(Num::from_bool(false), num(0.0));
}

#[test]
fn zero_is_told_from_the_bits() {
    for x in SAMPLES {
        assert_eq!(num(x).is_zero(), x == 0.0, "{}", x);
    }
}

#[test]
fn nan_is_told_from_the_bits() {
    for x in SAMPLES {
        assert_eq!(num(x).is_nan(), x.is_nan(), "{}", x);
    }
    assert!(Num::new(0x7ff0_0000_0000_0001, String::new()).is_nan());
    assert!(Num::new(0xfff8_0000_0000_0000, String::new()).is_nan());
    assert!(!Num::new(0x7ff0_0000_0000_0000, String::new()).is_nan());
}

#[test]
fn equality_is_that_of_the_doubles() {
    for x in SAMPLES {
        for y in SAMPLES {
            assert_eq!(num(x).equals(&num(y)), x == y, "{} {}", x, y);
        }
    }
}

#[test]
fn order_is_that_of_the_doubles() {
    for x in SAMPLES {
        for y in SAMPLES {
            assert_eq!(num(x).less_than(&num(y)), x < y, "{} {}", x, y);
        }
    }
}

#[test]
fn the_floor_as_an_unsigned_integer_saturates() {
    for x in SAMPLES {
        assert_eq!(num(x).floor_u64(), x.floor() as u64, "{}", x);
        assert_eq!(num(x).floor_usize(), x.floor() as usize, "{}", x);
        assert_eq!(num(x).floor_u32(), x.floor() as u32, "{}", x);
    }
    assert_eq!(num(2.9).floor_u64(), 2);
    assert_eq!(num(-2.9).floor_u64(), 0);
    assert_eq!(num(1e30).floor_u64(), u64::MAX);
    assert_eq!(num(1e10).floor_u32(), u32::MAX);
    assert_eq!(num(f64::NAN).floor_usize(), 0);
    assert_eq!(num(f64::INFINITY).floor_usize(), usize::MAX);
    assert_eq!(num(4294967296.5).floor_u64(), 4294967296);
    assert_eq!(num(9007199254740992.0).floor_u64(), 9007199254740992);
    assert_eq!(num(18446744073709549568.0).floor_u64(), 18446744073709549568);
}

#[test]
fn the_floor_as_a_signed_integer_saturates() {
    for x in SAMPLES {
        assert_eq!(num(x).floor_i64(), x.floor() as i64, "{}", x);
    }
    assert_eq!(num(2.9).floor_i64(), 2);
    assert_eq!(num(-2.1).floor_i64(), -3);
    assert_eq!(num(-2.0).floor_i64(), -2);
    assert_eq!(num(-0.0).floor_i64(), 0);
    assert_eq!(num(-1e-320).floor_i64(), -1);
    assert_eq!(num(1e30).floor_i64(), i64::MAX);
    assert_eq!(num(-1e30).floor_i64(), i64::MIN);
    assert_eq!(num(-9223372036854775808.0).floor_i64(), i64::MIN);
    assert_eq!(num(-9223372036854774784.0).floor_i64(), -9223372036854774784);
    assert_eq!(num(f64::NAN).floor_i64(), 0);
    assert_eq!(num(f64::NEG_INFINITY).floor_i64(), i64::MIN);
}

#[test]
fn decimal_numerals() {
    assert_eq!(decimal(0), "0");
    assert_eq!(decimal(7), "7");
    assert_eq!(decimal(10), "10");
    assert_eq!(decimal(12345), "12345");
    assert_eq!(decimal(u64::MAX), "18446744073709551615");
    let mut out = String::from("n=");
    push_decimal(&mut out, 908);
    assert_eq!(out, "n=908");
}

#[test]
fn strings_and_their_characters() {
    assert_eq!(chars_of("h\u{e9}llo"), vec!['h', '\u{e9}', 'l', 'l', 'o']);
    assert_eq!(chars_of(""), Vec::<char>::new());
    assert_eq!(string_of(&vec!['a', '\u{1f600}', 'b']), "a\u{1f600}b");
    let mut out = String::from("x");
    push_chars(&mut out, &vec!['a', 'b', 'c', 'd'], 1, 3);
    push_str(&mut out, "yz");
    assert_eq!(out, "xbcyz");
}

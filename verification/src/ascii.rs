//! The bytes that the wire grammar names.

use vstd::prelude::*;

verus! {

/// `+`, the prefix of a simple string.
pub const PLUS: u8 = 43;

/// `-`, the prefix of an error.
pub const MINUS: u8 = 45;

/// `:`, the prefix of an integer.
pub const COLON: u8 = 58;

/// `$`, the prefix of a bulk string.
pub const DOLLAR: u8 = 36;

/// `*`, the prefix of an array.
pub const STAR: u8 = 42;

/// `_`, the prefix of the null frame.
pub const UNDERSCORE: u8 = 95;

/// `#`, the prefix of a boolean.
pub const HASH: u8 = 35;

/// `,`, the prefix of a double.
pub const COMMA: u8 = 44;

/// `%`, the prefix of a map.
pub const PERCENT: u8 = 37;

/// `~`, the prefix of a set.
pub const TILDE: u8 = 126;

/// The carriage return, the first byte of a line terminator.
pub const CR: u8 = 13;

/// The line feed, the second byte of a line terminator.
pub const LF: u8 = 10;

/// The digit `0`.
pub const ZERO: u8 = 48;

/// The digit `1`.
pub const ONE: u8 = 49;

/// The decimal point.
pub const POINT: u8 = 46;

/// `e`, which opens the exponent of a number.
pub const LOWER_E: u8 = 101;

/// `E`, which opens the exponent of a number too.
pub const UPPER_E: u8 = 69;

/// `t`, the boolean true.
pub const LOWER_T: u8 = 116;

/// `f`, the boolean false.
pub const LOWER_F: u8 = 102;

} // verus!

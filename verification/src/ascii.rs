//! The ASCII bytes that the protocol gives a meaning.

use vstd::prelude::*;

verus! {

/// The space that separates tokens.
pub const SPACE: u8 = 0x20;

/// Carriage return, the first byte of the line terminator.
pub const CR: u8 = 0x0d;

/// Line feed, the second byte of the line terminator.
pub const LF: u8 = 0x0a;

/// The digit `0`.
pub const ZERO: u8 = 0x30;

/// The digit `1`.
pub const ONE: u8 = 0x31;

/// The digit `9`.
pub const NINE: u8 = 0x39;

/// The minus sign.
pub const MINUS: u8 = 0x2d;

/// The last printable ASCII byte, `~`.
pub const TILDE: u8 = 0x7e;

/// The plus sign.
pub const PLUS: u8 = 0x2b;

/// The slash.
pub const SLASH: u8 = 0x2f;

/// The equals sign.
pub const EQUALS: u8 = 0x3d;

/// The first upper-case letter, `A`.
pub const UPPER_A: u8 = 0x41;

/// The last upper-case letter, `Z`.
pub const UPPER_Z: u8 = 0x5a;

/// The first lower-case letter, `a`.
pub const LOWER_A: u8 = 0x61;

/// The last lower-case letter, `z`.
pub const LOWER_Z: u8 = 0x7a;

} // verus!

//! The bytes that the path and numeral grammars name.

use vstd::prelude::*;

verus! {

pub const TAB: u8 = 9;

pub const LINE_FEED: u8 = 10;

pub const FORM_FEED: u8 = 12;

pub const CARRIAGE_RETURN: u8 = 13;

pub const SPACE: u8 = 32;

pub const PLUS: u8 = 43;

pub const COMMA: u8 = 44;

pub const MINUS: u8 = 45;

pub const POINT: u8 = 46;

pub const DIGIT_0: u8 = 48;

pub const DIGIT_9: u8 = 57;

pub const UPPER_E: u8 = 69;

pub const UPPER_H: u8 = 72;

pub const UPPER_L: u8 = 76;

pub const UPPER_M: u8 = 77;

pub const UPPER_V: u8 = 86;

pub const UPPER_Z: u8 = 90;

pub const LOWER_E: u8 = 101;

pub const LOWER_H: u8 = 104;

pub const LOWER_L: u8 = 108;

pub const LOWER_M: u8 = 109;

pub const LOWER_V: u8 = 118;

pub const LOWER_Z: u8 = 122;

} // verus!

//! Kind tags of the little struct grammar that the typed views and the tests
//! speak: wrap one in [`crate::green::SyntaxKind`] to use it.

use vstd::prelude::*;

verus! {

pub const STRUCT: u16 = 1;

pub const FIELD: u16 = 2;

pub const NAME: u16 = 3;

pub const TYPE: u16 = 4;

pub const IDENT: u16 = 5;

pub const WHITESPACE: u16 = 6;

pub const COLON: u16 = 7;

pub const COMMA: u16 = 8;

pub const STRUCT_KW: u16 = 9;

pub const L_CURLY: u16 = 10;

pub const R_CURLY: u16 = 11;

pub const STAR: u16 = 12;

pub const PLUS: u16 = 13;

pub const NUMBER: u16 = 14;

pub const BIN_EXPR: u16 = 15;

} // verus!

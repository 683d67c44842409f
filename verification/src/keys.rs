//! The codes of the keys that the program reacts to, as curses reports them.
use vstd::prelude::*;

verus! {

pub const KEY_TAB: i32 = 9;

pub const KEY_RETURN: i32 = 10;

pub const KEY_ESCAPE: i32 = 27;

pub const KEY_A: i32 = 97;

pub const KEY_D: i32 = 100;

pub const KEY_E: i32 = 101;

pub const KEY_I: i32 = 105;

pub const KEY_Q: i32 = 113;

pub const KEY_S: i32 = 115;

pub const KEY_W: i32 = 119;

pub const KEY_DOWN: i32 = 0x102;

pub const KEY_UP: i32 = 0x103;

pub const KEY_LEFT: i32 = 0x104;

pub const KEY_RIGHT: i32 = 0x105;

pub const KEY_HOME: i32 = 0x106;

pub const KEY_BACKSPACE: i32 = 0x107;

pub const KEY_F2: i32 = 0x10a;

pub const KEY_F5: i32 = 0x10d;

pub const KEY_DC: i32 = 0x14a;

} // verus!

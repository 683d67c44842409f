//! The model of a terminal line picker: lines of output, a regex that picks
//! parts of the selected line, and a command that is filled in with them.
#![allow(unused_imports)]

pub mod cmdline_laws;
pub mod edit_field;
pub mod file_laws;
pub mod global;
pub mod item_list;
pub mod key_laws;
pub mod keys;
pub mod line_list;
pub mod profile;
pub mod profile_laws;
pub mod regex;
pub mod screen;
pub mod screen_laws;
pub mod session;
pub mod status_line;
pub mod string_list;
pub mod text;
pub mod text_laws;

//! Updating the program: what is published, whether it is newer, whether it
//! can be trusted and how it takes the place of the running file.

pub mod check;
pub mod install;
pub mod json;
pub mod path;
pub mod source;
pub mod verify;
pub mod version;
pub mod written;

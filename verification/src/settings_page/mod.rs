//! The settings page: what it shows, how its form is read and what its buttons
//! do.

pub mod actions;
pub mod buttons;
pub mod form;
pub mod markup;
pub mod page;
pub mod parts;
pub mod shown;

//! Handing text to the application that the user works in.

pub mod target;

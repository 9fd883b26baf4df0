//! Expansion of one URL into a numbered sequence of URLs.
//!
//! The path of the URL is searched for its rightmost run of two or more
//! decimal digits; each number of a range is then written into that place,
//! padded with zeros to the width of the run, and the URL is put together
//! again around the new path.

pub mod components;
pub mod decimal;
pub mod digits;
pub mod enumerate;
pub mod error;
pub mod laws;
pub mod substitute;

//! A monoalphabetic substitution cipher over characters, defined by a
//! line-oriented `key=value` mapping text.
pub mod cipher;
pub mod laws;
pub mod mapping;
pub mod text;

pub use cipher::Cipher;
pub use mapping::FormatError;

//! Decoding and encoding of IDF 3.0 board, panel and library files.
//!
//! - `idf30`: the document model and its mathematical views.
//! - `lexer`, `sections`, `records`, `decode`: text to tokens, tokens to
//!   sections, sections to the model; `Idf30::parse`.
//! - `number`: integer and decimal tokens, and the fixed-point rendering.
//! - `encode`: the model to canonical text; `Idf30::to_string`.
//! - `roundtrip`, `canonical`: proofs that what the encoder writes, the
//!   decoder reads back.
pub mod canonical;
pub mod decode;
pub mod encode;
pub mod idf30;
pub mod lexer;
pub mod number;
pub mod records;
pub mod roundtrip;
pub mod sections;

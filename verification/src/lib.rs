//! Lexical front end for a small dynamically-typed scripting language:
//! it turns raw source text into a line-annotated sequence of classified
//! tokens, recording lexical errors without ever aborting a scan pass.

pub mod token;
pub mod diagnostics;
pub mod scanner;
pub mod driver;

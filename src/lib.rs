//! A recursive-descent JSON parser whose productions are proved against a
//! grammar written as spec functions over the input's characters.
//!
//! Each production (`null`, `true`/`false`, numbers, strings, arrays,
//! objects and the value dispatcher) is exported on its own. A call hands back
//! the parsed value and the unconsumed rest of the input, or a `ParseError`
//! with the position (in characters) where parsing failed, what was expected
//! there, and whether the production had committed. Trailing text is never
//! checked: callers that want a whole document test that the rest is empty.

pub mod error;
pub mod input;
pub mod null;
pub mod boolean;
pub mod string;
pub mod number;
pub mod value;
pub mod laws;

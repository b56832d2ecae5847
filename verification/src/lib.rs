//! Typed, whitespace-separated reading from a byte source.
//!
//! A [`Rio`] owns a byte source and hands out the values written in it one
//! by one: integers, words, decimal numbers and lines. Every operation has a
//! model in [`cursor`], [`extract`], [`integer`], [`decimal`] or [`text`]: a
//! function from the state of the reader and the input that its source goes
//! on to deliver to what the operation returns, the state it leaves, and the
//! input it has not asked for. The reader cannot know what its source will
//! deliver, so a contract speaks of what the source did deliver during the
//! call, and says that the model comes to the same whatever follows.

pub mod cursor;
pub mod decimal;
pub mod error;
pub mod extract;
pub mod fixed;
pub mod integer;
pub mod reader;
mod sealed;
pub mod stream;
pub mod text;
pub mod utils;

pub use crate::decimal::Decimal;
pub use crate::error::InputError;
pub use crate::extract::Extract;
pub use crate::reader::Rio;
pub use crate::stream::{Fetch, RioStream};

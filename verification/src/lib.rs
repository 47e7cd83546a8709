//! Short, URL-safe random identifiers: a buffered source of random bytes and
//! an encoder that maps them onto a 58-symbol alphabet by rejection sampling.

pub mod alphabet;
pub mod args;
pub mod encoder;
pub mod source;

pub use alphabet::{symbol, ALPHABET, ALPHABET_LEN, MASK};
pub use args::{check_arguments, InvalidArgument, DEFAULT_NUMBER, DEFAULT_SIZE};
pub use encoder::{nanoid, nanoid_within};
pub use source::{InfiniteRand, BUFFER_SIZE};

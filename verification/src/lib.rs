//! An RFC 4648 base32 codec: `encode` turns arbitrary bytes into text over
//! the alphabet `A`-`Z`, `2`-`7` with `=` padding, and `decode` turns such
//! text back into bytes, rejecting malformed input.
//!
//! The contracts of `encode` and `decode` pin both functions down exactly
//! against the specification functions in `model`, and `laws` proves the
//! round-trip and length properties on top of those contracts.

pub mod alphabet;
pub mod codec;
pub mod laws;
pub mod model;

pub use codec::decode;
pub use codec::encode;

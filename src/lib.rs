//! A bijection between the dense indices `0 .. 2^122` and version-4 style
//! UUID strings, built from a four-round Feistel network over two 61-bit
//! halves, together with its inverse.
pub mod feistel;
pub mod text;
pub mod identifier;
pub mod browse;

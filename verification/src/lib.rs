//! A hexdump library: slices a byte source by seek offset and length, and
//! renders the bytes as aligned rows of hexadecimal octets with a
//! printable-ASCII sidebar. Column count, byte-group size and in-group byte
//! order are configurable.

pub mod cli;
pub mod format;
pub mod input;
pub mod render;

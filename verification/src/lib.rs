//! The verified core of a two-way voice link over UDP.
pub mod audio;
pub mod bytes;
pub mod codec;
pub mod header;
pub mod jitter;
pub mod link;
pub mod opus;
pub mod ring;
pub mod sequence;

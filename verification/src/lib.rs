//! Policy-driven media mirroring core.
//!
//! The crate decides, for every file appearing under a watched source tree,
//! whether it can be mirrored by symbolic link or must be transcoded into a
//! compliant form, and computes the destination path and the external
//! toolchain invocation for the latter. All decisions are pure functions of
//! plain values; the I/O shell around them lives outside this crate.

pub mod codec;
pub mod engine;
pub mod mirror;
pub mod paths;
pub mod policy;
pub mod stream;
pub mod timestamp;
pub mod text;

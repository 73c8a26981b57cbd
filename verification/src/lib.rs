//! Fetching and linking the prebuilt ExecuTorch runtime.
//!
//! - `manifest`: the checksums that a Swift package manifest declares.
//! - `apple`: where the Apple binaries of a release are published and which
//!   parts of their archives are unpacked.
//! - `android`: the same for the Android library.
//! - `checksum`: checking a streamed download against its SHA-256.
//! - `target`: the supported platforms, the optional features and the linker
//!   directives a build script emits.
//! - `unpack`: reading release archives and planning their unpacking.
//! - `paths`, `text`: paths, addresses and texts built character by character.
use vstd::prelude::*;

pub mod text;
pub mod paths;
pub mod manifest;
pub mod checksum;
pub mod apple;
pub mod android;
pub mod target;
pub mod unpack;

verus! {

} // verus!

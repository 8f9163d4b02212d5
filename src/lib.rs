//! Packs a native library built from a cargo manifest into a NuGet package.
//!
//! The pipeline reads the project manifest, derives a nuspec document from it,
//! packs the nuspec together with the compiled library into a zip archive, and
//! resolves where that archive is saved. Each stage is a function from plain
//! values to plain values; reading files, running the compiler and writing the
//! package are left to the caller.
pub mod buf;
pub mod cargo;
pub mod markup;
pub mod nuspec;
pub mod pack;
pub mod pipeline;
pub mod save;

pub use buf::Buf;

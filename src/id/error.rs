//! Errors of the version and identifier codecs.
use vstd::prelude::*;

verus! {

/// Why a text is not a version.
#[derive(Debug)]
pub enum VersionError {
    /// A piece between dots is not a `u32`.
    ParseInt(std::num::ParseIntError),
    /// No leading `v`, or not exactly three pieces: expected `vX.Y.Z`.
    UnusualVersion,
}

/// Why a text is not an identifier.
#[derive(Debug)]
pub enum IdError {
    /// The checksum text is not hex.
    FromHexError(hex::FromHexError),
    /// The version text is not a version.
    Version(VersionError),
    /// The version text does not start with `v`.
    MissingVPrefix,
    /// Not exactly two pieces around `-`: expected `vX.Y.Z-<hash>`.
    UnusualId,
    /// The checksum text is not 64 characters: the hash must be 32 bytes.
    HashLen,
}

} // verus!

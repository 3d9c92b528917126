//! What can be wrong with a model cache.

use crate::decimal::{decimal, to_decimal};
use vstd::prelude::*;
use vstd::string::StringExecFns;

verus! {

/// Why the contents of a cache file were turned down.
#[derive(Clone, Copy, PartialEq, Eq, Structural, Debug)]
pub enum CacheError {
    /// The data ends in the middle of a value.
    UnexpectedEof,
    /// A byte block claims more bytes than the machine can address.
    AllocationTooLarge,
    /// A string is not UTF-8.
    InvalidUtf8,
    /// A texture carries a format number that no format has.
    UnknownTextureFormat(u8),
    /// The file does not start with the cache's magic bytes.
    InvalidMagic,
    /// The file was written for another version of the layout.
    UnsupportedVersion(u32),
    /// The byte that announces a skeleton is neither zero nor one.
    InvalidSkeletonFlag(u8),
}

impl CacheError {
    /// The error in words.
    pub open spec fn text(self) -> Seq<char> {
        match self {
            CacheError::UnexpectedEof => "failed to fill whole buffer"@,
            CacheError::AllocationTooLarge => "cached allocation too large"@,
            CacheError::InvalidUtf8 => "invalid UTF-8"@,
            CacheError::UnknownTextureFormat(number) => "Unknown cached texture format "@ + decimal(
                number as nat,
            ),
            CacheError::InvalidMagic => "Invalid cache magic"@,
            CacheError::UnsupportedVersion(version) => "Unsupported cache version "@ + decimal(
                version as nat,
            ) + " (expected 2)"@,
            CacheError::InvalidSkeletonFlag(flag) => "Invalid skeleton flag "@ + decimal(
                flag as nat,
            ),
        }
    }

    /// The error in words.
    pub fn message(&self) -> (out: String)
        ensures
            out@ == self.text(),
    {
        match *self {
            CacheError::UnexpectedEof => String::from_str("failed to fill whole buffer"),
            CacheError::AllocationTooLarge => String::from_str("cached allocation too large"),
            CacheError::InvalidUtf8 => String::from_str("invalid UTF-8"),
            CacheError::UnknownTextureFormat(number) => {
                let mut out = String::from_str("Unknown cached texture format ");
                out.append(to_decimal(number as u64).as_str());
                out
            },
            CacheError::InvalidMagic => String::from_str("Invalid cache magic"),
            CacheError::UnsupportedVersion(version) => {
                let mut out = String::from_str("Unsupported cache version ");
                out.append(to_decimal(version as u64).as_str());
                out.append(" (expected 2)");
                out
            },
            CacheError::InvalidSkeletonFlag(flag) => {
                let mut out = String::from_str("Invalid skeleton flag ");
                out.append(to_decimal(flag as u64).as_str());
                out
            },
        }
    }
}

/// What is wrong is told in words, with the number that was found where there is one.
pub proof fn law_errors_tell_what_was_found(error: CacheError)
    ensures
        error is UnexpectedEof ==> error.text() == "failed to fill whole buffer"@,
        error is AllocationTooLarge ==> error.text() == "cached allocation too large"@,
        error is InvalidUtf8 ==> error.text() == "invalid UTF-8"@,
        error is InvalidMagic ==> error.text() == "Invalid cache magic"@,
        error matches CacheError::UnknownTextureFormat(number) ==> error.text()
            == "Unknown cached texture format "@ + decimal(number as nat),
        error matches CacheError::UnsupportedVersion(version) ==> error.text()
            == "Unsupported cache version "@ + decimal(version as nat) + " (expected 2)"@,
        error matches CacheError::InvalidSkeletonFlag(flag) ==> error.text()
            == "Invalid skeleton flag "@ + decimal(flag as nat),
{
}

} // verus!

use vstd::prelude::*;

verus! {

/// What can go wrong while talking to the bootloader.
#[derive(Debug, Clone, Copy, PartialEq, Eq, Structural)]
pub enum EspLoaderError {
    /// Unspecified device or link failure, including a failure status reported by the device.
    Fail,
    /// The deadline elapsed before the expected bytes arrived.
    Timeout,
    /// The image is larger than the detected flash.
    ImageSize,
    /// The device's checksum of the written range differs from the local one.
    ChecksumMismatch,
    /// The identity registers do not hold the expected signature.
    InvalidTarget,
    /// The flash reports a size identifier outside the known table.
    UnsupportedChip,
    /// A reply frame could not be decoded, or answers another command.
    InvalidResponse,
}

impl EspLoaderError {
    /// Numeric code of the error, in declaration order starting at zero.
    pub fn code(&self) -> (r: u8)
        ensures
            r == error_code(*self),
    {
        match self {
            EspLoaderError::Fail => 0,
            EspLoaderError::Timeout => 1,
            EspLoaderError::ImageSize => 2,
            EspLoaderError::ChecksumMismatch => 3,
            EspLoaderError::InvalidTarget => 4,
            EspLoaderError::UnsupportedChip => 5,
            EspLoaderError::InvalidResponse => 6,
        }
    }
}

pub open spec fn error_code(e: EspLoaderError) -> u8 {
    match e {
        EspLoaderError::Fail => 0,
        EspLoaderError::Timeout => 1,
        EspLoaderError::ImageSize => 2,
        EspLoaderError::ChecksumMismatch => 3,
        EspLoaderError::InvalidTarget => 4,
        EspLoaderError::UnsupportedChip => 5,
        EspLoaderError::InvalidResponse => 6,
    }
}

} // verus!

use vstd::prelude::*;

verus! {

/// The high bit of a firmware status word marks an error.
pub const EFI_ERROR_BIT: u64 = 0x8000_0000_0000_0000;

/// Status codes, as the raw words that `EfiStatus` wraps.
pub const EFI_SUCCESS: u64 = 0;
pub const EFI_INVALID_PARAMETER: u64 = 0x8000_0000_0000_0002;
pub const EFI_UNSUPPORTED: u64 = 0x8000_0000_0000_0003;
pub const EFI_BUFFER_TOO_SMALL: u64 = 0x8000_0000_0000_0005;
pub const EFI_NOT_READY: u64 = 0x8000_0000_0000_0006;
pub const EFI_DEVICE_ERROR: u64 = 0x8000_0000_0000_0007;
pub const EFI_NOT_FOUND: u64 = 0x8000_0000_0000_000e;

/// A firmware status word.
#[derive(Clone, Copy, Debug, PartialEq, Eq, Structural)]
pub struct EfiStatus(pub u64);

impl EfiStatus {
    /// Whether this status is an error, that is, carries the error bit.
    pub open spec fn spec_is_error(self) -> bool {
        self.0 >= EFI_ERROR_BIT
    }

    pub fn is_error(self) -> (r: bool)
        ensures
            r == self.spec_is_error(),
    {
        let v = self.0;
        assert((v & 0x8000_0000_0000_0000u64 != 0) == (v >= 0x8000_0000_0000_0000u64)) by (bit_vector);
        (v & EFI_ERROR_BIT) != 0
    }
}

} // verus!

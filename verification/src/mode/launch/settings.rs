//! The settings of the launcher.

use crate::persistence::StorableState;
use vstd::prelude::*;

verus! {

/// The bits of the binary32 number 1.
pub const ONE_BITS: u32 = 0x3f80_0000;

/// The bits of the binary32 number nearest to 0.2.
pub const DEFAULT_TRANSPARENCY: u32 = 0x3e4c_cccd;

pub struct LauncherSettings {
    /// How transparent the window is, from 0 to 1: a binary32 number, by its bits.
    pub transparency: u32,
}

/// The bits stand for no number.
pub open spec fn is_nan(bits: u32) -> bool {
    0x7f80_0000 < bits < 0x8000_0000 || 0xff80_0000 < bits
}

/// The number that is nearest to a binary32 number between 0 and 1, by its bits. The bits that
/// stand for no number, and those of the negative zero, stay.
pub open spec fn clamped(bits: u32) -> u32 {
    if is_nan(bits) || bits == 0x8000_0000 {
        bits
    } else if bits > 0x8000_0000 {
        0
    } else if bits > ONE_BITS {
        ONE_BITS
    } else {
        bits
    }
}

impl LauncherSettings {
    /// Brings the settings into the range that they have to be in.
    pub fn sanitize(self) -> (res: Self)
        ensures
            res.transparency == clamped(self.transparency),
    {
        let bits: u32 = self.transparency;
        let nan = (0x7f80_0000 < bits && bits < 0x8000_0000) || 0xff80_0000 < bits;
        let transparency: u32 = if nan || bits == 0x8000_0000 {
            bits
        } else if bits > 0x8000_0000 {
            0
        } else if bits > ONE_BITS {
            ONE_BITS
        } else {
            bits
        };
        LauncherSettings { transparency }
    }
}

impl Default for LauncherSettings {
    fn default() -> (res: Self)
        ensures
            res.transparency == DEFAULT_TRANSPARENCY,
    {
        LauncherSettings { transparency: DEFAULT_TRANSPARENCY }
    }
}

impl StorableState for LauncherSettings {
    const NAME: &'static str = "settings";
}

/// Sanitized settings stay as they are, and so do the settings that one starts with.
pub proof fn law_sanitized_settings_stay(bits: u32)
    ensures
        clamped(clamped(bits)) == clamped(bits),
        clamped(DEFAULT_TRANSPARENCY) == DEFAULT_TRANSPARENCY,
{
}

} // verus!

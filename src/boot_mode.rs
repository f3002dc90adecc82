use vstd::prelude::*;

verus! {

/// The mode a Rockchip device reports over USB.
#[derive(Clone, Copy, Debug, PartialEq, Eq, Structural)]
pub enum BootMode {
    Maskrom,
    Loader,
}

impl BootMode {
    /// The mode that the sub-minor digit of a device's USB version gives:
    /// its lowest bit is clear in mask-ROM mode and set under the loader.
    pub fn from_sub_minor(sub_minor: u8) -> (r: BootMode)
        ensures
            r == if sub_minor % 2 == 0 {
                BootMode::Maskrom
            } else {
                BootMode::Loader
            },
    {
        if sub_minor % 2 == 0 {
            BootMode::Maskrom
        } else {
            BootMode::Loader
        }
    }
}

} // verus!

//! What every device of a room offers: a name and a status report.
use vstd::prelude::*;

verus! {

/// Fewest bytes a device's name may have.
pub const DEVICE_IDENTITY_MIN_LENGTH: usize = 8;

/// A device that can be kept in a room.
pub trait SmartDevice {
    /// The device's name.
    spec fn spec_identity(&self) -> Seq<char>;

    /// The device's one-line status report.
    spec fn spec_info(&self) -> Seq<char>;

    fn identity(&self) -> (r: &String)
        ensures
            r@ == self.spec_identity(),
    ;

    fn info(&self) -> (r: String)
        ensures
            r@ == self.spec_info(),
    ;
}

} // verus!

//! A simple on/off flag shared by the deferred-work machinery.

use vstd::prelude::*;

verus! {

/// A boolean flag with explicit `on`/`off` transitions, used to record
/// whether a subsystem has finished its one-time initialization.
pub struct Flag(bool);

impl Flag {
    /// A fresh flag starts off.
    pub fn new() -> (r: Flag)
        ensures
            !r.get_spec(),
    {
        Flag(false)
    }

    /// The current state of the flag.
    pub closed spec fn get_spec(self) -> bool {
        self.0
    }

    /// Turns the flag on.
    pub fn on(&mut self)
        ensures
            final(self).get_spec(),
    {
        self.0 = true;
    }

    /// Turns the flag off.
    pub fn off(&mut self)
        ensures
            !final(self).get_spec(),
    {
        self.0 = false;
    }

    /// Reads the flag.
    pub fn get(&self) -> (r: bool)
        ensures
            r == self.get_spec(),
    {
        self.0
    }
}

} // verus!

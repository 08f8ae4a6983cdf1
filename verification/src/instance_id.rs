use vstd::prelude::*;

verus! {

/// The identity of a card instance: its index in the public instance table.
#[derive(Clone, Copy, PartialEq, Eq, Structural, Hash, Debug)]
pub struct InstanceID(pub usize);

impl InstanceID {
    /// Internal-only API! Creates an instance ID from a usize.
    /// Never use this in prod-facing code.
    pub fn from_raw(raw: usize) -> (id: InstanceID)
        ensures
            id.0 == raw,
    {
        InstanceID(raw)
    }

    /// The index this ID stands for.
    pub fn raw(&self) -> (r: usize)
        ensures
            r == self.0,
    {
        self.0
    }
}

} // verus!

use vstd::prelude::*;

verus! {

/// A single grid cell. Id 0 is empty (air); any other id is a solid kind.
#[derive(Debug, Clone, Copy, PartialEq, Eq, Structural)]
pub struct Voxel {
    pub id: u8,
}

impl Voxel {
    pub open spec fn spec_is_empty(&self) -> bool {
        self.id == 0
    }

    /// Whether this voxel is air, i.e. not rendered.
    #[verifier::when_used_as_spec(spec_is_empty)]
    pub fn is_empty(&self) -> (r: bool)
        ensures
            r == (self.id == 0),
    {
        self.id == 0
    }
}

} // verus!

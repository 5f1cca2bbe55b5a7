use vstd::prelude::*;

verus! {

/// A single voxel: either empty space or solid matter that is either
/// fully opaque or translucent.
#[derive(Debug, Clone, Copy, PartialEq, Eq, Structural)]
pub enum Voxel {
    Empty,
    NonEmpty { is_opaque: bool },
}

impl Voxel {
    /// Whether this voxel blocks sight completely.
    pub open spec fn spec_is_opaque(self) -> bool {
        match self {
            Voxel::Empty => false,
            Voxel::NonEmpty { is_opaque } => is_opaque,
        }
    }

    pub fn is_opaque(&self) -> (r: bool)
        ensures
            r == self.spec_is_opaque(),
    {
        match self {
            Voxel::Empty => false,
            Voxel::NonEmpty { is_opaque } => *is_opaque,
        }
    }

    /// A fully opaque solid voxel.
    pub fn opaque() -> (r: Voxel)
        ensures
            r == (Voxel::NonEmpty { is_opaque: true }),
    {
        Voxel::NonEmpty { is_opaque: true }
    }
}

impl Default for Voxel {
    fn default() -> (r: Voxel)
        ensures
            r == Voxel::Empty,
    {
        Voxel::Empty
    }
}

/// A voxel cell of a padded snapshot: either a voxel that the store holds,
/// or empty space where the store holds nothing.
#[derive(Debug, Clone, Copy, PartialEq, Eq, Structural)]
pub enum OptionalVoxel {
    Voxel(Voxel),
    Empty,
}

impl OptionalVoxel {
    /// The cell that stands for an optional lookup result.
    pub open spec fn spec_from_option(voxel: Option<Voxel>) -> OptionalVoxel {
        match voxel {
            Some(v) => OptionalVoxel::Voxel(v),
            None => OptionalVoxel::Empty,
        }
    }
}

impl From<Option<Voxel>> for OptionalVoxel {
    fn from(voxel: Option<Voxel>) -> (r: OptionalVoxel)
        ensures
            r == OptionalVoxel::spec_from_option(voxel),
    {
        match voxel {
            Some(v) => OptionalVoxel::Voxel(v),
            None => OptionalVoxel::Empty,
        }
    }
}

impl vstd::std_specs::convert::FromSpecImpl<Option<Voxel>> for OptionalVoxel {
    open spec fn obeys_from_spec() -> bool {
        true
    }

    open spec fn from_spec(voxel: Option<Voxel>) -> OptionalVoxel {
        OptionalVoxel::spec_from_option(voxel)
    }
}

} // verus!

//! The closed vocabulary of the edges that flattening adds by itself.

use vstd::prelude::*;

verus! {

/// The side of an edge that a row stands on, relative to the node owning the
/// row.
#[derive(Clone, Copy, Debug, PartialEq, Eq, Structural)]
pub enum Direction {
    In,
    Out,
}

impl Direction {
    /// The text stored in the `direction` column.
    pub open spec fn text(self) -> Seq<char> {
        match self {
            Direction::In => "IN"@,
            Direction::Out => "OUT"@,
        }
    }

    pub fn to_string(&self) -> (s: String)
        ensures
            s@ == self.text(),
    {
        match self {
            Direction::In => "IN".to_owned(),
            Direction::Out => "OUT".to_owned(),
        }
    }
}

/// The two relations that the hierarchy itself implies.
#[derive(Clone, Copy, Debug, PartialEq, Eq, Structural)]
pub enum ImplicitRelation {
    IsParent,
    IsChild,
}

impl ImplicitRelation {
    /// The text stored in the `relation` column.
    pub open spec fn text(self) -> Seq<char> {
        match self {
            ImplicitRelation::IsParent => "ISPARENT"@,
            ImplicitRelation::IsChild => "ISCHILD"@,
        }
    }

    pub fn to_string(&self) -> (s: String)
        ensures
            s@ == self.text(),
    {
        match self {
            ImplicitRelation::IsParent => "ISPARENT".to_owned(),
            ImplicitRelation::IsChild => "ISCHILD".to_owned(),
        }
    }
}

} // verus!

use vstd::prelude::*;

verus! {

/// The ways in which building a map can fail.
#[derive(Clone, Copy, Debug, PartialEq, Eq, Structural)]
pub enum WorldError {
    /// No free spot for another room was found within the attempt budget.
    GenerationExhausted,
    /// A shape would paint a cell that lies outside the grid.
    OutOfBounds,
    /// A size was zero or too large to be one.
    InvalidDimension,
}

impl WorldError {
    /// A short description for messages.
    pub fn message(&self) -> (text: &'static str)
        ensures
            text@ == Self::message_text(*self),
    {
        match self {
            WorldError::GenerationExhausted => "no space available for another room",
            WorldError::OutOfBounds => "shape leaves the grid",
            WorldError::InvalidDimension => "dimension is zero or too large",
        }
    }

    /// The text that [`WorldError::message`] returns for each error.
    pub open spec fn message_text(error: WorldError) -> Seq<char> {
        match error {
            WorldError::GenerationExhausted => "no space available for another room"@,
            WorldError::OutOfBounds => "shape leaves the grid"@,
            WorldError::InvalidDimension => "dimension is zero or too large"@,
        }
    }
}

} // verus!

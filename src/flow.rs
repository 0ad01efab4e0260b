//! Whether a state machine takes another input.
use vstd::prelude::*;

verus! {

/// Whether a state machine goes on with the next input or has finished.
#[derive(Debug, PartialEq, Eq, Structural, Clone, Copy)]
pub enum Flow {
    Continue,
    Break,
}

} // verus!

//! The contract every component type meets: a default construction the
//! component manager uses when a component is attached to an entity.

use vstd::prelude::*;

verus! {

/// A piece of state attachable to an entity.
pub trait Component: Sized {
    /// A freshly attached component's initial value.
    fn new() -> Self;
}

} // verus!

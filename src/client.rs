//! What a client offers to the code that drives it.

use vstd::prelude::*;

use crate::error::Error;

verus! {

/// The client's authentication state, implemented by each client backend.
pub trait Authentication {
    fn is_unlocked(&self) -> bool;

    fn authenticate(&mut self) -> Result<(), Error>;
}

} // verus!

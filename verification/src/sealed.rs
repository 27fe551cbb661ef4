//! Keeps the set of pricing conventions closed.

use vstd::prelude::*;

verus! {

pub trait Sealed {

}

} // verus!

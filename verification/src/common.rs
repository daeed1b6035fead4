//! What the modules of the search share.
use vstd::prelude::*;
use crate::error::Error;

verus! {

pub type GenericResult<T> = Result<T, Error>;

} // verus!

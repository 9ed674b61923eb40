use vstd::prelude::*;

pub mod text;
pub mod api_response;
pub mod moa;

verus! {

} // verus!

use vstd::prelude::*;

verus! {

/// `hound`'s error type, carried through the library unopened.
#[verifier::external_type_specification]
#[verifier::external_body]
pub struct ExHoundError(hound::Error);

} // verus!

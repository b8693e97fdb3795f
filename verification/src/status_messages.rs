use vstd::prelude::*;

verus! {

/// A message wrapped for a response body.
#[derive(Clone, Debug)]
pub struct Status {
    pub message: String,
}

/// Wrap a message in a `Status`.
pub fn new_status(message: String) -> (s: Status)
    ensures
        s.message@ == message@,
{
    Status { message }
}

} // verus!

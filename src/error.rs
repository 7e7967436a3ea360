use vstd::prelude::*;

use crate::node::Status;

verus! {

/// The error kind of `std::io::Error`, carried as it is.
#[verifier::external_type_specification]
#[verifier::external_body]
pub struct ExErrorKind(std::io::ErrorKind);

/// Why linking could not be done.
#[derive(Debug, PartialEq, Eq)]
pub enum Error {
    /// A leaf reached linking in a state that analysis should have ruled out.
    InternalError(String),
    /// The operating system refused a step.
    IoError(std::io::ErrorKind),
    /// Every leaf whose status blocks linking, with its link path.
    BadFiles(Vec<(String, Status)>),
}

} // verus!

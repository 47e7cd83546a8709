//! The rules that the command-line arguments must meet.

use vstd::prelude::*;

verus! {

/// How many identifiers are generated where none is asked for.
pub const DEFAULT_NUMBER: usize = 1;

/// The length of an identifier where none is asked for.
pub const DEFAULT_SIZE: usize = 12;

/// An argument that is not greater than zero.
#[derive(Clone, Copy, Debug, PartialEq, Eq, Structural)]
pub enum InvalidArgument {
    /// The length of the identifiers is zero.
    Size,
    /// The number of identifiers is zero.
    Number,
}

impl InvalidArgument {
    /// The message for the user.
    pub fn message(&self) -> (text: &'static str)
        ensures
            text@ == match *self {
                InvalidArgument::Size => "Size must be greater than 0"@,
                InvalidArgument::Number => "Number of IDs must be greater than 0"@,
            },
    {
        match self {
            InvalidArgument::Size => "Size must be greater than 0",
            InvalidArgument::Number => "Number of IDs must be greater than 0",
        }
    }
}

/// Accepts a number of identifiers and a length that are both greater than
/// zero. Of two invalid arguments the length is reported.
pub fn check_arguments(number: usize, size: usize) -> (r: Result<(), InvalidArgument>)
    ensures
        r == if size == 0 {
            Err::<(), InvalidArgument>(InvalidArgument::Size)
        } else if number == 0 {
            Err::<(), InvalidArgument>(InvalidArgument::Number)
        } else {
            Ok::<(), InvalidArgument>(())
        },
{
    if size == 0 {
        Err(InvalidArgument::Size)
    } else if number == 0 {
        Err(InvalidArgument::Number)
    } else {
        Ok(())
    }
}

} // verus!

//! Errors that are reported to a client.

use vstd::prelude::*;

verus! {

/// The reasons for which the server turns a client's request down.
#[derive(Debug, Clone, Copy, PartialEq, Eq, Structural)]
pub enum Error {
    /// The display name asked for is held by another connection.
    UsernameTaken,
}

} // verus!

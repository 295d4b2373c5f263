//! How the supervisor store can fail.

use vstd::prelude::*;

verus! {

/// The two commands that make up a reload of the supervisor, in order.
#[derive(Clone, Copy, Debug, PartialEq, Eq)]
pub enum ReloadPhase {
    /// The supervisor reads its definitions again.
    Reread,
    /// The supervisor applies the definitions it has read.
    Update,
}

/// A failure of the supervisor store.
#[derive(Clone, Debug, PartialEq, Eq)]
pub enum StoreError {
    /// The configuration holds no worker-count setting.
    NotFound,
    /// The configuration could not be read or written; the text says why.
    Io(String),
    /// A phase of the reload failed; `output` is what its command printed.
    Reload { phase: ReloadPhase, output: Vec<u8> },
}

} // verus!

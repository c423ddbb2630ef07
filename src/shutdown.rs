//! Shutdown signalling errors.
use vstd::prelude::*;

verus! {

/// The interrupt signal could not be listened for.
#[derive(Debug, Clone, Copy, PartialEq, Eq, Structural)]
pub enum ShutdownError {
    SignalBindFail,
}

} // verus!

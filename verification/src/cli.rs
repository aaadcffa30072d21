//! The output-shape selector that the configuration layer hands to the
//! engine: show only filenames, only folders, or only the matched text.

use vstd::prelude::*;

verus! {

/// Which restricted output shape the caller asked for, if any.
#[derive(Clone, Copy, Debug, PartialEq, Eq, Structural)]
pub enum OutputOnly {
    Filenames,
    Folders,
    Match,
}

} // verus!

//! The plain-value part of modal dialogs: what a dialog hands back each frame.

use vstd::prelude::*;

verus! {

/// What a dialog hands back each frame.
pub struct DialogResponse<R> {
    /// Contents' return value. `None` once the dialog has faded out completely.
    pub inner: Option<R>,
    /// `Esc` was pressed or the backdrop was clicked (only while open).
    pub should_close: bool,
    /// The close fade has finished: drop the dialog state now.
    pub finished: bool,
}

} // verus!

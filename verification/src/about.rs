//! State of the About dialog.

use vstd::prelude::*;

verus! {

/// The About dialog: whether it is shown.
pub struct AboutDialog {
    /// Whether the dialog is open
    pub open: bool,
}

impl Default for AboutDialog {
    /// A closed dialog.
    fn default() -> (d: Self)
        ensures
            !d.open,
    {
        AboutDialog { open: false }
    }
}

} // verus!

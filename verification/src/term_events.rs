//! Events coming from the terminal.

use vstd::prelude::*;

verus! {

#[derive(Debug)]
pub enum TermEvents {
    /// User wishes to quit
    Quit,
    ///Terminal resize (columns, rows)
    Resize(u16, u16),
}

} // verus!

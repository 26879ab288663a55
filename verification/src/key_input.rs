//! Messages from key-input monitoring.

use vstd::prelude::*;

verus! {

#[derive(Debug)]
pub enum KeyInputMessage {
    Quit,
}

} // verus!

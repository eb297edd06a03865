//! Browsing captures through a picker.

use vstd::prelude::*;
use crate::commands::klf::{picked, spec_picked};

verus! {

/// The capture picked in the browser: none when the picker was cancelled
/// (non-zero exit) or printed nothing but whitespace.
pub open spec fn spec_chosen_capture(success: bool, output: Seq<char>) -> Option<Seq<char>> {
    if !success {
        None
    } else {
        spec_picked(output)
    }
}

/// Reads the browser's result.
pub fn chosen_capture(success: bool, output: &str) -> (res: Option<String>)
    ensures
        res.deep_view() == spec_chosen_capture(success, output@),
{
    if !success {
        None
    } else {
        picked(output)
    }
}

/// A cancelled picker (non-zero exit) opens nothing, whatever it printed.
pub proof fn lemma_cancelled_picks_nothing(output: Seq<char>)
    ensures
        spec_chosen_capture(false, output) is None,
        spec_chosen_capture(true, output) == spec_picked(output),
{
}

} // verus!

//! Capturing standard input.

use vstd::prelude::*;
use crate::util::{sanitize_label, spec_sanitize_label, default_label};

verus! {

/// The label a `cap` run uses: the given one, or `capture`, sanitized.
pub open spec fn spec_cap_label(label: Option<Seq<char>>) -> Seq<char> {
    match label {
        Some(l) => spec_sanitize_label(l),
        None => spec_sanitize_label(default_label()),
    }
}

/// Computes the label of a `cap` run.
pub fn cap_label(label: Option<String>) -> (res: String)
    ensures
        res@ == spec_cap_label(label.deep_view()),
{
    match label {
        Some(l) => sanitize_label(l.as_str()),
        None => {
            let d = "capture".to_owned();
            proof {
                reveal_strlit("capture");
            }
            assert(d@ =~= default_label());
            sanitize_label(d.as_str())
        },
    }
}

/// Without a label a capture is labelled `capture`; a given label is
/// sanitized.
pub proof fn lemma_cap_label_default(label: Option<Seq<char>>)
    ensures
        label is None ==> spec_cap_label(label) == seq!['c', 'a', 'p', 't', 'u', 'r', 'e'],
        label is Some ==> spec_cap_label(label) == spec_sanitize_label(label->0),
{
    crate::util::lemma_sanitize_keeps_allowed(default_label());
}

} // verus!

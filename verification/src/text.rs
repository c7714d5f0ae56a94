//! Short user-facing labels: a label and a hover description for a value.

use vstd::prelude::*;

verus! {

/// A value with a short label and a longer hover description.
pub trait Text {
    fn text(&self) -> &'static str;

    fn hover_text(&self) -> &'static str;
}

} // verus!

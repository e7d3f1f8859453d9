//! The original-image strip under a preview: which document it shows.

use vstd::prelude::*;

verus! {

/// Which document the strip shows is `bound()`.
pub struct OrigStrip {
    doc: Option<u128>,
    pub split_hover: bool,
}

impl OrigStrip {
    pub closed spec fn bound(&self) -> Option<u128> {
        self.doc
    }

    pub closed spec fn split_hovered(&self) -> bool {
        self.split_hover
    }

    pub fn new() -> (s: Self)
        ensures
            s.bound() is None,
            !s.split_hovered(),
    {
        OrigStrip { doc: None, split_hover: false }
    }

    /// Shows document `id`; whether that changed what the strip shows (the
    /// caller then drops a drag of the strip in progress).
    pub fn bind_doc(&mut self, id: Option<u128>) -> (changed: bool)
        ensures
            final(self).bound() == id,
            final(self).split_hovered() == old(self).split_hovered(),
            changed == (old(self).bound() != id),
    {
        if self.doc == id {
            return false;
        }
        self.doc = id;
        true
    }
}

} // verus!

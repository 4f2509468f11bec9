//! The DOM tree that scripts see.
use vstd::prelude::*;
use crate::layout::domtree::DOMTree;

verus! {

/// Binds a DOM tree for scripts.
#[derive(Debug)]
pub struct DOMBindings {
    dom_tree: DOMTree,
}

impl DOMBindings {
    /// Bindings for `dom_tree`.
    pub fn new(dom_tree: DOMTree) -> (b: Self)
        ensures
            b.tree() == dom_tree,
    {
        DOMBindings { dom_tree }
    }

    /// The tree bound.
    pub closed spec fn tree(&self) -> DOMTree {
        self.dom_tree
    }

    /// The tree bound.
    pub fn dom_tree(&self) -> (r: &DOMTree)
        ensures
            *r == self.tree(),
    {
        &self.dom_tree
    }
}

} // verus!

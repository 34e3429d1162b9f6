//! Walking the link nodes of a passage body.

use vstd::prelude::*;

use crate::ContentNode;

verus! {

/// The first position at or after `i` holding a link node.
pub open spec fn next_link_idx<T>(nodes: Seq<ContentNode<T>>, i: int) -> Option<int>
    decreases nodes.len() - i + 1,
{
    if i < 0 || i >= nodes.len() {
        None
    } else if nodes[i] is Link {
        Some(i)
    } else {
        next_link_idx(nodes, i + 1)
    }
}

/// Yields the link nodes of a node sequence in order, skipping text nodes.
pub struct LinkIterator<'a, T> {
    pub nodes: &'a Vec<ContentNode<T>>,
    pub pos: usize,
}

/// One link of a passage: display text and target passage name.
pub struct Link<'a, T> {
    pub text: &'a T,
    pub target: &'a T,
}

impl<'a, T> LinkIterator<'a, T> {
    pub fn new(nodes: &'a Vec<ContentNode<T>>) -> (r: Self)
        ensures
            r.nodes == nodes,
            r.pos == 0,
    {
        Self { nodes, pos: 0 }
    }

    /// The next link at or after the current position, or `None` when only
    /// text nodes remain.
    pub fn next(&mut self) -> (r: Option<Link<'a, T>>)
        ensures
            final(self).nodes == old(self).nodes,
            match next_link_idx(old(self).nodes@, old(self).pos as int) {
                Some(j) => {
                    &&& final(self).pos == j + 1
                    &&& r matches Some(l) && old(self).nodes@[j] matches ContentNode::Link {
                        text,
                        target,
                    } && *l.text == text && *l.target == target
                },
                None => r is None && final(self).pos >= old(self).pos,
            },
    {
        let nodes = self.nodes;
        while self.pos < nodes.len()
            invariant
                self.nodes == old(self).nodes,
                nodes == self.nodes,
                old(self).pos <= self.pos,
                next_link_idx(old(self).nodes@, old(self).pos as int) == next_link_idx(
                    self.nodes@,
                    self.pos as int,
                ),
            decreases nodes@.len() - self.pos,
        {
            let node = &nodes[self.pos];
            if let ContentNode::Link { text, target } = node {
                self.pos = self.pos + 1;
                return Some(Link { text, target });
            }
            self.pos = self.pos + 1;
        }
        None
    }
}

} // verus!

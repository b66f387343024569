//! A generic owning n-ary tree: each node holds a datum and owns its
//! children in order. The condition engine builds its syntax trees out of
//! these nodes.

use vstd::prelude::*;

verus! {

pub struct Node<T> {
    pub children: Vec<Node<T>>,
    pub data: T,
}

impl<T> Node<T> {
    /// A leaf node holding `data`.
    pub fn new(data: T) -> (r: Node<T>)
        ensures
            r.data == data,
            r.children@.len() == 0,
    {
        Node { children: Vec::new(), data }
    }

    /// Appends a new leaf child holding `data`; returns its index.
    pub fn add_child(&mut self, data: T) -> (i: usize)
        requires
            old(self).children@.len() < usize::MAX,
        ensures
            final(self).data == old(self).data,
            final(self).children@.len() == old(self).children@.len() + 1,
            final(self).children@.subrange(0, old(self).children@.len() as int)
                == old(self).children@,
            final(self).children@[old(self).children@.len() as int].data == data,
            final(self).children@[old(self).children@.len() as int].children@.len() == 0,
            i == old(self).children@.len(),
    {
        let i = self.children.len();
        self.children.push(Node::new(data));
        assert(self.children@.subrange(0, old(self).children@.len() as int)
            =~= old(self).children@);
        i
    }
}

} // verus!

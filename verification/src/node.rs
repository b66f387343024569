//! A handle for one note of a storage: its id, whether it lives in the
//! archive, and the paths of its content and metadata files. The checks
//! for which files exist, and the moves between the live and archived
//! directories, are the caller's I/O; this module decides the paths and
//! the flag.

use vstd::prelude::*;
use vstd::string::StringExecFns;
use crate::storage::Storage;
use crate::storage::StorageV;
use crate::num::spec_u64_digits;
use crate::num::u64_to_string;

verus! {

/// One note of a storage.
pub struct Node<'a> {
    storage: &'a Storage,
    id: u64,
    archived: bool,
}

/// The mathematical content of a node handle.
pub struct NodeV {
    pub storage: StorageV,
    pub id: u64,
    pub archived: bool,
}

impl<'a> View for Node<'a> {
    type V = NodeV;

    closed spec fn view(&self) -> NodeV {
        NodeV { storage: self.storage@, id: self.id, archived: self.archived }
    }
}

/// Where a node's content file lives: under `nodes`, or under
/// `nodes/archive` for an archived node.
pub open spec fn spec_node_path(n: NodeV) -> Seq<char> {
    n.storage.path + "/nodes"@ + (if n.archived {
        "/archive"@
    } else {
        Seq::<char>::empty()
    }) + "/"@ + spec_u64_digits(n.id as nat)
}

/// Where a node's metadata file lives.
pub open spec fn spec_meta_path(n: NodeV) -> Seq<char> {
    n.storage.path + "/meta"@ + "/"@ + spec_u64_digits(n.id as nat)
}

impl<'a> Node<'a> {
    /// A handle for the node `id`, given which of its content files
    /// exist: the node counts as archived exactly when its plain file is
    /// missing and its archived file is present.
    pub fn new(storage: &'a Storage, id: u64, exists_plain: bool, exists_archived: bool)
        -> (r: Node<'a>)
        ensures
            r@.storage == storage@,
            r@.id == id,
            r@.archived == (!exists_plain && exists_archived),
    {
        let mut node = Node { storage, id, archived: false };
        if !exists_plain {
            node.archived = exists_archived;
        }
        node
    }

    /// A handle with the archive flag given directly.
    pub fn new_archived(storage: &'a Storage, id: u64, archived: bool) -> (r: Node<'a>)
        ensures
            r@.storage == storage@,
            r@.id == id,
            r@.archived == archived,
    {
        Node { storage, id, archived }
    }

    /// Returns the node's id.
    pub fn id(&self) -> (r: u64)
        ensures
            r == self@.id,
    {
        self.id
    }

    /// Returns the path of the node file.
    /// Does not guarantee it exists.
    pub fn node_path(&self) -> (r: String)
        ensures
            r@ == spec_node_path(self@),
    {
        let mut p = self.storage.path().clone();
        p.append("/nodes");
        if self.archived {
            p.append("/archive");
        }
        p.append("/");
        let ids = u64_to_string(self.id);
        p.append(ids.as_str());
        p
    }

    /// Returns the path of the node's meta file.
    /// Does not guarantee it exists.
    pub fn meta_path(&self) -> (r: String)
        ensures
            r@ == spec_meta_path(self@),
    {
        let mut p = self.storage.path().clone();
        p.append("/meta");
        p.append("/");
        let ids = u64_to_string(self.id);
        p.append(ids.as_str());
        p
    }

    /// Returns the associated storage.
    pub fn storage(&self) -> (r: &Storage)
        ensures
            r@ == self@.storage,
    {
        self.storage
    }

    /// Moves the handle to the archive (or back): sets the flag and
    /// hands the caller the file move it owes, from the old content path
    /// to the new one.
    pub fn archive(&mut self, a: bool) -> (r: (String, String))
        ensures
            final(self)@.storage == old(self)@.storage,
            final(self)@.id == old(self)@.id,
            final(self)@.archived == a,
            r.0@ == spec_node_path(old(self)@),
            r.1@ == spec_node_path(final(self)@),
    {
        let prev = self.node_path();
        self.archived = a;
        let now = self.node_path();
        (prev, now)
    }

    /// Flips the archive flag; returns the owed file move.
    pub fn toggle_archive(&mut self) -> (r: (String, String))
        ensures
            final(self)@.storage == old(self)@.storage,
            final(self)@.id == old(self)@.id,
            final(self)@.archived == !old(self)@.archived,
            r.0@ == spec_node_path(old(self)@),
            r.1@ == spec_node_path(final(self)@),
    {
        let a = !self.archived;
        self.archive(a)
    }

    /// Whether the handle points into the archive.
    pub fn archived(&self) -> (r: bool)
        ensures
            r == self@.archived,
    {
        self.archived
    }
}

} // verus!

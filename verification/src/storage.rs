//! A storage: a named directory of notes with a small state record (the
//! last allocated note id and the notes last touched). Reading and
//! writing the state file is the caller's business; this module holds
//! the state's meaning: id allocation, the `lc`/`le`/`lv`/`l` note
//! references, and the directory layout.

use vstd::prelude::*;
use vstd::string::StringExecFns;
use crate::toml;
use crate::toml::ValueS;
use crate::toml::spec_find;
use crate::num::spec_parse_u64;
use crate::num::parse_u64;
use crate::text::str_eq;

verus! {

/// The persisted counters of a storage.
pub struct StorageState {
    pub(crate) last_id: u64,
    pub(crate) last_edited: u64,
    pub(crate) last_viewed: u64,
    pub(crate) last: u64,
}

/// An opened storage: its name, its base path, and its state.
pub struct Storage {
    name: String,
    path: String,
    state: StorageState,
}

/// Why a storage could not be opened. The file-level cases are raised by
/// the caller that reads the state file; `Parse` is raised here when the
/// state document lacks a counter.
#[derive(Debug)]
pub enum LoadStorageError {
    InvalidName,
    NotFound,
    Open,
    Read,
    Parse,
}

/// The mathematical content of a storage.
pub struct StorageV {
    pub name: Seq<char>,
    pub path: Seq<char>,
    pub last_id: u64,
    pub last_edited: u64,
    pub last_viewed: u64,
    pub last: u64,
}

impl View for Storage {
    type V = StorageV;

    closed spec fn view(&self) -> StorageV {
        StorageV {
            name: self.name@,
            path: self.path@,
            last_id: self.state.last_id,
            last_edited: self.state.last_edited,
            last_viewed: self.state.last_viewed,
            last: self.state.last,
        }
    }
}

/// A counter read from the state document: the field must be present and
/// a non-negative integer.
pub open spec fn spec_state_field(v: ValueS, name: Seq<char>) -> Option<u64> {
    match spec_find(v, name) {
        Some(w) => match w {
            ValueS::Integer(i) => if 0 <= i <= u64::MAX {
                Some(i as u64)
            } else {
                None
            },
            _ => None,
        },
        _ => None,
    }
}

fn state_field(v: &toml::Value, name: &str) -> (r: Option<u64>)
    ensures
        r == spec_state_field(v@, name@),
{
    match toml::toml_find(v, name) {
        Some(w) => match w {
            toml::Value::Integer(i) => if *i >= 0 {
                Some(*i as u64)
            } else {
                None
            },
            _ => None,
        },
        None => None,
    }
}

/// What a note reference means: `lc` is the note created last, `le` the
/// one edited last, `lv` the one viewed last, `l` the one touched last;
/// anything else must be a decimal id.
pub open spec fn spec_node_ref(s: StorageV, name: Seq<char>) -> Option<u64> {
    if name == "lc"@ {
        Some(s.last_id)
    } else if name == "le"@ {
        Some(s.last_edited)
    } else if name == "lv"@ {
        Some(s.last_viewed)
    } else if name == "l"@ {
        Some(s.last)
    } else {
        spec_parse_u64(name)
    }
}

impl Storage {
    /// Builds the storage from its already-read state document; the four
    /// counters must be present as non-negative integers.
    pub fn load(name: &str, path: String, state: &toml::Value) -> (r: Result<
        Storage,
        LoadStorageError,
    >)
        ensures
            match r {
                Ok(s) => s@.name == name@ && s@.path == path@
                    && Some(s@.last_id) == spec_state_field(state@, "last_id"@)
                    && Some(s@.last_edited) == spec_state_field(state@, "last_edited"@)
                    && Some(s@.last_viewed) == spec_state_field(state@, "last_viewed"@)
                    && Some(s@.last) == spec_state_field(state@, "last"@),
                Err(e) => e is Parse && (spec_state_field(state@, "last_id"@) is None
                    || spec_state_field(state@, "last_edited"@) is None
                    || spec_state_field(state@, "last_viewed"@) is None
                    || spec_state_field(state@, "last"@) is None),
            },
    {
        let last_id = match state_field(state, "last_id") {
            Some(v) => v,
            None => {
                return Err(LoadStorageError::Parse);
            },
        };
        let last_edited = match state_field(state, "last_edited") {
            Some(v) => v,
            None => {
                return Err(LoadStorageError::Parse);
            },
        };
        let last_viewed = match state_field(state, "last_viewed") {
            Some(v) => v,
            None => {
                return Err(LoadStorageError::Parse);
            },
        };
        let last = match state_field(state, "last") {
            Some(v) => v,
            None => {
                return Err(LoadStorageError::Parse);
            },
        };
        Ok(Storage {
            name: name.to_owned(),
            path,
            state: StorageState { last_id, last_edited, last_viewed, last },
        })
    }

    /// Returns the next id that would be used for a node.
    /// Does not automatically increase it, see `use_id`.
    pub fn next_id(&self) -> (r: u64)
        requires
            self@.last_id < u64::MAX,
        ensures
            r == self@.last_id + 1,
    {
        self.state.last_id + 1
    }

    /// Uses the current `next_id`, i.e. increases the id counter.
    pub fn use_id(&mut self)
        requires
            old(self)@.last_id < u64::MAX,
        ensures
            final(self)@.last_id == old(self)@.last_id + 1,
            final(self)@.last == final(self)@.last_id,
            final(self)@.name == old(self)@.name,
            final(self)@.path == old(self)@.path,
            final(self)@.last_edited == old(self)@.last_edited,
            final(self)@.last_viewed == old(self)@.last_viewed,
    {
        self.state.last_id = self.state.last_id + 1;
        self.state.last = self.state.last_id;
    }

    /// Returns the path of this storage.
    pub fn path(&self) -> (r: &String)
        ensures
            r@ == self@.path,
    {
        &self.path
    }

    /// Returns the nodes path.
    pub fn nodes_path(&self) -> (r: String)
        ensures
            r@ == self@.path + "/nodes"@,
    {
        let mut p = self.path.clone();
        p.append("/nodes");
        p
    }

    /// Returns the name of this storage.
    pub fn name(&self) -> (r: &str)
        ensures
            r@ == self@.name,
    {
        self.name.as_str()
    }

    /// Updates the last edited field.
    pub fn edited(&mut self, id: u64)
        ensures
            final(self)@.last_edited == id,
            final(self)@.last == id,
            final(self)@.name == old(self)@.name,
            final(self)@.path == old(self)@.path,
            final(self)@.last_id == old(self)@.last_id,
            final(self)@.last_viewed == old(self)@.last_viewed,
    {
        self.state.last_edited = id;
        self.state.last = id;
    }

    /// Updates the last viewed field.
    pub fn viewed(&mut self, id: u64)
        ensures
            final(self)@.last_viewed == id,
            final(self)@.last == id,
            final(self)@.name == old(self)@.name,
            final(self)@.path == old(self)@.path,
            final(self)@.last_id == old(self)@.last_id,
            final(self)@.last_edited == old(self)@.last_edited,
    {
        self.state.last_viewed = id;
        self.state.last = id;
    }

    /// Tries to interpret the given string as a node name or id. Whether
    /// a node with that id exists is the caller's to check.
    pub fn parse(&self, name: &str) -> (r: Option<u64>)
        ensures
            r == spec_node_ref(self@, name@),
    {
        if str_eq(name, "lc") {
            Some(self.state.last_id)
        } else if str_eq(name, "le") {
            Some(self.state.last_edited)
        } else if str_eq(name, "lv") {
            Some(self.state.last_viewed)
        } else if str_eq(name, "l") {
            Some(self.state.last)
        } else {
            proof {
                reveal_strlit("lc");
                reveal_strlit("le");
                reveal_strlit("lv");
                reveal_strlit("l");
            }
            parse_u64(name)
        }
    }

    /// A handle for the note the next id would name; no files exist for
    /// it yet, so it is not archived.
    pub fn next_node<'a>(&'a self) -> (r: crate::node::Node<'a>)
        requires
            self@.last_id < u64::MAX,
        ensures
            r@.storage == self@,
            r@.id == self@.last_id + 1,
            !r@.archived,
    {
        let id = self.next_id();
        crate::node::Node::new_archived(self, id, false)
    }
}

} // verus!

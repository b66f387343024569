//! A thin owner around a metadata document, with free-function aliases
//! for the lookup and insertion operations.

use vstd::prelude::*;
use crate::toml;
use crate::toml::ValueS;
use crate::toml::spec_find;
use crate::toml::spec_set;
use crate::toml::value_view;
use crate::text::split_on;

verus! {

/// Represents a parsed metadata document.
pub struct Value {
    pub toml: toml::Value,
}

impl Value {
    /// Creates a new empty table value.
    pub fn new() -> (r: Value)
        ensures
            r.toml@ == ValueS::Table(Seq::<(Seq<char>, ValueS)>::empty()),
    {
        Value { toml: toml::Value::new() }
    }

    /// Looks the dotted `name` up in the document.
    pub fn get<'a>(&'a self, name: &str) -> (r: Option<&'a toml::Value>)
        ensures
            match r {
                Some(x) => spec_find(self.toml@, name@) == Some(x@),
                None => spec_find(self.toml@, name@) is None,
            },
    {
        toml::toml_find(&self.toml, name)
    }

    /// Sets the dotted `name` to `v`, creating tables on the way; false
    /// if a non-table stands in the way.
    pub fn set(&mut self, name: &str, v: toml::Value) -> (r: bool)
        ensures
            match spec_set(old(self).toml@, split_on(name@, '.'), value_view(v)) {
                Some(nv) => r && final(self).toml@ == nv,
                None => !r && final(self).toml@ == old(self).toml@,
            },
    {
        toml::toml_set(&mut self.toml, name, v)
    }
}

/// Creates a new empty toml table value.
pub fn toml_new() -> (r: toml::Value)
    ensures
        r@ == ValueS::Table(Seq::<(Seq<char>, ValueS)>::empty()),
{
    toml::Value::new()
}

/// Returns the value with the given name, if existent.
/// Can access sub tables, like `foo.bar.val`.
pub fn toml_get<'a>(v: &'a toml::Value, name: &str) -> (r: Option<&'a toml::Value>)
    ensures
        match r {
            Some(x) => spec_find(v@, name@) == Some(x@),
            None => spec_find(v@, name@) is None,
        },
{
    toml::toml_find(v, name)
}

/// Returns false if name cannot be inserted, e.g. when name is `foo.bar`
/// but `foo` is already a non-table value.
pub fn toml_set(v: &mut toml::Value, name: &str, val: toml::Value) -> (r: bool)
    ensures
        match spec_set(old(v)@, split_on(name@, '.'), value_view(val)) {
            Some(nv) => r && final(v)@ == nv,
            None => !r && final(v)@ == old(v)@,
        },
{
    toml::toml_set(v, name, val)
}

} // verus!

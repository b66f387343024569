//! The document model: a recursive, ordered key-to-value mapping holding a
//! note's parsed metadata, with dotted-path lookup and insertion.
//!
//! A floating-point value is carried as its decimal text, so that the
//! model stays within exactly representable data; `crate::dec` interprets
//! that text when two numbers are compared.

use vstd::prelude::*;
use crate::text::find_idx;
use crate::text::split_on;
use crate::text::str_to_chars;
use crate::text::find_char_from;
use crate::text::str_eq_range;
use crate::text::copy_range;
use crate::text::chars_to_string;

verus! {

broadcast use {vstd::std_specs::vec::group_vec_axioms, vstd::seq::group_seq_axioms};

/// A metadata value: a scalar, an array, or a nested table.
pub enum Value {
    String(String),
    Integer(i64),
    /// A floating-point number, as its decimal text.
    Float(String),
    Array(Vec<Value>),
    Table(Vec<(String, Value)>),
}

/// The mathematical shape of a `Value`.
pub enum ValueS {
    String(Seq<char>),
    Integer(int),
    Float(Seq<char>),
    Array(Seq<ValueS>),
    Table(Seq<(Seq<char>, ValueS)>),
}

pub open spec fn table_view(t: Seq<(String, Value)>) -> Seq<(Seq<char>, ValueS)>
    decreases t,
{
    Seq::new(
        t.len(),
        |i: int| if 0 <= i < t.len() {
            (t[i].0@, value_view(t[i].1))
        } else {
            (Seq::empty(), ValueS::Integer(0))
        },
    )
}

pub open spec fn value_view(v: Value) -> ValueS
    decreases v,
{
    match v {
        Value::String(s) => ValueS::String(s@),
        Value::Integer(i) => ValueS::Integer(i as int),
        Value::Float(f) => ValueS::Float(f@),
        Value::Array(a) => ValueS::Array(
            Seq::new(
                a@.len(),
                |i: int| if 0 <= i < a@.len() {
                    value_view(a[i])
                } else {
                    ValueS::Integer(0)
                },
            ),
        ),
        Value::Table(t) => ValueS::Table(table_view(t@)),
    }
}

impl View for Value {
    type V = ValueS;

    open spec fn view(&self) -> ValueS {
        value_view(*self)
    }
}

/// The value under `k` in a table: the first entry whose key is `k`.
pub open spec fn table_get(t: Seq<(Seq<char>, ValueS)>, k: Seq<char>) -> Option<ValueS>
    decreases t.len(),
{
    if t.len() == 0 {
        None
    } else if t[0].0 == k {
        Some(t[0].1)
    } else {
        table_get(t.drop_first(), k)
    }
}

/// `table_get` finds the first entry with the key, if any.
pub proof fn lemma_table_get_first(t: Seq<(Seq<char>, ValueS)>, k: Seq<char>)
    ensures
        match table_get(t, k) {
            Some(v) => exists|i: int|
                0 <= i < t.len() && #[trigger] t[i].0 == k && t[i].1 == v
                    && forall|j: int| 0 <= j < i ==> t[j].0 != k,
            None => forall|j: int| 0 <= j < t.len() ==> (#[trigger] t[j].0) != k,
        },
    decreases t.len(),
{
    if t.len() > 0 && t[0].0 != k {
        lemma_table_get_first(t.drop_first(), k);
        match table_get(t.drop_first(), k) {
            None => {
                assert forall|j: int| 0 <= j < t.len() implies (#[trigger] t[j].0) != k by {
                    if j > 0 {
                        assert(t.drop_first()[j - 1] == t[j]);
                    }
                }
            },
            Some(v) => {
                let i = choose|i: int|
                    0 <= i < t.drop_first().len() && #[trigger] t.drop_first()[i].0 == k
                        && t.drop_first()[i].1 == v
                        && forall|j: int| 0 <= j < i ==> t.drop_first()[j].0 != k;
                assert(t[i + 1] == t.drop_first()[i]);
                assert forall|j: int| 0 <= j < i + 1 implies t[j].0 != k by {
                    if j > 0 {
                        assert(t.drop_first()[j - 1] == t[j]);
                    }
                }
            },
        }
    }
}

/// Follows a sequence of keys through nested tables.
pub open spec fn lookup_path(v: ValueS, parts: Seq<Seq<char>>) -> Option<ValueS>
    decreases parts.len(),
{
    if parts.len() == 0 {
        Some(v)
    } else {
        match v {
            ValueS::Table(t) => match table_get(t, parts[0]) {
                Some(v2) => lookup_path(v2, parts.drop_first()),
                None => None,
            },
            _ => None,
        }
    }
}

/// Dotted-path lookup: `a.b.c` addresses nested tables.
pub open spec fn spec_find(v: ValueS, name: Seq<char>) -> Option<ValueS> {
    lookup_path(v, split_on(name, '.'))
}

/// First position in the table whose key equals `cs[from..to]`.
fn table_find_key(t: &Vec<(String, Value)>, cs: &Vec<char>, from: usize, to: usize)
    -> (r: Option<usize>)
    requires
        from <= to <= cs@.len(),
    ensures
        ({
            let k = cs@.subrange(from as int, to as int);
            let tv = table_view(t@);
            match r {
                Some(i) => i < tv.len() && tv[i as int].0 == k
                    && forall|j: int| 0 <= j < i ==> (#[trigger] tv[j].0) != k,
                None => forall|j: int| 0 <= j < tv.len() ==> (#[trigger] tv[j].0) != k,
            }
        }),
{
    let n = t.len();
    let mut i: usize = 0;
    while i < n
        invariant
            i <= n,
            n == t@.len(),
            from <= to <= cs@.len(),
            forall|j: int| 0 <= j < i
                ==> (#[trigger] table_view(t@)[j].0) != cs@.subrange(from as int, to as int),
        decreases n - i,
    {
        if str_eq_range(t[i].0.as_str(), cs, from, to) {
            proof {
                assert(table_view(t@)[i as int].0 == t@[i as int].0@);
            }
            return Some(i);
        }
        proof {
            assert(table_view(t@)[i as int].0 == t@[i as int].0@);
        }
        i += 1;
    }
    None
}

/// Lookup driver over the character form of the path, starting at `p`.
fn find_at<'a>(v: &'a Value, cs: &Vec<char>, p: usize) -> (r: Option<&'a Value>)
    requires
        p <= cs@.len(),
    ensures
        ({
            let parts = split_on(cs@.skip(p as int), '.');
            match r {
                Some(x) => lookup_path(v@, parts) == Some(x@),
                None => lookup_path(v@, parts) is None,
            }
        }),
    decreases cs@.len() - p,
{
    let ghost suffix = cs@.skip(p as int);
    let ghost parts = split_on(suffix, '.');
    let n = cs.len();
    match v {
        Value::Table(t) => {
            let seg = find_char_from(cs, '.', p);
            let end: usize = match seg {
                Some(off) => p + off,
                None => n,
            };
            proof {
                crate::text::lemma_find_idx(suffix, '.');
                match find_idx(suffix, '.') {
                    None => {
                        assert(parts == seq![suffix]);
                        assert(suffix =~= cs@.subrange(p as int, cs@.len() as int));
                        assert(parts[0] == cs@.subrange(p as int, end as int));
                    },
                    Some(off) => {
                        assert(parts == seq![suffix.take(off)] + split_on(suffix.skip(off + 1), '.'));
                        assert(suffix.take(off) =~= cs@.subrange(p as int, (p + off) as int));
                        assert(parts[0] == cs@.subrange(p as int, end as int));
                    },
                }
            }
            match table_find_key(t, cs, p, end) {
                Some(i) => {
                    proof {
                        lemma_table_get_first(table_view(t@), cs@.subrange(p as int, end as int));
                        assert(table_get(table_view(t@), parts[0])
                            == Some(table_view(t@)[i as int].1));
                        assert(table_view(t@)[i as int].1 == value_view(t@[i as int].1));
                    }
                    let sub: &Value = &t[i].1;
                    match seg {
                        Some(off) => {
                            proof {
                                assert(suffix.skip(off + 1) =~= cs@.skip((p + off + 1) as int));
                                assert((seq![suffix.take(off as int)]
                                    + split_on(suffix.skip(off + 1), '.')).drop_first()
                                    =~= split_on(suffix.skip(off + 1), '.'));
                            }
                            find_at(sub, cs, p + off + 1)
                        },
                        None => {
                            proof {
                                assert(parts.drop_first() =~= Seq::<Seq<char>>::empty());
                                assert(lookup_path(sub@, parts.drop_first()) == Some(sub@));
                            }
                            Some(sub)
                        },
                    }
                },
                None => {
                    proof {
                        lemma_table_get_first(table_view(t@), cs@.subrange(p as int, end as int));
                    }
                    None
                },
            }
        },
        _ => {
            proof {
                assert(parts.len() > 0);
            }
            None
        },
    }
}

/// Returns the value with the given name, if existent.
/// Can access sub tables, like `foo.bar.val`.
pub fn toml_find<'a>(v: &'a Value, name: &str) -> (r: Option<&'a Value>)
    ensures
        match r {
            Some(x) => spec_find(v@, name@) == Some(x@),
            None => spec_find(v@, name@) is None,
        },
{
    let cs = str_to_chars(name);
    proof {
        assert(cs@.skip(0) =~= name@);
    }
    find_at(v, &cs, 0)
}

/// Replaces the first entry with key `k`, or appends one.
pub open spec fn table_put(t: Seq<(Seq<char>, ValueS)>, k: Seq<char>, val: ValueS)
    -> Seq<(Seq<char>, ValueS)>
    decreases t.len(),
{
    if t.len() == 0 {
        seq![(k, val)]
    } else if t[0].0 == k {
        seq![(k, val)] + t.drop_first()
    } else {
        seq![t[0]] + table_put(t.drop_first(), k, val)
    }
}

/// Where the key already stands at `i`, putting updates that entry.
pub proof fn lemma_table_put_update(
    t: Seq<(Seq<char>, ValueS)>,
    k: Seq<char>,
    val: ValueS,
    i: int,
)
    requires
        0 <= i < t.len(),
        t[i].0 == k,
        forall|j: int| 0 <= j < i ==> (#[trigger] t[j].0) != k,
    ensures
        table_put(t, k, val) =~= t.update(i, (k, val)),
    decreases i,
{
    if i == 0 {
    } else {
        assert(t[0].0 != k);
        lemma_table_put_update(t.drop_first(), k, val, i - 1);
        assert forall|j: int| 0 <= j < i - 1 implies (#[trigger] t.drop_first()[j].0) != k by {
            assert(t.drop_first()[j] == t[j + 1]);
        }
        assert(t.drop_first()[i - 1] == t[i]);
        assert(table_put(t, k, val)
            =~= seq![t[0]] + t.drop_first().update(i - 1, (k, val)));
    }
}

/// Where the key is absent, putting appends.
pub proof fn lemma_table_put_append(t: Seq<(Seq<char>, ValueS)>, k: Seq<char>, val: ValueS)
    requires
        forall|j: int| 0 <= j < t.len() ==> (#[trigger] t[j].0) != k,
    ensures
        table_put(t, k, val) =~= t.push((k, val)),
    decreases t.len(),
{
    if t.len() > 0 {
        assert forall|j: int| 0 <= j < t.drop_first().len()
            implies (#[trigger] t.drop_first()[j].0) != k by {
            assert(t.drop_first()[j] == t[j + 1]);
        }
        lemma_table_put_append(t.drop_first(), k, val);
    }
}

/// Setting a dotted path: existing tables on the way are kept, missing
/// ones are created, and a non-table on the way refuses the whole set.
pub open spec fn spec_set(v: ValueS, parts: Seq<Seq<char>>, val: ValueS) -> Option<ValueS>
    decreases parts.len(),
{
    if parts.len() == 0 {
        Some(v)
    } else {
        match v {
            ValueS::Table(t) => if parts.len() == 1 {
                Some(ValueS::Table(table_put(t, parts[0], val)))
            } else {
                let sub = match table_get(t, parts[0]) {
                    Some(x) => x,
                    None => ValueS::Table(Seq::empty()),
                };
                match spec_set(sub, parts.drop_first(), val) {
                    Some(ns) => Some(ValueS::Table(table_put(t, parts[0], ns))),
                    None => None,
                }
            },
            _ => None,
        }
    }
}

impl Value {
    /// Creates a new empty table value.
    pub fn new() -> (r: Value)
        ensures
            r@ == ValueS::Table(Seq::<(Seq<char>, ValueS)>::empty()),
    {
        let v = Value::Table(Vec::new());
        proof {
            assert(table_view(Seq::<(String, Value)>::empty())
                =~= Seq::<(Seq<char>, ValueS)>::empty());
        }
        v
    }
}

/// Replaces or appends the entry for the key `cs[from..to]` in place.
fn table_put_exec(
    t: &mut Vec<(String, Value)>,
    cs: &Vec<char>,
    from: usize,
    to: usize,
    val: Value,
)
    requires
        from <= to <= cs@.len(),
    ensures
        table_view(final(t)@) == table_put(
            table_view(old(t)@),
            cs@.subrange(from as int, to as int),
            value_view(val),
        ),
{
    let ghost k = cs@.subrange(from as int, to as int);
    let ghost tv = table_view(t@);
    match table_find_key(t, cs, from, to) {
        Some(i) => {
            proof {
                lemma_table_put_update(tv, k, value_view(val), i as int);
            }
            let (key, _old) = t.remove(i);
            t.insert(i, (key, val));
            proof {
                assert(t@ =~= old(t)@.update(i as int, (old(t)@[i as int].0, val)));
                assert(table_view(t@) =~= tv.update(i as int, (k, value_view(val))));
            }
        },
        None => {
            proof {
                lemma_table_put_append(tv, k, value_view(val));
            }
            let key = chars_to_string(&copy_range(cs, from, to));
            t.push((key, val));
            proof {
                assert(table_view(t@) =~= tv.push((k, value_view(val))));
            }
        },
    }
}

/// Setting, by value: returns the new document and whether it succeeded;
/// on failure the document comes back unchanged.
fn set_value(v: Value, cs: &Vec<char>, p: usize, val: Value) -> (r: (Value, bool))
    requires
        p <= cs@.len(),
    ensures
        ({
            let parts = split_on(cs@.skip(p as int), '.');
            match spec_set(value_view(v), parts, value_view(val)) {
                Some(nv) => r.1 && value_view(r.0) == nv,
                None => !r.1 && value_view(r.0) == value_view(v),
            }
        }),
    decreases cs@.len() - p,
{
    let ghost suffix = cs@.skip(p as int);
    let ghost parts = split_on(suffix, '.');
    let n = cs.len();
    match v {
        Value::Table(mut t) => {
            let ghost tv = table_view(t@);
            let seg = find_char_from(cs, '.', p);
            let end: usize = match seg {
                Some(off) => p + off,
                None => n,
            };
            proof {
                crate::text::lemma_find_idx(suffix, '.');
                match find_idx(suffix, '.') {
                    None => {
                        assert(parts == seq![suffix]);
                        assert(suffix =~= cs@.subrange(p as int, cs@.len() as int));
                        assert(parts[0] == cs@.subrange(p as int, end as int));
                    },
                    Some(off) => {
                        assert(parts == seq![suffix.take(off)]
                            + split_on(suffix.skip(off + 1), '.'));
                        assert(suffix.take(off) =~= cs@.subrange(p as int, (p + off) as int));
                        assert(parts[0] == cs@.subrange(p as int, end as int));
                        assert(parts.drop_first() =~= split_on(suffix.skip(off + 1), '.'));
                        assert(suffix.skip(off + 1) =~= cs@.skip((end + 1) as int));
                    },
                }
            }
            match seg {
                None => {
                    table_put_exec(&mut t, cs, p, end, val);
                    (Value::Table(t), true)
                },
                Some(_off) => {
                    match table_find_key(&t, cs, p, end) {
                        Some(i) => {
                            proof {
                                lemma_table_get_first(tv, parts[0]);
                                assert(table_get(tv, parts[0]) == Some(tv[i as int].1));
                                assert(tv[i as int].1 == value_view(t@[i as int].1));
                            }
                            let ghost t0 = t@;
                            let (key, sub) = t.remove(i);
                            let ghost keyv = key@;
                            let ghost subv = value_view(sub);
                            let (nsub, ok) = set_value(sub, cs, end + 1, val);
                            let ghost nsubv = value_view(nsub);
                            t.insert(i, (key, nsub));
                            proof {
                                assert(t@ =~= t0.update(i as int, t@[i as int]));
                                assert(t@[i as int].0@ == keyv);
                                assert(value_view(t@[i as int].1) == nsubv);
                                assert(table_view(t@)
                                    =~= tv.update(i as int, (keyv, nsubv)));
                                if ok {
                                    lemma_table_put_update(tv, parts[0], nsubv, i as int);
                                } else {
                                    assert(nsubv == subv);
                                    assert(tv.update(i as int, (keyv, nsubv)) =~= tv);
                                }
                            }
                            (Value::Table(t), ok)
                        },
                        None => {
                            proof {
                                lemma_table_get_first(tv, parts[0]);
                            }
                            let (nsub, ok) = set_value(Value::Table(Vec::new()), cs, end + 1,
                                val);
                            proof {
                                assert(table_view(Seq::<(String, Value)>::empty())
                                    =~= Seq::<(Seq<char>, ValueS)>::empty());
                            }
                            if ok {
                                let key = chars_to_string(&copy_range(cs, p, end));
                                proof {
                                    lemma_table_put_append(tv, parts[0], value_view(nsub));
                                }
                                t.push((key, nsub));
                                proof {
                                    assert(table_view(t@)
                                        =~= tv.push((parts[0], value_view(nsub))));
                                }
                                (Value::Table(t), true)
                            } else {
                                (Value::Table(t), false)
                            }
                        },
                    }
                },
            }
        },
        other => (other, false),
    }
}

/// Returns false if name cannot be inserted, e.g. when name is `foo.bar`
/// but `foo` is already a non-table value; the document is then left
/// unchanged. Missing tables on the way are created.
pub fn toml_set(v: &mut Value, name: &str, val: Value) -> (r: bool)
    ensures
        match spec_set(old(v)@, split_on(name@, '.'), value_view(val)) {
            Some(nv) => r && final(v)@ == nv,
            None => !r && final(v)@ == old(v)@,
        },
{
    let cs = str_to_chars(name);
    proof {
        assert(cs@.skip(0) =~= name@);
    }
    let mut tmp = Value::Integer(0);
    core::mem::swap(v, &mut tmp);
    let (nv, ok) = set_value(tmp, &cs, 0, val);
    *v = nv;
    ok
}

} // verus!


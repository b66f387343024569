//! The condition pattern engine's tree and its evaluator. A pattern
//! parses to a tree of `Not` / `And` / `Or` nodes over leaf predicates;
//! evaluating the tree against a note's metadata (and, for the content
//! predicate `c`, its raw content) yields the keep/drop decision.

use vstd::prelude::*;
use crate::tree;
use crate::toml;
use crate::toml::Value;
use crate::toml::ValueS;
use crate::toml::spec_find;
use crate::re::regex_match;
use crate::re::CompiledRegex;
use crate::num::spec_parse_i64;
use crate::num::parse_i64;
use crate::dec::spec_dec_eq;
use crate::dec::dec_eq;
use crate::text::spec_contains;
use crate::text::split_on;
use crate::text::str_eq;
use crate::text::str_contains;
use crate::text::str_to_chars;
use crate::text::find_char_from;
use crate::text::copy_range;
use crate::text::chars_to_string;
use crate::text::find_idx;
use crate::text::lemma_find_idx;

verus! {

broadcast use {vstd::std_specs::vec::group_vec_axioms, vstd::seq::group_seq_axioms};

/// One matcher of a `Matches` predicate: a compiled regular expression
/// or a literal string.
pub enum MatchString {
    Match(CompiledRegex),
    String(String),
}

/// The operator of a leaf predicate.
pub enum CondType {
    Exists,
    Type(String),
    Equals(String),
    Matches(Vec<MatchString>),
    Smaller(String),
    Greater(String),
}

/// A leaf predicate: a field (or the content sentinel `c`) and an operator.
pub struct Cond {
    pub entry: String,
    pub cond_type: CondType,
}

/// What a tree node is: a connective or a leaf predicate.
pub enum CondNodeType {
    Not,
    And,
    Or,
    Cond(Cond),
}

pub type CondNode = tree::Node<CondNodeType>;

/// What the evaluator sees of one note: its parsed metadata and, if it
/// could be read, its raw content.
pub struct MetaNode<'a> {
    pub meta: &'a Value,
    pub content: Option<&'a str>,
}

// ---- mathematical shapes --------------------------------------------

pub enum MatchS {
    Re(Seq<char>),
    Lit(Seq<char>),
}

pub enum CondTypeS {
    Exists,
    Type(Seq<char>),
    Equals(Seq<char>),
    Matches(Seq<MatchS>),
    Smaller(Seq<char>),
    Greater(Seq<char>),
}

pub struct CondS {
    pub entry: Seq<char>,
    pub cond_type: CondTypeS,
}

pub enum KindS {
    Not,
    And,
    Or,
    Cond(CondS),
}

pub struct TreeS {
    pub kind: KindS,
    pub children: Seq<TreeS>,
}

impl View for MatchString {
    type V = MatchS;

    open spec fn view(&self) -> MatchS {
        match self {
            MatchString::Match(re) => MatchS::Re(re@),
            MatchString::String(s) => MatchS::Lit(s@),
        }
    }
}

pub open spec fn ms_view(ms: Seq<MatchString>) -> Seq<MatchS> {
    Seq::new(ms.len(), |i: int| if 0 <= i < ms.len() {
        ms[i]@
    } else {
        MatchS::Lit(Seq::empty())
    })
}

impl View for CondType {
    type V = CondTypeS;

    open spec fn view(&self) -> CondTypeS {
        match self {
            CondType::Exists => CondTypeS::Exists,
            CondType::Type(s) => CondTypeS::Type(s@),
            CondType::Equals(s) => CondTypeS::Equals(s@),
            CondType::Matches(ms) => CondTypeS::Matches(ms_view(ms@)),
            CondType::Smaller(s) => CondTypeS::Smaller(s@),
            CondType::Greater(s) => CondTypeS::Greater(s@),
        }
    }
}

impl View for Cond {
    type V = CondS;

    open spec fn view(&self) -> CondS {
        CondS { entry: self.entry@, cond_type: self.cond_type@ }
    }
}

pub open spec fn kind_view(d: CondNodeType) -> KindS {
    match d {
        CondNodeType::Not => KindS::Not,
        CondNodeType::And => KindS::And,
        CondNodeType::Or => KindS::Or,
        CondNodeType::Cond(c) => KindS::Cond(c@),
    }
}

/// The shape of a whole condition tree.
pub open spec fn tree_view(n: CondNode) -> TreeS
    decreases n,
{
    TreeS {
        kind: kind_view(n.data),
        children: Seq::new(
            n.children@.len(),
            |i: int| if 0 <= i < n.children@.len() {
                tree_view(n.children@[i])
            } else {
                TreeS { kind: KindS::And, children: Seq::empty() }
            },
        ),
    }
}

/// The shapes of a row of sibling trees.
pub open spec fn forest_view(v: Seq<tree::Node<CondNodeType>>) -> Seq<TreeS> {
    Seq::new(
        v.len(),
        |i: int| if 0 <= i < v.len() {
            tree_view(v[i])
        } else {
            TreeS { kind: KindS::And, children: Seq::empty() }
        },
    )
}

/// What the parser guarantees of every tree it builds: a `Not` node has
/// exactly one child and leaves have none.
pub open spec fn tree_wf(t: TreeS) -> bool
    decreases t,
{
    &&& (t.kind is Not ==> t.children.len() == 1)
    &&& (t.kind matches KindS::Cond(_) ==> t.children.len() == 0)
    &&& (forall|i: int| 0 <= i < t.children.len() ==> tree_wf(#[trigger] t.children[i]))
}

// ---- evaluation semantics -------------------------------------------

/// A matcher against a scalar string: regexes match anywhere, literals
/// are substrings.
pub open spec fn match_scalar(m: MatchS, s: Seq<char>) -> bool {
    match m {
        MatchS::Re(p) => regex_match(p, s),
        MatchS::Lit(l) => spec_contains(s, l),
    }
}

/// A matcher against one array element: regexes match anywhere, literals
/// must equal the element exactly.
pub open spec fn match_elem(m: MatchS, s: Seq<char>) -> bool {
    match m {
        MatchS::Re(p) => regex_match(p, s),
        MatchS::Lit(l) => s == l,
    }
}

/// Whether every element of the array is a string; an array holding
/// anything else fails the whole `Matches` predicate.
pub open spec fn all_strings(vs: Seq<ValueS>) -> bool {
    forall|j: int| 0 <= j < vs.len() ==> (#[trigger] vs[j]) is String
}

/// Whether some element of the array satisfies the matcher.
pub open spec fn some_elem_matches(vs: Seq<ValueS>, m: MatchS) -> bool {
    exists|j: int|
        0 <= j < vs.len() && ((#[trigger] vs[j]) matches ValueS::String(s) && match_elem(m, s))
}

/// Element-wise equality of an array against the comma-split tokens of
/// the operand: same length, each pair equal.
pub open spec fn spec_eq_toks(vs: Seq<ValueS>, toks: Seq<Seq<char>>) -> bool
    decreases vs,
{
    vs.len() == toks.len()
        && (forall|i: int| 0 <= i < vs.len() ==> spec_equals(#[trigger] vs[i], toks[i]))
}

/// The `=` predicate: strings compare exactly, integers and floats
/// numerically, arrays positionally against the comma-split operand;
/// tables never compare equal.
pub open spec fn spec_equals(a: ValueS, b: Seq<char>) -> bool
    decreases a,
{
    match a {
        ValueS::String(s) => s == b,
        ValueS::Integer(i) => match spec_parse_i64(b) {
            Some(x) => x as int == i,
            None => false,
        },
        ValueS::Float(f) => spec_dec_eq(f, b),
        ValueS::Array(vs) => spec_eq_toks(vs, split_on(b, ',')),
        ValueS::Table(_) => false,
    }
}

/// The `:` predicate: on a string every matcher must match it; on an
/// array of strings every matcher must be satisfied by some element,
/// and a non-string element anywhere in the array makes the predicate
/// false, whatever its position.
pub open spec fn spec_matches(a: ValueS, ms: Seq<MatchS>) -> bool {
    match a {
        ValueS::String(s) => forall|i: int| 0 <= i < ms.len() ==> match_scalar(#[trigger] ms[i], s),
        ValueS::Array(vs) => all_strings(vs)
            && (forall|i: int| 0 <= i < ms.len() ==> some_elem_matches(vs, #[trigger] ms[i])),
        _ => false,
    }
}

/// An operator applied to the note's raw content: unreadable content
/// fails; the content is always treated as one scalar string.
pub open spec fn spec_apply_content(ct: CondTypeS, content: Option<Seq<char>>) -> bool {
    match content {
        None => false,
        Some(s) => match ct {
            CondTypeS::Matches(ms) => forall|i: int|
                0 <= i < ms.len() ==> match_scalar(#[trigger] ms[i], s),
            CondTypeS::Equals(v) => s == v,
            _ => false,
        },
    }
}

/// One leaf predicate against a note. The field `c` reads the content;
/// any other field resolves as a dotted path into the metadata, a missing
/// field is simply false, and unimplemented operators are false.
pub open spec fn spec_check_cond(
    meta: ValueS,
    content: Option<Seq<char>>,
    entry: Seq<char>,
    ct: CondTypeS,
) -> bool {
    if entry == seq!['c'] {
        spec_apply_content(ct, content)
    } else {
        match spec_find(meta, entry) {
            None => false,
            Some(v) => match ct {
                CondTypeS::Equals(e) => spec_equals(v, e),
                CondTypeS::Matches(ms) => spec_matches(v, ms),
                // Exists, Type, Smaller, Greater: recognized but
                // unimplemented, always false
                _ => false,
            },
        }
    }
}

/// The whole tree against a note: `Not` negates its only child, `And`
/// needs every child, `Or` needs some child.
pub open spec fn spec_node_matches(t: TreeS, meta: ValueS, content: Option<Seq<char>>) -> bool
    decreases t,
{
    match t.kind {
        KindS::Not => if t.children.len() >= 1 {
            !spec_node_matches(t.children[0], meta, content)
        } else {
            true
        },
        KindS::And => forall|i: int|
            0 <= i < t.children.len()
                ==> spec_node_matches(#[trigger] t.children[i], meta, content),
        KindS::Or => exists|i: int|
            0 <= i < t.children.len()
                && spec_node_matches(#[trigger] t.children[i], meta, content),
        KindS::Cond(c) => spec_check_cond(meta, content, c.entry, c.cond_type),
    }
}

/// An absent tree (the empty pattern) matches every note.
pub open spec fn spec_evaluate(t: Option<TreeS>, meta: ValueS, content: Option<Seq<char>>) -> bool {
    match t {
        None => true,
        Some(x) => spec_node_matches(x, meta, content),
    }
}

pub open spec fn content_view(c: Option<&str>) -> Option<Seq<char>> {
    match c {
        Some(s) => Some(s@),
        None => None,
    }
}

// ---- the evaluator ---------------------------------------------------

/// Positional equality of the remaining array elements `arr[k..]` against
/// the remaining comma-split tokens of `cs[p..]`.
fn eq_tokens(arr: &Vec<Value>, k: usize, cs: &Vec<char>, p: usize) -> (r: bool)
    requires
        k <= arr@.len(),
        p <= cs@.len(),
    ensures
        r == spec_eq_toks(
            crate::toml::value_view(Value::Array(*arr))->Array_0.skip(k as int),
            split_on(cs@.skip(p as int), ','),
        ),
    decreases *arr, arr@.len() - k,
{
    let ghost vs = crate::toml::value_view(Value::Array(*arr))->Array_0.skip(k as int);
    let ghost toks = split_on(cs@.skip(p as int), ',');
    let n = cs.len();
    proof {
        lemma_find_idx(cs@.skip(p as int), ',');
    }
    let sep = find_char_from(cs, ',', p);
    let e: usize = match sep {
        Some(off) => p + off,
        None => n,
    };
    proof {
        match find_idx(cs@.skip(p as int), ',') {
            Some(off) => {
                assert(cs@.skip(p as int).take(off) =~= cs@.subrange(p as int, e as int));
                assert(cs@.skip(p as int).skip(off + 1) =~= cs@.skip((e + 1) as int));
            },
            None => {
                assert(cs@.skip(p as int) =~= cs@.subrange(p as int, e as int));
            },
        }
    }
    if k == arr.len() {
        proof {
            assert(vs.len() == 0);
            assert(toks.len() >= 1);
        }
        return false;
    }
    let tok = chars_to_string(&copy_range(cs, p, e));
    let first_ok = equals(&arr[k], tok.as_str());
    proof {
        assert(vs[0] == crate::toml::value_view(arr[k as int]));
    }
    if !first_ok {
        proof {
            if vs.len() == toks.len() {
                assert(!spec_equals(vs[0], toks[0]));
            }
        }
        return false;
    }
    match sep {
        Some(off) => {
            proof {
                assert(toks == seq![cs@.subrange(p as int, e as int)]
                    + split_on(cs@.skip((e + 1) as int), ','));
                assert(toks.drop_first() =~= split_on(cs@.skip((e + 1) as int), ','));
                assert(vs.drop_first() =~= crate::toml::value_view(
                    Value::Array(*arr),
                )->Array_0.skip((k + 1) as int));
            }
            let rest = eq_tokens(arr, k + 1, cs, e + 1);
            proof {
                if rest {
                    assert forall|i: int| 0 <= i < vs.len()
                        implies spec_equals(#[trigger] vs[i], toks[i]) by {
                        if i > 0 {
                            assert(vs[i] == vs.drop_first()[i - 1]);
                            assert(toks[i] == toks.drop_first()[i - 1]);
                        }
                    }
                } else {
                    if spec_eq_toks(vs, toks) {
                        assert forall|i: int| 0 <= i < vs.drop_first().len()
                            implies spec_equals(#[trigger] vs.drop_first()[i],
                                toks.drop_first()[i]) by {
                            assert(vs.drop_first()[i] == vs[i + 1]);
                            assert(toks.drop_first()[i] == toks[i + 1]);
                        }
                    }
                }
            }
            rest
        },
        None => {
            proof {
                assert(toks == seq![cs@.subrange(p as int, e as int)]);
                assert(toks.len() == 1);
            }
            let done = k + 1 == arr.len();
            proof {
                if done {
                    assert(vs.len() == 1);
                    assert forall|i: int| 0 <= i < vs.len()
                        implies spec_equals(#[trigger] vs[i], toks[i]) by {
                        assert(i == 0);
                    }
                }
            }
            done
        },
    }
}

/// The `=` predicate on one resolved value.
pub fn equals(a: &Value, b: &str) -> (r: bool)
    ensures
        r == spec_equals(a@, b@),
    decreases *a, 0nat,
{
    match a {
        Value::String(s) => str_eq(s.as_str(), b),
        Value::Integer(i) => match parse_i64(b) {
            Some(x) => x == *i,
            None => false,
        },
        Value::Float(f) => dec_eq(f.as_str(), b),
        Value::Array(arr) => {
            let cs = str_to_chars(b);
            proof {
                assert(cs@.skip(0) =~= b@);
                assert(crate::toml::value_view(Value::Array(*arr))->Array_0.skip(0)
                    =~= crate::toml::value_view(Value::Array(*arr))->Array_0);
            }
            eq_tokens(arr, 0, &cs, 0)
        },
        Value::Table(_) => false,
    }
}

/// Whether every element of the array is a string.
fn check_all_strings(arr: &Vec<Value>) -> (r: bool)
    ensures
        r == all_strings(crate::toml::value_view(Value::Array(*arr))->Array_0),
{
    let ghost vs = crate::toml::value_view(Value::Array(*arr))->Array_0;
    let n = arr.len();
    let mut j: usize = 0;
    while j < n
        invariant
            j <= n,
            n == arr@.len(),
            vs == crate::toml::value_view(Value::Array(*arr))->Array_0,
            vs.len() == n,
            forall|k: int| 0 <= k < j ==> (#[trigger] vs[k]) is String,
        decreases n - j,
    {
        proof {
            assert(vs[j as int] == crate::toml::value_view(arr[j as int]));
        }
        match &arr[j] {
            Value::String(_) => {},
            _ => {
                return false;
            },
        }
        j += 1;
    }
    true
}

/// Scans the array for a string element satisfying the matcher.
fn scan_array(arr: &Vec<Value>, m: &MatchString) -> (r: bool)
    ensures
        r == some_elem_matches(crate::toml::value_view(Value::Array(*arr))->Array_0, m@),
{
    let ghost vs = crate::toml::value_view(Value::Array(*arr))->Array_0;
    let n = arr.len();
    let mut j: usize = 0;
    while j < n
        invariant
            j <= n,
            n == arr@.len(),
            vs == crate::toml::value_view(Value::Array(*arr))->Array_0,
            vs.len() == n,
            forall|k: int| 0 <= k < j
                ==> !((#[trigger] vs[k]) matches ValueS::String(s) && match_elem(m@, s)),
        decreases n - j,
    {
        proof {
            assert(vs[j as int] == crate::toml::value_view(arr[j as int]));
        }
        match &arr[j] {
            Value::String(s) => {
                let ok = match m {
                    MatchString::Match(re) => re.is_match(s.as_str()),
                    MatchString::String(l) => str_eq(s.as_str(), l.as_str()),
                };
                if ok {
                    proof {
                        assert(vs[j as int] matches ValueS::String(e) && match_elem(m@, e));
                    }
                    return true;
                }
            },
            _ => {},
        }
        j += 1;
    }
    false
}

/// The `:` predicate on one resolved value.
pub fn matches(a: &Value, b: &Vec<MatchString>) -> (r: bool)
    ensures
        r == spec_matches(a@, ms_view(b@)),
{
    let ghost ms = ms_view(b@);
    let n = b.len();
    match a {
        Value::String(s) => {
            let mut i: usize = 0;
            while i < n
                invariant
                    i <= n,
                    n == b@.len(),
                    ms == ms_view(b@),
                    a@ == crate::toml::value_view(*a),
                    a@ matches ValueS::String(sv) && sv == s@,
                    forall|k: int| 0 <= k < i ==> match_scalar(#[trigger] ms[k], s@),
                decreases n - i,
            {
                let ok = match &b[i] {
                    MatchString::Match(re) => re.is_match(s.as_str()),
                    MatchString::String(l) => str_contains(s.as_str(), l.as_str()),
                };
                proof {
                    assert(ms[i as int] == b@[i as int]@);
                }
                if !ok {
                    proof {
                        assert(!match_scalar(ms[i as int], s@));
                    }
                    return false;
                }
                i += 1;
            }
            true
        },
        Value::Array(arr) => {
            if !check_all_strings(arr) {
                return false;
            }
            let mut i: usize = 0;
            while i < n
                invariant
                    i <= n,
                    n == b@.len(),
                    ms == ms_view(b@),
                    a@ == crate::toml::value_view(*a),
                    a@ matches ValueS::Array(vs)
                        && vs == crate::toml::value_view(Value::Array(*arr))->Array_0,
                    all_strings(crate::toml::value_view(Value::Array(*arr))->Array_0),
                    forall|k: int| 0 <= k < i
                        ==> some_elem_matches(
                            crate::toml::value_view(Value::Array(*arr))->Array_0,
                            #[trigger] ms[k],
                        ),
                decreases n - i,
            {
                proof {
                    assert(ms[i as int] == b@[i as int]@);
                }
                if !scan_array(arr, &b[i]) {
                    return false;
                }
                i += 1;
            }
            true
        },
        _ => false,
    }
}

/// One leaf predicate against a note.
pub fn check_cond(node: &MetaNode, cond: &Cond) -> (r: bool)
    ensures
        r == spec_check_cond(node.meta@, content_view(node.content), cond.entry@,
            cond.cond_type@),
{
    let is_content = str_eq(cond.entry.as_str(), "c");
    proof {
        reveal_strlit("c");
        assert("c"@ =~= seq!['c']);
    }
    if is_content {
        match node.content {
            None => false,
            Some(s) => match &cond.cond_type {
                CondType::Matches(ms) => {
                    let ghost msv = ms_view(ms@);
                    let n = ms.len();
                    let mut i: usize = 0;
                    while i < n
                        invariant
                            i <= n,
                            n == ms@.len(),
                            msv == ms_view(ms@),
                            cond.entry@ == seq!['c'],
                            content_view(node.content) == Some(s@),
                            cond.cond_type@ == CondTypeS::Matches(msv),
                            forall|k: int| 0 <= k < i ==> match_scalar(#[trigger] msv[k], s@),
                        decreases n - i,
                    {
                        let ok = match &ms[i] {
                            MatchString::Match(re) => re.is_match(s),
                            MatchString::String(l) => str_contains(s, l.as_str()),
                        };
                        proof {
                            assert(msv[i as int] == ms@[i as int]@);
                        }
                        if !ok {
                            proof {
                                assert(!match_scalar(msv[i as int], s@));
                                assert(cond.cond_type@ matches CondTypeS::Matches(m2)
                                    ==> m2 == msv);
                                assert(!spec_apply_content(cond.cond_type@,
                                    content_view(node.content)));
                                assert(!spec_check_cond(node.meta@, content_view(node.content),
                                    cond.entry@, cond.cond_type@));
                            }
                            return false;
                        }
                        i += 1;
                    }
                    true
                },
                CondType::Equals(v) => str_eq(s, v.as_str()),
                _ => false,
            },
        }
    } else {
        match toml::toml_find(node.meta, cond.entry.as_str()) {
            None => false,
            Some(v) => match &cond.cond_type {
                CondType::Equals(e) => equals(v, e.as_str()),
                CondType::Matches(ms) => matches(v, ms),
                _ => false,
            },
        }
    }
}

/// The whole tree against a note.
pub fn node_matches(node: &MetaNode, cond: &CondNode) -> (r: bool)
    requires
        tree_wf(tree_view(*cond)),
    ensures
        r == spec_node_matches(tree_view(*cond), node.meta@, content_view(node.content)),
    decreases *cond,
{
    let ghost t = tree_view(*cond);
    match &cond.data {
        CondNodeType::Not => {
            proof {
                assert(t.kind is Not);
                assert(t.children.len() == 1);
                assert(t.children[0] == tree_view(cond.children@[0]));
                assert(tree_wf(t.children[0]));
            }
            let inner = node_matches(node, &cond.children[0]);
            !inner
        },
        CondNodeType::And => {
            let n = cond.children.len();
            let mut i: usize = 0;
            while i < n
                invariant
                    i <= n,
                    n == cond.children@.len(),
                    t == tree_view(*cond),
                    tree_wf(t),
                    t.kind is And,
                    t.children.len() == n,
                    forall|k: int| 0 <= k < i
                        ==> spec_node_matches(#[trigger] t.children[k], node.meta@,
                            content_view(node.content)),
                decreases n - i,
            {
                proof {
                    assert(t.children[i as int] == tree_view(cond.children@[i as int]));
                    assert(tree_wf(t.children[i as int]));
                }
                if !node_matches(node, &cond.children[i]) {
                    return false;
                }
                i += 1;
            }
            true
        },
        CondNodeType::Or => {
            let n = cond.children.len();
            let mut i: usize = 0;
            while i < n
                invariant
                    i <= n,
                    n == cond.children@.len(),
                    t == tree_view(*cond),
                    tree_wf(t),
                    t.kind is Or,
                    t.children.len() == n,
                    forall|k: int| 0 <= k < i
                        ==> !spec_node_matches(#[trigger] t.children[k], node.meta@,
                            content_view(node.content)),
                decreases n - i,
            {
                proof {
                    assert(t.children[i as int] == tree_view(cond.children@[i as int]));
                    assert(tree_wf(t.children[i as int]));
                }
                if node_matches(node, &cond.children[i]) {
                    return true;
                }
                i += 1;
            }
            proof {
                assert forall|k: int|
                    !(0 <= k < t.children.len()
                        && spec_node_matches(#[trigger] t.children[k], node.meta@,
                            content_view(node.content))) by {}
            }
            false
        },
        CondNodeType::Cond(c) => {
            proof {
                assert(t.kind == KindS::Cond(c@));
            }
            check_cond(node, c)
        },
    }
}

/// A pattern against a note: the absent tree (empty pattern) matches
/// every note.
pub fn evaluate(tree: &Option<CondNode>, node: &MetaNode) -> (r: bool)
    requires
        tree matches Some(t) ==> tree_wf(tree_view(*t)),
    ensures
        r == spec_evaluate(
            match tree {
                Some(t) => Some(tree_view(*t)),
                None => None,
            },
            node.meta@,
            content_view(node.content),
        ),
{
    match tree {
        None => true,
        Some(t) => node_matches(node, t),
    }
}

} // verus!

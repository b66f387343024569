//! The executable pattern parser: a recursive descent that follows the
//! grammar of `crate::grammar` production by production, building the
//! condition tree and compiling regular expressions as it goes. Parsing
//! is total: every input yields a tree or a `ParseError`.

use vstd::prelude::*;
use crate::tree::Node;
use crate::pattern::CondNode;
use crate::pattern::CondNodeType;
use crate::pattern::Cond;
use crate::pattern::CondType;
use crate::pattern::MatchString;
use crate::pattern::TreeS;
use crate::pattern::tree_view;
use crate::pattern::forest_view;
use crate::pattern::tree_wf;
use crate::pattern::ms_view;
use crate::grammar::sp_value;
use crate::grammar::sp_matcher;
use crate::grammar::sp_matchlist;
use crate::grammar::sp_cond;
use crate::grammar::sp_pred;
use crate::grammar::sp_atom;
use crate::grammar::sp_not;
use crate::grammar::sp_or_list;
use crate::grammar::sp_or;
use crate::grammar::sp_and_list;
use crate::grammar::sp_and;
use crate::grammar::spec_parse;
use crate::grammar::value_stop;
use crate::grammar::ident_stop;
use crate::grammar::value_len;
use crate::grammar::ident_len;
use crate::grammar::lemma_value_len;
use crate::grammar::lemma_ident_len;
use crate::re::CompiledRegex;
use crate::text::find_idx;
use crate::text::find_char_from;
use crate::text::copy_range;
use crate::text::chars_to_string;
use crate::text::str_to_chars;

verus! {

broadcast use {vstd::std_specs::vec::group_vec_axioms, vstd::seq::group_seq_axioms};

/// Why a pattern was rejected.
#[derive(PartialEq, Eq, Structural, Clone, Copy, Debug)]
pub enum ParseErrorKind {
    /// A character that no production can begin or continue with.
    UnexpectedChar(char),
    /// The pattern ended inside a construct.
    UnexpectedEnd,
    /// A `<...>` matcher whose body is no valid regular expression.
    BadRegex,
}

/// A parse failure: where, and why.
#[derive(PartialEq, Eq, Structural, Clone, Copy, Debug)]
pub struct ParseError {
    /// Offset into the pattern, counted in characters — a deliberate
    /// choice: patterns are ASCII in practice, where character and byte
    /// offsets coincide, and the character count stays meaningful when
    /// they do not.
    pub offset: usize,
    pub kind: ParseErrorKind,
}

/// The failure report at position `at` of the remaining input: the
/// character there, or the end of the pattern.
pub open spec fn err_for(s: Seq<char>, at: int) -> (int, ParseErrorKind) {
    if at < s.len() {
        (at, ParseErrorKind::UnexpectedChar(s[at]))
    } else {
        (at, ParseErrorKind::UnexpectedEnd)
    }
}

/// Where and why a matcher fails to parse (consulted only when it does
/// fail): a bracketed body that is no valid regex, or no value at all.
pub open spec fn sp_matcher_err(s: Seq<char>) -> (int, ParseErrorKind) {
    if s.len() > 0 && s[0] == '<' && find_idx(s.drop_first(), '>') is Some {
        (0int, ParseErrorKind::BadRegex)
    } else {
        err_for(s, 0)
    }
}

/// Where and why an operator with its operand fails to parse; from a
/// matcher list only the first matcher's failure surfaces.
pub open spec fn sp_cond_err(s: Seq<char>) -> (int, ParseErrorKind) {
    if s.len() == 0 {
        err_for(s, 0)
    } else if s[0] == ':' {
        let e = sp_matcher_err(s.skip(1));
        (e.0 + 1, e.1)
    } else if s[0] == '=' || s[0] == '>' || s[0] == '<' {
        err_for(s, 1)
    } else {
        err_for(s, 0)
    }
}

/// Where and why a predicate fails to parse.
pub open spec fn sp_pred_err(s: Seq<char>) -> (int, ParseErrorKind) {
    if ident_len(s) == 0 {
        err_for(s, 0)
    } else {
        let e = sp_cond_err(s.skip(ident_len(s) as int));
        (e.0 + ident_len(s), e.1)
    }
}

/// Where and why the input fails to parse when no prefix of it is
/// produced by the grammar. A failing first element's report passes
/// unchanged through the list levels above the atom, so this one spec
/// pins the error of every level.
pub open spec fn sp_atom_err(s: Seq<char>) -> (int, ParseErrorKind)
    decreases s.len(),
{
    if s.len() > 0 && s[0] == '(' {
        match sp_and(s.skip(1)) {
            Some((t, n)) => err_for(s, 1 + n as int),
            None => {
                let e = sp_atom_err(s.skip(1));
                (e.0 + 1, e.1)
            },
        }
    } else {
        sp_pred_err(s)
    }
}

pub(crate) fn is_value_stop(c: char, in_list: bool) -> (r: bool)
    ensures
        r == value_stop(c, in_list),
{
    c == '|' || c == ';' || c == '(' || c == ')' || (in_list && c == ',')
}

fn is_ident_stop(c: char) -> (r: bool)
    ensures
        r == ident_stop(c),
{
    c == ':' || c == '=' || c == '<' || c == '>' || c == ';' || c == '|' || c == '(' || c == ')'
}

/// The failure for the character at `p`, or for running out of input.
fn err_at(cs: &Vec<char>, p: usize) -> (r: ParseError)
    requires
        p <= cs@.len(),
    ensures
        r.offset == p,
        r.kind == err_for(cs@.skip(p as int), 0).1,
{
    if p < cs.len() {
        proof {
            assert(cs@.skip(p as int)[0] == cs@[p as int]);
        }
        ParseError { offset: p, kind: ParseErrorKind::UnexpectedChar(cs[p]) }
    } else {
        ParseError { offset: p, kind: ParseErrorKind::UnexpectedEnd }
    }
}

/// A value at `p`: quoted, or a nonempty separator-free run.
fn p_value(cs: &Vec<char>, p: usize, in_list: bool) -> (r: Option<(String, usize)>)
    requires
        p <= cs@.len(),
    ensures
        match r {
            Some(t) => p < t.1 <= cs@.len()
                && sp_value(cs@.skip(p as int), in_list) == Some((t.0@, (t.1 - p) as nat)),
            None => sp_value(cs@.skip(p as int), in_list) is None,
        },
{
    let ghost s = cs@.skip(p as int);
    let n = cs.len();
    let quoted: Option<usize> = if p < n && cs[p] == '"' {
        proof {
            assert(s.drop_first() =~= cs@.skip((p + 1) as int));
        }
        find_char_from(cs, '"', p + 1)
    } else {
        None
    };
    if p < n && cs[p] == '"' {
        match quoted {
            Some(off) => {
                let v = chars_to_string(&copy_range(cs, p + 1, p + 1 + off));
                proof {
                    assert(find_idx(s.drop_first(), '"') == Some(off as int));
                    assert(s.subrange(1, 1 + off)
                        =~= cs@.subrange((p + 1) as int, (p + 1 + off) as int));
                }
                return Some((v, p + off + 2));
            },
            None => {
                proof {
                    assert(find_idx(s.drop_first(), '"') is None);
                }
            },
        }
    }
    // an unquoted run
    let mut i: usize = p;
    while i < n && !is_value_stop(cs[i], in_list)
        invariant
            p <= i <= n,
            n == cs@.len(),
            forall|j: int| p <= j < i ==> !value_stop(#[trigger] cs@[j], in_list),
        decreases n - i,
    {
        i += 1;
    }
    proof {
        lemma_value_len(s, in_list);
        assert(forall|j: int| 0 <= j < i - p ==> s[j] == cs@[j + p]);
        if i < n {
            assert(s[(i - p) as int] == cs@[i as int]);
        }
        assert(value_len(s, in_list) == i - p);
    }
    if i == p {
        None
    } else {
        let v = chars_to_string(&copy_range(cs, p, i));
        proof {
            assert(s.take((i - p) as int) =~= cs@.subrange(p as int, i as int));
        }
        Some((v, i))
    }
}

/// A matcher at `p`: a regex in angle brackets, or a literal value.
fn p_matcher(cs: &Vec<char>, p: usize) -> (r: Result<(MatchString, usize), ParseError>)
    requires
        p <= cs@.len(),
    ensures
        match r {
            Ok(t) => p < t.1 <= cs@.len()
                && sp_matcher(cs@.skip(p as int)) == Some((t.0@, (t.1 - p) as nat)),
            Err(e) => sp_matcher(cs@.skip(p as int)) is None
                && e.offset == p + sp_matcher_err(cs@.skip(p as int)).0
                && e.kind == sp_matcher_err(cs@.skip(p as int)).1
                && e.offset <= cs@.len(),
        },
{
    let ghost s = cs@.skip(p as int);
    let n = cs.len();
    let closed: Option<usize> = if p < n && cs[p] == '<' {
        proof {
            assert(s.drop_first() =~= cs@.skip((p + 1) as int));
        }
        find_char_from(cs, '>', p + 1)
    } else {
        None
    };
    if p < n && cs[p] == '<' {
        match closed {
            Some(off) => {
                let body = chars_to_string(&copy_range(cs, p + 1, p + 1 + off));
                proof {
                    assert(find_idx(s.drop_first(), '>') == Some(off as int));
                    assert(s.subrange(1, 1 + off)
                        =~= cs@.subrange((p + 1) as int, (p + 1 + off) as int));
                }
                return match CompiledRegex::compile(body.as_str()) {
                    Some(re) => Ok((MatchString::Match(re), p + off + 2)),
                    None => Err(ParseError { offset: p, kind: ParseErrorKind::BadRegex }),
                };
            },
            None => {
                proof {
                    assert(find_idx(s.drop_first(), '>') is None);
                }
            },
        }
    }
    match p_value(cs, p, true) {
        Some((v, q)) => Ok((MatchString::String(v), q)),
        None => Err(err_at(cs, p)),
    }
}

/// One or more matchers separated by commas.
fn p_matchlist(cs: &Vec<char>, p: usize) -> (r: Result<(Vec<MatchString>, usize), ParseError>)
    requires
        p <= cs@.len(),
    ensures
        match r {
            Ok(t) => p < t.1 <= cs@.len()
                && sp_matchlist(cs@.skip(p as int)) == Some((ms_view(t.0@), (t.1 - p) as nat)),
            Err(e) => sp_matchlist(cs@.skip(p as int)) is None
                && e.offset == p + sp_matcher_err(cs@.skip(p as int)).0
                && e.kind == sp_matcher_err(cs@.skip(p as int)).1
                && e.offset <= cs@.len(),
        },
    decreases cs@.len() - p,
{
    let ghost s = cs@.skip(p as int);
    let n = cs.len();
    let (m, q) = match p_matcher(cs, p) {
        Ok(t) => t,
        Err(e) => {
            return Err(e);
        },
    };
    let ghost mn = (q - p) as nat;
    if q < n && cs[q] == ',' {
        proof {
            assert(s[mn as int] == cs@[q as int]);
            assert(s.skip(mn + 1 as int) =~= cs@.skip((q + 1) as int));
        }
        match p_matchlist(cs, q + 1) {
            Ok((mut rest, q2)) => {
                let ghost restv = rest@;
                rest.insert(0, m);
                proof {
                    assert(ms_view(rest@) =~= seq![rest@[0]@] + ms_view(restv));
                }
                Ok((rest, q2))
            },
            Err(_) => {
                let v = make_singleton_m(m);
                Ok((v, q))
            },
        }
    } else {
        let v = make_singleton_m(m);
        Ok((v, q))
    }
}

fn make_singleton_m(m: MatchString) -> (r: Vec<MatchString>)
    ensures
        ms_view(r@) == seq![m@],
{
    let mut v: Vec<MatchString> = Vec::new();
    v.push(m);
    proof {
        assert(ms_view(v@) =~= seq![v@[0]@]);
    }
    v
}

/// The operator of a predicate, with its operand.
fn p_cond(cs: &Vec<char>, p: usize) -> (r: Result<(CondType, usize), ParseError>)
    requires
        p <= cs@.len(),
    ensures
        match r {
            Ok(t) => p < t.1 <= cs@.len()
                && sp_cond(cs@.skip(p as int)) == Some((t.0@, (t.1 - p) as nat)),
            Err(e) => sp_cond(cs@.skip(p as int)) is None
                && e.offset == p + sp_cond_err(cs@.skip(p as int)).0
                && e.kind == sp_cond_err(cs@.skip(p as int)).1
                && e.offset <= cs@.len(),
        },
{
    let ghost s = cs@.skip(p as int);
    let n = cs.len();
    if p == n {
        return Err(err_at(cs, p));
    }
    let c = cs[p];
    proof {
        assert(s[0] == cs@[p as int]);
        assert(s.skip(1) =~= cs@.skip((p + 1) as int));
    }
    if c == ':' {
        match p_matchlist(cs, p + 1) {
            Ok((ms, q)) => Ok((CondType::Matches(ms), q)),
            Err(e) => Err(e),
        }
    } else if c == '=' {
        match p_value(cs, p + 1, false) {
            Some((v, q)) => Ok((CondType::Equals(v), q)),
            None => Err(err_at(cs, p + 1)),
        }
    } else if c == '>' {
        match p_value(cs, p + 1, false) {
            Some((v, q)) => Ok((CondType::Greater(v), q)),
            None => Err(err_at(cs, p + 1)),
        }
    } else if c == '<' {
        match p_value(cs, p + 1, false) {
            Some((v, q)) => Ok((CondType::Smaller(v), q)),
            None => Err(err_at(cs, p + 1)),
        }
    } else {
        Err(err_at(cs, p))
    }
}

/// A predicate: identifier, then operator.
fn p_pred(cs: &Vec<char>, p: usize) -> (r: Result<(CondNode, usize), ParseError>)
    requires
        p <= cs@.len(),
    ensures
        match r {
            Ok(t) => p < t.1 <= cs@.len()
                && sp_pred(cs@.skip(p as int)) == Some((tree_view(t.0), (t.1 - p) as nat))
                && tree_wf(tree_view(t.0)),
            Err(e) => sp_pred(cs@.skip(p as int)) is None
                && e.offset == p + sp_pred_err(cs@.skip(p as int)).0
                && e.kind == sp_pred_err(cs@.skip(p as int)).1
                && e.offset <= cs@.len(),
        },
{
    let ghost s = cs@.skip(p as int);
    let n = cs.len();
    let mut i: usize = p;
    while i < n && !is_ident_stop(cs[i])
        invariant
            p <= i <= n,
            n == cs@.len(),
            forall|j: int| p <= j < i ==> !ident_stop(#[trigger] cs@[j]),
        decreases n - i,
    {
        i += 1;
    }
    proof {
        lemma_ident_len(s);
        assert(forall|j: int| 0 <= j < i - p ==> s[j] == cs@[j + p]);
        if i < n {
            assert(s[(i - p) as int] == cs@[i as int]);
        }
        assert(ident_len(s) == i - p);
    }
    if i == p {
        return Err(err_at(cs, p));
    }
    proof {
        assert(s.skip((i - p) as int) =~= cs@.skip(i as int));
        assert(s.take((i - p) as int) =~= cs@.subrange(p as int, i as int));
    }
    match p_cond(cs, i) {
        Ok((ct, q)) => {
            let entry = chars_to_string(&copy_range(cs, p, i));
            let node = Node { children: Vec::new(), data: CondNodeType::Cond(Cond {
                entry,
                cond_type: ct,
            }) };
            proof {
                assert(tree_view(node).children =~= Seq::<TreeS>::empty());
            }
            Ok((node, q))
        },
        Err(e) => Err(e),
    }
}

/// An atom: a parenthesized group or a predicate.
#[verifier::rlimit(100)]
#[verifier::spinoff_prover]
fn p_atom(cs: &Vec<char>, p: usize) -> (r: Result<(CondNode, usize), ParseError>)
    requires
        p <= cs@.len(),
    ensures
        match r {
            Ok(t) => p < t.1 <= cs@.len()
                && sp_atom(cs@.skip(p as int)) == Some((tree_view(t.0), (t.1 - p) as nat))
                && tree_wf(tree_view(t.0)),
            Err(e) => sp_atom(cs@.skip(p as int)) is None
                && e.offset == p + sp_atom_err(cs@.skip(p as int)).0
                && e.kind == sp_atom_err(cs@.skip(p as int)).1
                && e.offset <= cs@.len(),
        },
    decreases cs@.len() - p, 0int,
{
    let ghost s = cs@.skip(p as int);
    let n = cs.len();
    if p < n && cs[p] == '(' {
        proof {
            assert(s[0] == cs@[p as int]);
            assert(s.skip(1) =~= cs@.skip((p + 1) as int));
        }
        match p_and(cs, p + 1) {
            Ok((t, q)) => {
                proof {
                    assert(sp_and(s.skip(1)) == Some((tree_view(t), (q - p - 1) as nat)));
                }
                if q < n && cs[q] == ')' {
                    proof {
                        assert(s[(q - p) as int] == cs@[q as int]);
                    }
                    Ok((t, q + 1))
                } else {
                    Err(err_at(cs, q))
                }
            },
            Err(e) => Err(e),
        }
    } else {
        p_pred(cs, p)
    }
}

/// A negation of one atom, or a plain atom; a `!` that no atom follows
/// is read as the head of an identifier.
fn p_not(cs: &Vec<char>, p: usize) -> (r: Result<(CondNode, usize), ParseError>)
    requires
        p <= cs@.len(),
    ensures
        match r {
            Ok(t) => p < t.1 <= cs@.len()
                && sp_not(cs@.skip(p as int)) == Some((tree_view(t.0), (t.1 - p) as nat))
                && tree_wf(tree_view(t.0)),
            Err(e) => sp_not(cs@.skip(p as int)) is None
                && e.offset == p + sp_atom_err(cs@.skip(p as int)).0
                && e.kind == sp_atom_err(cs@.skip(p as int)).1
                && e.offset <= cs@.len(),
        },
    decreases cs@.len() - p, 1int,
{
    let ghost s = cs@.skip(p as int);
    let n = cs.len();
    if p < n && cs[p] == '!' {
        proof {
            assert(s[0] == cs@[p as int]);
            assert(s.skip(1) =~= cs@.skip((p + 1) as int));
        }
        match p_atom(cs, p + 1) {
            Ok((t, q)) => {
                let mut children: Vec<CondNode> = Vec::new();
                children.push(t);
                let node = Node { children, data: CondNodeType::Not };
                proof {
                    assert(tree_view(node).children =~= seq![tree_view(node.children@[0])]);
                }
                Ok((node, q))
            },
            Err(_) => p_atom(cs, p),
        }
    } else {
        p_atom(cs, p)
    }
}

/// One or more `|`-separated elements, as siblings.
fn p_or_list(cs: &Vec<char>, p: usize) -> (r: Result<(Vec<CondNode>, usize), ParseError>)
    requires
        p <= cs@.len(),
    ensures
        match r {
            Ok(t) => p < t.1 <= cs@.len()
                && sp_or_list(cs@.skip(p as int))
                    == Some((forest_view(t.0@), (t.1 - p) as nat))
                && (forall|i: int| 0 <= i < t.0@.len()
                    ==> tree_wf(#[trigger] forest_view(t.0@)[i])),
            Err(e) => sp_or_list(cs@.skip(p as int)) is None
                && e.offset == p + sp_atom_err(cs@.skip(p as int)).0
                && e.kind == sp_atom_err(cs@.skip(p as int)).1
                && e.offset <= cs@.len(),
        },
    decreases cs@.len() - p, 2int,
{
    let ghost s = cs@.skip(p as int);
    let n = cs.len();
    let (t0, q) = match p_not(cs, p) {
        Ok(t) => t,
        Err(e) => {
            return Err(e);
        },
    };
    let ghost n0 = (q - p) as nat;
    if q < n && cs[q] == '|' {
        proof {
            assert(s[n0 as int] == cs@[q as int]);
            assert(s.skip(n0 + 1 as int) =~= cs@.skip((q + 1) as int));
        }
        match p_or_list(cs, q + 1) {
            Ok((mut rest, q2)) => {
                let ghost restv = rest@;
                rest.insert(0, t0);
                proof {
                    assert(forest_view(rest@) =~= seq![tree_view(rest@[0])]
                        + forest_view(restv));
                }
                Ok((rest, q2))
            },
            Err(_) => {
                let v = make_singleton_n(t0);
                Ok((v, q))
            },
        }
    } else {
        let v = make_singleton_n(t0);
        Ok((v, q))
    }
}

fn make_singleton_n(t: CondNode) -> (r: Vec<CondNode>)
    ensures
        forest_view(r@) == seq![tree_view(t)],
        r@.len() == 1,
        r@[0] == t,
{
    let mut v: Vec<CondNode> = Vec::new();
    v.push(t);
    proof {
        assert(forest_view(v@) =~= seq![tree_view(v@[0])]);
    }
    v
}

/// A disjunction: `|`-separated elements, one collapsing to itself.
fn p_or(cs: &Vec<char>, p: usize) -> (r: Result<(CondNode, usize), ParseError>)
    requires
        p <= cs@.len(),
    ensures
        match r {
            Ok(t) => p < t.1 <= cs@.len()
                && sp_or(cs@.skip(p as int)) == Some((tree_view(t.0), (t.1 - p) as nat))
                && tree_wf(tree_view(t.0)),
            Err(e) => sp_or(cs@.skip(p as int)) is None
                && e.offset == p + sp_atom_err(cs@.skip(p as int)).0
                && e.kind == sp_atom_err(cs@.skip(p as int)).1
                && e.offset <= cs@.len(),
        },
    decreases cs@.len() - p, 3int,
{
    match p_or_list(cs, p) {
        Ok((mut v, q)) => {
            if v.len() == 1 {
                let t = v.remove(0);
                proof {
                    assert(forest_view(v@.insert(0, t))[0] == tree_view(t));
                }
                Ok((t, q))
            } else {
                let node = Node { children: v, data: CondNodeType::Or };
                proof {
                    assert(tree_view(node).children =~= forest_view(node.children@));
                }
                Ok((node, q))
            }
        },
        Err(e) => Err(e),
    }
}

/// One or more `;`-separated elements, as siblings.
#[verifier::rlimit(100)]
#[verifier::spinoff_prover]
fn p_and_list(cs: &Vec<char>, p: usize) -> (r: Result<(Vec<CondNode>, usize), ParseError>)
    requires
        p <= cs@.len(),
    ensures
        match r {
            Ok(t) => p < t.1 <= cs@.len()
                && sp_and_list(cs@.skip(p as int))
                    == Some((forest_view(t.0@), (t.1 - p) as nat))
                && (forall|i: int| 0 <= i < t.0@.len()
                    ==> tree_wf(#[trigger] forest_view(t.0@)[i])),
            Err(e) => sp_and_list(cs@.skip(p as int)) is None
                && e.offset == p + sp_atom_err(cs@.skip(p as int)).0
                && e.kind == sp_atom_err(cs@.skip(p as int)).1
                && e.offset <= cs@.len(),
        },
    decreases cs@.len() - p, 4int,
{
    let ghost s = cs@.skip(p as int);
    let n = cs.len();
    let (t0, q) = match p_or(cs, p) {
        Ok(t) => t,
        Err(e) => {
            return Err(e);
        },
    };
    let ghost n0 = (q - p) as nat;
    if q < n && cs[q] == ';' {
        proof {
            assert(s[n0 as int] == cs@[q as int]);
            assert(s.skip(n0 + 1 as int) =~= cs@.skip((q + 1) as int));
        }
        match p_and_list(cs, q + 1) {
            Ok((mut rest, q2)) => {
                let ghost restv = rest@;
                rest.insert(0, t0);
                proof {
                    assert(forest_view(rest@) =~= seq![tree_view(rest@[0])]
                        + forest_view(restv));
                }
                Ok((rest, q2))
            },
            Err(_) => {
                let v = make_singleton_n(t0);
                Ok((v, q))
            },
        }
    } else {
        let v = make_singleton_n(t0);
        Ok((v, q))
    }
}

/// A conjunction: the whole grammar at one position.
fn p_and(cs: &Vec<char>, p: usize) -> (r: Result<(CondNode, usize), ParseError>)
    requires
        p <= cs@.len(),
    ensures
        match r {
            Ok(t) => p < t.1 <= cs@.len()
                && sp_and(cs@.skip(p as int)) == Some((tree_view(t.0), (t.1 - p) as nat))
                && tree_wf(tree_view(t.0)),
            Err(e) => sp_and(cs@.skip(p as int)) is None
                && e.offset == p + sp_atom_err(cs@.skip(p as int)).0
                && e.kind == sp_atom_err(cs@.skip(p as int)).1
                && e.offset <= cs@.len(),
        },
    decreases cs@.len() - p, 5int,
{
    match p_and_list(cs, p) {
        Ok((mut v, q)) => {
            if v.len() == 1 {
                let t = v.remove(0);
                proof {
                    assert(forest_view(v@.insert(0, t))[0] == tree_view(t));
                }
                Ok((t, q))
            } else {
                let node = Node { children: v, data: CondNodeType::And };
                proof {
                    assert(tree_view(node).children =~= forest_view(node.children@));
                }
                Ok((node, q))
            }
        },
        Err(e) => Err(e),
    }
}

/// Parses a whole pattern. The empty pattern is valid and yields no tree
/// (which matches every note); any other input must be produced by the
/// grammar in full, or a `ParseError` says where it first goes wrong.
/// Parsing never panics: every input yields `Ok` or `Err`, and `Err`
/// comes exactly on the inputs the grammar does not produce.
pub fn parse_condition(pattern: &str) -> (r: Result<Option<CondNode>, ParseError>)
    ensures
        match r {
            Ok(ot) => spec_parse(pattern@) == Some(
                match ot {
                    Some(nd) => Some(tree_view(nd)),
                    None => None::<TreeS>,
                },
            ) && (ot matches Some(nd) ==> tree_wf(tree_view(nd))),
            Err(e) => spec_parse(pattern@) is None && pattern@.len() > 0
                && e.offset <= pattern@.len()
                && (match sp_and(pattern@) {
                    Some((t, n)) => e.offset == n
                        && e.kind == ParseErrorKind::UnexpectedChar(pattern@[n as int]),
                    None => e.offset == sp_atom_err(pattern@).0
                        && e.kind == sp_atom_err(pattern@).1,
                }),
        },
        (pattern@.len() > 0 && sp_and(pattern@) is Some
            && (sp_and(pattern@)->0).1 < pattern@.len())
            ==> (r matches Err(e) && e.offset == (sp_and(pattern@)->0).1
                && e.kind == ParseErrorKind::UnexpectedChar(
                    pattern@[(sp_and(pattern@)->0).1 as int],
                )),
{
    let cs = str_to_chars(pattern);
    proof {
        assert(cs@.skip(0) =~= pattern@);
    }
    if cs.len() == 0 {
        return Ok(None);
    }
    match p_and(&cs, 0) {
        Ok((t, q)) => {
            if q == cs.len() {
                Ok(Some(t))
            } else {
                Err(ParseError { offset: q, kind: ParseErrorKind::UnexpectedChar(cs[q]) })
            }
        },
        Err(e) => Err(e),
    }
}

} // verus!

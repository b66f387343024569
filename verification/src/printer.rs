//! Rendering a condition tree back to text, in two forms. The diagnostic
//! form mirrors the tree with `!(...)`, `(... && ...)`, `(... || ...)`,
//! `(field == value)` and `(field matches [...])`. The pattern form emits
//! grammar syntax again (`;`, `|`, `!`, parentheses, quoting values that
//! hold separators), so that printing and re-parsing reproduces a tree
//! that evaluates the same.

use vstd::prelude::*;
use crate::pattern::CondNode;
use crate::pattern::CondNodeType;
use crate::pattern::Cond;
use crate::pattern::CondType;
use crate::pattern::MatchString;
use crate::pattern::MatchS;
use crate::pattern::CondS;
use crate::pattern::CondTypeS;
use crate::pattern::TreeS;
use crate::pattern::KindS;
use crate::pattern::tree_view;
use crate::pattern::forest_view;
use crate::pattern::ms_view;
use crate::grammar::value_stop;
use crate::text::chars_to_string;

verus! {

broadcast use {vstd::std_specs::vec::group_vec_axioms, vstd::seq::group_seq_axioms};

// ---- the diagnostic form --------------------------------------------

pub open spec fn diag_matcher(m: MatchS) -> Seq<char> {
    match m {
        MatchS::Lit(l) => l,
        MatchS::Re(p) => seq!['<'] + p + seq!['>'],
    }
}

pub open spec fn diag_matchers(ms: Seq<MatchS>) -> Seq<char>
    decreases ms.len(),
{
    if ms.len() == 0 {
        Seq::empty()
    } else if ms.len() == 1 {
        diag_matcher(ms[0])
    } else {
        diag_matcher(ms[0]) + seq![',', ' '] + diag_matchers(ms.drop_first())
    }
}

pub open spec fn diag_pred(c: CondS) -> Seq<char> {
    match c.cond_type {
        CondTypeS::Exists => seq!['e', 'x', 'i', 's', 't', 's', '('] + c.entry + seq![')'],
        CondTypeS::Equals(v) => seq!['('] + c.entry + seq![' ', '=', '=', ' '] + v + seq![')'],
        CondTypeS::Matches(ms) => seq!['('] + c.entry
            + seq![' ', 'm', 'a', 't', 'c', 'h', 'e', 's', ' ', '[']
            + diag_matchers(ms) + seq![']', ')'],
        _ => seq!['<', 'n', 'o', 't', ' ', 'i', 'm', 'p', 'l', 'e', 'm', 'e', 'n', 't', 'e',
            'd', '>'],
    }
}

/// The diagnostic rendering of a tree.
pub open spec fn diag_print(t: TreeS) -> Seq<char>
    decreases t, 1nat,
{
    match t.kind {
        KindS::Not => seq!['!', '('] + (if t.children.len() >= 1 {
            diag_print(t.children[0])
        } else {
            Seq::empty()
        }) + seq![')'],
        KindS::And => seq!['('] + diag_join(t.children, seq![' ', '&', '&', ' ']) + seq![')'],
        KindS::Or => seq!['('] + diag_join(t.children, seq![' ', '|', '|', ' ']) + seq![')'],
        KindS::Cond(c) => diag_pred(c),
    }
}

pub open spec fn diag_join(ts: Seq<TreeS>, sep: Seq<char>) -> Seq<char>
    decreases ts, 0nat,
{
    if ts.len() == 0 {
        Seq::empty()
    } else if ts.len() == 1 {
        diag_print(ts[0])
    } else {
        diag_print(ts[0]) + sep + diag_join(ts.drop_first(), sep)
    }
}

// ---- the pattern form -----------------------------------------------

/// Whether the text needs quoting to survive re-parsing as one value.
pub open spec fn needs_quotes(v: Seq<char>, in_list: bool) -> bool {
    v.len() == 0 || v[0] == '"' || v[0] == '<'
        || exists|i: int| 0 <= i < v.len() && value_stop(#[trigger] v[i], in_list)
}

pub open spec fn pat_value(v: Seq<char>, in_list: bool) -> Seq<char> {
    if needs_quotes(v, in_list) {
        seq!['"'] + v + seq!['"']
    } else {
        v
    }
}

pub open spec fn pat_matcher(m: MatchS) -> Seq<char> {
    match m {
        MatchS::Lit(l) => pat_value(l, true),
        MatchS::Re(p) => seq!['<'] + p + seq!['>'],
    }
}

pub open spec fn pat_matchers(ms: Seq<MatchS>) -> Seq<char>
    decreases ms.len(),
{
    if ms.len() == 0 {
        Seq::empty()
    } else if ms.len() == 1 {
        pat_matcher(ms[0])
    } else {
        pat_matcher(ms[0]) + seq![','] + pat_matchers(ms.drop_first())
    }
}

/// A predicate in grammar syntax. The operators without a concrete
/// syntax (`Exists`, `Type`) render as the bare field.
pub open spec fn pat_pred(c: CondS) -> Seq<char> {
    match c.cond_type {
        CondTypeS::Equals(v) => c.entry + seq!['='] + pat_value(v, false),
        CondTypeS::Greater(v) => c.entry + seq!['>'] + pat_value(v, false),
        CondTypeS::Smaller(v) => c.entry + seq!['<'] + pat_value(v, false),
        CondTypeS::Matches(ms) => c.entry + seq![':'] + pat_matchers(ms),
        _ => c.entry,
    }
}

/// The grammar-syntax rendering: leaves print bare, every composite
/// prints parenthesized, `!` before its operand.
pub open spec fn pat_print(t: TreeS) -> Seq<char>
    decreases t, 1nat,
{
    match t.kind {
        KindS::Not => seq!['!'] + (if t.children.len() >= 1 {
            pat_print(t.children[0])
        } else {
            Seq::empty()
        }),
        KindS::And => seq!['('] + pat_join(t.children, seq![';']) + seq![')'],
        KindS::Or => seq!['('] + pat_join(t.children, seq!['|']) + seq![')'],
        KindS::Cond(c) => pat_pred(c),
    }
}

pub open spec fn pat_join(ts: Seq<TreeS>, sep: Seq<char>) -> Seq<char>
    decreases ts, 0nat,
{
    if ts.len() == 0 {
        Seq::empty()
    } else if ts.len() == 1 {
        pat_print(ts[0])
    } else {
        pat_print(ts[0]) + sep + pat_join(ts.drop_first(), sep)
    }
}

// ---- executable rendering -------------------------------------------

/// Appends the characters of `s`.
fn push_str_chars(out: &mut Vec<char>, s: &str)
    ensures
        final(out)@ == old(out)@ + s@,
{
    let cs = crate::text::str_to_chars(s);
    let n = cs.len();
    let mut i: usize = 0;
    while i < n
        invariant
            i <= n,
            n == cs@.len(),
            cs@ == s@,
            out@ == old(out)@ + s@.subrange(0, i as int),
        decreases n - i,
    {
        out.push(cs[i]);
        proof {
            assert(old(out)@ + s@.subrange(0, (i + 1) as int)
                =~= (old(out)@ + s@.subrange(0, i as int)).push(s@[i as int]));
        }
        i += 1;
    }
    proof {
        assert(old(out)@ + s@.subrange(0, n as int) =~= old(out)@ + s@);
    }
}

fn push_diag_matcher(out: &mut Vec<char>, m: &MatchString)
    ensures
        final(out)@ == old(out)@ + diag_matcher(m@),
{
    match m {
        MatchString::String(l) => {
            push_str_chars(out, l.as_str());
        },
        MatchString::Match(re) => {
            out.push('<');
            let p = re.as_str();
            push_str_chars(out, p.as_str());
            out.push('>');
            proof {
                assert(out@ =~= old(out)@ + (seq!['<'] + re@ + seq!['>']));
            }
        },
    }
}

fn push_diag_matchers(out: &mut Vec<char>, ms: &Vec<MatchString>, k: usize)
    requires
        k <= ms@.len(),
    ensures
        final(out)@ == old(out)@ + diag_matchers(ms_view(ms@).skip(k as int)),
    decreases ms@.len() - k,
{
    let ghost rest = ms_view(ms@).skip(k as int);
    if k == ms.len() {
        proof {
            assert(out@ =~= old(out)@ + diag_matchers(rest));
        }
        return;
    }
    proof {
        assert(rest[0] == ms@[k as int]@);
        assert(rest.drop_first() =~= ms_view(ms@).skip((k + 1) as int));
    }
    push_diag_matcher(out, &ms[k]);
    if k + 1 == ms.len() {
        proof {
            assert(out@ =~= old(out)@ + diag_matchers(rest));
        }
        return;
    }
    out.push(',');
    out.push(' ');
    push_diag_matchers(out, ms, k + 1);
    proof {
        assert(out@ =~= old(out)@ + diag_matchers(rest));
    }
}

fn push_diag(out: &mut Vec<char>, t: &CondNode)
    ensures
        final(out)@ == old(out)@ + diag_print(tree_view(*t)),
    decreases *t, 0int,
{
    let ghost tv = tree_view(*t);
    match &t.data {
        CondNodeType::Not => {
            out.push('!');
            out.push('(');
            if t.children.len() >= 1 {
                proof {
                    assert(tv.children[0] == tree_view(t.children@[0]));
                }
                push_diag(out, &t.children[0]);
            }
            out.push(')');
            proof {
                assert(out@ =~= old(out)@ + diag_print(tv));
            }
        },
        CondNodeType::And => {
            out.push('(');
            let sep = [' ', '&', '&', ' '];
            push_diag_join(out, &t.children, 0, &sep);
            out.push(')');
            proof {
                assert(seq![' ', '&', '&', ' '] =~= sep@);
                assert(forest_view(t.children@).skip(0) =~= forest_view(t.children@));
                assert(tv.children =~= forest_view(t.children@));
                assert(out@ =~= old(out)@ + diag_print(tv));
            }
        },
        CondNodeType::Or => {
            out.push('(');
            let sep = [' ', '|', '|', ' '];
            push_diag_join(out, &t.children, 0, &sep);
            out.push(')');
            proof {
                assert(seq![' ', '|', '|', ' '] =~= sep@);
                assert(forest_view(t.children@).skip(0) =~= forest_view(t.children@));
                assert(tv.children =~= forest_view(t.children@));
                assert(out@ =~= old(out)@ + diag_print(tv));
            }
        },
        CondNodeType::Cond(c) => {
            push_diag_pred(out, c);
            proof {
                assert(out@ =~= old(out)@ + diag_print(tv));
            }
        },
    }
}

fn push_diag_pred(out: &mut Vec<char>, c: &Cond)
    ensures
        final(out)@ == old(out)@ + diag_pred(c@),
{
    match &c.cond_type {
        CondType::Exists => {
            push_str_chars(out, "exists(");
            push_str_chars(out, c.entry.as_str());
            out.push(')');
            proof {
                reveal_strlit("exists(");
                assert("exists("@ =~= seq!['e', 'x', 'i', 's', 't', 's', '(']);
                assert(out@ =~= old(out)@ + diag_pred(c@));
            }
        },
        CondType::Equals(v) => {
            out.push('(');
            push_str_chars(out, c.entry.as_str());
            push_str_chars(out, " == ");
            push_str_chars(out, v.as_str());
            out.push(')');
            proof {
                reveal_strlit(" == ");
                assert(" == "@ =~= seq![' ', '=', '=', ' ']);
                assert(out@ =~= old(out)@ + diag_pred(c@));
            }
        },
        CondType::Matches(ms) => {
            out.push('(');
            push_str_chars(out, c.entry.as_str());
            push_str_chars(out, " matches [");
            push_diag_matchers(out, ms, 0);
            out.push(']');
            out.push(')');
            proof {
                reveal_strlit(" matches [");
                assert(" matches ["@
                    =~= seq![' ', 'm', 'a', 't', 'c', 'h', 'e', 's', ' ', '[']);
                assert(ms_view(ms@).skip(0) =~= ms_view(ms@));
                assert(out@ =~= old(out)@ + diag_pred(c@));
            }
        },
        _ => {
            push_str_chars(out, "<not implemented>");
            proof {
                reveal_strlit("<not implemented>");
                assert("<not implemented>"@ =~= seq!['<', 'n', 'o', 't', ' ', 'i', 'm', 'p',
                    'l', 'e', 'm', 'e', 'n', 't', 'e', 'd', '>']);
                assert(out@ =~= old(out)@ + diag_pred(c@));
            }
        },
    }
}

fn push_diag_join(out: &mut Vec<char>, ts: &Vec<CondNode>, k: usize, sep: &[char; 4])
    requires
        k <= ts@.len(),
    ensures
        final(out)@ == old(out)@ + diag_join(forest_view(ts@).skip(k as int), sep@),
    decreases *ts, ts@.len() - k,
{
    let ghost rest = forest_view(ts@).skip(k as int);
    if k == ts.len() {
        proof {
            assert(out@ =~= old(out)@ + diag_join(rest, sep@));
        }
        return;
    }
    proof {
        assert(rest[0] == tree_view(ts@[k as int]));
        assert(rest.drop_first() =~= forest_view(ts@).skip((k + 1) as int));
    }
    push_diag(out, &ts[k]);
    if k + 1 == ts.len() {
        proof {
            assert(out@ =~= old(out)@ + diag_join(rest, sep@));
        }
        return;
    }
    out.push(sep[0]);
    out.push(sep[1]);
    out.push(sep[2]);
    out.push(sep[3]);
    push_diag_join(out, ts, k + 1, sep);
    proof {
        assert(out@ =~= old(out)@ + diag_join(rest, sep@));
    }
}

/// Renders the tree in the diagnostic form.
pub fn print_cond(cond: &CondNode) -> (r: String)
    ensures
        r@ == diag_print(tree_view(*cond)),
{
    let mut out: Vec<char> = Vec::new();
    push_diag(&mut out, cond);
    chars_to_string(&out)
}

fn value_needs_quotes(v: &str, in_list: bool) -> (r: bool)
    ensures
        r == needs_quotes(v@, in_list),
{
    let cs = crate::text::str_to_chars(v);
    let n = cs.len();
    if n == 0 {
        return true;
    }
    let c0 = cs[0];
    if c0 == '"' || c0 == '<' {
        return true;
    }
    let mut i: usize = 0;
    while i < n
        invariant
            i <= n,
            n == cs@.len(),
            cs@ == v@,
            forall|j: int| 0 <= j < i ==> !value_stop(#[trigger] v@[j], in_list),
        decreases n - i,
    {
        if crate::parser::is_value_stop(cs[i], in_list) {
            return true;
        }
        i += 1;
    }
    false
}

fn push_pat_value(out: &mut Vec<char>, v: &str, in_list: bool)
    ensures
        final(out)@ == old(out)@ + pat_value(v@, in_list),
{
    if value_needs_quotes(v, in_list) {
        out.push('"');
        push_str_chars(out, v);
        out.push('"');
        proof {
            assert(out@ =~= old(out)@ + (seq!['"'] + v@ + seq!['"']));
        }
    } else {
        push_str_chars(out, v);
    }
}

fn push_pat_matcher(out: &mut Vec<char>, m: &MatchString)
    ensures
        final(out)@ == old(out)@ + pat_matcher(m@),
{
    match m {
        MatchString::String(l) => {
            push_pat_value(out, l.as_str(), true);
        },
        MatchString::Match(re) => {
            out.push('<');
            let p = re.as_str();
            push_str_chars(out, p.as_str());
            out.push('>');
            proof {
                assert(out@ =~= old(out)@ + (seq!['<'] + re@ + seq!['>']));
            }
        },
    }
}

fn push_pat_matchers(out: &mut Vec<char>, ms: &Vec<MatchString>, k: usize)
    requires
        k <= ms@.len(),
    ensures
        final(out)@ == old(out)@ + pat_matchers(ms_view(ms@).skip(k as int)),
    decreases ms@.len() - k,
{
    let ghost rest = ms_view(ms@).skip(k as int);
    if k == ms.len() {
        proof {
            assert(out@ =~= old(out)@ + pat_matchers(rest));
        }
        return;
    }
    proof {
        assert(rest[0] == ms@[k as int]@);
        assert(rest.drop_first() =~= ms_view(ms@).skip((k + 1) as int));
    }
    push_pat_matcher(out, &ms[k]);
    if k + 1 == ms.len() {
        proof {
            assert(out@ =~= old(out)@ + pat_matchers(rest));
        }
        return;
    }
    out.push(',');
    push_pat_matchers(out, ms, k + 1);
    proof {
        assert(out@ =~= old(out)@ + pat_matchers(rest));
    }
}

fn push_pat_pred(out: &mut Vec<char>, c: &Cond)
    ensures
        final(out)@ == old(out)@ + pat_pred(c@),
{
    match &c.cond_type {
        CondType::Equals(v) => {
            push_str_chars(out, c.entry.as_str());
            out.push('=');
            push_pat_value(out, v.as_str(), false);
            proof {
                assert(out@ =~= old(out)@ + pat_pred(c@));
            }
        },
        CondType::Greater(v) => {
            push_str_chars(out, c.entry.as_str());
            out.push('>');
            push_pat_value(out, v.as_str(), false);
            proof {
                assert(out@ =~= old(out)@ + pat_pred(c@));
            }
        },
        CondType::Smaller(v) => {
            push_str_chars(out, c.entry.as_str());
            out.push('<');
            push_pat_value(out, v.as_str(), false);
            proof {
                assert(out@ =~= old(out)@ + pat_pred(c@));
            }
        },
        CondType::Matches(ms) => {
            push_str_chars(out, c.entry.as_str());
            out.push(':');
            push_pat_matchers(out, ms, 0);
            proof {
                assert(ms_view(ms@).skip(0) =~= ms_view(ms@));
                assert(out@ =~= old(out)@ + pat_pred(c@));
            }
        },
        _ => {
            push_str_chars(out, c.entry.as_str());
            proof {
                assert(out@ =~= old(out)@ + pat_pred(c@));
            }
        },
    }
}

fn push_pat(out: &mut Vec<char>, t: &CondNode)
    ensures
        final(out)@ == old(out)@ + pat_print(tree_view(*t)),
    decreases *t, 0int,
{
    let ghost tv = tree_view(*t);
    match &t.data {
        CondNodeType::Not => {
            out.push('!');
            if t.children.len() >= 1 {
                proof {
                    assert(tv.children[0] == tree_view(t.children@[0]));
                }
                push_pat(out, &t.children[0]);
            }
            proof {
                assert(out@ =~= old(out)@ + pat_print(tv));
            }
        },
        CondNodeType::And => {
            out.push('(');
            push_pat_join(out, &t.children, 0, ';');
            out.push(')');
            proof {
                assert(forest_view(t.children@).skip(0) =~= forest_view(t.children@));
                assert(tv.children =~= forest_view(t.children@));
                assert(seq![';'] =~= Seq::<char>::empty().push(';'));
                assert(out@ =~= old(out)@ + pat_print(tv));
            }
        },
        CondNodeType::Or => {
            out.push('(');
            push_pat_join(out, &t.children, 0, '|');
            out.push(')');
            proof {
                assert(forest_view(t.children@).skip(0) =~= forest_view(t.children@));
                assert(tv.children =~= forest_view(t.children@));
                assert(out@ =~= old(out)@ + pat_print(tv));
            }
        },
        CondNodeType::Cond(c) => {
            push_pat_pred(out, c);
            proof {
                assert(out@ =~= old(out)@ + pat_print(tv));
            }
        },
    }
}

fn push_pat_join(out: &mut Vec<char>, ts: &Vec<CondNode>, k: usize, sep: char)
    requires
        k <= ts@.len(),
    ensures
        final(out)@ == old(out)@ + pat_join(forest_view(ts@).skip(k as int), seq![sep]),
    decreases *ts, ts@.len() - k,
{
    let ghost rest = forest_view(ts@).skip(k as int);
    if k == ts.len() {
        proof {
            assert(out@ =~= old(out)@ + pat_join(rest, seq![sep]));
        }
        return;
    }
    proof {
        assert(rest[0] == tree_view(ts@[k as int]));
        assert(rest.drop_first() =~= forest_view(ts@).skip((k + 1) as int));
    }
    push_pat(out, &ts[k]);
    if k + 1 == ts.len() {
        proof {
            assert(out@ =~= old(out)@ + pat_join(rest, seq![sep]));
        }
        return;
    }
    out.push(sep);
    push_pat_join(out, ts, k + 1, sep);
    proof {
        assert(out@ =~= old(out)@ + pat_join(rest, seq![sep]));
    }
}

/// Renders the tree in grammar syntax, so that parsing the result again
/// yields a tree of the same shape wherever the fields and values can be
/// written in the grammar at all.
pub fn print_pattern(cond: &CondNode) -> (r: String)
    ensures
        r@ == pat_print(tree_view(*cond)),
{
    let mut out: Vec<char> = Vec::new();
    push_pat(&mut out, cond);
    chars_to_string(&out)
}

} // verus!


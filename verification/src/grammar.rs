//! The pattern grammar, as mathematics. Each production reads a prefix of
//! the remaining input and yields what it parsed plus how many characters
//! it consumed; `None` is a parse failure. Ordered choice backtracks one
//! level, exactly as the executable parser does.
//!
//! Precedence, weakest first: `;` (conjunction), `|` (disjunction), `!`
//! (negation of a single atom), parentheses, predicates. A predicate is
//! an identifier followed by one operator: `:` with comma-separated
//! matchers, or `=`, `>`, `<` with a value. A matcher in `<...>` is a
//! regular expression and must compile; a value may be quoted to include
//! separator characters.

use vstd::prelude::*;
use crate::pattern::TreeS;
use crate::pattern::KindS;
use crate::pattern::CondS;
use crate::pattern::CondTypeS;
use crate::pattern::MatchS;
use crate::re::regex_valid;
use crate::text::find_idx;

verus! {

/// Characters that end an identifier.
pub open spec fn ident_stop(c: char) -> bool {
    c == ':' || c == '=' || c == '<' || c == '>' || c == ';' || c == '|' || c == '(' || c == ')'
}

/// Characters that end an unquoted value. Inside a matcher list the
/// comma separates matchers and ends a value too; the operand of `=`,
/// `>` or `<` may contain commas (an array-equality operand is split on
/// them at evaluation time).
pub open spec fn value_stop(c: char, in_list: bool) -> bool {
    c == '|' || c == ';' || c == '(' || c == ')' || (in_list && c == ',')
}

/// Length of the identifier at the head of `s`.
pub open spec fn ident_len(s: Seq<char>) -> nat
    decreases s.len(),
{
    if s.len() == 0 || ident_stop(s[0]) {
        0
    } else {
        1 + ident_len(s.drop_first())
    }
}

/// Length of the unquoted value run at the head of `s`.
pub open spec fn value_len(s: Seq<char>, in_list: bool) -> nat
    decreases s.len(),
{
    if s.len() == 0 || value_stop(s[0], in_list) {
        0
    } else {
        1 + value_len(s.drop_first(), in_list)
    }
}

pub proof fn lemma_ident_len(s: Seq<char>)
    ensures
        ident_len(s) <= s.len(),
        forall|j: int| 0 <= j < ident_len(s) ==> !ident_stop(#[trigger] s[j]),
        ident_len(s) < s.len() ==> ident_stop(s[ident_len(s) as int]),
    decreases s.len(),
{
    if s.len() > 0 && !ident_stop(s[0]) {
        lemma_ident_len(s.drop_first());
        assert forall|j: int| 0 <= j < ident_len(s) implies !ident_stop(#[trigger] s[j]) by {
            if j > 0 {
                assert(s.drop_first()[j - 1] == s[j]);
            }
        }
        if ident_len(s) < s.len() {
            assert(s.drop_first()[ident_len(s.drop_first()) as int]
                == s[ident_len(s) as int]);
        }
    }
}

pub proof fn lemma_value_len(s: Seq<char>, in_list: bool)
    ensures
        value_len(s, in_list) <= s.len(),
        forall|j: int| 0 <= j < value_len(s, in_list) ==> !value_stop(#[trigger] s[j], in_list),
        value_len(s, in_list) < s.len() ==> value_stop(s[value_len(s, in_list) as int], in_list),
    decreases s.len(),
{
    if s.len() > 0 && !value_stop(s[0], in_list) {
        lemma_value_len(s.drop_first(), in_list);
        assert forall|j: int| 0 <= j < value_len(s, in_list)
            implies !value_stop(#[trigger] s[j], in_list) by {
            if j > 0 {
                assert(s.drop_first()[j - 1] == s[j]);
            }
        }
        if value_len(s, in_list) < s.len() {
            assert(s.drop_first()[value_len(s.drop_first(), in_list) as int]
                == s[value_len(s, in_list) as int]);
        }
    }
}

/// A value: a quoted string (no escapes; the next quote ends it), or a
/// nonempty run free of separator characters.
pub open spec fn sp_value(s: Seq<char>, in_list: bool) -> Option<(Seq<char>, nat)> {
    if s.len() > 0 && s[0] == '"' && find_idx(s.drop_first(), '"') is Some {
        let j = find_idx(s.drop_first(), '"')->0;
        Some((s.subrange(1, 1 + j), (j + 2) as nat))
    } else {
        let n = value_len(s, in_list);
        if n > 0 {
            Some((s.take(n as int), n))
        } else {
            None
        }
    }
}

/// A matcher: `<regex>` (which must compile) or a value taken literally.
pub open spec fn sp_matcher(s: Seq<char>) -> Option<(MatchS, nat)> {
    if s.len() > 0 && s[0] == '<' && find_idx(s.drop_first(), '>') is Some {
        let j = find_idx(s.drop_first(), '>')->0;
        let body = s.subrange(1, 1 + j);
        if regex_valid(body) {
            Some((MatchS::Re(body), (j + 2) as nat))
        } else {
            None
        }
    } else {
        match sp_value(s, true) {
            Some((v, n)) => Some((MatchS::Lit(v), n)),
            None => None,
        }
    }
}

/// One or more matchers separated by commas; a comma that is not
/// followed by a matcher is left unconsumed.
pub open spec fn sp_matchlist(s: Seq<char>) -> Option<(Seq<MatchS>, nat)>
    decreases s.len(),
{
    match sp_matcher(s) {
        None => None,
        Some((m, n)) => if n < s.len() && s[n as int] == ',' {
            match sp_matchlist(s.skip(n + 1 as int)) {
                None => Some((seq![m], n)),
                Some((ms, n2)) => Some((seq![m] + ms, (n + 1 + n2) as nat)),
            }
        } else {
            Some((seq![m], n))
        },
    }
}

/// An operator with its operand. A bare identifier (no operator) is not
/// part of the concrete grammar.
pub open spec fn sp_cond(s: Seq<char>) -> Option<(CondTypeS, nat)> {
    if s.len() == 0 {
        None
    } else if s[0] == ':' {
        match sp_matchlist(s.skip(1)) {
            Some((ms, n)) => Some((CondTypeS::Matches(ms), n + 1)),
            None => None,
        }
    } else if s[0] == '=' {
        match sp_value(s.skip(1), false) {
            Some((v, n)) => Some((CondTypeS::Equals(v), n + 1)),
            None => None,
        }
    } else if s[0] == '>' {
        match sp_value(s.skip(1), false) {
            Some((v, n)) => Some((CondTypeS::Greater(v), n + 1)),
            None => None,
        }
    } else if s[0] == '<' {
        match sp_value(s.skip(1), false) {
            Some((v, n)) => Some((CondTypeS::Smaller(v), n + 1)),
            None => None,
        }
    } else {
        None
    }
}

/// A predicate: an identifier and its operator.
pub open spec fn sp_pred(s: Seq<char>) -> Option<(TreeS, nat)> {
    let n = ident_len(s);
    if n > 0 {
        match sp_cond(s.skip(n as int)) {
            Some((ct, n2)) => Some((
                TreeS {
                    kind: KindS::Cond(CondS { entry: s.take(n as int), cond_type: ct }),
                    children: Seq::empty(),
                },
                n + n2,
            )),
            None => None,
        }
    } else {
        None
    }
}

/// An atom: a parenthesized conjunction or a predicate. An identifier
/// cannot start with `(`, so an unclosed group has no fallback.
pub open spec fn sp_atom(s: Seq<char>) -> Option<(TreeS, nat)>
    decreases s.len(), 0nat,
{
    if s.len() > 0 && s[0] == '(' {
        match sp_and(s.skip(1)) {
            Some((t, n)) => if n + 1 < s.len() && s[n + 1 as int] == ')' {
                Some((t, (n + 2) as nat))
            } else {
                None
            },
            None => None,
        }
    } else {
        sp_pred(s)
    }
}

/// Negation binds to the single following atom. When what follows the
/// `!` is no atom, the `!` is read as part of an identifier instead.
pub open spec fn sp_not(s: Seq<char>) -> Option<(TreeS, nat)>
    decreases s.len(), 1nat,
{
    if s.len() > 0 && s[0] == '!' {
        match sp_atom(s.skip(1)) {
            Some((t, n)) => Some((
                TreeS { kind: KindS::Not, children: seq![t] },
                (n + 1) as nat,
            )),
            None => sp_atom(s),
        }
    } else {
        sp_atom(s)
    }
}

/// One or more negations separated by `|`; a `|` not followed by a
/// parsable element is left unconsumed.
pub open spec fn sp_or_list(s: Seq<char>) -> Option<(Seq<TreeS>, nat)>
    decreases s.len(), 2nat,
{
    match sp_not(s) {
        None => None,
        Some((t, n)) => if n < s.len() && s[n as int] == '|' {
            match sp_or_list(s.skip(n + 1 as int)) {
                None => Some((seq![t], n)),
                Some((ts, n2)) => Some((seq![t] + ts, (n + 1 + n2) as nat)),
            }
        } else {
            Some((seq![t], n))
        },
    }
}

/// A single-element conjunction or disjunction collapses to its element.
pub open spec fn collapse(kind: KindS, ts: Seq<TreeS>) -> TreeS {
    if ts.len() == 1 {
        ts[0]
    } else {
        TreeS { kind, children: ts }
    }
}

pub open spec fn sp_or(s: Seq<char>) -> Option<(TreeS, nat)>
    decreases s.len(), 3nat,
{
    match sp_or_list(s) {
        None => None,
        Some((ts, n)) => Some((collapse(KindS::Or, ts), n)),
    }
}

pub open spec fn sp_and_list(s: Seq<char>) -> Option<(Seq<TreeS>, nat)>
    decreases s.len(), 4nat,
{
    match sp_or(s) {
        None => None,
        Some((t, n)) => if n < s.len() && s[n as int] == ';' {
            match sp_and_list(s.skip(n + 1 as int)) {
                None => Some((seq![t], n)),
                Some((ts, n2)) => Some((seq![t] + ts, (n + 1 + n2) as nat)),
            }
        } else {
            Some((seq![t], n))
        },
    }
}

/// The whole grammar: `;`-separated disjunctions.
pub open spec fn sp_and(s: Seq<char>) -> Option<(TreeS, nat)>
    decreases s.len(), 5nat,
{
    match sp_and_list(s) {
        None => None,
        Some((ts, n)) => Some((collapse(KindS::And, ts), n)),
    }
}

/// What parsing a whole pattern yields: the empty pattern is the absence
/// of a tree; any other input must be consumed entirely by the grammar.
pub open spec fn spec_parse(s: Seq<char>) -> Option<Option<TreeS>> {
    if s.len() == 0 {
        Some(None)
    } else {
        match sp_and(s) {
            Some((t, n)) => if n == s.len() {
                Some(Some(t))
            } else {
                None
            },
            None => None,
        }
    }
}

} // verus!

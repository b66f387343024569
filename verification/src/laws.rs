//! Properties that tie the parser, the printer and the evaluator
//! together: the empty pattern, parse totality, and the print/parse
//! round trip for every tree the grammar can write.

use vstd::prelude::*;
use crate::grammar::spec_parse;
use crate::grammar::sp_and;
use crate::grammar::sp_and_list;
use crate::grammar::sp_or;
use crate::grammar::sp_or_list;
use crate::grammar::sp_not;
use crate::grammar::sp_atom;
use crate::grammar::sp_pred;
use crate::grammar::sp_cond;
use crate::grammar::sp_matcher;
use crate::grammar::sp_matchlist;
use crate::grammar::sp_value;
use crate::grammar::ident_stop;
use crate::grammar::ident_len;
use crate::grammar::value_stop;
use crate::grammar::value_len;
use crate::grammar::lemma_ident_len;
use crate::grammar::lemma_value_len;
use crate::printer::pat_print;
use crate::printer::pat_join;
use crate::printer::pat_pred;
use crate::printer::pat_value;
use crate::printer::pat_matcher;
use crate::printer::pat_matchers;
use crate::printer::needs_quotes;
use crate::pattern::TreeS;
use crate::pattern::KindS;
use crate::pattern::CondS;
use crate::pattern::CondTypeS;
use crate::pattern::MatchS;
use crate::pattern::spec_evaluate;
use crate::re::regex_valid;
use crate::text::find_idx;
use crate::text::lemma_find_idx;
use crate::toml::ValueS;

verus! {

broadcast use vstd::seq::group_seq_axioms;

/// The empty pattern is valid: it parses to the absence of a tree, and
/// that absence matches every note, whatever its metadata and content.
pub proof fn lemma_empty_pattern(meta: ValueS, content: Option<Seq<char>>)
    ensures
        spec_parse(Seq::<char>::empty()) == Some(None::<TreeS>),
        spec_evaluate(None::<TreeS>, meta, content),
{
}

/// Parsing is total and exact: an input is accepted exactly when it is
/// empty or the grammar produces it in full. (That the executable parser
/// answers `Ok` precisely on these inputs, and never panics, is its own
/// contract: every verified function here is panic-free.)
pub proof fn lemma_parse_total(s: Seq<char>)
    ensures
        spec_parse(s) is Some <==> (s.len() == 0 || (sp_and(s) matches Some((t, n))
            && n == s.len())),
{
}

// ---- the print/parse round trip -------------------------------------

/// A field that the grammar can write: nonempty, free of operator
/// characters, and not opening with the negation sign.
pub open spec fn printable_entry(entry: Seq<char>) -> bool {
    entry.len() > 0 && entry[0] != '!'
        && forall|i: int| 0 <= i < entry.len() ==> !ident_stop(#[trigger] entry[i])
}

/// A value that survives printing in its context: where quoting is
/// needed, it must not itself contain a quote.
pub open spec fn printable_value(v: Seq<char>, in_list: bool) -> bool {
    needs_quotes(v, in_list) ==> forall|i: int| 0 <= i < v.len() ==> v[i] != '"'
}

/// A matcher the printer can reproduce: a literal under the value rule,
/// a regex that compiles and holds no closing bracket.
pub open spec fn printable_matcher(m: MatchS) -> bool {
    match m {
        MatchS::Lit(l) => printable_value(l, true),
        MatchS::Re(p) => regex_valid(p) && forall|i: int| 0 <= i < p.len() ==> p[i] != '>',
    }
}

/// An operator the grammar can write (`Exists` and `Type` have no
/// concrete syntax).
pub open spec fn printable_cond(ct: CondTypeS) -> bool {
    match ct {
        CondTypeS::Equals(v) => printable_value(v, false),
        CondTypeS::Greater(v) => printable_value(v, false),
        CondTypeS::Smaller(v) => printable_value(v, false),
        CondTypeS::Matches(ms) => ms.len() >= 1
            && forall|i: int| 0 <= i < ms.len() ==> printable_matcher(#[trigger] ms[i]),
        _ => false,
    }
}

/// A tree the printer reproduces exactly: leaves with writable fields
/// and operators, `Not` over a single non-`Not` child, and `And`/`Or`
/// with at least two children (single-child chains collapse at parse
/// time, so only these shapes come back unchanged). Every tree the
/// parser itself builds has this shape; writability is the one extra
/// demand (a parsed field may begin with `!`, a parsed quoted value may
/// itself hold a quote — such a tree has no faithful rendering).
pub open spec fn printable_tree(t: TreeS) -> bool
    decreases t,
{
    match t.kind {
        KindS::Cond(c) => t.children.len() == 0 && printable_entry(c.entry)
            && printable_cond(c.cond_type),
        KindS::Not => t.children.len() == 1 && !(t.children[0].kind is Not)
            && printable_tree(t.children[0]),
        KindS::And => t.children.len() >= 2
            && forall|i: int| 0 <= i < t.children.len()
                ==> printable_tree(#[trigger] t.children[i]),
        KindS::Or => t.children.len() >= 2
            && forall|i: int| 0 <= i < t.children.len()
                ==> printable_tree(#[trigger] t.children[i]),
    }
}

/// What may follow a complete element: the end of the input or a
/// closing or separating character.
pub open spec fn elem_tail_ok(tail: Seq<char>) -> bool {
    tail.len() == 0 || tail[0] == ')' || tail[0] == ';' || tail[0] == '|'
}

/// The printed form of a value, followed by anything that ends a value,
/// reads back as exactly that value.
proof fn lemma_rt_value(v: Seq<char>, tail: Seq<char>, in_list: bool)
    requires
        printable_value(v, in_list),
        tail.len() == 0 || value_stop(tail[0], in_list),
    ensures
        sp_value(pat_value(v, in_list) + tail, in_list)
            == Some((v, pat_value(v, in_list).len() as nat)),
{
    let pv = pat_value(v, in_list);
    let s = pv + tail;
    if needs_quotes(v, in_list) {
        assert(pv == seq!['"'] + v + seq!['"']);
        assert(s[0] == '"');
        let d = s.drop_first();
        assert(d =~= v + seq!['"'] + tail);
        lemma_find_idx(d, '"');
        assert(d[v.len() as int] == '"');
        assert(forall|j: int| 0 <= j < v.len() ==> d[j] == v[j]);
        assert(find_idx(d, '"') == Some(v.len() as int));
        assert(s.subrange(1, 1 + v.len() as int) =~= v);
    } else {
        assert(pv == v);
        assert(v.len() > 0);
        assert(v[0] != '"');
        lemma_value_len(s, in_list);
        assert(forall|j: int| 0 <= j < v.len() ==> s[j] == v[j]);
        if v.len() < s.len() {
            assert(s[v.len() as int] == tail[0]);
        }
        assert(value_len(s, in_list) == v.len());
        assert(s.take(v.len() as int) =~= v);
    }
}

/// The printed form of a matcher, followed by anything that ends one,
/// reads back as exactly that matcher.
proof fn lemma_rt_matcher(m: MatchS, tail: Seq<char>)
    requires
        printable_matcher(m),
        tail.len() == 0 || tail[0] == ',' || tail[0] == ')' || tail[0] == ';' || tail[0] == '|',
    ensures
        sp_matcher(pat_matcher(m) + tail) == Some((m, pat_matcher(m).len() as nat)),
{
    let pm = pat_matcher(m);
    let s = pm + tail;
    match m {
        MatchS::Re(p) => {
            assert(pm == seq!['<'] + p + seq!['>']);
            assert(s[0] == '<');
            let d = s.drop_first();
            assert(d =~= p + seq!['>'] + tail);
            lemma_find_idx(d, '>');
            assert(d[p.len() as int] == '>');
            assert(forall|j: int| 0 <= j < p.len() ==> d[j] == p[j]);
            assert(find_idx(d, '>') == Some(p.len() as int));
            assert(s.subrange(1, 1 + p.len() as int) =~= p);
        },
        MatchS::Lit(l) => {
            assert(pm == pat_value(l, true));
            lemma_rt_value(l, tail, true);
            // a printed literal never opens like a regex
            if needs_quotes(l, true) {
                assert(s[0] == '"');
            } else {
                assert(s[0] == l[0]);
                assert(l[0] != '<');
            }
        },
    }
}

/// A comma-joined run of matchers, followed by anything that ends the
/// run, reads back as exactly those matchers.
proof fn lemma_rt_matchers(ms: Seq<MatchS>, tail: Seq<char>)
    requires
        ms.len() >= 1,
        forall|i: int| 0 <= i < ms.len() ==> printable_matcher(#[trigger] ms[i]),
        elem_tail_ok(tail),
    ensures
        sp_matchlist(pat_matchers(ms) + tail) == Some((ms, pat_matchers(ms).len() as nat)),
    decreases ms.len(),
{
    let pj = pat_matchers(ms);
    let s = pj + tail;
    let m0 = ms[0];
    let p0 = pat_matcher(m0);
    if ms.len() == 1 {
        assert(pj == p0);
        lemma_rt_matcher(m0, tail);
        assert(sp_matcher(s) == Some((m0, p0.len() as nat)));
        if p0.len() < s.len() {
            assert(s[p0.len() as int] == tail[0]);
            assert(tail[0] != ',');
        }
        assert(ms =~= seq![m0]);
    } else {
        let rest = ms.drop_first();
        let pr = pat_matchers(rest);
        assert(pj == p0 + seq![','] + pr);
        let t0 = seq![','] + pr + tail;
        assert(s =~= p0 + t0);
        lemma_rt_matcher(m0, t0);
        assert(sp_matcher(s) == Some((m0, p0.len() as nat)));
        assert(s[p0.len() as int] == ',');
        assert(s.skip(p0.len() + 1 as int) =~= pr + tail);
        lemma_rt_matchers(rest, tail);
        assert(sp_matchlist(pr + tail) == Some((rest, pr.len() as nat)));
        assert(ms =~= seq![m0] + rest);
    }
}

/// An operator with its operand, followed by anything that ends a
/// predicate, reads back as exactly that operator.
proof fn lemma_rt_cond(ct: CondTypeS, tail: Seq<char>)
    requires
        printable_cond(ct),
        elem_tail_ok(tail),
    ensures
        ({
            let w = match ct {
                CondTypeS::Equals(v) => seq!['='] + pat_value(v, false),
                CondTypeS::Greater(v) => seq!['>'] + pat_value(v, false),
                CondTypeS::Smaller(v) => seq!['<'] + pat_value(v, false),
                CondTypeS::Matches(ms) => seq![':'] + pat_matchers(ms),
                _ => Seq::<char>::empty(),
            };
            sp_cond(w + tail) == Some((ct, w.len() as nat))
        }),
{
    match ct {
        CondTypeS::Equals(v) => {
            let w = seq!['='] + pat_value(v, false);
            let s = w + tail;
            assert(s[0] == '=');
            assert(s.skip(1) =~= pat_value(v, false) + tail);
            lemma_rt_value(v, tail, false);
        },
        CondTypeS::Greater(v) => {
            let w = seq!['>'] + pat_value(v, false);
            let s = w + tail;
            assert(s[0] == '>');
            assert(s.skip(1) =~= pat_value(v, false) + tail);
            lemma_rt_value(v, tail, false);
        },
        CondTypeS::Smaller(v) => {
            let w = seq!['<'] + pat_value(v, false);
            let s = w + tail;
            assert(s[0] == '<');
            assert(s.skip(1) =~= pat_value(v, false) + tail);
            lemma_rt_value(v, tail, false);
        },
        CondTypeS::Matches(ms) => {
            let w = seq![':'] + pat_matchers(ms);
            let s = w + tail;
            assert(s[0] == ':');
            assert(s.skip(1) =~= pat_matchers(ms) + tail);
            lemma_rt_matchers(ms, tail);
        },
        _ => {},
    }
}

/// A whole printed predicate, followed by anything that ends one, reads
/// back as exactly that leaf.
proof fn lemma_rt_pred(c: CondS, tail: Seq<char>)
    requires
        printable_entry(c.entry),
        printable_cond(c.cond_type),
        elem_tail_ok(tail),
    ensures
        ({
            let t = TreeS { kind: KindS::Cond(c), children: Seq::<TreeS>::empty() };
            sp_pred(pat_pred(c) + tail) == Some((t, pat_pred(c).len() as nat))
        }),
{
    let t = TreeS { kind: KindS::Cond(c), children: Seq::<TreeS>::empty() };
    let w = match c.cond_type {
        CondTypeS::Equals(v) => seq!['='] + pat_value(v, false),
        CondTypeS::Greater(v) => seq!['>'] + pat_value(v, false),
        CondTypeS::Smaller(v) => seq!['<'] + pat_value(v, false),
        CondTypeS::Matches(ms) => seq![':'] + pat_matchers(ms),
        _ => Seq::<char>::empty(),
    };
    assert(pat_pred(c) =~= c.entry + w);
    let s = pat_pred(c) + tail;
    assert(s =~= c.entry + (w + tail));
    // the identifier stops exactly at the operator
    lemma_ident_len(s);
    assert(forall|j: int| 0 <= j < c.entry.len() ==> s[j] == c.entry[j]);
    assert(w.len() > 0);
    assert(s[c.entry.len() as int] == w[0]);
    assert(ident_stop(w[0]));
    assert(ident_len(s) == c.entry.len());
    assert(s.take(c.entry.len() as int) =~= c.entry);
    assert(s.skip(c.entry.len() as int) =~= w + tail);
    lemma_rt_cond(c.cond_type, tail);
    assert(sp_cond(w + tail) == Some((c.cond_type, w.len() as nat)));
    assert(CondS { entry: s.take(c.entry.len() as int), cond_type: c.cond_type } == c);
}

/// A printed non-negation tree, followed by anything that ends an
/// element, reads back as exactly that atom.
proof fn lemma_rt_atom(t: TreeS, tail: Seq<char>)
    requires
        printable_tree(t),
        !(t.kind is Not),
        elem_tail_ok(tail),
    ensures
        sp_atom(pat_print(t) + tail) == Some((t, pat_print(t).len() as nat)),
    decreases t, 0nat,
{
    let p = pat_print(t);
    let s = p + tail;
    match t.kind {
        KindS::Cond(c) => {
            assert(p == pat_pred(c));
            lemma_rt_pred(c, tail);
            assert(s[0] == c.entry[0]);
            assert(!ident_stop(c.entry[0]));
            assert(s[0] != '(');
            assert(t.children =~= Seq::<TreeS>::empty());
            assert(TreeS { kind: KindS::Cond(c), children: Seq::<TreeS>::empty() } == t);
        },
        KindS::And => {
            let cs = t.children;
            let join = pat_join(cs, seq![';']);
            assert(p == seq!['('] + join + seq![')']);
            assert(s[0] == '(');
            let inner_tail = seq![')'] + tail;
            assert(s.skip(1) =~= join + inner_tail);
            lemma_rt_and_list(cs, inner_tail);
            assert(sp_and_list(join + inner_tail) == Some((cs, join.len() as nat)));
            assert(TreeS { kind: KindS::And, children: cs } == t);
            assert(sp_and(s.skip(1)) == Some((t, join.len() as nat)));
            assert(s[1 + join.len() as int] == ')');
            assert(p.len() == join.len() + 2);
        },
        KindS::Or => {
            let cs = t.children;
            let join = pat_join(cs, seq!['|']);
            assert(p == seq!['('] + join + seq![')']);
            assert(s[0] == '(');
            let inner_tail = seq![')'] + tail;
            assert(s.skip(1) =~= join + inner_tail);
            lemma_rt_or_list(cs, inner_tail);
            assert(sp_or_list(join + inner_tail) == Some((cs, join.len() as nat)));
            assert(TreeS { kind: KindS::Or, children: cs } == t);
            assert(sp_or(s.skip(1)) == Some((t, join.len() as nat)));
            // the disjunction is the sole element of the inner conjunction
            assert(s.skip(1)[join.len() as int] == ')');
            assert(sp_and_list(s.skip(1)) == Some((seq![t], join.len() as nat)));
            assert(sp_and(s.skip(1)) == Some((t, join.len() as nat)));
            assert(s[1 + join.len() as int] == ')');
            assert(p.len() == join.len() + 2);
        },
        KindS::Not => {},
    }
}

/// A printed tree, followed by anything that ends an element, reads
/// back exactly at the negation level.
proof fn lemma_rt_not(t: TreeS, tail: Seq<char>)
    requires
        printable_tree(t),
        elem_tail_ok(tail),
    ensures
        sp_not(pat_print(t) + tail) == Some((t, pat_print(t).len() as nat)),
    decreases t, 1nat,
{
    let p = pat_print(t);
    let s = p + tail;
    match t.kind {
        KindS::Not => {
            let child = t.children[0];
            assert(p == seq!['!'] + pat_print(child));
            assert(s[0] == '!');
            assert(s.skip(1) =~= pat_print(child) + tail);
            lemma_rt_atom(child, tail);
            assert(t.children =~= seq![child]);
            assert(TreeS { kind: KindS::Not, children: seq![child] } == t);
        },
        KindS::Cond(c) => {
            assert(s[0] == c.entry[0]);
            assert(c.entry[0] != '!');
            lemma_rt_atom(t, tail);
        },
        _ => {
            assert(s[0] == '(');
            lemma_rt_atom(t, tail);
        },
    }
}

/// A `|`-joined row of printed elements, followed by `)`, `;` or the
/// end, reads back as exactly those elements.
proof fn lemma_rt_or_list(ts: Seq<TreeS>, tail: Seq<char>)
    requires
        ts.len() >= 1,
        forall|i: int| 0 <= i < ts.len() ==> printable_tree(#[trigger] ts[i]),
        tail.len() == 0 || tail[0] == ')' || tail[0] == ';',
    ensures
        sp_or_list(pat_join(ts, seq!['|']) + tail)
            == Some((ts, pat_join(ts, seq!['|']).len() as nat)),
    decreases ts, 2nat,
{
    let join = pat_join(ts, seq!['|']);
    let s = join + tail;
    let c0 = ts[0];
    let p0 = pat_print(c0);
    if ts.len() == 1 {
        assert(join == p0);
        lemma_rt_not(c0, tail);
        assert(sp_not(s) == Some((c0, p0.len() as nat)));
        if p0.len() < s.len() {
            assert(s[p0.len() as int] == tail[0]);
            assert(tail[0] != '|');
        }
        assert(ts =~= seq![c0]);
    } else {
        let rest = ts.drop_first();
        let jr = pat_join(rest, seq!['|']);
        assert(join == p0 + seq!['|'] + jr);
        let t0 = seq!['|'] + jr + tail;
        assert(s =~= p0 + t0);
        lemma_rt_not(c0, t0);
        assert(sp_not(s) == Some((c0, p0.len() as nat)));
        assert(s[p0.len() as int] == '|');
        assert(s.skip(p0.len() + 1 as int) =~= jr + tail);
        lemma_rt_or_list(rest, tail);
        assert(sp_or_list(jr + tail) == Some((rest, jr.len() as nat)));
        assert(ts =~= seq![c0] + rest);
    }
}

/// A `;`-joined row of printed elements, followed by `)` or the end,
/// reads back as exactly those elements.
proof fn lemma_rt_and_list(ts: Seq<TreeS>, tail: Seq<char>)
    requires
        ts.len() >= 1,
        forall|i: int| 0 <= i < ts.len() ==> printable_tree(#[trigger] ts[i]),
        tail.len() == 0 || tail[0] == ')',
    ensures
        sp_and_list(pat_join(ts, seq![';']) + tail)
            == Some((ts, pat_join(ts, seq![';']).len() as nat)),
    decreases ts, 3nat,
{
    let join = pat_join(ts, seq![';']);
    let s = join + tail;
    let c0 = ts[0];
    let p0 = pat_print(c0);
    if ts.len() == 1 {
        assert(join == p0);
        lemma_rt_not(c0, tail);
        assert(sp_not(s) == Some((c0, p0.len() as nat)));
        if p0.len() < s.len() {
            assert(s[p0.len() as int] == tail[0]);
            assert(tail[0] != '|');
            assert(tail[0] != ';');
        }
        // the element stands alone at every level up to the conjunction
        assert(sp_or_list(s) == Some((seq![c0], p0.len() as nat)));
        assert(sp_or(s) == Some((c0, p0.len() as nat)));
        assert(ts =~= seq![c0]);
    } else {
        let rest = ts.drop_first();
        let jr = pat_join(rest, seq![';']);
        assert(join == p0 + seq![';'] + jr);
        let t0 = seq![';'] + jr + tail;
        assert(s =~= p0 + t0);
        lemma_rt_not(c0, t0);
        assert(sp_not(s) == Some((c0, p0.len() as nat)));
        assert(s[p0.len() as int] == ';');
        assert(sp_or_list(s) == Some((seq![c0], p0.len() as nat)));
        assert(sp_or(s) == Some((c0, p0.len() as nat)));
        assert(s.skip(p0.len() + 1 as int) =~= jr + tail);
        lemma_rt_and_list(rest, tail);
        assert(sp_and_list(jr + tail) == Some((rest, jr.len() as nat)));
        assert(ts =~= seq![c0] + rest);
    }
}

/// The round trip: printing any tree the grammar can write, and parsing
/// the printed text, yields exactly that tree again — so the reparsed
/// pattern evaluates as the original on every note.
pub proof fn lemma_print_parse_round_trip(t: TreeS)
    requires
        printable_tree(t),
    ensures
        spec_parse(pat_print(t)) == Some(Some(t)),
{
    let s = pat_print(t);
    let none = Seq::<char>::empty();
    assert(s + none =~= s);
    lemma_rt_not(t, none);
    assert(sp_not(s) == Some((t, s.len() as nat)));
    assert(sp_or_list(s) == Some((seq![t], s.len() as nat)));
    assert(sp_or(s) == Some((t, s.len() as nat)));
    assert(sp_and_list(s) == Some((seq![t], s.len() as nat)));
    assert(sp_and(s) == Some((t, s.len() as nat)));
    match t.kind {
        KindS::Cond(c) => {
            assert(s == pat_pred(c));
            match c.cond_type {
                CondTypeS::Equals(v) => {
                    assert(s =~= c.entry + seq!['='] + pat_value(v, false));
                },
                CondTypeS::Greater(v) => {
                    assert(s =~= c.entry + seq!['>'] + pat_value(v, false));
                },
                CondTypeS::Smaller(v) => {
                    assert(s =~= c.entry + seq!['<'] + pat_value(v, false));
                },
                CondTypeS::Matches(ms) => {
                    assert(s =~= c.entry + seq![':'] + pat_matchers(ms));
                },
                _ => {},
            }
            assert(s.len() > 0);
        },
        _ => {
            assert(s.len() > 0);
        },
    }
}

} // verus!

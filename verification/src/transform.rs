//! The `syntax-rules` transformer: construction with pattern validation,
//! pattern matching with ellipsis, and template expansion with binding
//! consumption.

use crate::cell::{ast_text, proper, Ast, Cell};
use crate::heap::node_count;
use crate::vm::Error;
use vstd::prelude::*;
use vstd::string::StringExecFns;

verus! {


/// The values of a sequence of cells.
pub open spec fn cell_views(s: Seq<Cell>) -> Seq<Ast> {
    s.map_values(|c: Cell| c@)
}

/// The values of a sequence of cell pairs.
pub open spec fn pair_views(s: Seq<(Cell, Cell)>) -> Seq<(Ast, Ast)> {
    s.map_values(|p: (Cell, Cell)| (p.0@, p.1@))
}

/// The first element a traversal of `c` yields: the head of a pair, nothing
/// for `Nil`, and an improper tail itself.
pub open spec fn first_elem(c: Ast) -> Option<Ast> {
    match c {
        Ast::Pair(a, _) => Some(*a),
        Ast::Nil => None,
        _ => Some(c),
    }
}

/// What remains of the traversal after its first element.
pub open spec fn rest_elems(c: Ast) -> Ast {
    match c {
        Ast::Pair(_, d) => *d,
        _ => Ast::Nil,
    }
}

/// How many elements a traversal of `c` yields, the improper tail included.
pub open spec fn num_elems(c: Ast) -> nat
    decreases c,
{
    match c {
        Ast::Pair(_, d) => 1 + num_elems(*d),
        Ast::Nil => 0,
        _ => 1,
    }
}

/// The elements a traversal of `c` yields, in order.
pub open spec fn elems_of(c: Ast) -> Seq<Ast>
    decreases c,
{
    match c {
        Ast::Pair(a, d) => seq![*a] + elems_of(*d),
        Ast::Nil => Seq::empty(),
        _ => seq![c],
    }
}

pub open spec fn contains_ast(s: Seq<Ast>, x: Ast) -> bool {
    exists|i: int| 0 <= i < s.len() && s[i] == x
}

/// Remove the first binding for `k`, returning its value and the rest.
pub open spec fn lookup_remove(bnd: Seq<(Ast, Ast)>, k: Ast) -> Option<(Ast, Seq<(Ast, Ast)>)>
    decreases bnd.len(),
{
    if bnd.len() == 0 {
        None
    } else if bnd[0].0 == k {
        Some((bnd[0].1, bnd.drop_first()))
    } else {
        match lookup_remove(bnd.drop_first(), k) {
            None => None,
            Some((v, rest)) => Some((v, seq![bnd[0]] + rest)),
        }
    }
}

proof fn lemma_lookup_remove_at(bnd: Seq<(Ast, Ast)>, k: Ast, idx: int)
    requires
        0 <= idx < bnd.len(),
        bnd[idx].0 == k,
        forall|j: int| 0 <= j < idx ==> (#[trigger] bnd[j]).0 != k,
    ensures
        lookup_remove(bnd, k) == Some((bnd[idx].1, bnd.remove(idx))),
    decreases idx,
{
    if idx == 0 {
        assert(bnd.remove(0) =~= bnd.drop_first());
    } else {
        assert forall|j: int| 0 <= j < idx - 1 implies (#[trigger] bnd.drop_first()[j]).0 != k by {
            assert(bnd[j + 1].0 != k);
        }
        lemma_lookup_remove_at(bnd.drop_first(), k, idx - 1);
        assert(seq![bnd[0]] + bnd.drop_first().remove(idx - 1) =~= bnd.remove(idx));
    }
}

proof fn lemma_lookup_remove_none(bnd: Seq<(Ast, Ast)>, k: Ast)
    requires
        forall|j: int| 0 <= j < bnd.len() ==> (#[trigger] bnd[j]).0 != k,
    ensures
        lookup_remove(bnd, k) is None,
    decreases bnd.len(),
{
    if bnd.len() > 0 {
        assert forall|j: int|
            0 <= j < bnd.drop_first().len() implies (#[trigger] bnd.drop_first()[j]).0 != k by {
            assert(bnd[j + 1].0 != k);
        }
        lemma_lookup_remove_none(bnd.drop_first(), k);
    }
}

/// The proper list holding the given values in order.
pub open spec fn list_of_asts(s: Seq<Ast>) -> Ast
    decreases s.len(),
{
    if s.len() == 0 {
        Ast::Nil
    } else {
        Ast::Pair(Box::new(s[0]), Box::new(list_of_asts(s.drop_first())))
    }
}

proof fn lemma_list_ast_views(v: Seq<Cell>)
    ensures
        crate::cell::list_ast(v) == list_of_asts(cell_views(v)),
    decreases v.len(),
{
    let m = cell_views(v);
    if v.len() == 0 {
        assert(m.len() == 0);
    } else {
        lemma_list_ast_views(v.drop_first());
        assert(cell_views(v.drop_first()) =~= m.drop_first());
        assert(m[0] == v[0]@);
    }
}

/// One matching step against the current pattern element: a symbol binds, a
/// pair matches recursively, any other atom must be equal.
pub open spec fn spec_match(ell: Ast, p: Ast, e: Ast, bnd: Seq<(Ast, Ast)>) -> (bool, Seq<
    (Ast, Ast),
>)
    decreases node_count(p) + node_count(e), num_elems(e), 1int,
{
    if p is Pair && e is Pair && (proper(p) != proper(e)) {
        (false, bnd)
    } else {
        spec_match_tail(ell, p, e, bnd)
    }
}

/// Walk pattern elements and expression elements in lockstep. A pattern
/// element followed by the ellipsis is reused until as many expression
/// elements remain as pattern elements after the ellipsis; an exhausted
/// expression succeeds exactly in ellipsis position or at the pattern's end.
pub open spec fn spec_match_tail(ell: Ast, p: Ast, e: Ast, bnd: Seq<(Ast, Ast)>) -> (bool, Seq<
    (Ast, Ast),
>)
    decreases node_count(p) + node_count(e), num_elems(e), 0int,
{
    if p is Nil {
        (e is Nil, bnd)
    } else {
        let cur_p = if p is Pair {
            *p->Pair_0
        } else {
            p
        };
        let rest_p = rest_elems(p);
        let in_ell = first_elem(rest_p) == Some(ell);
        if e is Nil {
            (in_ell, bnd)
        } else {
            let cur_e = if e is Pair {
                *e->Pair_0
            } else {
                e
            };
            let rest_e = rest_elems(e);
            let step = if cur_p is Symbol {
                (true, bnd.push((cur_p, cur_e)))
            } else if cur_p is Pair {
                spec_match(ell, cur_p, cur_e, bnd)
            } else {
                (cur_p == cur_e, bnd)
            };
            if !step.0 {
                (false, step.1)
            } else if in_ell {
                let rest2 = rest_elems(rest_p);
                if num_elems(rest_e) == num_elems(rest2) {
                    spec_match_tail(ell, rest2, rest_e, step.1)
                } else {
                    spec_match_tail(ell, p, rest_e, step.1)
                }
            } else {
                spec_match_tail(ell, rest_p, rest_e, step.1)
            }
        }
    }
}

/// Every tree holds at least one node.
pub proof fn lemma_node_count_pos(a: Ast)
    ensures
        node_count(a) >= 1,
{
    match a {
        Ast::Pair(_, _) => {},
        _ => {},
    }
}

/// Dropping a traversal's first element never grows the node count.
pub proof fn lemma_rest_elems_le(a: Ast)
    ensures
        node_count(rest_elems(a)) <= node_count(a),
{
    match a {
        Ast::Pair(x, _) => {
            lemma_node_count_pos(*x);
        },
        _ => {},
    }
}

/// Expand a template: a pattern variable emits and consumes its first
/// binding, any other atom is emitted verbatim, and a pair becomes the list
/// of its elements' expansions, an element before the ellipsis repeating as
/// long as each round consumes a binding.
pub open spec fn spec_expand(ell: Ast, vars: Seq<Ast>, t: Ast, bnd: Seq<(Ast, Ast)>) -> (
    Option<Ast>,
    Seq<(Ast, Ast)>,
)
    decreases bnd.len(), node_count(t), 1int,
{
    match t {
        Ast::Symbol(_) => {
            if contains_ast(vars, t) {
                match lookup_remove(bnd, t) {
                    Some((v, b2)) => (Some(v), b2),
                    None => (None, bnd),
                }
            } else {
                (Some(t), bnd)
            }
        },
        Ast::Pair(_, _) => {
            let r = spec_expand_tail(ell, vars, t, bnd);
            match r.0 {
                Some(items) => (Some(list_of_asts(items)), r.1),
                None => (None, r.1),
            }
        },
        _ => (Some(t), bnd),
    }
}

pub open spec fn spec_expand_tail(ell: Ast, vars: Seq<Ast>, t: Ast, bnd: Seq<(Ast, Ast)>) -> (
    Option<Seq<Ast>>,
    Seq<(Ast, Ast)>,
)
    decreases bnd.len(), node_count(t), 0int,
{
    match t {
        Ast::Nil => (Some(Seq::empty()), bnd),
        Ast::Pair(cur0, rest0) => {
            let cur = *cur0;
            let rest = *rest0;
            proof {
                lemma_node_count_pos(cur);
                lemma_node_count_pos(rest);
                lemma_node_count_pos(rest_elems(rest));
                lemma_rest_elems_le(rest);
            }
            let in_ell = first_elem(rest) == Some(ell);
            let r0 = spec_expand(ell, vars, cur, bnd);
            match r0.0 {
                Some(c) => {
                    if in_ell {
                        if r0.1.len() < bnd.len() {
                            let r1 = spec_expand_tail(ell, vars, t, r0.1);
                            match r1.0 {
                                Some(items) => (Some(seq![c] + items), r1.1),
                                None => (None, r1.1),
                            }
                        } else {
                            let r1 = spec_expand_tail(
                                ell,
                                vars,
                                rest_elems(rest),
                                (if r0.1.len() <= bnd.len() { r0.1 } else { bnd }),
                            );
                            match r1.0 {
                                Some(items) => (Some(seq![c] + items), r1.1),
                                None => (None, r1.1),
                            }
                        }
                    } else {
                        let r1 = spec_expand_tail(ell, vars, rest, (if r0.1.len() <= bnd.len() { r0.1 } else { bnd }));
                        match r1.0 {
                            Some(items) => (Some(seq![c] + items), r1.1),
                            None => (None, r1.1),
                        }
                    }
                },
                None => {
                    if in_ell {
                        spec_expand_tail(ell, vars, rest_elems(rest), (if r0.1.len() <= bnd.len() { r0.1 } else { bnd }))
                    } else {
                        (None, r0.1)
                    }
                },
            }
        },
        _ => {
            if t is Symbol && contains_ast(vars, t) {
                match lookup_remove(bnd, t) {
                    Some((v, b2)) => (Some(seq![v]), b2),
                    None => (None, bnd),
                }
            } else {
                (Some(seq![t]), bnd)
            }
        },
    }
}

/// A pattern variable: an identifier that is not a literal, not the
/// wildcard, and not the ellipsis.
pub open spec fn is_pattern_var(ell: Ast, lits: Seq<Ast>, a: Ast) -> bool {
    &&& a is Symbol
    &&& !contains_ast(lits, a)
    &&& a != Ast::Symbol("_"@)
    &&& a != ell
}

/// The pattern variables of a pattern, in encounter order.
pub open spec fn spec_find_vars(ell: Ast, lits: Seq<Ast>, p: Ast, acc: Seq<Ast>) -> Seq<Ast>
    decreases node_count(p), 1int,
{
    match p {
        Ast::Symbol(_) => if is_pattern_var(ell, lits, p) {
            acc.push(p)
        } else {
            acc
        },
        Ast::Pair(_, _) => spec_find_vars_list(ell, lits, p, acc),
        _ => acc,
    }
}

pub open spec fn spec_find_vars_list(ell: Ast, lits: Seq<Ast>, tail: Ast, acc: Seq<Ast>) -> Seq<
    Ast,
>
    decreases node_count(tail), 0int,
{
    match tail {
        Ast::Nil => acc,
        Ast::Pair(a, d) => spec_find_vars_list(ell, lits, *d, spec_find_vars(ell, lits, *a, acc)),
        _ => if is_pattern_var(ell, lits, tail) {
            acc.push(tail)
        } else {
            acc
        },
    }
}

/// Why a pattern was rejected.
pub ghost enum PatIssue {
    NotAList,
    HeadEllipsis,
    Misplaced,
    Dup(Ast),
}

/// The message each rejection carries.
pub open spec fn pat_issue_text(i: PatIssue) -> Seq<char> {
    match i {
        PatIssue::NotAList => "pattern must be a ()"@,
        PatIssue::HeadEllipsis => "ellipsis out of place"@,
        PatIssue::Misplaced => "ellipses out of place"@,
        PatIssue::Dup(v) => "the pattern variable "@ + ast_text(v) + " was used more than once"@,
    }
}

/// Validate one list level of a pattern: the ellipsis at most once, never
/// first, never last in an improper list; every other identifier a fresh
/// pattern variable.
pub open spec fn spec_check_list(
    ell: Ast,
    lits: Seq<Ast>,
    tail: Ast,
    improper: bool,
    seen: bool,
    vars: Seq<Ast>,
) -> (Option<PatIssue>, Seq<Ast>)
    decreases node_count(tail), 0int,
{
    match tail {
        Ast::Nil => (None, vars),
        Ast::Pair(cur0, rest0) => {
            let cur = *cur0;
            let rest = *rest0;
            if cur is Pair {
                let r = spec_check_inner(ell, lits, cur, vars);
                match r.0 {
                    Some(issue) => (Some(issue), r.1),
                    None => spec_check_list(ell, lits, rest, improper, seen, r.1),
                }
            } else if cur is Symbol {
                if contains_ast(lits, cur) || cur == Ast::Symbol("_"@) {
                    spec_check_list(ell, lits, rest, improper, seen, vars)
                } else if cur == ell {
                    if seen || (improper && num_elems(rest) == 0) {
                        (Some(PatIssue::Misplaced), vars)
                    } else {
                        spec_check_list(ell, lits, rest, improper, true, vars)
                    }
                } else if contains_ast(vars, cur) {
                    (Some(PatIssue::Dup(cur)), vars)
                } else {
                    spec_check_list(ell, lits, rest, improper, seen, vars.push(cur))
                }
            } else {
                spec_check_list(ell, lits, rest, improper, seen, vars)
            }
        },
        _ => {
            if tail is Symbol {
                if contains_ast(lits, tail) || tail == Ast::Symbol("_"@) {
                    (None, vars)
                } else if tail == ell {
                    if seen || improper {
                        (Some(PatIssue::Misplaced), vars)
                    } else {
                        (None, vars)
                    }
                } else if contains_ast(vars, tail) {
                    (Some(PatIssue::Dup(tail)), vars)
                } else {
                    (None, vars.push(tail))
                }
            } else {
                (None, vars)
            }
        },
    }
}

/// Validate a nested pattern list: the ellipsis may not stand at its head.
pub open spec fn spec_check_inner(ell: Ast, lits: Seq<Ast>, p: Ast, vars: Seq<Ast>) -> (
    Option<PatIssue>,
    Seq<Ast>,
)
    decreases node_count(p), 1int,
{
    if p is Pair && *p->Pair_0 == ell {
        (Some(PatIssue::HeadEllipsis), vars)
    } else {
        let improper = p is Pair && !proper(p);
        spec_check_list(ell, lits, p, improper, false, vars)
    }
}

/// Validate a whole pattern: it must be a pair, and its tail after the head
/// element passes the list checks with no variable repeated anywhere.
pub open spec fn spec_check_pattern(ell: Ast, lits: Seq<Ast>, p: Ast) -> Option<PatIssue> {
    if !(p is Pair) {
        Some(PatIssue::NotAList)
    } else {
        spec_check_inner(ell, lits, *p->Pair_1, Seq::empty()).0
    }
}


/// The outcome of trying each rule in order on a usage of the macro.
pub ghost enum RulesOutcome {
    Expanded(Ast),
    ExpandFailed,
    NoMatch,
}

/// The mathematical content of a transformer.
pub ghost struct TransformModel {
    pub keyword: Ast,
    pub ellipsis: Ast,
    pub rules: Seq<(Ast, Ast)>,
    pub literals: Seq<Ast>,
}

impl TransformModel {
    /// The keyword is an identifier and every rule's pattern is a pair;
    /// construction establishes both.
    pub open spec fn wf(self) -> bool {
        &&& self.keyword is Symbol
        &&& forall|i: int| 0 <= i < self.rules.len() ==> (#[trigger] self.rules[i]).0 is Pair
    }
}

/// Try the rules from index `i` on: the first whose pattern matches the
/// usage's tail has its template expanded under the collected bindings.
pub open spec fn spec_try_rules(m: TransformModel, e: Ast, i: int) -> RulesOutcome
    decreases m.rules.len() - i,
{
    if i < 0 || i >= m.rules.len() {
        RulesOutcome::NoMatch
    } else {
        let pat = m.rules[i].0;
        let vars = spec_find_vars(m.ellipsis, m.literals, *pat->Pair_1, Seq::empty());
        let mm = spec_match(m.ellipsis, *pat->Pair_1, rest_elems(e), Seq::empty());
        if mm.0 {
            match spec_expand(m.ellipsis, vars, m.rules[i].1, mm.1).0 {
                Some(c) => RulesOutcome::Expanded(c),
                None => RulesOutcome::ExpandFailed,
            }
        } else {
            spec_try_rules(m, e, i + 1)
        }
    }
}

/// Why a `define-syntax` form was rejected.
pub ghost enum DefIssue {
    Shape,
    KeywordNotSymbol,
    ExpectedSyntaxRules,
    LiteralsNotSymbols,
    NotPair(Ast),
    Pattern(PatIssue),
}

/// The error each rejection is reported as.
pub open spec fn def_issue_error_ok(i: DefIssue, e: Error) -> bool {
    match i {
        DefIssue::Shape => e matches Error::InvalidDefineSyntax(t) && t@
            == "expected keyword and syntax-rules"@,
        DefIssue::KeywordNotSymbol => e matches Error::InvalidDefineSyntax(t) && t@
            == "keyword must be an identifier"@,
        DefIssue::ExpectedSyntaxRules => e matches Error::InvalidDefineSyntax(t) && t@
            == "expected syntax-rules"@,
        DefIssue::LiteralsNotSymbols => e matches Error::InvalidDefineSyntax(t) && t@
            == "literals must be identifiers"@,
        DefIssue::NotPair(a) => e matches Error::ExpectedPairButFound(t) && t@ == ast_text(a),
        DefIssue::Pattern(pi) => e matches Error::InvalidDefineSyntax(t) && t@ == pat_issue_text(
            pi,
        ),
    }
}

/// Each rule is a `(pattern template)` list whose pattern passes validation.
pub open spec fn spec_build_rules(ell: Ast, lits: Seq<Ast>, tail: Ast) -> Result<
    Seq<(Ast, Ast)>,
    DefIssue,
>
    decreases tail,
{
    match tail {
        Ast::Nil => Ok(Seq::empty()),
        Ast::Pair(it0, rest0) => {
            let it = *it0;
            if !(it is Pair) {
                Err(DefIssue::NotPair(it))
            } else {
                let pat = *it->Pair_0;
                let d = *it->Pair_1;
                if !(d is Pair) {
                    Err(DefIssue::NotPair(d))
                } else {
                    let tmpl = *d->Pair_0;
                    match spec_check_pattern(ell, lits, pat) {
                        Some(issue) => Err(DefIssue::Pattern(issue)),
                        None => match spec_build_rules(ell, lits, *rest0) {
                            Ok(rest) => Ok(seq![(pat, tmpl)] + rest),
                            Err(i) => Err(i),
                        },
                    }
                }
            }
        },
        _ => Err(DefIssue::NotPair(tail)),
    }
}

/// Does the sequence hold anything besides identifiers?
pub open spec fn any_non_symbol(s: Seq<Ast>) -> bool {
    exists|k: int| 0 <= k < s.len() && !((#[trigger] s[k]) is Symbol)
}

/// What a `(define-syntax KEYWORD (syntax-rules [ELLIPSIS] (LIT ...)
/// (PAT TEMPL) ...))` form yields: the keyword, the ellipsis (`...` when
/// none is named), the literal identifiers, and the validated rules; or the
/// first rejection on the way.
pub open spec fn spec_try_new(e: Ast) -> Result<TransformModel, DefIssue> {
    if num_elems(e) != 3 {
        Err(DefIssue::Shape)
    } else {
        let kw = elems_of(e)[1];
        let sr0 = elems_of(e)[2];
        if !(kw is Symbol) {
            Err(DefIssue::KeywordNotSymbol)
        } else if !(sr0 is Pair) {
            Err(DefIssue::NotPair(sr0))
        } else if *sr0->Pair_0 != Ast::Symbol("syntax-rules"@) {
            Err(DefIssue::ExpectedSyntaxRules)
        } else {
            let t1 = *sr0->Pair_1;
            if !(t1 is Pair) {
                Err(DefIssue::NotPair(t1))
            } else {
                let first1 = *t1->Pair_0;
                let ell = if first1 is Symbol {
                    first1
                } else {
                    Ast::Symbol("..."@)
                };
                let t2 = if first1 is Symbol {
                    *t1->Pair_1
                } else {
                    t1
                };
                if !(t2 is Pair) {
                    Err(DefIssue::NotPair(t2))
                } else {
                    let lits = elems_of(*t2->Pair_0);
                    if any_non_symbol(lits) {
                        Err(DefIssue::LiteralsNotSymbols)
                    } else {
                        match spec_build_rules(ell, lits, *t2->Pair_1) {
                            Ok(rules) => Ok(
                                TransformModel { keyword: kw, ellipsis: ell, rules, literals: lits },
                            ),
                            Err(i) => Err(i),
                        }
                    }
                }
            }
        }
    }
}

/// The bindings gathered by a match and the rule's pattern variables.
pub ghost struct EnvModel {
    pub bindings: Seq<(Ast, Ast)>,
    pub variables: Seq<Ast>,
}

/// A pattern environment: `(pattern-var, matched-expr)` bindings in
/// encounter order, and the pattern variables of the rule being tried.
pub struct PatternEnvironment {
    bindings: Vec<(Cell, Cell)>,
    variables: Vec<Cell>,
}

impl View for PatternEnvironment {
    type V = EnvModel;

    closed spec fn view(&self) -> EnvModel {
        EnvModel {
            bindings: pair_views(self.bindings@),
            variables: cell_views(self.variables@),
        }
    }
}

impl PatternEnvironment {
    pub fn new() -> (r: PatternEnvironment)
        ensures
            r@.bindings.len() == 0,
            r@.variables.len() == 0,
    {
        PatternEnvironment { bindings: Vec::new(), variables: Vec::new() }
    }

    pub(crate) fn set_variables(&mut self, vars: Vec<Cell>)
        ensures
            final(self)@.bindings == old(self)@.bindings,
            final(self)@.variables == cell_views(vars@),
    {
        self.variables = vars;
    }

    fn bindings_len(&self) -> (r: usize)
        ensures
            r == self@.bindings.len(),
    {
        self.bindings.len()
    }

    pub fn add_binding(&mut self, pattern: Cell, expr: Cell)
        ensures
            final(self)@.bindings == old(self)@.bindings.push((pattern@, expr@)),
            final(self)@.variables == old(self)@.variables,
    {
        let ghost b0 = self@.bindings;
        let ghost kv = (pattern@, expr@);
        self.bindings.push((pattern, expr));
        proof {
            assert(self@.bindings =~= b0.push(kv));
        }
    }

    /// Emit and consume the first binding for `pattern`, if any.
    pub fn get_binding(&mut self, pattern: &Cell) -> (r: Option<Cell>)
        ensures
            final(self)@.variables == old(self)@.variables,
            match lookup_remove(old(self)@.bindings, pattern@) {
                Some((v, b2)) => r matches Some(c) && c@ == v && final(self)@.bindings == b2,
                None => r is None && final(self)@.bindings == old(self)@.bindings,
            },
            final(self)@.bindings.len() <= old(self)@.bindings.len(),
    {
        let ghost b0 = self@.bindings;
        let mut i: usize = 0;
        while i < self.bindings.len()
            invariant
                i <= self.bindings.len(),
                self@.bindings == b0,
                self@ == old(self)@,
                b0.len() == self.bindings.len(),
                forall|j: int| 0 <= j < i ==> (#[trigger] b0[j]).0 != pattern@,
            decreases self.bindings.len() - i,
        {
            proof {
                assert(b0[i as int] == (self.bindings@[i as int].0@, self.bindings@[i as int].1@));
            }
            if self.bindings[i].0.same(pattern) {
                proof {
                    lemma_lookup_remove_at(b0, pattern@, i as int);
                }
                let pair = self.bindings.remove(i);
                proof {
                    assert(self@.bindings =~= b0.remove(i as int));
                }
                return Some(pair.1);
            }
            i = i + 1;
        }
        proof {
            lemma_lookup_remove_none(b0, pattern@);
        }
        None
    }

    /// Is this identifier a pattern variable of the rule being tried?
    pub fn is_variable(&self, expr: &Cell) -> (r: bool)
        ensures
            r == contains_ast(self@.variables, expr@),
    {
        let mut i: usize = 0;
        while i < self.variables.len()
            invariant
                i <= self.variables.len(),
                self@.variables.len() == self.variables.len(),
                forall|j: int| 0 <= j < i ==> (#[trigger] self@.variables[j]) != expr@,
            decreases self.variables.len() - i,
        {
            proof {
                assert(self@.variables[i as int] == self.variables@[i as int]@);
            }
            if self.variables[i].same(expr) {
                return true;
            }
            i = i + 1;
        }
        false
    }
}

/// A traversal yields no element exactly for `Nil`.
proof fn lemma_num_elems_zero(a: Ast)
    ensures
        (num_elems(a) == 0) <==> (a is Nil),
{
    match a {
        Ast::Pair(_, _) => {},
        Ast::Nil => {},
        _ => {},
    }
}

/// Do two traversals yield the same number of elements?
fn same_count(a: &Cell, b: &Cell) -> (r: bool)
    ensures
        r == (num_elems(a@) == num_elems(b@)),
    decreases *a,
{
    match (a, b) {
        (Cell::Pair(_, d1), Cell::Pair(_, d2)) => same_count(&**d1, &**d2),
        (Cell::Pair(_, d1), Cell::Nil) => false,
        (Cell::Pair(_, d1), _) => {
            proof {
                lemma_num_elems_zero(d1@);
            }
            match &**d1 {
                Cell::Nil => true,
                _ => false,
            }
        },
        (Cell::Nil, Cell::Nil) => true,
        (Cell::Nil, _) => false,
        (_, Cell::Nil) => false,
        (_, Cell::Pair(_, d2)) => {
            proof {
                lemma_num_elems_zero(d2@);
            }
            match &**d2 {
                Cell::Nil => true,
                _ => false,
            }
        },
        (_, _) => true,
    }
}

/// The elements a traversal of `c` yields, copied in order.
fn collect_elems(c: &Cell) -> (r: Vec<Cell>)
    ensures
        cell_views(r@) == elems_of(c@),
    decreases *c,
{
    match c {
        Cell::Nil => {
            let r = Vec::<Cell>::new();
            proof {
                assert(cell_views(r@) =~= elems_of(c@));
            }
            r
        },
        Cell::Pair(a, d) => {
            let mut r: Vec<Cell> = Vec::new();
            r.push(a.deep_clone());
            let mut rest = collect_elems(&**d);
            let ghost rest0 = rest@;
            r.append(&mut rest);
            proof {
                assert(cell_views(r@) =~= elems_of(c@));
            }
            r
        },
        other => {
            let mut r: Vec<Cell> = Vec::new();
            r.push(other.deep_clone());
            proof {
                assert(cell_views(r@) =~= elems_of(c@));
            }
            r
        },
    }
}

/// A `syntax-rules` transformer: a keyword, an ellipsis identifier, the
/// literal identifiers, and the ordered `(pattern, template)` rules.
#[derive(Debug)]
pub struct Transform {
    keyword: Cell,
    ellipsis: Cell,
    syntax_rules: Vec<(Cell, Cell)>,
    literals: Vec<Cell>,
}

impl View for Transform {
    type V = TransformModel;

    closed spec fn view(&self) -> TransformModel {
        TransformModel {
            keyword: self.keyword@,
            ellipsis: self.ellipsis@,
            rules: pair_views(self.syntax_rules@),
            literals: cell_views(self.literals@),
        }
    }
}


impl Transform {
    /// The macro keyword this transformer is bound to.
    pub fn keyword(&self) -> (r: &Cell)
        ensures
            r@ == self@.keyword,
    {
        &self.keyword
    }

    /// The ellipsis identifier in force for this transformer.
    pub fn ellipsis(&self) -> (r: &Cell)
        ensures
            r@ == self@.ellipsis,
    {
        &self.ellipsis
    }

    /// The literal identifiers of this transformer.
    pub fn literals(&self) -> (r: &Vec<Cell>)
        ensures
            cell_views(r@) == self@.literals,
    {
        &self.literals
    }

    /// Is the cell one of this transformer's literal identifiers?
    pub fn is_literal(&self, cell: &Cell) -> (r: bool)
        ensures
            r == contains_ast(self@.literals, cell@),
    {
        let mut i: usize = 0;
        while i < self.literals.len()
            invariant
                i <= self.literals.len(),
                self@.literals.len() == self.literals.len(),
                forall|j: int| 0 <= j < i ==> (#[trigger] self@.literals[j]) != cell@,
            decreases self.literals.len() - i,
        {
            proof {
                assert(self@.literals[i as int] == self.literals@[i as int]@);
            }
            if self.literals[i].same(cell) {
                return true;
            }
            i = i + 1;
        }
        false
    }

    /// Is the next element of this tail the ellipsis?
    fn next_is_ellipsis(&self, rest: &Cell) -> (r: bool)
        ensures
            r == (first_elem(rest@) == Some(self@.ellipsis)),
    {
        match rest {
            Cell::Pair(a, _) => a.same(&self.ellipsis),
            Cell::Nil => false,
            other => other.same(&self.ellipsis),
        }
    }

    /// Attempt to match the expression against one rule's pattern, adding a
    /// binding for every pattern variable met on the way.
    fn pattern_match(&self, pattern: &Cell, expr: &Cell, env: &mut PatternEnvironment) -> (r: bool)
        ensures
            ({
                let sm = spec_match(self@.ellipsis, pattern@, expr@, old(env)@.bindings);
                r == sm.0 && final(env)@.bindings == sm.1 && final(env)@.variables == old(
                    env,
                )@.variables
            }),
        decreases node_count(pattern@) + node_count(expr@), num_elems(expr@), 1int,
    {
        if pattern.is_pair() && expr.is_pair() && (pattern.is_list() != expr.is_list()) {
            return false;
        }
        self.match_tail(pattern, expr, env)
    }

    /// Walk pattern elements and expression elements in lockstep; see
    /// `spec_match_tail` for the ellipsis handling.
    fn match_tail(&self, p: &Cell, e: &Cell, env: &mut PatternEnvironment) -> (r: bool)
        ensures
            ({
                let sm = spec_match_tail(self@.ellipsis, p@, e@, old(env)@.bindings);
                r == sm.0 && final(env)@.bindings == sm.1 && final(env)@.variables == old(
                    env,
                )@.variables
            }),
        decreases node_count(p@) + node_count(e@), num_elems(e@), 0int,
    {
        let nil_cell = Cell::Nil;
        match p {
            Cell::Nil => {
                match e {
                    Cell::Nil => true,
                    _ => false,
                }
            },
            _ => {
                let (cur_p, rest_p): (&Cell, &Cell) = match p {
                    Cell::Pair(a, d) => (&**a, &**d),
                    other => (other, &nil_cell),
                };
                let in_ell = self.next_is_ellipsis(rest_p);
                if let Cell::Nil = e {
                    return in_ell;
                }
                let (cur_e, rest_e): (&Cell, &Cell) = match e {
                    Cell::Pair(a, d) => (&**a, &**d),
                    other => (other, &nil_cell),
                };
                let step_ok: bool = match cur_p {
                    Cell::Symbol(_) => {
                        env.add_binding(cur_p.deep_clone(), cur_e.deep_clone());
                        true
                    },
                    Cell::Pair(_, _) => self.pattern_match(cur_p, cur_e, env),
                    _ => cur_p.same(cur_e),
                };
                if !step_ok {
                    return false;
                }
                if in_ell {
                    let rest2: &Cell = match rest_p {
                        Cell::Pair(_, d) => &**d,
                        _ => &nil_cell,
                    };
                    if same_count(rest2, rest_e) {
                        self.match_tail(rest2, rest_e, env)
                    } else {
                        self.match_tail(p, rest_e, env)
                    }
                } else {
                    self.match_tail(rest_p, rest_e, env)
                }
            },
        }
    }

    /// Expand a template under the bindings of a successful match; see
    /// `spec_expand` for the repetition and consumption rules.
    fn expand(&self, template: &Cell, env: &mut PatternEnvironment) -> (r: Option<Cell>)
        ensures
            ({
                let se = spec_expand(
                    self@.ellipsis,
                    old(env)@.variables,
                    template@,
                    old(env)@.bindings,
                );
                &&& (match r {
                    Some(c) => se.0 matches Some(a) && c@ == a,
                    None => se.0 is None,
                })
                &&& final(env)@.bindings == se.1
                &&& final(env)@.variables == old(env)@.variables
            }),
            final(env)@.bindings.len() <= old(env)@.bindings.len(),
        decreases old(env)@.bindings.len(), node_count(template@), 1int,
    {
        match template {
            Cell::Symbol(_) => {
                if env.is_variable(template) {
                    env.get_binding(template)
                } else {
                    Some(template.deep_clone())
                }
            },
            Cell::Pair(_, _) => {
                match self.expand_tail(template, env) {
                    Some(v) => {
                        proof {
                            lemma_list_ast_views(v@);
                        }
                        Some(Cell::new_list(v))
                    },
                    None => None,
                }
            },
            other => Some(other.deep_clone()),
        }
    }

    /// Expand the elements of a pair template in order.
    fn expand_tail(&self, t: &Cell, env: &mut PatternEnvironment) -> (r: Option<Vec<Cell>>)
        ensures
            ({
                let se = spec_expand_tail(
                    self@.ellipsis,
                    old(env)@.variables,
                    t@,
                    old(env)@.bindings,
                );
                &&& (match r {
                    Some(v) => se.0 matches Some(items) && cell_views(v@) == items,
                    None => se.0 is None,
                })
                &&& final(env)@.bindings == se.1
                &&& final(env)@.variables == old(env)@.variables
            }),
            final(env)@.bindings.len() <= old(env)@.bindings.len(),
        decreases old(env)@.bindings.len(), node_count(t@), 0int,
    {
        match t {
            Cell::Nil => {
                let v = Vec::<Cell>::new();
                proof {
                    assert(cell_views(v@) =~= Seq::<Ast>::empty());
                }
                Some(v)
            },
            Cell::Pair(cur, rest) => {
                proof {
                    lemma_node_count_pos(cur@);
                    lemma_node_count_pos(rest@);
                    lemma_node_count_pos(rest_elems(rest@));
                    lemma_rest_elems_le(rest@);
                }
                let len0 = env.bindings_len();
                let r0 = self.expand(&**cur, env);
                match r0 {
                    Some(c) => {
                        let ghost cv = c@;
                        if self.next_is_ellipsis(&**rest) {
                            if env.bindings_len() < len0 {
                                match self.expand_tail(t, env) {
                                    Some(mut items) => {
                                        let ghost items0 = items@;
                                        items.insert(0, c);
                                        proof {
                                            assert(cell_views(items@) =~= seq![cv]
                                                + cell_views(items0));
                                        }
                                        Some(items)
                                    },
                                    None => None,
                                }
                            } else {
                                let nil_cell = Cell::Nil;
                                let rest2: &Cell = match &**rest {
                                    Cell::Pair(_, d) => &**d,
                                    _ => &nil_cell,
                                };
                                match self.expand_tail(rest2, env) {
                                    Some(mut items) => {
                                        let ghost items0 = items@;
                                        items.insert(0, c);
                                        proof {
                                            assert(cell_views(items@) =~= seq![cv]
                                                + cell_views(items0));
                                        }
                                        Some(items)
                                    },
                                    None => None,
                                }
                            }
                        } else {
                            match self.expand_tail(&**rest, env) {
                                Some(mut items) => {
                                    let ghost items0 = items@;
                                    items.insert(0, c);
                                    proof {
                                        assert(cell_views(items@) =~= seq![cv]
                                            + cell_views(items0));
                                    }
                                    Some(items)
                                },
                                None => None,
                            }
                        }
                    },
                    None => {
                        if self.next_is_ellipsis(&**rest) {
                            let nil_cell = Cell::Nil;
                            let rest2: &Cell = match &**rest {
                                Cell::Pair(_, d) => &**d,
                                _ => &nil_cell,
                            };
                            self.expand_tail(rest2, env)
                        } else {
                            None
                        }
                    },
                }
            },
            other => {
                if other.is_symbol() && env.is_variable(other) {
                    match env.get_binding(other) {
                        Some(v) => {
                            let ghost vv = v@;
                            let mut out: Vec<Cell> = Vec::new();
                            out.push(v);
                            proof {
                                assert(cell_views(out@) =~= seq![vv]);
                            }
                            Some(out)
                        },
                        None => None,
                    }
                } else {
                    let c = other.deep_clone();
                    let ghost cv = c@;
                    let mut out: Vec<Cell> = Vec::new();
                    out.push(c);
                    proof {
                        assert(cell_views(out@) =~= seq![cv]);
                    }
                    Some(out)
                }
            },
        }
    }
}


/// Is the cell equal to one of the given cells?
fn cell_in(list: &Vec<Cell>, c: &Cell) -> (r: bool)
    ensures
        r == contains_ast(cell_views(list@), c@),
{
    let ghost m = cell_views(list@);
    let mut i: usize = 0;
    while i < list.len()
        invariant
            i <= list.len(),
            m.len() == list.len(),
            m == cell_views(list@),
            forall|j: int| 0 <= j < i ==> (#[trigger] m[j]) != c@,
        decreases list.len() - i,
    {
        proof {
            assert(m[i as int] == list@[i as int]@);
        }
        if list[i].same(c) {
            return true;
        }
        i = i + 1;
    }
    false
}

impl Transform {
    /// Collect the pattern variables of a pattern, in encounter order:
    /// every identifier that is not a literal, not the wildcard `_`, and not
    /// the ellipsis.
    pub fn find_pattern_variables(&self, pattern: &Cell, variables: &mut Vec<Cell>)
        ensures
            cell_views(final(variables)@) == spec_find_vars(
                self@.ellipsis,
                self@.literals,
                pattern@,
                cell_views(old(variables)@),
            ),
        decreases node_count(pattern@), 1int,
    {
        let ghost acc0 = cell_views(variables@);
        match pattern {
            Cell::Symbol(_) => {
                let us = Cell::symbol("_");
                if !self.is_literal(pattern) && !pattern.same(&us) && !pattern.same(
                    &self.ellipsis,
                ) {
                    variables.push(pattern.deep_clone());
                    proof {
                        assert(cell_views(variables@) =~= acc0.push(pattern@));
                    }
                }
            },
            Cell::Pair(_, _) => {
                self.find_vars_list(pattern, variables);
            },
            _ => {},
        }
    }

    fn find_vars_list(&self, tail: &Cell, variables: &mut Vec<Cell>)
        ensures
            cell_views(final(variables)@) == spec_find_vars_list(
                self@.ellipsis,
                self@.literals,
                tail@,
                cell_views(old(variables)@),
            ),
        decreases node_count(tail@), 0int,
    {
        let ghost acc0 = cell_views(variables@);
        match tail {
            Cell::Nil => {},
            Cell::Pair(a, d) => {
                self.find_pattern_variables(&**a, variables);
                self.find_vars_list(&**d, variables);
            },
            other => {
                let us = Cell::symbol("_");
                if other.is_symbol() && !self.is_literal(other) && !other.same(&us) && !other.same(
                    &self.ellipsis,
                ) {
                    variables.push(other.deep_clone());
                    proof {
                        assert(cell_views(variables@) =~= acc0.push(tail@));
                    }
                }
            },
        }
    }

    /// Validate one list level of a pattern; see `spec_check_list`.
    fn check_list(
        tail: &Cell,
        ellipsis: &Cell,
        literals: &Vec<Cell>,
        variables: &mut Vec<Cell>,
        improper: bool,
        seen: bool,
    ) -> (r: Result<(), Error>)
        ensures
            ({
                let sc = spec_check_list(
                    ellipsis@,
                    cell_views(literals@),
                    tail@,
                    improper,
                    seen,
                    cell_views(old(variables)@),
                );
                &&& cell_views(final(variables)@) == sc.1
                &&& (match sc.0 {
                    None => r is Ok,
                    Some(issue) => r matches Err(e) && (e matches Error::InvalidDefineSyntax(t)
                        && t@ == pat_issue_text(issue)),
                })
            }),
        decreases node_count(tail@), 0int,
    {
        let ghost vars0 = cell_views(variables@);
        match tail {
            Cell::Nil => Ok(()),
            Cell::Pair(cur, rest) => {
                match &**cur {
                    Cell::Pair(_, _) => {
                        let rr = Self::check_inner(&**cur, ellipsis, literals, variables);
                        match rr {
                            Err(e) => Err(e),
                            Ok(()) => Self::check_list(
                                &**rest,
                                ellipsis,
                                literals,
                                variables,
                                improper,
                                seen,
                            ),
                        }
                    },
                    Cell::Symbol(_) => {
                        let us = Cell::symbol("_");
                        if cell_in(literals, &**cur) || cur.same(&us) {
                            Self::check_list(&**rest, ellipsis, literals, variables, improper, seen)
                        } else if cur.same(ellipsis) {
                            proof {
                                lemma_num_elems_zero(rest@);
                            }
                            let rest_empty = match &**rest {
                                Cell::Nil => true,
                                _ => false,
                            };
                            if seen || (improper && rest_empty) {
                                Err(
                                    Error::InvalidDefineSyntax(
                                        String::from_str("ellipses out of place"),
                                    ),
                                )
                            } else {
                                Self::check_list(
                                    &**rest,
                                    ellipsis,
                                    literals,
                                    variables,
                                    improper,
                                    true,
                                )
                            }
                        } else if cell_in(variables, &**cur) {
                            let mut msg = String::from_str("the pattern variable ");
                            msg.append(cur.to_text().as_str());
                            proof {
                                crate::vcell::seq_assoc_3::<char>(
                                    "the pattern variable "@,
                                    ast_text(cur@),
                                    " was used more than once"@,
                                );
                            }
                            msg.append(" was used more than once");
                            Err(Error::InvalidDefineSyntax(msg))
                        } else {
                            variables.push(cur.deep_clone());
                            proof {
                                assert(cell_views(variables@) =~= vars0.push(cur@));
                            }
                            Self::check_list(&**rest, ellipsis, literals, variables, improper, seen)
                        }
                    },
                    _ => Self::check_list(&**rest, ellipsis, literals, variables, improper, seen),
                }
            },
            other => {
                if other.is_symbol() {
                    let us = Cell::symbol("_");
                    if cell_in(literals, other) || other.same(&us) {
                        Ok(())
                    } else if other.same(ellipsis) {
                        if seen || improper {
                            Err(
                                Error::InvalidDefineSyntax(
                                    String::from_str("ellipses out of place"),
                                ),
                            )
                        } else {
                            Ok(())
                        }
                    } else if cell_in(variables, other) {
                        let mut msg = String::from_str("the pattern variable ");
                        msg.append(other.to_text().as_str());
                        proof {
                            crate::vcell::seq_assoc_3::<char>(
                                "the pattern variable "@,
                                ast_text(other@),
                                " was used more than once"@,
                            );
                        }
                        msg.append(" was used more than once");
                        Err(Error::InvalidDefineSyntax(msg))
                    } else {
                        variables.push(other.deep_clone());
                        proof {
                            assert(cell_views(variables@) =~= vars0.push(tail@));
                        }
                        Ok(())
                    }
                } else {
                    Ok(())
                }
            },
        }
    }

    /// Validate a nested pattern list; see `spec_check_inner`.
    fn check_inner(
        p: &Cell,
        ellipsis: &Cell,
        literals: &Vec<Cell>,
        variables: &mut Vec<Cell>,
    ) -> (r: Result<(), Error>)
        ensures
            ({
                let sc = spec_check_inner(
                    ellipsis@,
                    cell_views(literals@),
                    p@,
                    cell_views(old(variables)@),
                );
                &&& cell_views(final(variables)@) == sc.1
                &&& (match sc.0 {
                    None => r is Ok,
                    Some(issue) => r matches Err(e) && (e matches Error::InvalidDefineSyntax(t)
                        && t@ == pat_issue_text(issue)),
                })
            }),
        decreases node_count(p@), 1int,
    {
        let head_is_ellipsis = match p {
            Cell::Pair(a, _) => a.same(ellipsis),
            _ => false,
        };
        if head_is_ellipsis {
            return Err(Error::InvalidDefineSyntax(String::from_str("ellipsis out of place")));
        }
        let improper = p.is_improper_list();
        Self::check_list(p, ellipsis, literals, variables, improper, false)
    }

    /// Check the pattern rules: the pattern is a pair; after its head, the
    /// ellipsis appears at most once per list, never first, and never last
    /// in an improper list; and no pattern variable is used twice anywhere
    /// in the pattern.
    fn check_pattern_syntax(pattern: &Cell, ellipsis: &Cell, literals: &Vec<Cell>) -> (r: Result<
        (),
        Error,
    >)
        ensures
            ({
                let sc = spec_check_pattern(
                    ellipsis@,
                    cell_views(literals@),
                    pattern@,
                );
                match sc {
                    None => r is Ok,
                    Some(issue) => r matches Err(e) && (e matches Error::InvalidDefineSyntax(t)
                        && t@ == pat_issue_text(issue)),
                }
            }),
    {
        match pattern {
            Cell::Pair(_, d) => {
                let mut variables: Vec<Cell> = Vec::new();
                proof {
                    assert(cell_views(variables@) =~= Seq::<Ast>::empty());
                }
                match Self::check_inner(&**d, ellipsis, literals, &mut variables) {
                    Ok(()) => Ok(()),
                    Err(e) => Err(e),
                }
            },
            _ => Err(Error::InvalidDefineSyntax(String::from_str("pattern must be a ()"))),
        }
    }

    /// Template validation is accepted as-is.
    fn check_template_syntax(
        _pattern: &Cell,
        _ellipsis: &Cell,
        _literals: &Vec<Cell>,
    ) -> (r: Result<(), Error>)
        ensures
            r is Ok,
    {
        Ok(())
    }
}


impl Transform {
    /// Build the rule list from the tail of the `syntax-rules` form.
    fn build_rules(tail: &Cell, ellipsis: &Cell, literals: &Vec<Cell>) -> (r: Result<
        Vec<(Cell, Cell)>,
        Error,
    >)
        ensures
            ({
                let sb = spec_build_rules(
                    ellipsis@,
                    cell_views(literals@),
                    tail@,
                );
                match sb {
                    Ok(rules) => r matches Ok(v) && pair_views(v@)
                        == rules,
                    Err(issue) => r matches Err(e) && def_issue_error_ok(issue, e),
                }
            }),
        decreases *tail,
    {
        match tail {
            Cell::Nil => {
                let v = Vec::<(Cell, Cell)>::new();
                proof {
                    assert(pair_views(v@) =~= Seq::<
                        (Ast, Ast),
                    >::empty());
                    assert(tail@ is Nil);
                    assert(spec_build_rules(ellipsis@, cell_views(literals@), tail@) is Ok);
                }
                Ok(v)
            },
            Cell::Pair(it, rest) => {
                match &**it {
                    Cell::Pair(pat, d) => {
                        match &**d {
                            Cell::Pair(tmpl, _) => {
                                match Self::check_pattern_syntax(&**pat, ellipsis, literals) {
                                    Err(e) => Err(e),
                                    Ok(()) => {
                                        match Self::check_template_syntax(
                                            &**pat,
                                            ellipsis,
                                            literals,
                                        ) {
                                            Err(e) => Err(e),
                                            Ok(()) => {
                                                match Self::build_rules(
                                                    &**rest,
                                                    ellipsis,
                                                    literals,
                                                ) {
                                                    Err(e) => Err(e),
                                                    Ok(mut v) => {
                                                        let ghost v0 = v@;
                                                        let ghost pv = (pat@, tmpl@);
                                                        v.insert(0, (pat.deep_clone(), tmpl.deep_clone()));
                                                        proof {
                                                            assert(pair_views(v@) =~= seq![pv]
                                                                + pair_views(v0));
                                                        }
                                                        Ok(v)
                                                    },
                                                }
                                            },
                                        }
                                    },
                                }
                            },
                            other_d => {
                                proof {
                                    crate::cell::lemma_view_variants(*other_d);
                                    let litm = cell_views(literals@);
                                    assert(tail@ == Ast::Pair(Box::new(it@), Box::new(rest@)));
                                    assert(it@ is Pair);
                                    assert(*it@->Pair_1 == other_d@);
                                    assert(!(other_d@ is Pair));
                                    assert(spec_build_rules(ellipsis@, litm, tail@)
                                        == Err::<Seq<(Ast, Ast)>, DefIssue>(DefIssue::NotPair(
                                        other_d@,
                                    )));
                                }
                                Err(Error::ExpectedPairButFound(other_d.to_text()))
                            },
                        }
                    },
                    other_it => {
                        proof {
                            crate::cell::lemma_view_variants(*other_it);
                            let litm = cell_views(literals@);
                            assert(spec_build_rules(ellipsis@, litm, tail@) == Err::<
                                Seq<(Ast, Ast)>,
                                DefIssue,
                            >(DefIssue::NotPair(other_it@)));
                        }
                        Err(Error::ExpectedPairButFound(other_it.to_text()))
                    },
                }
            },
            other => {
                proof {
                    crate::cell::lemma_view_variants(*other);
                    let litm = cell_views(literals@);
                    assert(spec_build_rules(ellipsis@, litm, tail@) == Err::<
                        Seq<(Ast, Ast)>,
                        DefIssue,
                    >(DefIssue::NotPair(other@)));
                }
                Err(Error::ExpectedPairButFound(other.to_text()))
            },
        }
    }

    /// Given a `(define-syntax ...)` expression, build a transformer or
    /// report why the form is rejected.
    #[verifier::loop_isolation(false)]
    pub fn try_new(expr: &Cell) -> (r: Result<Transform, Error>)
        ensures
            ({
                match spec_try_new(expr@) {
                    Ok(model) => r matches Ok(t) && t@ == model && t@.wf(),
                    Err(issue) => r matches Err(e) && def_issue_error_ok(issue, e),
                }
            }),
    {
        if !elems_is_n(expr, 3) {
            return Err(
                Error::InvalidDefineSyntax(String::from_str("expected keyword and syntax-rules")),
            );
        }
        proof {
            lemma_num_elems_unfold(expr@);
            assert(expr@ is Pair);
        }
        let t1: &Cell = match expr {
            Cell::Pair(_, d) => &**d,
            _ => vstd::pervasive::unreached(),
        };
        proof {
            lemma_num_elems_unfold(t1@);
            assert(t1@ is Pair);
        }
        let (kw, t2): (&Cell, &Cell) = match t1 {
            Cell::Pair(a, d) => (&**a, &**d),
            _ => vstd::pervasive::unreached(),
        };
        let sr: &Cell = match t2 {
            Cell::Pair(a, _) => &**a,
            other => other,
        };
        proof {
            lemma_num_elems_unfold(t2@);
            assert(!(t2@ is Nil));
            assert(elems_of(expr@) == seq![*expr@->Pair_0] + elems_of(t1@));
            assert(elems_of(t1@) == seq![kw@] + elems_of(t2@));
            if t2@ is Pair {
                assert(elems_of(t2@) == seq![sr@] + elems_of(*t2@->Pair_1));
            } else {
                assert(elems_of(t2@) == seq![t2@]);
            }
            assert(elems_of(expr@)[1] == kw@);
            assert(elems_of(expr@)[2] == sr@);
        }
        if !kw.is_symbol() {
            return Err(Error::InvalidDefineSyntax(String::from_str("keyword must be an identifier")));
        }
        let (sr_head, sr_tail): (&Cell, &Cell) = match sr {
            Cell::Pair(a, d) => (&**a, &**d),
            other => {
                proof {
                    crate::cell::lemma_view_variants(*other);
                }
                return Err(Error::ExpectedPairButFound(other.to_text()));
            },
        };
        let srs = Cell::symbol("syntax-rules");
        if !sr_head.same(&srs) {
            return Err(Error::InvalidDefineSyntax(String::from_str("expected syntax-rules")));
        }
        let (first1, t1_tail): (&Cell, &Cell) = match sr_tail {
            Cell::Pair(a, d) => (&**a, &**d),
            other => {
                proof {
                    crate::cell::lemma_view_variants(*other);
                }
                return Err(Error::ExpectedPairButFound(other.to_text()));
            },
        };
        let (ell_cell, after_ell): (Cell, &Cell) = if first1.is_symbol() {
            (first1.deep_clone(), t1_tail)
        } else {
            (Cell::symbol("..."), sr_tail)
        };
        let (lits_form, rules_tail): (&Cell, &Cell) = match after_ell {
            Cell::Pair(a, d) => (&**a, &**d),
            other => {
                proof {
                    crate::cell::lemma_view_variants(*other);
                }
                return Err(Error::ExpectedPairButFound(other.to_text()));
            },
        };
        let literals = collect_elems(lits_form);
        let ghost litv = cell_views(literals@);
        proof {
            assert(sr_tail@ == *sr@->Pair_1);
            assert(after_ell@ == (if first1@ is Symbol {
                *sr_tail@->Pair_1
            } else {
                sr_tail@
            }));
            assert(lits_form@ == *after_ell@->Pair_0);
            assert(litv == elems_of(lits_form@));
        }
        let mut li: usize = 0;
        while li < literals.len()
            invariant
                li <= literals.len(),
                litv.len() == literals.len(),
                litv == cell_views(literals@),
                forall|j: int| 0 <= j < li ==> (#[trigger] litv[j]) is Symbol,
            decreases literals.len() - li,
        {
            proof {
                assert(litv[li as int] == literals@[li as int]@);
            }
            if !literals[li].is_symbol() {
                proof {
                    assert(!((litv[li as int]) is Symbol));
                    assert(any_non_symbol(litv));
                }
                return Err(
                    Error::InvalidDefineSyntax(String::from_str("literals must be identifiers")),
                );
            }
            li = li + 1;
        }
        proof {
            assert(!any_non_symbol(litv));
        }
        let rules = match Self::build_rules(rules_tail, &ell_cell, &literals) {
            Ok(v) => v,
            Err(e) => {
                return Err(e);
            },
        };
        let t = Transform {
            keyword: kw.deep_clone(),
            ellipsis: ell_cell,
            syntax_rules: rules,
            literals,
        };
        proof {
            let model = spec_try_new(expr@)->Ok_0;
            assert(t@.rules == model.rules);
            assert forall|i: int| 0 <= i < t@.rules.len() implies (#[trigger] t@.rules[i]).0 is Pair by {
                lemma_build_rules_pairs(t@.ellipsis, t@.literals, rules_tail@, i);
            }
        }
        Ok(t)
    }

    /// Transform a usage of the macro: try each rule in order, and expand
    /// the template of the first whose pattern matches; report invalid
    /// syntax when no rule matches or the expansion runs out of bindings.
    pub fn transform(&self, expr: &Cell) -> (r: Result<Cell, Error>)
        requires
            self@.wf(),
        ensures
            !(expr@ is Pair) ==> (r matches Err(e) && (e matches Error::InvalidSyntax(t) && t@
                == ast_text(self@.keyword))),
            expr@ is Pair ==> (match spec_try_rules(self@, expr@, 0) {
                RulesOutcome::Expanded(a) => r matches Ok(c) && c@ == a,
                RulesOutcome::ExpandFailed => r matches Err(e) && (e
                    matches Error::InvalidSyntax(t) && t@ == ast_text(self@.keyword)),
                RulesOutcome::NoMatch => r matches Err(e) && (e matches Error::InvalidSyntax(t)
                    && t@ == "bad use of "@ + ast_text(self@.keyword)),
            }),
    {
        if !expr.is_pair() {
            return Err(Error::InvalidSyntax(self.keyword.to_text()));
        }
        let expr_cdr: &Cell = match expr {
            Cell::Pair(_, d) => &**d,
            _ => vstd::pervasive::unreached(),
        };
        let mut i: usize = 0;
        while i < self.syntax_rules.len()
            invariant
                self@.wf(),
                i <= self.syntax_rules.len(),
                self@.rules.len() == self.syntax_rules.len(),
                expr@ is Pair,
                expr_cdr@ == rest_elems(expr@),
                spec_try_rules(self@, expr@, 0) == spec_try_rules(self@, expr@, i as int),
            decreases self.syntax_rules.len() - i,
        {
            proof {
                assert(self@.rules[i as int] == (self.syntax_rules@[i as int].0@,
                self.syntax_rules@[i as int].1@));
            }
            let pat_cdr: &Cell = match &self.syntax_rules[i].0 {
                Cell::Pair(_, d) => &**d,
                _ => vstd::pervasive::unreached(),
            };
            let mut vars: Vec<Cell> = Vec::new();
            proof {
                assert(cell_views(vars@) =~= Seq::<Ast>::empty());
            }
            self.find_pattern_variables(pat_cdr, &mut vars);
            let mut env = PatternEnvironment::new();
            env.set_variables(vars);
            proof {
                assert(env@.bindings =~= Seq::<(Ast, Ast)>::empty());
            }
            if self.pattern_match(pat_cdr, expr_cdr, &mut env) {
                match self.expand(&self.syntax_rules[i].1, &mut env) {
                    Some(c) => {
                        proof {
                            assert(spec_try_rules(self@, expr@, i as int)
                                == RulesOutcome::Expanded(c@));
                        }
                        return Ok(c);
                    },
                    None => {
                        proof {
                            assert(spec_try_rules(self@, expr@, i as int)
                                == RulesOutcome::ExpandFailed);
                        }
                        return Err(Error::InvalidSyntax(self.keyword.to_text()));
                    },
                }
            }
            proof {
                assert(spec_try_rules(self@, expr@, i as int) == spec_try_rules(
                    self@,
                    expr@,
                    i + 1,
                ));
            }
            i = i + 1;
        }
        let mut s = String::from_str("bad use of ");
        s.append(self.keyword.to_text().as_str());
        Err(Error::InvalidSyntax(s))
    }
}

/// Unfold one step of the element count for any constructor.
proof fn lemma_num_elems_unfold(e: Ast)
    ensures
        e is Pair ==> num_elems(e) == 1 + num_elems(*e->Pair_1),
        e is Nil ==> num_elems(e) == 0,
        (!(e is Pair) && !(e is Nil)) ==> num_elems(e) == 1,
{
    match e {
        Ast::Pair(_, _) => {},
        Ast::Nil => {},
        _ => {},
    }
}

/// Counting elements: does the traversal yield exactly `n`?
fn elems_is_n(c: &Cell, n: usize) -> (r: bool)
    ensures
        r == (num_elems(c@) == n),
    decreases *c,
{
    match c {
        Cell::Nil => n == 0,
        Cell::Pair(_, d) => n > 0 && elems_is_n(&**d, n - 1),
        _ => n == 1,
    }
}

/// Every rule a successful build yields has a pair for its pattern.
proof fn lemma_build_rules_pairs(ell: Ast, lits: Seq<Ast>, tail: Ast, i: int)
    requires
        spec_build_rules(ell, lits, tail) is Ok,
        0 <= i < spec_build_rules(ell, lits, tail)->Ok_0.len(),
    ensures
        spec_build_rules(ell, lits, tail)->Ok_0[i].0 is Pair,
    decreases tail,
{
    match tail {
        Ast::Pair(it0, rest0) => {
            if i > 0 {
                lemma_build_rules_pairs(ell, lits, *rest0, i - 1);
            }
        },
        _ => {},
    }
}

} // verus!





use vstd::prelude::*;

use std::collections::HashMap;

use crate::alloc_id::{IaView, IdAlloc};
use crate::error::{Error, Loc};
use crate::expr::{teq, var_in_term, var_in_terms, views_of, Expr, TermV};
use crate::token::{
    char_is_lowercase, is_lowercase_char, lemma_scan_bounds, scan_model, Scanner, TokV, TokenTy,
};
use crate::unify::{bview, unify, unify_model, ApplyError, Bindings};

verus! {

/// The depth budget handed to the unifier's variable chase.  Chains of
/// distinct bound variables are always shorter than the binding count, so
/// this bound only rejects chases caught in a variable cycle, which would
/// otherwise never end.
pub const SOLVE_FUEL: u64 = u64::MAX;

/// One clause of the database: a head pattern and the body goals it expands
/// to.  Once the database is built the body is stored in reverse source
/// order, so the resolver can pop the leftmost goal from the tail.
pub struct Def {
    pub name: String,
    pub loc: Loc,
    pub pat: Expr,
    pub rep: Vec<Expr>,
}

/// Whether a variable with name `n` and id `id` occurs anywhere in a clause.
pub open spec fn var_in_def(d: Def, n: Seq<char>, id: u64) -> bool {
    var_in_term(d.pat@, n, id) || var_in_terms(views_of(d.rep@), n, id)
}

/// Whether a variable with name `n` and id `id` occurs anywhere in a clause
/// model.
pub open spec fn var_in_defv(d: crate::engine::DefV, n: Seq<char>, id: u64) -> bool {
    var_in_term(d.pat, n, id) || var_in_terms(d.rep, n, id)
}

/// The id discipline of one clause: any two variable occurrences agree on
/// the name exactly when they agree on the id — ids are shared per repeated
/// name and distinct per distinct name.  (Ids equal to `u64::MAX` are left
/// out: they only arise once the allocator's counter is exhausted.)
pub open spec fn defv_id_disciplined(d: crate::engine::DefV) -> bool {
    forall|n1: Seq<char>, i1: u64, n2: Seq<char>, i2: u64|
        #[trigger] var_in_defv(d, n1, i1) && #[trigger] var_in_defv(d, n2, i2) && i1 != u64::MAX
            && i2 != u64::MAX ==> ((n1 == n2) <==> (i1 == i2))
}

/// The id discipline of one query's goal list, as `defv_id_disciplined`
/// states it for a clause.
pub open spec fn terms_id_disciplined(ts: Seq<TermV>) -> bool {
    forall|n1: Seq<char>, i1: u64, n2: Seq<char>, i2: u64|
        #[trigger] var_in_terms(ts, n1, i1) && #[trigger] var_in_terms(ts, n2, i2) && i1
            != u64::MAX && i2 != u64::MAX ==> ((n1 == n2) <==> (i1 == i2))
}

/// Reversing a list of terms does not change which variables occur in it.
pub proof fn lemma_var_in_terms_reverse(s: Seq<TermV>, n: Seq<char>, id: u64)
    ensures
        var_in_terms(s.reverse(), n, id) == var_in_terms(s, n, id),
{
    if s.len() > 0 {
        assert(forall|i: int| 0 <= i < s.len() ==> s.reverse()[i] == s[s.len() - 1 - i]);
        if var_in_terms(s, n, id) {
            let i = choose|i: int| 0 <= i < s.len() && var_in_term(#[trigger] s[i], n, id);
            assert(var_in_term(s.reverse()[s.len() - 1 - i], n, id));
        }
        if var_in_terms(s.reverse(), n, id) {
            let i = choose|i: int|
                0 <= i < s.reverse().len() && var_in_term(#[trigger] s.reverse()[i], n, id);
            assert(var_in_term(s[s.len() - 1 - i], n, id));
        }
    }
}

/// Within one parsed clause, variable ids are shared per repeated name and
/// distinct per distinct name: two variable occurrences of the clause agree
/// on the name exactly when they agree on the id.  The premises are what
/// `Parser::parse_def` establishes through the allocator, as long as the id
/// counter has not been exhausted.
pub proof fn lemma_clause_id_discipline(d: Def, a: crate::alloc_id::IdAlloc)
    requires
        a.wf(),
        forall|n: Seq<char>, i: u64| var_in_def(d, n, i) ==> a.maps(n, i),
    ensures
        forall|n1: Seq<char>, i1: u64, n2: Seq<char>, i2: u64|
            var_in_def(d, n1, i1) && var_in_def(d, n2, i2) ==> ((n1 == n2) <==> (i1 == i2)),
{
    assert forall|n1: Seq<char>, i1: u64, n2: Seq<char>, i2: u64|
        var_in_def(d, n1, i1) && var_in_def(d, n2, i2) implies ((n1 == n2) <==> (i1 == i2)) by {
        a.lemma_maps_functional(n1, i1, n2, i2);
    }
}

/// What applying a clause head to a goal yields: the most general unifier of
/// the head pattern and the goal, starting from no bindings, or failure.
pub open spec fn apply_model(pat: TermV, goal: TermV) -> (bool, Map<u64, TermV>) {
    unify_model(Map::empty(), pat, goal, SOLVE_FUEL as nat)
}

/// On terms without variables, unifying in either order succeeds exactly
/// when the terms are semantically equal — in particular, `unify(a, b)`
/// succeeds if and only if `unify(b, a)` succeeds.  (With variables on both
/// sides the two runs build different binding sets, and their success is
/// related only through those bindings.)
pub proof fn lemma_unify_ground_symmetric(a: TermV, b: TermV)
    requires
        crate::expr::no_vars(a),
        crate::expr::no_vars(b),
    ensures
        apply_model(a, b).0 == teq(a, b),
        apply_model(b, a).0 == teq(a, b),
        apply_model(a, b).0 <==> apply_model(b, a).0,
{
    crate::unify::lemma_unify_ground(Map::empty(), a, b, SOLVE_FUEL as nat);
    crate::unify::lemma_unify_ground(Map::empty(), b, a, SOLVE_FUEL as nat);
    crate::expr::lemma_teq_sym(a, b);
}

/// Unifier symmetry modulo variables: when either term is variable-free,
/// unifying in the two orders succeeds or fails together and builds the same
/// binding set.
pub proof fn lemma_apply_symmetric_on_ground_goal(a: TermV, g: TermV)
    requires
        crate::expr::no_vars(g),
    ensures
        apply_model(a, g) == apply_model(g, a),
{
    crate::unify::lemma_unify_one_ground_symmetric(Map::empty(), a, g, SOLVE_FUEL as nat);
}

/// Soundness of clause application: when a clause head unifies with a
/// variable-free goal, applying the binding set produced rewrites the head
/// into a term equal to the goal.  (For a goal with variables the two sides
/// are related through the bindings of both, which a single rewrite of the
/// head alone cannot state.)
pub proof fn lemma_apply_sound_on_ground_goal(pat: TermV, goal: TermV)
    requires
        crate::expr::no_vars(goal),
    ensures
        apply_model(pat, goal).0 ==> teq(
            crate::unify::subst_ground(apply_model(pat, goal).1, pat),
            goal,
        ),
{
    assert(crate::unify::bindings_ground(Map::<u64, TermV>::empty()));
    crate::unify::lemma_unify_sound_ground_goal(
        Map::empty(),
        pat,
        goal,
        SOLVE_FUEL as nat,
    );
}

impl Def {
    /// Unify the clause's head with the goal `e`, yielding the binding set,
    /// as `apply_model` states.
    pub fn apply(&self, e: &Expr) -> (r: Result<Bindings, ApplyError>)
        ensures
            (r is Ok) == apply_model(self.pat@, e@).0,
            r matches Ok(b) ==> bview(b@) == apply_model(self.pat@, e@).1,
            r matches Err(k) ==> k is UnifyFail,
    {
        let mut bindings: Bindings = HashMap::new();
        proof {
            assert(bview(bindings@) =~= Map::<u64, TermV>::empty());
        }
        match unify(&mut bindings, &self.pat, e, SOLVE_FUEL) {
            Ok(_) => Ok(bindings),
            Err(err) => Err(err),
        }
    }

}

/// The model of `Parser::parse_expr`: the term standing at position `pos` of
/// the text — an identifier, a lowercase-initial one optionally followed by
/// a parenthesized argument list — with the identifier's text, the position
/// past the term, and the allocator afterwards; `None` on malformed text.
pub open spec fn parse_expr_model(chars: Seq<char>, pos: int, ia: IaView) -> Option<
    (Seq<char>, TermV, int, IaView),
>
    decreases chars.len() - pos, 0int,
{
    let s = scan_model(chars, pos);
    match s.0 {
        Some(TokV::Ident(name)) => {
            if name.len() > 0 && is_lowercase_char(name[0]) {
                let s2 = scan_model(chars, s.1);
                if s2.0 is None {
                    None
                } else if s2.0 == Some(TokV::Lparen) {
                    if pos < s2.1 <= chars.len() {
                        match parse_args_model(chars, s2.1, ia) {
                            Some(am) => {
                                let s3 = scan_model(chars, am.1);
                                if s3.0 == Some(TokV::Rparen) {
                                    Some((name, TermV::Fun { name, args: am.0 }, s3.1, am.2))
                                } else {
                                    None
                                }
                            },
                            None => None,
                        }
                    } else {
                        None
                    }
                } else {
                    Some((name, TermV::Fun { name, args: Seq::empty() }, s.1, ia))
                }
            } else {
                let a = ia.alloc_model(name);
                Some((name, TermV::Var { name, id: a.1 }, s.1, a.0))
            }
        },
        _ => None,
    }
}

/// The model of `Parser::parse_clause`: one or more terms separated by
/// commas, from position `pos` on, with the position past the last term and
/// the allocator afterwards; `None` on malformed text.
pub open spec fn parse_args_model(chars: Seq<char>, pos: int, ia: IaView) -> Option<
    (Seq<TermV>, int, IaView),
>
    decreases chars.len() - pos, 1int,
{
    match parse_expr_model(chars, pos, ia) {
        Some(em) => {
            let s = scan_model(chars, em.2);
            if s.0 is None {
                None
            } else if s.0 == Some(TokV::Comma) {
                if pos < s.1 <= chars.len() {
                    match parse_args_model(chars, s.1, em.3) {
                        Some(am) => Some((seq![em.1] + am.0, am.1, am.2)),
                        None => None,
                    }
                } else {
                    None
                }
            } else {
                Some((seq![em.1], em.2, em.3))
            }
        },
        None => None,
    }
}

/// The model of `Parser::parse_def`: `Some(None)` at the end of the input;
/// else the clause standing at position `pos` — head identifier text, head
/// term, body goals in source order (empty for a fact), the position past
/// the terminating period, and the allocator afterwards; `None` on malformed
/// text.
pub open spec fn parse_def_model(chars: Seq<char>, pos: int, ia: IaView) -> Option<
    Option<(Seq<char>, TermV, Seq<TermV>, int, IaView)>,
> {
    let s = scan_model(chars, pos);
    if s.0 == Some(TokV::Eof) {
        Some(None)
    } else {
        match parse_expr_model(chars, pos, ia) {
            Some(em) => {
                let s2 = scan_model(chars, em.2);
                if s2.0 is None {
                    None
                } else if s2.0 == Some(TokV::Pen) {
                    match parse_args_model(chars, s2.1, em.3) {
                        Some(am) => {
                            let s3 = scan_model(chars, am.1);
                            if s3.0 == Some(TokV::Period) {
                                Some(Some((em.0, em.1, am.0, s3.1, am.2)))
                            } else {
                                None
                            }
                        },
                        None => None,
                    }
                } else {
                    if s2.0 == Some(TokV::Period) {
                        Some(Some((em.0, em.1, Seq::empty(), s2.1, em.3)))
                    } else {
                        None
                    }
                }
            },
            None => None,
        }
    }
}

/// A parsed term lies strictly past its first token and within the text.
pub proof fn lemma_parse_expr_model_pos(chars: Seq<char>, pos: int, ia: IaView)
    requires
        0 <= pos <= chars.len(),
    ensures
        parse_expr_model(chars, pos, ia) matches Some(em) ==> pos < em.2 <= chars.len(),
    decreases chars.len() - pos, 0int,
{
    lemma_scan_bounds(chars, pos);
    let sm = scan_model(chars, pos);
    if sm.0 matches Some(tv) && tv is Ident {
        lemma_scan_bounds(chars, sm.1);
        let s2 = scan_model(chars, sm.1);
        if s2.0 == Some(TokV::Lparen) && pos < s2.1 <= chars.len() {
            lemma_parse_args_model_pos(chars, s2.1, ia);
            match parse_args_model(chars, s2.1, ia) {
                Some(am) => {
                    lemma_scan_bounds(chars, am.1);
                },
                None => {},
            }
        }
    }
}

/// A parsed term list lies strictly past its first token and within the
/// text.
pub proof fn lemma_parse_args_model_pos(chars: Seq<char>, pos: int, ia: IaView)
    requires
        0 <= pos <= chars.len(),
    ensures
        parse_args_model(chars, pos, ia) matches Some(am) ==> pos < am.1 <= chars.len(),
    decreases chars.len() - pos, 1int,
{
    lemma_parse_expr_model_pos(chars, pos, ia);
    match parse_expr_model(chars, pos, ia) {
        Some(em) => {
            lemma_scan_bounds(chars, em.2);
            let sm = scan_model(chars, em.2);
            if sm.0 == Some(TokV::Comma) && pos < sm.1 <= chars.len() {
                lemma_parse_args_model_pos(chars, sm.1, em.3);
            }
        },
        None => {},
    }
}

/// A parsed clause lies strictly past its first token and within the text.
pub proof fn lemma_parse_def_model_pos(chars: Seq<char>, pos: int, ia: IaView)
    requires
        0 <= pos <= chars.len(),
    ensures
        parse_def_model(chars, pos, ia) matches Some(Some(md)) ==> pos < md.3 <= chars.len(),
{
    lemma_parse_expr_model_pos(chars, pos, ia);
    match parse_expr_model(chars, pos, ia) {
        Some(em) => {
            lemma_scan_bounds(chars, em.2);
            let s2 = scan_model(chars, em.2);
            if s2.0 == Some(TokV::Pen) {
                lemma_parse_args_model_pos(chars, s2.1, em.3);
                match parse_args_model(chars, s2.1, em.3) {
                    Some(am) => {
                        lemma_scan_bounds(chars, am.1);
                    },
                    None => {},
                }
            }
        },
        None => {},
    }
}

/// The model of `Context::parse`: the clauses of the text from `pos` on, in
/// source order, each body reversed for the resolver and each clause's
/// variable ids drawn from a fresh per-clause table over the running
/// counter; `None` on a syntax error.
pub open spec fn parse_program_model(chars: Seq<char>, pos: int, counter: u64) -> Option<
    Seq<crate::engine::DefV>,
>
    decreases chars.len() - pos,
{
    let ia = IaView { names: Seq::empty(), ids: Seq::empty(), counter };
    match parse_def_model(chars, pos, ia) {
        Some(md_opt) => match md_opt {
            Some(md) => {
                if pos < md.3 <= chars.len() {
                    match parse_program_model(chars, md.3, md.4.counter) {
                        Some(rest) => Some(
                            seq![
                                crate::engine::DefV { name: md.0, pat: md.1, rep: md.2.reverse() },
                            ] + rest,
                        ),
                        None => None,
                    }
                } else {
                    None
                }
            },
            None => Some(Seq::empty()),
        },
        None => None,
    }
}

/// The model of `Context::parse_clause`: the query's goals, read as a
/// comma-separated term list terminated by a period at the end of the input,
/// reversed for the resolver, with the allocator the query's variable ids
/// were drawn from; `None` on a syntax error.
pub open spec fn parse_query_model(chars: Seq<char>, pos: int, counter: u64) -> Option<
    (Seq<TermV>, IaView),
> {
    let ia = IaView { names: Seq::empty(), ids: Seq::empty(), counter };
    match parse_args_model(chars, pos, ia) {
        Some(am) => {
            let s = scan_model(chars, am.1);
            if s.0 == Some(TokV::Period) {
                let s2 = scan_model(chars, s.1);
                if s2.0 == Some(TokV::Eof) {
                    Some((am.0.reverse(), am.2))
                } else {
                    None
                }
            } else {
                None
            }
        },
        None => None,
    }
}

/// Reads clauses and queries from a scanner, assigning variable ids through
/// the context's allocator.
pub struct Parser<'a> {
    pub sc: Scanner<'a>,
}

impl<'a> Parser<'a> {
    /// A parser over the given scanner.
    pub fn new(sc: Scanner<'a>) -> (r: Parser<'a>)
        ensures
            r.sc == sc,
    {
        Parser { sc }
    }

    /// Read one term: an identifier, optionally followed by a parenthesized
    /// argument list.  A lowercase-initial identifier is a functor, an
    /// uppercase-initial one a variable whose id the allocator assigns.
    /// Returns the identifier's text, its position, and the term.
    pub fn parse_expr(&mut self, id: &mut IdAlloc) -> (r: Result<(String, Loc, Expr), Error>)
        requires
            old(self).sc.wf(),
            old(id).wf(),
        ensures
            final(self).sc.wf(),
            final(self).sc.chars == old(self).sc.chars,
            final(self).sc.src == old(self).sc.src,
            final(id).wf(),
            final(id).counter_spec() >= old(id).counter_spec(),
            final(id).counter_spec() - final(id).table_len() == old(id).counter_spec() - old(
                id,
            ).table_len(),
            forall|n: Seq<char>, i2: u64| old(id).maps(n, i2) ==> final(id).maps(n, i2),
            r is Ok ==> final(self).sc.measure() < old(self).sc.measure(),
            r matches Ok(t) ==> {
                &&& t.0@.len() > 0
                &&& forall|n: Seq<char>, vid: u64|
                    var_in_term(t.2@, n, vid) ==> final(id).maps(n, vid) || vid == u64::MAX
                &&& (t.2@ is Var <==> !is_lowercase_char(t.0@[0]))
                &&& (t.2@ is Fun ==> t.2@->Fun_name == t.0@)
                &&& (t.2@ matches TermV::Var { name, .. } ==> name == t.0@)
            },
            (r is Ok) == (parse_expr_model(old(self).sc.chars@, old(self).sc.lpos(), old(id)@)
                is Some),
            r matches Ok(t) ==> ({
                let m = parse_expr_model(old(self).sc.chars@, old(self).sc.lpos(), old(id)@);
                &&& m matches Some(mm)
                &&& mm.0 == t.0@
                &&& mm.1 == t.2@
                &&& mm.2 == final(self).sc.lpos()
                &&& mm.3 == final(id)@
            }),
        decreases old(self).sc.measure(), 0int,
    {
        proof {
            lemma_scan_bounds(old(self).sc.chars@, old(self).sc.lpos());
        }
        let (loc, name) = self.sc.expect_identifier()?;
        let first = name.as_str().get_char(0);
        let ghost lp1 = self.sc.lpos();
        proof {
            lemma_scan_bounds(self.sc.chars@, lp1);
        }
        if char_is_lowercase(first) {
            let args: Vec<Expr> = if self.sc.is_token(TokenTy::Lparen)? {
                proof {
                    lemma_scan_bounds(self.sc.chars@, self.sc.lpos());
                }
                let args = self.parse_clause(id)?;
                self.sc.expect_token(TokenTy::Rparen)?;
                args
            } else {
                Vec::new()
            };
            let ghost av = views_of(args@);
            let res = Expr::Fun { name: name.clone(), args, loc };
            proof {
                assert(res@->Fun_args =~= av);
                assert forall|n: Seq<char>, vid: u64| var_in_term(res@, n, vid) implies (final(
                    id
                ).maps(n, vid) || vid == u64::MAX) by {
                    if var_in_term(res@, n, vid) {
                        let i = choose|i: int|
                            0 <= i < res@->Fun_args.len() && var_in_term(
                                #[trigger] res@->Fun_args[i],
                                n,
                                vid,
                            );
                        assert(var_in_terms(av, n, vid));
                    }
                }
                let m = parse_expr_model(old(self).sc.chars@, old(self).sc.lpos(), old(id)@);
                assert(m is Some);
                if scan_model(old(self).sc.chars@, lp1).0 == Some(TokV::Lparen) {
                    assert((m->0).1->Fun_args == av);
                } else {
                    assert(av =~= Seq::<TermV>::empty());
                }
                assert(res@ =~= (m->0).1);
            }
            Ok((name, loc, res))
        } else {
            let vid = id.allocate(name.as_str());
            let res = Expr::Var { name: name.clone(), id: vid, loc };
            Ok((name, loc, res))
        }
    }

    /// Read a comma-separated list of terms.
    pub fn parse_clause(&mut self, id: &mut IdAlloc) -> (r: Result<Vec<Expr>, Error>)
        requires
            old(self).sc.wf(),
            old(id).wf(),
        ensures
            final(self).sc.wf(),
            final(self).sc.chars == old(self).sc.chars,
            final(self).sc.src == old(self).sc.src,
            final(id).wf(),
            final(id).counter_spec() >= old(id).counter_spec(),
            final(id).counter_spec() - final(id).table_len() == old(id).counter_spec() - old(
                id,
            ).table_len(),
            forall|n: Seq<char>, i2: u64| old(id).maps(n, i2) ==> final(id).maps(n, i2),
            r is Ok ==> final(self).sc.measure() < old(self).sc.measure(),
            r matches Ok(v) ==> v@.len() >= 1,
            r matches Ok(v) ==> forall|n: Seq<char>, vid: u64|
                var_in_terms(views_of(v@), n, vid) ==> final(id).maps(n, vid) || vid == u64::MAX,
            (r is Ok) == (parse_args_model(old(self).sc.chars@, old(self).sc.lpos(), old(id)@)
                is Some),
            r matches Ok(v) ==> ({
                let m = parse_args_model(old(self).sc.chars@, old(self).sc.lpos(), old(id)@);
                &&& m matches Some(mm)
                &&& mm.0 == views_of(v@)
                &&& mm.1 == final(self).sc.lpos()
                &&& mm.2 == final(id)@
            }),
        decreases old(self).sc.measure(), 1int,
    {
        let ghost m0 = parse_args_model(old(self).sc.chars@, old(self).sc.lpos(), old(id)@);
        let mut v: Vec<Expr> = Vec::new();
        let mut more = true;
        let mut first = true;
        proof {
            assert(views_of(v@) =~= Seq::<TermV>::empty());
            match m0 {
                Some(mm) => {
                    assert(views_of(v@) + mm.0 =~= mm.0);
                },
                None => {},
            }
        }
        while more
            invariant
                self.sc.wf(),
                self.sc.chars == old(self).sc.chars,
                self.sc.src == old(self).sc.src,
                id.wf(),
                id.counter_spec() >= old(id).counter_spec(),
                id.counter_spec() - id.table_len() == old(id).counter_spec() - old(
                    id,
                ).table_len(),
                forall|n: Seq<char>, i2: u64| old(id).maps(n, i2) ==> id.maps(n, i2),
                !first ==> self.sc.measure() < old(self).sc.measure(),
                !first ==> v@.len() >= 1,
                first ==> self.sc.measure() <= old(self).sc.measure() && v@.len() == 0,
                first ==> more,
                more ==> m0 == (match parse_args_model(self.sc.chars@, self.sc.lpos(), id@) {
                    Some(mm) => Some::<(Seq<TermV>, int, IaView)>(
                        (views_of(v@) + mm.0, mm.1, mm.2),
                    ),
                    None => None::<(Seq<TermV>, int, IaView)>,
                }),
                !more ==> m0 == Some::<(Seq<TermV>, int, IaView)>(
                    (views_of(v@), self.sc.lpos(), id@),
                ),
                forall|n: Seq<char>, vid: u64|
                    var_in_terms(views_of(v@), n, vid) ==> id.maps(n, vid) || vid == u64::MAX,
            decreases self.sc.measure() + (if more {
                1int
            } else {
                0int
            }),
        {
            let ghost id_before = *id;
            let ghost v_before = v@;
            let ghost vb = views_of(v@);
            let ghost lp_pre = self.sc.lpos();
            let ghost chars = self.sc.chars@;
            proof {
                lemma_parse_expr_model_pos(chars, lp_pre, id_before@);
            }
            let tr = self.parse_expr(id);
            let t = match tr {
                Ok(t) => t,
                Err(e) => {
                    proof {
                        assert(parse_args_model(chars, lp_pre, id_before@) is None);
                    }
                    return Err(e);
                },
            };
            let ghost tv = t.2@;
            let ghost lp1 = self.sc.lpos();
            v.push(t.2);
            proof {
                assert(views_of(v@) =~= vb.push(tv));
            }
            proof {
                assert forall|n: Seq<char>, vid: u64|
                    var_in_terms(views_of(v@), n, vid) implies id.maps(n, vid) || vid
                    == u64::MAX by {
                    if var_in_terms(views_of(v@), n, vid) {
                        let i = choose|i: int|
                            0 <= i < views_of(v@).len() && var_in_term(
                                #[trigger] views_of(v@)[i],
                                n,
                                vid,
                            );
                        if i < v_before.len() {
                            assert(var_in_term(views_of(v_before)[i], n, vid));
                            assert(var_in_terms(views_of(v_before), n, vid));
                            assert(id_before.maps(n, vid) || vid == u64::MAX);
                        } else {
                            assert(var_in_term(v@[i]@, n, vid));
                        }
                    }
                }
            }
            first = false;
            proof {
                lemma_scan_bounds(chars, lp1);
            }
            let ct = self.sc.is_token(TokenTy::Comma);
            match ct {
                Err(e) => {
                    proof {
                        assert(parse_args_model(chars, lp_pre, id_before@) is None);
                    }
                    return Err(e);
                },
                Ok(true) => {
                    proof {
                        let am = parse_args_model(chars, self.sc.lpos(), id@);
                        match am {
                            Some(amm) => {
                                assert(vb + (seq![tv] + amm.0) =~= views_of(v@) + amm.0);
                                assert(parse_args_model(chars, lp_pre, id_before@) == Some::<
                                    (Seq<TermV>, int, IaView),
                                >((seq![tv] + amm.0, amm.1, amm.2)));
                            },
                            None => {
                                assert(parse_args_model(chars, lp_pre, id_before@) is None);
                            },
                        }
                    }
                },
                Ok(false) => {
                    more = false;
                    proof {
                        assert(vb + seq![tv] =~= views_of(v@));
                        assert(parse_args_model(chars, lp_pre, id_before@) == Some::<
                            (Seq<TermV>, int, IaView),
                        >((seq![tv], lp1, id@)));
                    }
                },
            }
        }
        Ok(v)
    }

    /// Read one clause of the database: a head, an optional `:-` body, and
    /// the terminating period; `None` at the end of the input.  The body is
    /// returned in source order; the database stores it reversed.
    ///
    /// Called with an empty allocator table (a fresh clause), so every
    /// variable id assigned lies strictly above the ids of all clauses
    /// already read: the counter never rewinds.
    pub fn parse_def(&mut self, id: &mut IdAlloc) -> (r: Result<Option<Def>, Error>)
        requires
            old(self).sc.wf(),
            old(id).wf(),
            old(id).table_len() == 0,
        ensures
            final(self).sc.wf(),
            final(self).sc.chars == old(self).sc.chars,
            final(self).sc.src == old(self).sc.src,
            final(id).wf(),
            final(id).counter_spec() >= old(id).counter_spec(),
            r is Ok ==> final(self).sc.measure() <= old(self).sc.measure(),
            old(self).sc.peeked is None && (r matches Ok(
                None,
            )) ==> crate::token::skip_ws_model(
                old(self).sc.chars@,
                old(self).sc.pos as int,
                false,
            ) == old(self).sc.chars@.len(),
            r matches Ok(Some(d)) ==> {
                &&& final(self).sc.measure() < old(self).sc.measure()
                &&& forall|n: Seq<char>, vid: u64|
                    var_in_def(d, n, vid) ==> (old(id).counter_spec() < vid
                        <= final(id).counter_spec()) || vid == u64::MAX
                &&& forall|n: Seq<char>, vid: u64|
                    var_in_def(d, n, vid) ==> final(id).maps(n, vid) || vid == u64::MAX
                &&& (d@.pat is Fun ==> d@.pat->Fun_name == d@.name)
            },
            (r is Ok) == (parse_def_model(old(self).sc.chars@, old(self).sc.lpos(), old(id)@)
                is Some),
            r matches Ok(None) ==> parse_def_model(
                old(self).sc.chars@,
                old(self).sc.lpos(),
                old(id)@,
            ) == Some(None::<(Seq<char>, TermV, Seq<TermV>, int, IaView)>),
            r matches Ok(Some(d)) ==> ({
                let m = parse_def_model(old(self).sc.chars@, old(self).sc.lpos(), old(id)@);
                &&& m matches Some(Some(md))
                &&& md.0 == d.name@
                &&& md.1 == d.pat@
                &&& md.2 == views_of(d.rep@)
                &&& md.3 == final(self).sc.lpos()
                &&& md.4 == final(id)@
            }),
        decreases old(self).sc.measure(), 2int,
    {
        proof {
            lemma_scan_bounds(old(self).sc.chars@, old(self).sc.lpos());
        }
        let p = self.sc.peek()?;
        if p.ty.matches_ty(&TokenTy::Eof) {
            proof {
                assert(p.ty is Eof);
                if old(self).sc.peeked is None {
                    assert(crate::token::skip_ws_model(
                        old(self).sc.chars@,
                        old(self).sc.pos as int,
                        false,
                    ) == old(self).sc.chars@.len());
                }
            }
            return Ok(None);
        }
        let (name, loc, pat) = self.parse_expr(id)?;
        let rep: Vec<Expr> = if self.sc.is_token(TokenTy::Pen)? {
            self.parse_clause(id)?
        } else {
            Vec::new()
        };
        self.sc.expect_token(TokenTy::Period)?;
        let d = Def { name, loc, pat, rep };
        proof {
            assert forall|n: Seq<char>, vid: u64| var_in_def(d, n, vid) implies ((old(
                id
            ).counter_spec() < vid <= final(id).counter_spec()) || vid == u64::MAX) by {
                if var_in_def(d, n, vid) && vid != u64::MAX {
                    assert(id.maps(n, vid));
                    id.lemma_maps_id_range(n, vid);
                }
            }
        }
        Ok(Some(d))
    }
}

} // verus!
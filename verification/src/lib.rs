#![verifier::loop_isolation(false)]
use vstd::prelude::*;

mod alloc_id;
mod engine;
mod error;
mod expr;
mod fmt;
mod parser;
mod token;
mod unify;

pub use alloc_id::{FaView, FreshAlloc, IaView, IdAlloc};
pub use engine::{branches_view, child_model, children_model, defs_view, names_view, run_model, lemma_collect_vars_list_no_vars, lemma_run_deterministic, lemma_run_preserves_names, stack_names, vars, dup_exprs, reverse_exprs, collect_vars, collect_vars_list, Answer, AnswerV, Branch, BranchV, DefV, Outcome, OutcomeV, Rules, Solver, SolverV};
pub use error::{Error, ErrorTy, Loc};
pub use fmt::{advance_model, answer_line, curr_view, distinct_lines, lemma_advance_no_vars_says_yes, lemma_no_var_query_says_yes, line_seen, lines_view, pieces_of, piece_of, render_answer, trivial_binding, SolsPrinter};
pub use expr::{display_args, display_of, no_vars, teq, var_in_term, var_in_terms, views_of, Expr, TermV};
pub use parser::{apply_model, lemma_apply_sound_on_ground_goal, lemma_parse_args_model_pos, lemma_parse_def_model_pos, lemma_parse_expr_model_pos, parse_args_model, parse_def_model, parse_expr_model, parse_program_model, parse_query_model, lemma_apply_symmetric_on_ground_goal, lemma_clause_id_discipline, defv_id_disciplined, terms_id_disciplined, lemma_unify_ground_symmetric, lemma_var_in_terms_reverse, var_in_def, var_in_defv, Def, Parser, SOLVE_FUEL};
pub use token::{desc_of, ident_end, is_break, lemma_ident_end_bounds, lemma_ident_end_of_run, lemma_scan_bounds, lemma_skip_ws_bounds, lemma_ty_matches_view, scan_model, skip_ws_model, token_wf, ty_matches, ty_view, Scanner, TokV, Token, TokenTy};
pub use unify::{bindings_ground, bview, lemma_fresh_ids_above_seed, lemma_subst_fresh_ids_above_seed, lemma_unify_ground, lemma_unify_one_ground_symmetric, lemma_unify_sound_ground_goal, subst_ground, fresh_args_model, fresh_model, freshen, solve, solve_model, subst_fresh_args_model, subst_fresh_model, substitute_and_freshen, unify, unify_args_model, unify_model, ApplyError, Bindings};

verus! {

/// Owns the global variable-id allocator and drives parsing and query
/// evaluation.  One context evaluates one query to completion before the
/// next, since the allocator's counter seeds every activation's renaming.
pub struct Context {
    pub id: IdAlloc,
}

impl Context {
    /// A fresh context: no ids handed out yet.
    pub fn new() -> (r: Context)
        ensures
            r.id.wf(),
            r.id.counter_spec() == 0,
            r.id.table_len() == 0,
    {
        Context { id: IdAlloc::new(0) }
    }

    /// Read a whole program: clauses up to the end of the input, each stored
    /// with its body reversed so the resolver pops the leftmost goal from the
    /// tail.
    ///
    /// Each clause draws its variable ids from a fresh per-clause name table
    /// over the one global counter, so (unless the counter is exhausted and
    /// saturates at `u64::MAX`) every id of a later clause is strictly
    /// greater than every id of an earlier one: clause variable spaces never
    /// collide.
    pub fn parse(&mut self, src: String) -> (r: Result<Rules, Error>)
        requires
            old(self).id.wf(),
        ensures
            final(self).id.wf(),
            r matches Ok(rules) ==> forall|k1: int, k2: int, n1: Seq<char>, i1: u64, n2: Seq<char>, i2: u64|
                0 <= k1 < k2 < rules@.len() && #[trigger] crate::parser::var_in_defv(rules@[k1], n1, i1)
                    && #[trigger] crate::parser::var_in_defv(rules@[k2], n2, i2) && i1 != u64::MAX
                    && i2 != u64::MAX ==> i1 < i2,
            r matches Ok(rules) ==> forall|k: int|
                0 <= k < rules@.len() ==> crate::parser::defv_id_disciplined(#[trigger] rules@[k]),
            r matches Ok(rules) ==> forall|k: int|
                0 <= k < rules@.len() && (#[trigger] rules@[k]).pat is Fun ==> rules@[k].pat->Fun_name
                    == rules@[k].name,
            r matches Ok(rules) && rules@.len() == 0 ==> crate::token::skip_ws_model(src@, 0, false)
                == src@.len(),
            (r is Ok) == (crate::parser::parse_program_model(
                src@,
                0,
                old(self).id.counter_spec(),
            ) is Some),
            r matches Ok(rules) ==> Some(rules@) == crate::parser::parse_program_model(
                src@,
                0,
                old(self).id.counter_spec(),
            ),
    {
        let scanner = Scanner::new(src.as_str());
        let mut parser = Parser::new(scanner);
        let mut rules = Rules::new();
        let mut go = true;
        proof {
            match crate::parser::parse_program_model(src@, 0, old(self).id.counter_spec()) {
                Some(rest) => {
                    assert(rules@ + rest =~= rest);
                },
                None => {},
            }
        }
        while go
            invariant
                parser.sc.wf(),
                self.id.wf(),
                forall|k: int, n: Seq<char>, i: u64|
                    0 <= k < rules@.len() && #[trigger] crate::parser::var_in_defv(rules@[k], n, i)
                        && i != u64::MAX ==> i <= self.id.counter_spec(),
                forall|k1: int, k2: int, n1: Seq<char>, i1: u64, n2: Seq<char>, i2: u64|
                    0 <= k1 < k2 < rules@.len() && #[trigger] crate::parser::var_in_defv(
                        rules@[k1],
                        n1,
                        i1,
                    ) && #[trigger] crate::parser::var_in_defv(rules@[k2], n2, i2) && i1
                        != u64::MAX && i2 != u64::MAX ==> i1 < i2,
                forall|k: int|
                    0 <= k < rules@.len() ==> crate::parser::defv_id_disciplined(
                        #[trigger] rules@[k],
                    ),
                forall|k: int|
                    0 <= k < rules@.len() && (#[trigger] rules@[k]).pat is Fun ==> rules@[k].pat->Fun_name
                        == rules@[k].name,
                parser.sc.chars@ == src@,
                go && rules@.len() == 0 ==> parser.sc.pos == 0 && parser.sc.peeked is None,
                !go && rules@.len() == 0 ==> crate::token::skip_ws_model(src@, 0, false)
                    == src@.len(),
                go ==> crate::parser::parse_program_model(src@, 0, old(self).id.counter_spec())
                    == (match crate::parser::parse_program_model(
                    src@,
                    parser.sc.lpos(),
                    self.id.counter_spec(),
                ) {
                    Some(rest) => Some::<Seq<DefV>>(rules@ + rest),
                    None => None::<Seq<DefV>>,
                }),
                !go ==> crate::parser::parse_program_model(src@, 0, old(self).id.counter_spec())
                    == Some(rules@),
            decreases parser.sc.measure() + (if go {
                1int
            } else {
                0int
            }),
        {
            let ghost lp_pre = parser.sc.lpos();
            let ghost c_pre = self.id.counter_spec();
            let ghost rv_pre = rules@;
            self.id.new_clause();
            proof {
                assert(self.id@ =~= (IaView {
                    names: Seq::empty(),
                    ids: Seq::empty(),
                    counter: c_pre,
                }));
                assert(0 <= lp_pre <= src@.len());
                crate::parser::lemma_parse_def_model_pos(src@, lp_pre, self.id@);
            }
            let ghost c0 = self.id.counter_spec();
            let parsed_r = parser.parse_def(&mut self.id);
            let parsed = match parsed_r {
                Ok(p) => p,
                Err(e) => {
                    proof {
                        assert(crate::parser::parse_program_model(src@, lp_pre, c_pre) is None);
                    }
                    return Err(e);
                },
            };
            match parsed {
                Some(def) => {
                    let ghost defsnap = def;
                    let rep = engine::reverse_exprs(&def.rep);
                    let ghost repv = views_of(def.rep@);
                    let def2 = Def { name: def.name, loc: def.loc, pat: def.pat, rep };
                    let ghost d2v = def2@;
                    proof {
                        assert forall|n: Seq<char>, i: u64|
                            crate::parser::var_in_defv(d2v, n, i) && i != u64::MAX implies c0 < i
                            <= self.id.counter_spec() by {
                            crate::parser::lemma_var_in_terms_reverse(repv, n, i);
                            assert(crate::parser::var_in_defv(d2v, n, i) ==> crate::parser::var_in_def(
                                defsnap,
                                n,
                                i,
                            ));
                        }
                        assert forall|n1: Seq<char>, i1: u64, n2: Seq<char>, i2: u64|
                            #[trigger] crate::parser::var_in_defv(d2v, n1, i1)
                                && #[trigger] crate::parser::var_in_defv(d2v, n2, i2) && i1
                                != u64::MAX && i2 != u64::MAX implies ((n1 == n2) <==> (i1
                            == i2)) by {
                            crate::parser::lemma_var_in_terms_reverse(repv, n1, i1);
                            crate::parser::lemma_var_in_terms_reverse(repv, n2, i2);
                            assert(crate::parser::var_in_def(defsnap, n1, i1));
                            assert(crate::parser::var_in_def(defsnap, n2, i2));
                            assert(self.id.maps(n1, i1));
                            assert(self.id.maps(n2, i2));
                            self.id.lemma_maps_functional(n1, i1, n2, i2);
                        }
                        assert(crate::parser::defv_id_disciplined(d2v));
                    }
                    let ghost rules0 = rules@;
                    rules.insert(def2);
                    proof {
                        assert forall|k: int, n: Seq<char>, i: u64|
                            0 <= k < rules@.len() && #[trigger] crate::parser::var_in_defv(
                                rules@[k],
                                n,
                                i,
                            ) && i != u64::MAX implies i <= self.id.counter_spec() by {
                            if k < rules0.len() {
                                assert(rules@[k] == rules0[k]);
                            } else {
                                assert(rules@[k] == d2v);
                            }
                        }
                        assert forall|k1: int, k2: int, n1: Seq<char>, i1: u64, n2: Seq<char>, i2: u64|
                            0 <= k1 < k2 < rules@.len() && #[trigger] crate::parser::var_in_defv(
                                rules@[k1],
                                n1,
                                i1,
                            ) && #[trigger] crate::parser::var_in_defv(rules@[k2], n2, i2) && i1
                                != u64::MAX && i2 != u64::MAX implies i1 < i2 by {
                            if k2 < rules0.len() {
                                assert(rules@[k1] == rules0[k1]);
                                assert(rules@[k2] == rules0[k2]);
                            } else {
                                assert(rules@[k1] == rules0[k1]);
                                assert(rules@[k2] == d2v);
                            }
                        }
                        assert forall|k: int|
                            0 <= k < rules@.len() implies crate::parser::defv_id_disciplined(
                            #[trigger] rules@[k],
                        ) by {
                            if k < rules0.len() {
                                assert(rules@[k] == rules0[k]);
                            } else {
                                assert(rules@[k] == d2v);
                            }
                        }
                        assert forall|k: int|
                            0 <= k < rules@.len() && (#[trigger] rules@[k]).pat is Fun implies
                            rules@[k].pat->Fun_name == rules@[k].name by {
                            if k < rules0.len() {
                                assert(rules@[k] == rules0[k]);
                            } else {
                                assert(rules@[k] == d2v);
                            }
                        }
                        let md = crate::parser::parse_def_model(
                            src@,
                            lp_pre,
                            IaView { names: Seq::empty(), ids: Seq::empty(), counter: c_pre },
                        )->0->0;
                        assert(d2v.rep =~= md.2.reverse());
                        assert(d2v =~= (DefV { name: md.0, pat: md.1, rep: md.2.reverse() }));
                        match crate::parser::parse_program_model(
                            src@,
                            md.3,
                            md.4.counter,
                        ) {
                            Some(rest2) => {
                                assert(rv_pre + (seq![d2v] + rest2) =~= rules@ + rest2);
                                assert(crate::parser::parse_program_model(src@, lp_pre, c_pre)
                                    == Some(seq![d2v] + rest2));
                            },
                            None => {
                                assert(crate::parser::parse_program_model(src@, lp_pre, c_pre)
                                    is None);
                            },
                        }
                    }
                },
                None => {
                    go = false;
                    proof {
                        assert(crate::parser::parse_program_model(src@, lp_pre, c_pre)
                            == Some(Seq::<DefV>::empty()));
                        assert(rv_pre + Seq::<DefV>::empty() =~= rules@);
                    }
                },
            }
        }
        Ok(rules)
    }

    /// Read one query from the REPL: a comma-separated goal list, its terms
    /// reversed for the resolver, ending with a period at the end of the
    /// input.  Every variable of the result is registered in the allocator's
    /// current table.
    pub fn parse_clause(&mut self, src: String) -> (r: Result<Vec<Expr>, Error>)
        requires
            old(self).id.wf(),
        ensures
            final(self).id.wf(),
            r matches Ok(v) ==> v@.len() >= 1,
            r matches Ok(v) ==> forall|n: Seq<char>, i: u64|
                var_in_terms(views_of(v@), n, i) ==> final(self).id.maps(n, i) || i == u64::MAX,
            r matches Ok(v) ==> crate::parser::terms_id_disciplined(views_of(v@)),
            (r is Ok) == (crate::parser::parse_query_model(
                src@,
                0,
                old(self).id.counter_spec(),
            ) is Some),
            r matches Ok(v) ==> ({
                let m = crate::parser::parse_query_model(src@, 0, old(self).id.counter_spec());
                &&& m matches Some(mq)
                &&& mq.0 == views_of(v@)
                &&& mq.1 == final(self).id@
            }),
    {
        let ghost c_pre = self.id.counter_spec();
        self.id.new_clause();
        proof {
            assert(self.id@ =~= (IaView {
                names: Seq::empty(),
                ids: Seq::empty(),
                counter: c_pre,
            }));
        }
        let scanner = Scanner::new(src.as_str());
        let mut parser = Parser::new(scanner);
        let e = parser.parse_clause(&mut self.id)?;
        let rev = engine::reverse_exprs(&e);
        proof {
            assert(views_of(rev@).len() == views_of(e@).reverse().len());
        }
        parser.sc.expect_token(TokenTy::Period)?;
        parser.sc.expect_token(TokenTy::Eof)?;
        proof {
            assert forall|n: Seq<char>, i: u64|
                var_in_terms(views_of(rev@), n, i) implies (self.id.maps(n, i) || i
                == u64::MAX) by {
                crate::parser::lemma_var_in_terms_reverse(views_of(e@), n, i);
            }
            assert forall|n1: Seq<char>, i1: u64, n2: Seq<char>, i2: u64|
                #[trigger] var_in_terms(views_of(rev@), n1, i1) && #[trigger] var_in_terms(
                    views_of(rev@),
                    n2,
                    i2,
                ) && i1 != u64::MAX && i2 != u64::MAX implies ((n1 == n2) <==> (i1 == i2)) by {
                assert(self.id.maps(n1, i1));
                assert(self.id.maps(n2, i2));
                self.id.lemma_maps_functional(n1, i1, n2, i2);
            }
        }
        Ok(rev)
    }

    /// Evaluate the query `e` (its goals in reverse source order, as
    /// `parse_clause` hands them over) against the database: collect the
    /// query's variables in surface order for display, seed the
    /// per-activation renaming above every id handed out so far, start the
    /// search on the query's goals, and hand a printer over the lazy
    /// solution stream back, its first line prefetched.  Each pull of the
    /// printer performs at most `fuel` goal expansions.  The whole printer
    /// state is a function of the database, the query and the allocator's
    /// counter, so running the same query twice from the same state yields
    /// the same answer sequence.
    pub fn apply(&mut self, defs: &Rules, e: &Vec<Expr>, fuel: u64) -> (sp: SolsPrinter)
        ensures
            sp.wf(),
            sp.solver.seed == old(self).id.peek_spec(),
            *final(self) == *old(self),
            sp.seen@.len() == 0,
            ({
                let q = views_of(e@);
                let ans0 = collect_vars_list(
                    AnswerV { names: Seq::empty(), values: Seq::empty() },
                    q.reverse(),
                );
                let st0 = SolverV {
                    stack: seq![BranchV { goals: q, ans: ans0 }],
                    seed: old(self).id.peek_spec(),
                };
                let m = crate::fmt::advance_model(defs@, st0, Seq::empty(), fuel as nat, fuel as nat);
                &&& sp.solver@ == m.0
                &&& crate::fmt::curr_view(sp.curr) == m.1
                &&& sp.truncated == m.2
            }),
    {
        let surface = engine::reverse_exprs(e);
        let ans = engine::vars(&surface);
        let goals = engine::dup_exprs(e);
        let seed = self.id.get_next();
        let solver = Solver::new(goals, ans, seed);
        SolsPrinter::new(solver, defs, fuel)
    }
}

/// A query without variables is a yes-or-no question: when its search finds
/// a solution, the line the printer buffers — the first thing displayed —
/// reads `Yes`; when no solution is left, `SolsPrinter::next_output` emits
/// `No.`, as its contract states.
pub proof fn lemma_no_var_query_yes_or_no(
    defs: Seq<DefV>,
    q: Seq<TermV>,
    seed: u64,
    budget: nat,
    fuel: nat,
)
    requires
        forall|n: Seq<char>, i: u64| !var_in_terms(q, n, i),
    ensures
        ({
            let ans0 = collect_vars_list(AnswerV { names: Seq::empty(), values: Seq::empty() }, q);
            let st0 = SolverV { stack: seq![BranchV { goals: q, ans: ans0 }], seed };
            let m = advance_model(defs, st0, Seq::empty(), budget, fuel);
            m.1 matches Some(l) ==> l == "Yes"@
        }),
{
    let empty_ans = AnswerV { names: Seq::empty(), values: Seq::empty() };
    engine::lemma_collect_vars_list_no_vars(empty_ans, q);
    let ans0 = collect_vars_list(empty_ans, q);
    let st0 = SolverV { stack: seq![BranchV { goals: q, ans: ans0 }], seed };
    assert(engine::stack_names(st0.stack, Seq::empty()));
    fmt::lemma_advance_no_vars_says_yes(defs, st0, Seq::empty(), budget, fuel);
}

/// Whether an input line asks to leave the session.
pub fn is_quit(s: &str) -> (r: bool)
    ensures
        r == (s@ == "quit"@ || s@ == "exit"@ || s@ == "q"@),
{
    let owned = s.to_owned();
    owned == String::from_str("quit") || owned == String::from_str("exit") || owned
        == String::from_str("q")
}

} // verus!

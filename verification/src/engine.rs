use vstd::prelude::*;

use crate::alloc_id::{FaView, FreshAlloc};
use crate::expr::{views_of, Expr, TermV};
use crate::parser::{apply_model, Def, SOLVE_FUEL};
use crate::unify::{subst_fresh_args_model, substitute_and_freshen};

verus! {

/// The model of one clause.
#[verifier::ext_equal]
pub struct DefV {
    pub name: Seq<char>,
    pub pat: TermV,
    pub rep: Seq<TermV>,
}

impl View for Def {
    type V = DefV;

    open spec fn view(&self) -> DefV {
        DefV { name: self.name@, pat: self.pat@, rep: views_of(self.rep@) }
    }
}

/// The models of a sequence of clauses, elementwise.
pub open spec fn defs_view(s: Seq<Def>) -> Seq<DefV> {
    Seq::new(s.len(), |i: int| s[i]@)
}

/// The database: every clause read, in source order.  Resolution tries the
/// clauses whose name matches the goal's functor in this order.
pub struct Rules {
    pub defs: Vec<Def>,
}

impl View for Rules {
    type V = Seq<DefV>;

    open spec fn view(&self) -> Seq<DefV> {
        defs_view(self.defs@)
    }
}

impl Rules {
    /// An empty database.
    pub fn new() -> (r: Rules)
        ensures
            r@ =~= Seq::<DefV>::empty(),
    {
        Rules { defs: Vec::new() }
    }

    /// Add a clause at the end.
    pub fn insert(&mut self, d: Def)
        ensures
            final(self)@ =~= old(self)@.push(d@),
    {
        let ghost dv = d@;
        self.defs.push(d);
        proof {
            assert(self@ =~= old(self)@.push(dv));
        }
    }

    /// How many clauses the database holds.
    pub fn len(&self) -> (n: usize)
        ensures
            n == self@.len(),
    {
        self.defs.len()
    }
}

/// The model of an answer substitution.
#[verifier::ext_equal]
pub struct AnswerV {
    pub names: Seq<Seq<char>>,
    pub values: Seq<TermV>,
}

/// The models of a sequence of names, elementwise.
pub open spec fn names_view(s: Seq<String>) -> Seq<Seq<char>> {
    Seq::new(s.len(), |i: int| s[i]@)
}

/// An answer substitution: for each query variable name, in first-occurrence
/// order, the term it is currently rewritten to.
pub struct Answer {
    pub names: Vec<String>,
    pub values: Vec<Expr>,
}

impl View for Answer {
    type V = AnswerV;

    open spec fn view(&self) -> AnswerV {
        AnswerV { names: names_view(self.names@), values: views_of(self.values@) }
    }
}

/// The model of one open branch of the search.
#[verifier::ext_equal]
pub struct BranchV {
    pub goals: Seq<TermV>,
    pub ans: AnswerV,
}

/// One open branch of the depth-first search: the goals still to prove (the
/// leftmost goal at the tail) and the answer substitution built so far.
pub struct Branch {
    pub goals: Vec<Expr>,
    pub ans: Answer,
}

impl View for Branch {
    type V = BranchV;

    open spec fn view(&self) -> BranchV {
        BranchV { goals: views_of(self.goals@), ans: self.ans@ }
    }
}

/// The models of a sequence of branches, elementwise.
pub open spec fn branches_view(s: Seq<Branch>) -> Seq<BranchV> {
    Seq::new(s.len(), |i: int| s[i]@)
}

/// What one request for the next solution ends with.
pub enum Outcome {
    /// One more solution.
    Sol(Answer),
    /// The whole search tree is explored: no more solutions.
    Done,
    /// The step budget ran out before the next solution was found.
    OutOfFuel,
}

/// The model of an `Outcome`.
#[verifier::ext_equal]
pub enum OutcomeV {
    Sol(AnswerV),
    Done,
    OutOfFuel,
}

impl View for Outcome {
    type V = OutcomeV;

    open spec fn view(&self) -> OutcomeV {
        match self {
            Outcome::Sol(a) => OutcomeV::Sol(a@),
            Outcome::Done => OutcomeV::Done,
            Outcome::OutOfFuel => OutcomeV::OutOfFuel,
        }
    }
}

/// The model of expanding one goal with one clause: unify the clause's head
/// with the goal and, on success, rewrite the answer substitution and then
/// the remaining goals extended with the clause's body through one fresh
/// per-activation renaming allocator seeded at `seed`.
pub open spec fn child_model(
    d: DefV,
    rest: Seq<TermV>,
    ans: AnswerV,
    g: TermV,
    seed: u64,
) -> Option<BranchV> {
    if d.name == g->Fun_name {
        let am = apply_model(d.pat, g);
        if am.0 {
            let fa0 = FaView { keys: Seq::empty(), ids: Seq::empty(), counter: seed };
            let v = subst_fresh_args_model(fa0, am.1, ans.values, SOLVE_FUEL as nat);
            let gl = subst_fresh_args_model(v.0, am.1, rest + d.rep, SOLVE_FUEL as nat);
            Some(
                BranchV {
                    goals: gl.1,
                    ans: AnswerV { names: ans.names, values: v.1 },
                },
            )
        } else {
            None
        }
    } else {
        None
    }
}

/// The model of expanding one goal against the whole database: the child
/// branches of every clause that matches, in database order.
pub open spec fn children_model(
    defs: Seq<DefV>,
    rest: Seq<TermV>,
    ans: AnswerV,
    g: TermV,
    seed: u64,
) -> Seq<BranchV>
    decreases defs,
{
    if defs.len() == 0 {
        Seq::empty()
    } else {
        let front = children_model(defs.subrange(0, defs.len() - 1), rest, ans, g, seed);
        match child_model(defs[defs.len() - 1], rest, ans, g, seed) {
            Some(c) => front.push(c),
            None => front,
        }
    }
}

/// The model of the search state: the open branches, the top of the stack
/// explored first.
#[verifier::ext_equal]
pub struct SolverV {
    pub stack: Seq<BranchV>,
    pub seed: u64,
}

/// The model of `Solver::next_sol`: run the depth-first search until the next
/// success leaf, the end of the search tree, or the end of the step budget.
/// A branch whose next goal is a variable is dropped: a free variable cannot
/// be a goal.  A goal whose functor no clause matches simply yields no
/// children: that branch is exhausted.
pub open spec fn run_model(defs: Seq<DefV>, st: SolverV, fuel: nat) -> (OutcomeV, SolverV)
    decreases fuel,
{
    if fuel == 0 {
        (OutcomeV::OutOfFuel, st)
    } else if st.stack.len() == 0 {
        (OutcomeV::Done, st)
    } else {
        let b = st.stack.last();
        let rest_stack = st.stack.subrange(0, st.stack.len() - 1);
        if b.goals.len() == 0 {
            (OutcomeV::Sol(b.ans), SolverV { stack: rest_stack, seed: st.seed })
        } else {
            let g = b.goals.last();
            let rest_goals = b.goals.subrange(0, b.goals.len() - 1);
            let next_stack = if g is Var {
                rest_stack
            } else {
                rest_stack + children_model(defs, rest_goals, b.ans, g, st.seed).reverse()
            };
            run_model(defs, SolverV { stack: next_stack, seed: st.seed }, (fuel - 1) as nat)
        }
    }
}

/// The depth-first backtracking resolver: a stack of open branches, explored
/// top first, all clause activations renamed with allocators seeded at
/// `seed`.  The seed lies above every variable id in the database and the
/// query, so renamed variables never collide with them; branches on disjoint
/// paths of the search tree may reuse the same fresh ids harmlessly.
pub struct Solver {
    pub stack: Vec<Branch>,
    pub seed: u64,
}

impl View for Solver {
    type V = SolverV;

    open spec fn view(&self) -> SolverV {
        SolverV { stack: branches_view(self.stack@), seed: self.seed }
    }
}

impl Solver {
    /// A solver about to prove `goals` (leftmost goal at the tail), with the
    /// given initial answer substitution and renaming seed.
    pub fn new(goals: Vec<Expr>, ans: Answer, seed: u64) -> (r: Solver)
        ensures
            r@.seed == seed,
            r@.stack == seq![BranchV { goals: views_of(goals@), ans: ans@ }],
    {
        let ghost gv = views_of(goals@);
        let ghost av = ans@;
        let mut stack: Vec<Branch> = Vec::new();
        stack.push(Branch { goals, ans });
        proof {
            assert(branches_view(stack@) =~= seq![BranchV { goals: gv, ans: av }]);
        }
        Solver { stack, seed }
    }

    /// Run the search up to the next success leaf, as `run_model` states:
    /// depth-first, clauses in database order, the leftmost goal first.  One
    /// goal expansion costs one unit of `fuel`; between calls no work
    /// happens, and dropping the solver cancels the rest of the search.
    pub fn next_sol(&mut self, rules: &Rules, fuel: u64) -> (r: Outcome)
        ensures
            ({
                let m = run_model(rules@, old(self)@, fuel as nat);
                r@ == m.0 && final(self)@ == m.1
            }),
    {
        let ghost rv = rules@;
        let ghost st0 = old(self)@;
        let mut f: u64 = fuel;
        while f > 0
            invariant
                self.seed == old(self).seed,
                run_model(rv, st0, fuel as nat) == run_model(rv, self@, f as nat),
            decreases f,
        {
            if self.stack.len() == 0 {
                return Outcome::Done;
            }
            let ghost pre = self@;
            let mut br = self.stack.pop().unwrap();
            proof {
                assert(pre.stack[pre.stack.len() - 1] == br@);
                assert(branches_view(self.stack@) =~= pre.stack.subrange(
                    0,
                    pre.stack.len() - 1,
                ));
            }
            if br.goals.len() == 0 {
                proof {
                    assert(self@ =~= (SolverV {
                        stack: pre.stack.subrange(0, pre.stack.len() - 1),
                        seed: pre.seed,
                    }));
                }
                return Outcome::Sol(br.ans);
            }
            let ghost bv = br@;
            let g = br.goals.pop().unwrap();
            proof {
                assert(bv.goals[bv.goals.len() - 1] == g@);
                assert(views_of(br.goals@) =~= bv.goals.subrange(0, bv.goals.len() - 1));
            }
            match &g {
                Expr::Var { .. } => {
                    proof {
                        assert(self@ =~= (SolverV {
                            stack: pre.stack.subrange(0, pre.stack.len() - 1),
                            seed: pre.seed,
                        }));
                        assert(run_model(rv, pre, f as nat) == run_model(
                            rv,
                            self@,
                            (f - 1) as nat,
                        ));
                    }
                },
                Expr::Fun { name: gname, .. } => {
                    let mut children: Vec<Branch> = Vec::new();
                    let mut i: usize = 0;
                    while i < rules.defs.len()
                        invariant
                            i <= rules.defs@.len(),
                            branches_view(children@) == children_model(
                                rv.subrange(0, i as int),
                                views_of(br.goals@),
                                br.ans@,
                                g@,
                                self.seed,
                            ),
                        decreases rules.defs@.len() - i,
                    {
                        let ghost dv = rules.defs@[i as int]@;
                        proof {
                            assert(rv.subrange(0, i + 1 as int).subrange(0, i as int)
                                =~= rv.subrange(0, i as int));
                            assert(rv.subrange(0, i + 1 as int)[i as int] == dv);
                        }
                        if rules.defs[i].name == *gname {
                            match rules.defs[i].apply(&g) {
                                Ok(sub) => {
                                    let c = make_child(
                                        self.seed,
                                        &sub,
                                        &br.goals,
                                        &br.ans,
                                        &rules.defs[i].rep,
                                    );
                                    let ghost cv = c@;
                                    children.push(c);
                                    proof {
                                        assert(child_model(
                                            dv,
                                            views_of(br.goals@),
                                            br.ans@,
                                            g@,
                                            self.seed,
                                        ) == Some(cv));
                                        assert(branches_view(children@) =~= children_model(
                                            rv.subrange(0, i as int),
                                            views_of(br.goals@),
                                            br.ans@,
                                            g@,
                                            self.seed,
                                        ).push(cv));
                                    }
                                },
                                Err(_) => {
                                    proof {
                                        assert(child_model(
                                            dv,
                                            views_of(br.goals@),
                                            br.ans@,
                                            g@,
                                            self.seed,
                                        ) is None);
                                    }
                                },
                            }
                        } else {
                            proof {
                                assert(dv.name != g@->Fun_name);
                                assert(child_model(
                                    dv,
                                    views_of(br.goals@),
                                    br.ans@,
                                    g@,
                                    self.seed,
                                ) is None);
                            }
                        }
                        i = i + 1;
                    }
                    proof {
                        assert(rv.subrange(0, rv.len() as int) =~= rv);
                    }
                    let ghost ch = children_model(rv, views_of(br.goals@), br.ans@, g@, self.seed);
                    let ghost stack_mid = branches_view(self.stack@);
                    proof {
                        assert(stack_mid + ch.reverse().subrange(0, 0) =~= stack_mid);
                    }
                    while children.len() > 0
                        invariant
                            self.seed == pre.seed,
                            children@.len() <= ch.len(),
                            branches_view(children@) == ch.subrange(0, children@.len() as int),
                            branches_view(self.stack@) == stack_mid + ch.reverse().subrange(
                                0,
                                ch.len() - children@.len(),
                            ),
                        decreases children@.len(),
                    {
                        let ghost chpre = children@;
                        let ghost stpre = self.stack@;
                        let c = children.pop().unwrap();
                        let ghost cv = c@;
                        self.stack.push(c);
                        proof {
                            let rem = children@.len() as int;
                            assert(c == chpre[rem]);
                            assert(branches_view(chpre)[rem] == chpre[rem]@);
                            assert(cv == ch.subrange(0, chpre.len() as int)[rem]);
                            assert(cv == ch[rem]);
                            assert(ch.reverse()[ch.len() - 1 - rem] == ch[rem]);
                            assert(branches_view(children@) =~= ch.subrange(0, rem));
                            assert(self.stack@ == stpre.push(c));
                            assert(branches_view(self.stack@) =~= branches_view(stpre).push(cv));
                            assert(branches_view(stpre).push(cv) =~= stack_mid + ch.reverse().subrange(
                                0,
                                ch.len() - rem,
                            ));
                        }
                    }
                    proof {
                        assert(ch.reverse().subrange(0, ch.len() as int) =~= ch.reverse());
                        assert(branches_view(self.stack@) == stack_mid + ch.reverse());
                        assert(stack_mid == pre.stack.subrange(0, pre.stack.len() - 1));
                        assert(self@ =~= (SolverV {
                            stack: pre.stack.subrange(0, pre.stack.len() - 1) + ch.reverse(),
                            seed: pre.seed,
                        }));
                        assert(run_model(rv, pre, f as nat) == run_model(
                            rv,
                            self@,
                            (f - 1) as nat,
                        ));
                    }
                },
            }
            f = f - 1;
        }
        Outcome::OutOfFuel
    }
}

/// The initial answer substitution of a query: each variable, at its first
/// occurrence (left to right, pre-order over functor arguments), mapped to
/// itself.  The order of the names is the display order.
pub open spec fn collect_vars(acc: AnswerV, t: TermV) -> AnswerV
    decreases t,
{
    match t {
        TermV::Var { name, id } => {
            if acc.names.contains(name) {
                acc
            } else {
                AnswerV { names: acc.names.push(name), values: acc.values.push(t) }
            }
        },
        TermV::Fun { name, args } => collect_vars_list(acc, args),
    }
}

/// `collect_vars` over a list of terms, left to right.
pub open spec fn collect_vars_list(acc: AnswerV, ts: Seq<TermV>) -> AnswerV
    decreases ts,
{
    if ts.len() == 0 {
        acc
    } else {
        collect_vars(collect_vars_list(acc, ts.subrange(0, ts.len() - 1)), ts[ts.len() - 1])
    }
}

/// A term without variables collects nothing.
proof fn lemma_collect_vars_no_vars(acc: AnswerV, t: TermV)
    requires
        forall|n: Seq<char>, i: u64| !crate::expr::var_in_term(t, n, i),
    ensures
        collect_vars(acc, t) == acc,
    decreases t,
{
    match t {
        TermV::Var { name, id } => {
            assert(crate::expr::var_in_term(t, name, id));
        },
        TermV::Fun { name, args } => {
            assert forall|n: Seq<char>, i: u64|
                !(#[trigger] crate::expr::var_in_terms(args, n, i)) by {
                if crate::expr::var_in_terms(args, n, i) {
                    assert(crate::expr::var_in_term(t, n, i));
                }
            }
            lemma_collect_vars_list_no_vars(acc, args);
        },
    }
}

/// A goal list without variables collects nothing: its initial answer
/// substitution stays empty.
pub proof fn lemma_collect_vars_list_no_vars(acc: AnswerV, ts: Seq<TermV>)
    requires
        forall|n: Seq<char>, i: u64| !crate::expr::var_in_terms(ts, n, i),
    ensures
        collect_vars_list(acc, ts) == acc,
    decreases ts,
{
    if ts.len() > 0 {
        let tf = ts.subrange(0, ts.len() - 1);
        assert forall|n: Seq<char>, i: u64| !(#[trigger] crate::expr::var_in_terms(tf, n, i)) by {
            if crate::expr::var_in_terms(tf, n, i) {
                let j = choose|j: int|
                    0 <= j < tf.len() && crate::expr::var_in_term(#[trigger] tf[j], n, i);
                assert(crate::expr::var_in_term(ts[j], n, i));
                assert(crate::expr::var_in_terms(ts, n, i));
            }
        }
        lemma_collect_vars_list_no_vars(acc, tf);
        assert forall|n: Seq<char>, i: u64|
            !(#[trigger] crate::expr::var_in_term(ts[ts.len() - 1], n, i)) by {
            if crate::expr::var_in_term(ts[ts.len() - 1], n, i) {
                assert(crate::expr::var_in_terms(ts, n, i));
            }
        }
        lemma_collect_vars_no_vars(collect_vars_list(acc, tf), ts[ts.len() - 1]);
    }
}

/// Whether a name list holds the given name.
fn contains_name(names: &Vec<String>, n: &String) -> (r: bool)
    ensures
        r == names_view(names@).contains(n@),
{
    let mut k: usize = 0;
    while k < names.len()
        invariant
            k <= names@.len(),
            forall|i: int| 0 <= i < k ==> names_view(names@)[i] != n@,
        decreases names@.len() - k,
    {
        if names[k] == *n {
            proof {
                assert(names_view(names@)[k as int] == n@);
            }
            return true;
        }
        proof {
            assert(names_view(names@)[k as int] == names@[k as int]@);
        }
        k = k + 1;
    }
    proof {
        assert(!names_view(names@).contains(n@));
    }
    false
}

/// Record the variables of `t` in `acc`, as `collect_vars` states.
fn collect(acc: &mut Answer, t: &Expr)
    ensures
        final(acc)@ == collect_vars(old(acc)@, t@),
    decreases *t,
{
    match t {
        Expr::Var { name, .. } => {
            if !contains_name(&acc.names, name) {
                let ghost a0 = acc@;
                acc.names.push(name.clone());
                let d = t.dup();
                let ghost dv = d@;
                acc.values.push(d);
                proof {
                    assert(names_view(acc.names@) =~= a0.names.push(name@));
                    assert(views_of(acc.values@) =~= a0.values.push(dv));
                    assert(acc@ =~= collect_vars(a0, t@));
                }
            }
        },
        Expr::Fun { name, args, .. } => {
            let ghost a0 = acc@;
            let ghost av = views_of(args@);
            let mut k: usize = 0;
            while k < args.len()
                invariant
                    k <= args@.len(),
                    acc@ == collect_vars_list(a0, av.subrange(0, k as int)),
                    *t == (Expr::Fun { name: *name, args: *args, loc: t.loc_spec() }),
                decreases args@.len() - k,
            {
                proof {
                    assert(decreases_to!(*t => t->Fun_args));
                    assert(decreases_to!(t->Fun_args => t->Fun_args@[k as int]));
                }
                collect(acc, &args[k]);
                proof {
                    assert(av.subrange(0, k + 1 as int).subrange(0, k as int) =~= av.subrange(
                        0,
                        k as int,
                    ));
                    assert(av.subrange(0, k + 1 as int)[k as int] == args@[k as int]@);
                }
                k = k + 1;
            }
            proof {
                assert(av.subrange(0, av.len() as int) =~= av);
                assert(t@->Fun_args =~= av);
            }
        },
    }
}

/// The initial answer substitution of the query `e`: each query variable, in
/// first-occurrence order, mapped to itself.
pub fn vars(e: &Vec<Expr>) -> (r: Answer)
    ensures
        r@ == collect_vars_list(
            AnswerV { names: Seq::empty(), values: Seq::empty() },
            views_of(e@),
        ),
{
    let mut acc = Answer { names: Vec::new(), values: Vec::new() };
    proof {
        assert(acc@ =~= (AnswerV { names: Seq::empty(), values: Seq::empty() }));
    }
    let ghost a0 = acc@;
    let ghost ev = views_of(e@);
    let mut k: usize = 0;
    while k < e.len()
        invariant
            k <= e@.len(),
            acc@ == collect_vars_list(a0, ev.subrange(0, k as int)),
        decreases e@.len() - k,
    {
        collect(&mut acc, &e[k]);
        proof {
            assert(ev.subrange(0, k + 1 as int).subrange(0, k as int) =~= ev.subrange(0, k as int));
            assert(ev.subrange(0, k + 1 as int)[k as int] == e@[k as int]@);
        }
        k = k + 1;
    }
    proof {
        assert(ev.subrange(0, ev.len() as int) =~= ev);
    }
    acc
}

/// A copy of a term list with the same models.
pub fn dup_exprs(v: &Vec<Expr>) -> (r: Vec<Expr>)
    ensures
        views_of(r@) == views_of(v@),
{
    let mut r: Vec<Expr> = Vec::new();
    let mut k: usize = 0;
    while k < v.len()
        invariant
            k <= v@.len(),
            r@.len() == k,
            forall|i: int| 0 <= i < k ==> #[trigger] r@[i]@ == v@[i]@,
        decreases v@.len() - k,
    {
        r.push(v[k].dup());
        k = k + 1;
    }
    proof {
        assert(views_of(r@) =~= views_of(v@));
    }
    r
}

/// A copy of a term list with the models in reverse order.
pub fn reverse_exprs(v: &Vec<Expr>) -> (r: Vec<Expr>)
    ensures
        views_of(r@) == views_of(v@).reverse(),
{
    let mut r: Vec<Expr> = Vec::new();
    let mut k: usize = 0;
    while k < v.len()
        invariant
            k <= v@.len(),
            r@.len() == k,
            forall|i: int| 0 <= i < k ==> #[trigger] r@[i]@ == v@[v@.len() - 1 - i]@,
        decreases v@.len() - k,
    {
        r.push(v[v.len() - 1 - k].dup());
        k = k + 1;
    }
    proof {
        assert(views_of(r@) =~= views_of(v@).reverse());
    }
    r
}

/// A copy of a name list with the same models.
fn dup_names(v: &Vec<String>) -> (r: Vec<String>)
    ensures
        r@ == v@,
{
    let mut r: Vec<String> = Vec::new();
    let mut k: usize = 0;
    while k < v.len()
        invariant
            k <= v@.len(),
            r@.len() == k,
            forall|i: int| 0 <= i < k ==> r@[i] == v@[i],
        decreases v@.len() - k,
    {
        r.push(v[k].clone());
        k = k + 1;
    }
    proof {
        assert(r@ =~= v@);
    }
    r
}

/// Rewrite every term of `ts` through `substitute_and_freshen`, appending the
/// results to `out`, threading the renaming allocator.
fn subst_all(gen: &mut FreshAlloc, sub: &crate::unify::Bindings, ts: &Vec<Expr>, out: &mut Vec<
    Expr,
>)
    requires
        old(gen)@.wf(),
    ensures
        final(gen)@.wf(),
        ({
            let m = subst_fresh_args_model(
                old(gen)@,
                crate::unify::bview(sub@),
                views_of(ts@),
                SOLVE_FUEL as nat,
            );
            final(gen)@ == m.0 && views_of(final(out)@) == views_of(old(out)@) + m.1
        }),
{
    let ghost fa0 = gen@;
    let ghost out0 = views_of(out@);
    let ghost tv = views_of(ts@);
    let mut k: usize = 0;
    while k < ts.len()
        invariant
            k <= ts@.len(),
            gen@.wf(),
            ({
                let m = subst_fresh_args_model(
                    fa0,
                    crate::unify::bview(sub@),
                    tv.subrange(0, k as int),
                    SOLVE_FUEL as nat,
                );
                gen@ == m.0 && views_of(out@) == out0 + m.1
            }),
        decreases ts@.len() - k,
    {
        let e = substitute_and_freshen(gen, sub, &ts[k], SOLVE_FUEL);
        let ghost ev = e@;
        out.push(e);
        proof {
            let b = crate::unify::bview(sub@);
            let mk = subst_fresh_args_model(fa0, b, tv.subrange(0, k as int), SOLVE_FUEL as nat);
            let m1 = subst_fresh_args_model(
                fa0,
                b,
                tv.subrange(0, k + 1 as int),
                SOLVE_FUEL as nat,
            );
            assert(tv.subrange(0, k + 1 as int).subrange(0, k as int) =~= tv.subrange(0, k as int));
            assert(tv.subrange(0, k + 1 as int)[k as int] == ts@[k as int]@);
            assert(m1.1 == mk.1.push(ev));
            assert(views_of(out@) =~= (out0 + mk.1).push(ev));
            assert(out0 + mk.1.push(ev) =~= (out0 + mk.1).push(ev));
        }
        k = k + 1;
    }
    proof {
        assert(tv.subrange(0, tv.len() as int) =~= tv);
    }
}

/// Build the branch that one successful clause application opens: the answer
/// substitution and the goals, rewritten through one fresh renaming
/// allocator, with the clause's body goals placed after the remaining ones.
fn make_child(seed: u64, sub: &crate::unify::Bindings, rest: &Vec<Expr>, ans: &Answer, rep: &Vec<
    Expr,
>) -> (c: Branch)
    ensures
        ({
            let b = crate::unify::bview(sub@);
            let fa0 = FaView { keys: Seq::empty(), ids: Seq::empty(), counter: seed };
            let v = subst_fresh_args_model(fa0, b, views_of(ans.values@), SOLVE_FUEL as nat);
            let gl = subst_fresh_args_model(
                v.0,
                b,
                views_of(rest@) + views_of(rep@),
                SOLVE_FUEL as nat,
            );
            c@ == (BranchV {
                goals: gl.1,
                ans: AnswerV { names: names_view(ans.names@), values: v.1 },
            })
        }),
{
    let mut gen = FreshAlloc::new(seed);
    proof {
        assert(gen@ =~= (FaView { keys: Seq::empty(), ids: Seq::empty(), counter: seed }));
    }
    let mut values: Vec<Expr> = Vec::new();
    subst_all(&mut gen, sub, &ans.values, &mut values);
    let mut goals: Vec<Expr> = Vec::new();
    subst_all(&mut gen, sub, rest, &mut goals);
    let ghost mid = gen@;
    let ghost goals_mid = views_of(goals@);
    subst_all(&mut gen, sub, rep, &mut goals);
    let names = dup_names(&ans.names);
    let c = Branch { goals, ans: Answer { names, values } };
    proof {
        let b = crate::unify::bview(sub@);
        let fa0 = FaView { keys: Seq::empty(), ids: Seq::empty(), counter: seed };
        let v = subst_fresh_args_model(fa0, b, views_of(ans.values@), SOLVE_FUEL as nat);
        lemma_subst_args_concat(v.0, b, views_of(rest@), views_of(rep@), SOLVE_FUEL as nat);
        let gl = subst_fresh_args_model(
            v.0,
            b,
            views_of(rest@) + views_of(rep@),
            SOLVE_FUEL as nat,
        );
        assert(c@.goals =~= gl.1);
        assert(c@.ans.values =~= v.1);
        assert(c@.ans.names =~= names_view(ans.names@));
        assert(c@ =~= (BranchV {
            goals: gl.1,
            ans: AnswerV { names: names_view(ans.names@), values: v.1 },
        }));
    }
    c
}

/// Whether every open branch carries the given query-variable names.
pub open spec fn stack_names(stack: Seq<BranchV>, names: Seq<Seq<char>>) -> bool {
    forall|i: int| 0 <= i < stack.len() ==> (#[trigger] stack[i]).ans.names == names
}

/// Expanding a goal keeps the query-variable names: every child branch
/// carries the names of the branch it came from.
proof fn lemma_children_names(
    defs: Seq<DefV>,
    rest: Seq<TermV>,
    ans: AnswerV,
    g: TermV,
    seed: u64,
)
    ensures
        forall|i: int|
            0 <= i < children_model(defs, rest, ans, g, seed).len() ==> (#[trigger] children_model(
                defs,
                rest,
                ans,
                g,
                seed,
            )[i]).ans.names == ans.names,
    decreases defs,
{
    if defs.len() > 0 {
        lemma_children_names(defs.subrange(0, defs.len() - 1), rest, ans, g, seed);
        let front = children_model(defs.subrange(0, defs.len() - 1), rest, ans, g, seed);
        let whole = children_model(defs, rest, ans, g, seed);
        assert forall|i: int|
            0 <= i < whole.len() implies (#[trigger] whole[i]).ans.names == ans.names by {
            match child_model(defs[defs.len() - 1], rest, ans, g, seed) {
                Some(c) => {
                    if i < front.len() {
                        assert(whole[i] == front[i]);
                    } else {
                        assert(whole[i] == c);
                    }
                },
                None => {
                    assert(whole[i] == front[i]);
                },
            }
        }
    }
}

/// The search never changes an answer's variable names: every solution of a
/// state whose branches all carry the names `names` carries `names` itself,
/// and so do the branches left open.
pub proof fn lemma_run_preserves_names(
    defs: Seq<DefV>,
    st: SolverV,
    names: Seq<Seq<char>>,
    fuel: nat,
)
    requires
        stack_names(st.stack, names),
    ensures
        ({
            let m = run_model(defs, st, fuel);
            &&& stack_names(m.1.stack, names)
            &&& (m.0 matches OutcomeV::Sol(a) ==> a.names == names)
        }),
    decreases fuel,
{
    if fuel > 0 && st.stack.len() > 0 {
        let b = st.stack.last();
        let rest_stack = st.stack.subrange(0, st.stack.len() - 1);
        assert(stack_names(rest_stack, names));
        if b.goals.len() > 0 {
            let g = b.goals.last();
            let rest_goals = b.goals.subrange(0, b.goals.len() - 1);
            let next_stack = if g is Var {
                rest_stack
            } else {
                rest_stack + children_model(defs, rest_goals, b.ans, g, st.seed).reverse()
            };
            if !(g is Var) {
                let ch = children_model(defs, rest_goals, b.ans, g, st.seed);
                lemma_children_names(defs, rest_goals, b.ans, g, st.seed);
                assert forall|i: int|
                    0 <= i < next_stack.len() implies (#[trigger] next_stack[i]).ans.names
                    == names by {
                    if i >= rest_stack.len() {
                        assert(next_stack[i] == ch.reverse()[i - rest_stack.len()]);
                        assert(ch.reverse()[i - rest_stack.len()] == ch[ch.len() - 1 - (i
                            - rest_stack.len())]);
                    }
                }
            }
            lemma_run_preserves_names(
                defs,
                SolverV { stack: next_stack, seed: st.seed },
                names,
                (fuel - 1) as nat,
            );
        }
    }
}

/// The search never changes its renaming seed: every activation of the whole
/// query is renamed above the same bound.
pub proof fn lemma_run_preserves_seed(defs: Seq<DefV>, st: SolverV, fuel: nat)
    ensures
        run_model(defs, st, fuel).1.seed == st.seed,
    decreases fuel,
{
    if fuel > 0 && st.stack.len() > 0 {
        let b = st.stack.last();
        if b.goals.len() > 0 {
            let g = b.goals.last();
            let rest_stack = st.stack.subrange(0, st.stack.len() - 1);
            let rest_goals = b.goals.subrange(0, b.goals.len() - 1);
            let next_stack = if g is Var {
                rest_stack
            } else {
                rest_stack + children_model(defs, rest_goals, b.ans, g, st.seed).reverse()
            };
            lemma_run_preserves_seed(
                defs,
                SolverV { stack: next_stack, seed: st.seed },
                (fuel - 1) as nat,
            );
        }
    }
}

/// Resolution is deterministic: what a request for the next solution yields
/// is a function of the database, the search state and the step budget
/// alone.  Running the same query twice against the same database from the
/// same allocator state therefore yields the same answer sequence.
pub proof fn lemma_run_deterministic(defs: Seq<DefV>, s1: SolverV, s2: SolverV, fuel: nat)
    requires
        s1 == s2,
    ensures
        run_model(defs, s1, fuel) == run_model(defs, s2, fuel),
{
}

/// Rewriting a concatenation of term lists is rewriting the first and then
/// the second from the allocator the first left behind.
proof fn lemma_subst_args_concat(
    fa: FaView,
    b: Map<u64, TermV>,
    s1: Seq<TermV>,
    s2: Seq<TermV>,
    fuel: nat,
)
    ensures
        ({
            let m1 = subst_fresh_args_model(fa, b, s1, fuel);
            let m2 = subst_fresh_args_model(m1.0, b, s2, fuel);
            subst_fresh_args_model(fa, b, s1 + s2, fuel) == (m2.0, m1.1 + m2.1)
        }),
    decreases s2.len(),
{
    let m1 = subst_fresh_args_model(fa, b, s1, fuel);
    if s2.len() == 0 {
        assert(s1 + s2 =~= s1);
        assert(m1.1 + Seq::<TermV>::empty() =~= m1.1);
    } else {
        let s2f = s2.subrange(0, s2.len() - 1);
        lemma_subst_args_concat(fa, b, s1, s2f, fuel);
        assert((s1 + s2).subrange(0, (s1 + s2).len() - 1) =~= s1 + s2f);
        assert((s1 + s2)[(s1 + s2).len() - 1] == s2[s2.len() - 1]);
        let mf = subst_fresh_args_model(m1.0, b, s2f, fuel);
        let last = crate::unify::subst_fresh_model(mf.0, b, s2[s2.len() - 1], fuel);
        assert(m1.1 + mf.1.push(last.1) =~= (m1.1 + mf.1).push(last.1));
    }
}

} // verus!

use vstd::prelude::*;

use crate::engine::{run_model, Answer, AnswerV, DefV, Outcome, OutcomeV, Rules, Solver, SolverV};
use crate::expr::{display_of, Expr, TermV};

verus! {

/// One displayed binding: `name = term`.
pub open spec fn piece_of(n: Seq<char>, v: TermV) -> Seq<char> {
    n + " = "@ + display_of(v)
}

/// Whether a binding is a trivial self-binding (`X = X`), which the formatter
/// suppresses.
pub open spec fn trivial_binding(n: Seq<char>, v: TermV) -> bool {
    v matches TermV::Var { name, .. } && name == n
}

/// The non-trivial bindings of an answer, comma-separated, in query-variable
/// order.
pub open spec fn pieces_of(names: Seq<Seq<char>>, values: Seq<TermV>) -> Seq<char>
    decreases names,
{
    if names.len() == 0 || names.len() != values.len() {
        Seq::empty()
    } else {
        let front = pieces_of(
            names.subrange(0, names.len() - 1),
            values.subrange(0, values.len() - 1),
        );
        let n = names[names.len() - 1];
        let v = values[values.len() - 1];
        if trivial_binding(n, v) {
            front
        } else if front.len() == 0 {
            piece_of(n, v)
        } else {
            front + ", "@ + piece_of(n, v)
        }
    }
}

/// The displayed line of one answer: its non-trivial bindings, or `Yes` when
/// there are none (a query without variables is a yes-or-no question).
pub open spec fn answer_line(a: AnswerV) -> Seq<char> {
    if pieces_of(a.names, a.values).len() == 0 {
        "Yes"@
    } else {
        pieces_of(a.names, a.values)
    }
}

/// A query without variables that succeeds displays `Yes`: the answer of a
/// variable-free query has no bindings at all, so its line is the plain
/// affirmation.  (A failing query displays `No.`, as `next_output` ensures
/// when no solution is left.)
pub proof fn lemma_no_var_query_says_yes(a: AnswerV)
    requires
        a.names.len() == 0,
    ensures
        answer_line(a) == "Yes"@,
{
}

/// Over a search whose branches all carry no query-variable names, any line
/// the printer can buffer is the plain `Yes`: every answer of such a search
/// has no bindings to display.
pub proof fn lemma_advance_no_vars_says_yes(
    defs: Seq<DefV>,
    st: SolverV,
    seen: Seq<Seq<char>>,
    budget: nat,
    fuel: nat,
)
    requires
        crate::engine::stack_names(st.stack, Seq::empty()),
    ensures
        ({
            let m = advance_model(defs, st, seen, budget, fuel);
            &&& crate::engine::stack_names(m.0.stack, Seq::empty())
            &&& (m.1 matches Some(l) ==> l == "Yes"@)
        }),
    decreases budget,
{
    if budget > 0 {
        let m = run_model(defs, st, fuel);
        crate::engine::lemma_run_preserves_names(defs, st, Seq::empty(), fuel);
        match m.0 {
            OutcomeV::Sol(a) => {
                lemma_no_var_query_says_yes(a);
                if line_seen(seen, answer_line(a)) {
                    lemma_advance_no_vars_says_yes(defs, m.1, seen, (budget - 1) as nat, fuel);
                }
            },
            OutcomeV::Done => {
            },
            OutcomeV::OutOfFuel => {
            },
        }
    }
}

/// Render one answer as its display line, as `answer_line` states.
pub fn render_answer(a: &Answer) -> (line: String)
    ensures
        line@ == answer_line(a@),
{
    if a.names.len() != a.values.len() {
        return String::from_str("Yes");
    }
    let ghost nv = crate::engine::names_view(a.names@);
    let ghost vv = crate::expr::views_of(a.values@);
    let mut line = String::new();
    let mut emitted = false;
    let mut k: usize = 0;
    while k < a.names.len()
        invariant
            k <= a.names@.len(),
            a.names@.len() == a.values@.len(),
            nv.len() == vv.len(),
            line@ == pieces_of(nv.subrange(0, k as int), vv.subrange(0, k as int)),
            emitted == (line@.len() > 0),
        decreases a.names@.len() - k,
    {
        let skip = match &a.values[k] {
            Expr::Var { name: vn, .. } => *vn == a.names[k],
            _ => false,
        };
        proof {
            assert(vv[k as int] == a.values@[k as int]@);
            assert(nv[k as int] == a.names@[k as int]@);
            assert(skip == trivial_binding(nv[k as int], vv[k as int]));
        }
        if !skip {
            if emitted {
                line.append(", ");
            }
            line.append(a.names[k].as_str());
            line.append(" = ");
            let t = a.values[k].render();
            line.append(t.as_str());
            emitted = true;
        }
        proof {
            assert(nv.subrange(0, k + 1 as int).subrange(0, k as int) =~= nv.subrange(0, k as int));
            assert(vv.subrange(0, k + 1 as int).subrange(0, k as int) =~= vv.subrange(0, k as int));
            assert(nv.subrange(0, k + 1 as int)[k as int] == nv[k as int]);
            assert(vv.subrange(0, k + 1 as int)[k as int] == vv[k as int]);
            if !skip {
                reveal_strlit(" = ");
                assert(piece_of(nv[k as int], vv[k as int]).len() > 0);
            }
        }
        k = k + 1;
    }
    proof {
        assert(nv.subrange(0, nv.len() as int) =~= nv);
        assert(vv.subrange(0, vv.len() as int) =~= vv);
    }
    if emitted {
        line
    } else {
        String::from_str("Yes")
    }
}

/// The views of a list of lines.
pub open spec fn lines_view(s: Seq<String>) -> Seq<Seq<char>> {
    Seq::new(s.len(), |i: int| s[i]@)
}

/// Whether a line is among the given ones.
pub open spec fn line_seen(seen: Seq<Seq<char>>, l: Seq<char>) -> bool {
    exists|i: int| 0 <= i < seen.len() && seen[i] == l
}

/// The view of the buffered line.
pub open spec fn curr_view(c: Option<String>) -> Option<Seq<char>> {
    match c {
        Some(l) => Some(l@),
        None => None,
    }
}

/// The model of `SolsPrinter::advance`: pull solutions from the search until
/// one renders as a line not among `seen`, the search is exhausted, or a
/// budget runs out.  Yields the solver afterwards, the fresh line if one was
/// found, and whether a budget ran out.  Each pull spends up to `fuel` goal
/// expansions, and at most `budget` solutions are pulled.
pub open spec fn advance_model(
    defs: Seq<DefV>,
    st: SolverV,
    seen: Seq<Seq<char>>,
    budget: nat,
    fuel: nat,
) -> (SolverV, Option<Seq<char>>, bool)
    decreases budget,
{
    if budget == 0 {
        (st, None, true)
    } else {
        let m = run_model(defs, st, fuel);
        match m.0 {
            OutcomeV::Sol(a) => {
                let l = answer_line(a);
                if line_seen(seen, l) {
                    advance_model(defs, m.1, seen, (budget - 1) as nat, fuel)
                } else {
                    (m.1, Some(l), false)
                }
            },
            OutcomeV::Done => (m.1, None, false),
            OutcomeV::OutOfFuel => (m.1, None, true),
        }
    }
}

/// Whether a line is already among the emitted ones.
fn seen_contains(seen: &Vec<String>, l: &String) -> (r: bool)
    ensures
        r == exists|i: int| 0 <= i < seen@.len() && #[trigger] seen@[i]@ == l@,
{
    let mut k: usize = 0;
    while k < seen.len()
        invariant
            k <= seen@.len(),
            forall|i: int| 0 <= i < k ==> #[trigger] seen@[i]@ != l@,
        decreases seen@.len() - k,
    {
        if seen[k] == *l {
            return true;
        }
        k = k + 1;
    }
    false
}

/// All lines distinct: no two emitted lines of one query are ever equal.
/// Duplicate answers are recognized by their rendered line — a reading
/// slightly coarser than structural equality of the non-skipped bindings,
/// since two bindings that differ only in the ids of variables sharing a
/// display name render alike, and their lines could not be told apart.
pub open spec fn distinct_lines(s: Seq<String>) -> bool {
    forall|i: int, j: int| 0 <= i < j < s.len() ==> s[i]@ != s[j]@
}

/// Draws solutions from the resolver one at a time, renders each as a line,
/// suppresses any line it has emitted before, and reports `Yes`/`No` for
/// queries without variables.
pub struct SolsPrinter {
    pub solver: Solver,
    /// The next line to emit, already checked against `seen`.
    pub curr: Option<String>,
    /// Every line emitted so far, in order.
    pub seen: Vec<String>,
    /// Whether a step budget ran out while looking for a solution; the
    /// enumeration then ended early instead of searching on.
    pub truncated: bool,
}

impl SolsPrinter {
    /// Well-formedness: the emitted lines are pairwise distinct, and the
    /// buffered next line differs from all of them.
    pub open spec fn wf(self) -> bool {
        &&& distinct_lines(self.seen@)
        &&& (self.curr matches Some(l) ==> forall|i: int|
            0 <= i < self.seen@.len() ==> #[trigger] self.seen@[i]@ != l@)
    }

    /// Pull solutions until one renders as a line not yet emitted, the
    /// search is exhausted, or the budget runs out.  Requires no line to be
    /// buffered; leaves the emitted lines untouched.
    fn advance(&mut self, rules: &Rules, fuel: u64)
        requires
            old(self).wf(),
            old(self).curr is None,
        ensures
            final(self).wf(),
            final(self).seen == old(self).seen,
            final(self).solver.seed == old(self).solver.seed,
            ({
                let m = advance_model(
                    rules@,
                    old(self).solver@,
                    lines_view(old(self).seen@),
                    fuel as nat,
                    fuel as nat,
                );
                &&& final(self).solver@ == m.0
                &&& curr_view(final(self).curr) == m.1
                &&& final(self).truncated == (old(self).truncated || m.2)
            }),
    {
        let ghost m0 = advance_model(
            rules@,
            old(self).solver@,
            lines_view(old(self).seen@),
            fuel as nat,
            fuel as nat,
        );
        let mut f: u64 = fuel;
        while f > 0
            invariant
                self.wf(),
                self.curr is None,
                self.seen == old(self).seen,
                self.solver.seed == old(self).solver.seed,
                self.truncated == old(self).truncated,
                m0 == advance_model(
                    rules@,
                    self.solver@,
                    lines_view(self.seen@),
                    f as nat,
                    fuel as nat,
                ),
            decreases f,
        {
            let ghost pre = self.solver@;
            proof {
                crate::engine::lemma_run_preserves_seed(rules@, pre, fuel as nat);
            }
            match self.solver.next_sol(rules, fuel) {
                Outcome::Sol(a) => {
                    let ghost av = a@;
                    let line = render_answer(&a);
                    proof {
                        assert(line@ == answer_line(av));
                    }
                    if !seen_contains(&self.seen, &line) {
                        proof {
                            assert(!line_seen(lines_view(self.seen@), line@)) by {
                                if line_seen(lines_view(self.seen@), line@) {
                                    let i = choose|i: int|
                                        0 <= i < lines_view(self.seen@).len() && lines_view(
                                            self.seen@,
                                        )[i] == line@;
                                    assert(self.seen@[i]@ == line@);
                                }
                            }
                        }
                        self.curr = Some(line);
                        return;
                    }
                    proof {
                        assert(line_seen(lines_view(self.seen@), line@)) by {
                            let i = choose|i: int|
                                0 <= i < self.seen@.len() && #[trigger] self.seen@[i]@ == line@;
                            assert(lines_view(self.seen@)[i] == line@);
                        }
                    }
                },
                Outcome::Done => {
                    return;
                },
                Outcome::OutOfFuel => {
                    self.truncated = true;
                    return;
                },
            }
            f = f - 1;
        }
        self.truncated = true;
    }

    /// A printer over the given resolver, with the first line prefetched, as
    /// `advance_model` over the given solver state and no emitted lines
    /// states.
    pub fn new(solver: Solver, rules: &Rules, fuel: u64) -> (r: SolsPrinter)
        ensures
            r.wf(),
            r.solver.seed == solver.seed,
            r.seen@.len() == 0,
            ({
                let m = advance_model(rules@, solver@, Seq::empty(), fuel as nat, fuel as nat);
                &&& r.solver@ == m.0
                &&& curr_view(r.curr) == m.1
                &&& r.truncated == m.2
            }),
    {
        let ghost sv = solver@;
        let mut sp = SolsPrinter { solver, curr: None, seen: Vec::new(), truncated: false };
        proof {
            assert(lines_view(sp.seen@) =~= Seq::<Seq<char>>::empty());
        }
        sp.advance(rules, fuel);
        sp
    }

    /// The next piece of output and whether a further request is meaningful:
    /// the buffered solution line terminated with its period, or `No.` once
    /// no solution is left.  After an answer a further request yields either
    /// the next answer or the closing `No.`.  The line joins the emitted
    /// ones, which stay pairwise distinct: the formatter never prints the
    /// same line twice over one query.
    pub fn next_output(&mut self, rules: &Rules, fuel: u64) -> (r: (String, bool))
        requires
            old(self).wf(),
        ensures
            final(self).wf(),
            old(self).curr matches Some(l) ==> {
                &&& r.0@ == l@ + "."@
                &&& r.1
                &&& final(self).seen@.len() == old(self).seen@.len() + 1
                &&& final(self).seen@[old(self).seen@.len() as int]@ == l@
                &&& forall|i: int|
                    0 <= i < old(self).seen@.len() ==> final(self).seen@[i] == old(
                        self,
                    ).seen@[i]
                &&& ({
                    let m = advance_model(
                        rules@,
                        old(self).solver@,
                        lines_view(old(self).seen@).push(l@),
                        fuel as nat,
                        fuel as nat,
                    );
                    &&& final(self).solver@ == m.0
                    &&& curr_view(final(self).curr) == m.1
                    &&& final(self).truncated == (old(self).truncated || m.2)
                })
            },
            old(self).curr is None ==> {
                &&& r.0@ == "No."@
                &&& !r.1
                &&& *final(self) == *old(self)
            },
    {
        let took = self.curr.take();
        match took {
            Some(line) => {
                let out = line.clone();
                let ghost seen0 = self.seen@;
                let ghost lv = line@;
                self.seen.push(line);
                proof {
                    assert forall|i: int, j: int|
                        0 <= i < j < self.seen@.len() implies self.seen@[i]@ != self.seen@[j]@ by {
                        if j < seen0.len() {
                            assert(self.seen@[i] == seen0[i]);
                            assert(self.seen@[j] == seen0[j]);
                        } else {
                            assert(self.seen@[i] == seen0[i]);
                        }
                    }
                    assert(lines_view(self.seen@) =~= lines_view(seen0).push(lv));
                }
                self.advance(rules, fuel);
                (out.concat("."), true)
            },
            None => (String::from_str("No."), false),
        }
    }
}

} // verus!

use vstd::prelude::*;

use std::collections::HashMap;

use crate::alloc_id::{FaView, FreshAlloc};
use crate::expr::{teq, views_of, Expr, TermV};

verus! {

broadcast use vstd::std_specs::hash::group_hash_axioms;

/// A binding set: the partial map from variable id to term that one
/// unification attempt builds up.
pub type Bindings = HashMap<u64, Expr>;

/// How a resolution step can fail.  These are expected control signals of the
/// search, not faults: a failing clause is skipped, a failing branch is an
/// empty solution stream.  The unifier reports `UnifyFail`; the resolver
/// realizes the other two kinds directly as empty branches of the search (an
/// exhausted stream shows as `No.` at the top level), so no function of the
/// library constructs them — they name the fault classification.
#[derive(Clone, Copy, Debug, PartialEq, Eq, Structural)]
pub enum ApplyError {
    /// The two terms cannot be unified.
    UnifyFail,
    /// A goal is a free variable.
    Undef,
    /// A goal's functor has no definitions in the database.
    NoMatch,
}

/// The model of a binding set: the same map over term models.
pub open spec fn bview(m: Map<u64, Expr>) -> Map<u64, TermV> {
    m.map_values(|e: Expr| e@)
}

pub proof fn lemma_bview_dom(m: Map<u64, Expr>)
    ensures
        bview(m).dom() == m.dom(),
{
    assert(bview(m).dom() =~= m.dom());
}

pub proof fn lemma_bview_insert(m: Map<u64, Expr>, k: u64, v: Expr)
    ensures
        bview(m.insert(k, v)) == bview(m).insert(k, v@),
{
    assert(bview(m.insert(k, v)) =~= bview(m).insert(k, v@));
}

/// The model of `solve`: commit variable `id` to term `e` under bindings `b`,
/// chasing already-committed variables in both directions.  Returns whether
/// the commitment succeeded together with the binding set it left behind (a
/// failed commitment writes nothing; a failed unification can still leave
/// commitments from its earlier, successful steps).
///
/// The `fuel` bounds the chase depth.  Chains of distinct committed variables
/// are always shorter than the number of bindings, so any generous bound only
/// cuts off chases that revisit a variable cycle and would otherwise never
/// end; such a cut-off reports failure, rejecting the cyclic case.
pub open spec fn solve_model(b: Map<u64, TermV>, id: u64, e: TermV, fuel: nat) -> (bool, Map<
    u64,
    TermV,
>)
    decreases fuel,
{
    if !b.dom().contains(id) {
        (true, b.insert(id, e))
    } else {
        let e2 = b[id];
        if teq(e, e2) {
            (true, b)
        } else {
            let first = if e is Var && fuel > 0 {
                solve_model(b, e->Var_id, e2, (fuel - 1) as nat)
            } else {
                (false, b)
            };
            if first.0 {
                first
            } else {
                if e2 is Var && fuel > 0 {
                    let second = solve_model(first.1, e2->Var_id, e, (fuel - 1) as nat);
                    if second.0 {
                        (true, second.1.insert(id, e))
                    } else {
                        (false, second.1)
                    }
                } else {
                    (false, first.1)
                }
            }
        }
    }
}

/// Commit variable `id` to term `e`, exactly as `solve_model` states.
///
/// The first direction tried when `id` is already bound to a different term
/// `e2` is to commit `e` (when it is a variable) to `e2`; failing that, the
/// second direction commits `e2` (when it is a variable) to `e` and then
/// points `id` at the more concrete term `e`.  This two-direction fallback is
/// what lets a pattern like `eq(X, X)` unify with `eq(Z, Y)`.
pub fn solve(b: &mut Bindings, id: u64, e: &Expr, fuel: u64) -> (r: Result<(), ApplyError>)
    ensures
        ({
            let m = solve_model(bview(old(b)@), id, e@, fuel as nat);
            (r is Ok) == m.0 && bview(final(b)@) == m.1
        }),
        r matches Err(k) ==> k is UnifyFail,
    decreases fuel,
{
    proof {
        lemma_bview_dom(old(b)@);
    }
    let e2 = match b.get(&id) {
        Some(bound) => bound.dup(),
        None => {
            let ghost b0 = b@;
            let d = e.dup();
            let ghost dsnap = d;
            b.insert(id, d);
            proof {
                lemma_bview_insert(b0, id, dsnap);
                assert(bview(b@) == bview(b0).insert(id, e@));
            }
            return Ok(());
        },
    };
    proof {
        assert(bview(b@)[id] == e2@);
    }
    if e.sem_eq(&e2) {
        return Ok(());
    }
    let res: Result<(), ApplyError> = match e {
        Expr::Var { id: k, .. } => {
            if fuel > 0 {
                solve(b, *k, &e2, fuel - 1)
            } else {
                Err(ApplyError::UnifyFail)
            }
        },
        _ => Err(ApplyError::UnifyFail),
    };
    if res.is_ok() {
        return res;
    }
    match &e2 {
        Expr::Var { id: k2, .. } => {
            if fuel > 0 {
                let res2 = solve(b, *k2, e, fuel - 1);
                if res2.is_ok() {
                    let ghost b1 = b@;
                    let d = e.dup();
                    let ghost dsnap = d;
                    b.insert(id, d);
                    proof {
                        lemma_bview_insert(b1, id, dsnap);
                    }
                }
                res2
            } else {
                Err(ApplyError::UnifyFail)
            }
        },
        _ => Err(ApplyError::UnifyFail),
    }
}

/// The model of `unify` on argument lists: unify pairwise, left to right,
/// threading the binding set, stopping at the first failure.
pub open spec fn unify_args_model(b: Map<u64, TermV>, xs: Seq<TermV>, ys: Seq<TermV>, fuel: nat) -> (
    bool,
    Map<u64, TermV>,
)
    decreases xs,
{
    if xs.len() == 0 || ys.len() == 0 {
        (true, b)
    } else {
        let front = unify_args_model(
            b,
            xs.subrange(0, xs.len() - 1),
            ys.subrange(0, ys.len() - 1),
            fuel,
        );
        if front.0 {
            unify_model(front.1, xs[xs.len() - 1], ys[ys.len() - 1], fuel)
        } else {
            front
        }
    }
}

/// The model of `unify`: produce a binding set whose application makes `pat`
/// and `e` equal, or fail.  A variable on either side is committed through
/// `solve_model`, preferring to read the right side through the binding set
/// when it is already bound; two functor applications must agree on name and
/// arity and unify argumentwise.  No occurs-check is performed.
pub open spec fn unify_model(b: Map<u64, TermV>, pat: TermV, e: TermV, fuel: nat) -> (bool, Map<
    u64,
    TermV,
>)
    decreases pat,
{
    match (pat, e) {
        (TermV::Var { id: i, .. }, TermV::Var { id: j, .. }) => {
            if b.dom().contains(j) {
                solve_model(b, i, b[j], fuel)
            } else {
                solve_model(b, i, e, fuel)
            }
        },
        (TermV::Var { id: i, .. }, _) => solve_model(b, i, e, fuel),
        (_, TermV::Var { id: j, .. }) => solve_model(b, j, pat, fuel),
        (TermV::Fun { name: n, args: xs }, TermV::Fun { name: m, args: ys }) => {
            if n == m && xs.len() == ys.len() {
                unify_args_model(b, xs, ys, fuel)
            } else {
                (false, b)
            }
        },
    }
}

/// Unify `pat` with `e` under the bindings `b`, exactly as `unify_model`
/// states.  On failure the bindings may hold partial commitments; the caller
/// discards them.
pub fn unify(b: &mut Bindings, pat: &Expr, e: &Expr, fuel: u64) -> (r: Result<(), ApplyError>)
    ensures
        ({
            let m = unify_model(bview(old(b)@), pat@, e@, fuel as nat);
            (r is Ok) == m.0 && bview(final(b)@) == m.1
        }),
        r matches Err(k) ==> k is UnifyFail,
    decreases *pat,
{
    proof {
        lemma_bview_dom(old(b)@);
    }
    match (pat, e) {
        (Expr::Var { id: i, .. }, Expr::Var { id: j, .. }) => {
            match b.get(j) {
                Some(bound) => {
                    let bb = bound.dup();
                    proof {
                        assert(bview(b@)[*j] == bb@);
                    }
                    solve(b, *i, &bb, fuel)
                },
                None => solve(b, *i, e, fuel),
            }
        },
        (Expr::Var { id: i, .. }, _) => solve(b, *i, e, fuel),
        (_, Expr::Var { id: j, .. }) => solve(b, *j, pat, fuel),
        (Expr::Fun { name: n, args: xs, .. }, Expr::Fun { name: m, args: ys, .. }) => {
            if !(*n == *m) || xs.len() != ys.len() {
                return Err(ApplyError::UnifyFail);
            }
            let ghost b0 = bview(old(b)@);
            let ghost xv = views_of(xs@);
            let ghost yv = views_of(ys@);
            proof {
                assert(pat@->Fun_args =~= xv);
                assert(e@->Fun_args =~= yv);
            }
            let mut k: usize = 0;
            while k < xs.len()
                invariant
                    k <= xs@.len(),
                    xs@.len() == ys@.len(),
                    unify_args_model(b0, xv.subrange(0, k as int), yv.subrange(0, k as int), fuel as nat)
                        == (true, bview(b@)),
                    *pat == (Expr::Fun { name: *n, args: *xs, loc: pat.loc_spec() }),
                    *e == (Expr::Fun { name: *m, args: *ys, loc: e.loc_spec() }),
                decreases xs@.len() - k,
            {
                proof {
                    assert(decreases_to!(*pat => pat->Fun_args));
                    assert(decreases_to!(pat->Fun_args => pat->Fun_args@[k as int]));
                }
                let ghost b_before = bview(b@);
                let res = unify(b, &xs[k], &ys[k], fuel);
                proof {
                    assert(xv.subrange(0, k + 1 as int).subrange(0, k as int) =~= xv.subrange(
                        0,
                        k as int,
                    ));
                    assert(yv.subrange(0, k + 1 as int).subrange(0, k as int) =~= yv.subrange(
                        0,
                        k as int,
                    ));
                    assert(xv.subrange(0, k + 1 as int)[k as int] == xs@[k as int]@);
                    assert(yv.subrange(0, k + 1 as int)[k as int] == ys@[k as int]@);
                }
                if res.is_err() {
                    proof {
                        assert(unify_args_model(b0, xv, yv, fuel as nat) == (
                            false,
                            bview(b@),
                        )) by {
                            lemma_unify_args_fail_extends(
                                b0,
                                xv,
                                yv,
                                fuel as nat,
                                k as int,
                                bview(b@),
                            );
                        }
                    }
                    return Err(ApplyError::UnifyFail);
                }
                k = k + 1;
            }
            proof {
                assert(xv.subrange(0, xv.len() as int) =~= xv);
                assert(yv.subrange(0, yv.len() as int) =~= yv);
            }
            Ok(())
        },
    }
}

/// Once unifying a prefix of the arguments has failed, unifying the whole
/// argument lists fails with the same binding set.
proof fn lemma_unify_args_fail_extends(
    b0: Map<u64, TermV>,
    xs: Seq<TermV>,
    ys: Seq<TermV>,
    fuel: nat,
    k: int,
    bfail: Map<u64, TermV>,
)
    requires
        xs.len() == ys.len(),
        0 <= k < xs.len(),
        unify_args_model(b0, xs.subrange(0, k + 1), ys.subrange(0, k + 1), fuel) == (false, bfail),
    ensures
        unify_args_model(b0, xs, ys, fuel) == (false, bfail),
    decreases xs.len() - k,
{
    if k + 1 == xs.len() {
        assert(xs.subrange(0, k + 1) =~= xs);
        assert(ys.subrange(0, k + 1) =~= ys);
    } else {
        assert(xs.subrange(0, k + 2).subrange(0, k + 1) =~= xs.subrange(0, k + 1));
        assert(ys.subrange(0, k + 2).subrange(0, k + 1) =~= ys.subrange(0, k + 1));
        lemma_unify_args_fail_extends(b0, xs, ys, fuel, k + 1, bfail);
    }
}

/// On terms without variables, unification neither reads nor writes the
/// binding set: it succeeds exactly when the terms are semantically equal,
/// and leaves the bindings untouched.  (On such terms applying the resulting
/// binding set rewrites nothing, so success means the two terms are equal as
/// they stand.)
pub proof fn lemma_unify_ground(b: Map<u64, TermV>, pat: TermV, e: TermV, fuel: nat)
    requires
        crate::expr::no_vars(pat),
        crate::expr::no_vars(e),
    ensures
        unify_model(b, pat, e, fuel) == (teq(pat, e), b),
    decreases pat,
{
    match (pat, e) {
        (TermV::Var { name, id }, _) => {
            assert(crate::expr::var_in_term(pat, name, id));
        },
        (_, TermV::Var { name, id }) => {
            assert(crate::expr::var_in_term(e, name, id));
        },
        (TermV::Fun { name: n, args: xs }, TermV::Fun { name: m, args: ys }) => {
            if n == m && xs.len() == ys.len() {
                assert forall|i: int, vn: Seq<char>, vid: u64|
                    0 <= i < xs.len() implies !(#[trigger] crate::expr::var_in_term(
                    xs[i],
                    vn,
                    vid,
                )) by {
                    if crate::expr::var_in_term(xs[i], vn, vid) {
                        assert(crate::expr::var_in_term(pat, vn, vid));
                    }
                }
                assert forall|i: int, vn: Seq<char>, vid: u64|
                    0 <= i < ys.len() implies !(#[trigger] crate::expr::var_in_term(
                    ys[i],
                    vn,
                    vid,
                )) by {
                    if crate::expr::var_in_term(ys[i], vn, vid) {
                        assert(crate::expr::var_in_term(e, vn, vid));
                    }
                }
                lemma_unify_args_ground(b, xs, ys, fuel);
            }
        },
    }
}

/// `lemma_unify_ground` over argument lists of equal length.
proof fn lemma_unify_args_ground(b: Map<u64, TermV>, xs: Seq<TermV>, ys: Seq<TermV>, fuel: nat)
    requires
        xs.len() == ys.len(),
        forall|i: int, vn: Seq<char>, vid: u64|
            0 <= i < xs.len() ==> !(#[trigger] crate::expr::var_in_term(xs[i], vn, vid)),
        forall|i: int, vn: Seq<char>, vid: u64|
            0 <= i < ys.len() ==> !(#[trigger] crate::expr::var_in_term(ys[i], vn, vid)),
    ensures
        unify_args_model(b, xs, ys, fuel) == (
            (forall|i: int| 0 <= i < xs.len() ==> teq(#[trigger] xs[i], ys[i])),
            b,
        ),
    decreases xs,
{
    if xs.len() == 0 {
    } else {
        let xf = xs.subrange(0, xs.len() - 1);
        let yf = ys.subrange(0, ys.len() - 1);
        lemma_unify_args_ground(b, xf, yf, fuel);
        assert(crate::expr::no_vars(xs[xs.len() - 1])) by {
            assert forall|vn: Seq<char>, vid: u64|
                !(#[trigger] crate::expr::var_in_term(xs[xs.len() - 1], vn, vid)) by {
                assert(!crate::expr::var_in_term(xs[xs.len() - 1], vn, vid));
            }
        }
        assert(crate::expr::no_vars(ys[ys.len() - 1])) by {
            assert forall|vn: Seq<char>, vid: u64|
                !(#[trigger] crate::expr::var_in_term(ys[ys.len() - 1], vn, vid)) by {
                assert(!crate::expr::var_in_term(ys[ys.len() - 1], vn, vid));
            }
        }
        lemma_unify_ground(b, xs[xs.len() - 1], ys[ys.len() - 1], fuel);
        if (forall|i: int| 0 <= i < xf.len() ==> teq(#[trigger] xf[i], yf[i])) && teq(
            xs[xs.len() - 1],
            ys[ys.len() - 1],
        ) {
            assert forall|i: int| 0 <= i < xs.len() implies teq(#[trigger] xs[i], ys[i]) by {
                if i < xs.len() - 1 {
                    assert(teq(xf[i], yf[i]));
                }
            }
        } else {
            if (forall|i: int| 0 <= i < xs.len() ==> teq(#[trigger] xs[i], ys[i])) {
                assert forall|i: int| 0 <= i < xf.len() implies teq(#[trigger] xf[i], yf[i]) by {
                    assert(teq(xs[i], ys[i]));
                }
            }
        }
    }
}

/// Whether every bound value of a binding set is variable-free.
pub open spec fn bindings_ground(b: Map<u64, TermV>) -> bool {
    forall|k: u64| b.dom().contains(k) ==> crate::expr::no_vars(#[trigger] b[k])
}

/// Substitution by a variable-free binding set: replace each bound variable
/// by its value.  One pass reaches a fixpoint, because the values hold no
/// further variables.
pub open spec fn subst_ground(b: Map<u64, TermV>, t: TermV) -> TermV
    decreases t,
{
    match t {
        TermV::Var { name, id } => {
            if b.dom().contains(id) {
                b[id]
            } else {
                t
            }
        },
        TermV::Fun { name, args } => TermV::Fun {
            name,
            args: Seq::new(
                args.len(),
                |i: int|
                    if 0 <= i < args.len() {
                        subst_ground(b, args[i])
                    } else {
                        TermV::Var { name: Seq::empty(), id: 0 }
                    },
            ),
        },
    }
}

/// Against a variable-free term, committing a variable either records it
/// afresh or checks it against the recorded value: the binding set only
/// grows, its values stay variable-free, and success happens exactly when
/// the variable is new or already committed to an equal term.
proof fn lemma_solve_ground_goal(b: Map<u64, TermV>, id: u64, e: TermV, fuel: nat)
    requires
        crate::expr::no_vars(e),
        bindings_ground(b),
    ensures
        ({
            let m = solve_model(b, id, e, fuel);
            &&& bindings_ground(m.1)
            &&& b.submap_of(m.1)
            &&& m.0 == (!b.dom().contains(id) || teq(b[id], e))
            &&& m.0 ==> m.1.dom().contains(id) && teq(m.1[id], e)
        }),
{
    if !b.dom().contains(id) {
        crate::expr::lemma_teq_refl(e);
        assert(bindings_ground(b.insert(id, e)));
        assert(b.submap_of(b.insert(id, e)));
    } else {
        let e2 = b[id];
        crate::expr::lemma_teq_sym(e, e2);
        if !teq(e, e2) {
            if e is Var {
                assert(crate::expr::var_in_term(e, e->Var_name, e->Var_id));
            }
            if e2 is Var {
                assert(crate::expr::var_in_term(e2, e2->Var_name, e2->Var_id));
            }
        }
        assert(b.submap_of(b));
    }
}

/// A substitution equation against a variable-free term survives growing the
/// binding set: every variable the equation depends on is already bound.
proof fn lemma_subst_ground_stable(b1: Map<u64, TermV>, b2: Map<u64, TermV>, t: TermV, g: TermV)
    requires
        b1.submap_of(b2),
        crate::expr::no_vars(g),
        teq(subst_ground(b1, t), g),
    ensures
        teq(subst_ground(b2, t), g),
    decreases t,
{
    match t {
        TermV::Var { name, id } => {
            if !b1.dom().contains(id) {
                if g is Var {
                    assert(crate::expr::var_in_term(g, g->Var_name, g->Var_id));
                }
            }
        },
        TermV::Fun { name, args } => {
            let s1 = subst_ground(b1, t);
            let s2 = subst_ground(b2, t);
            let gargs = g->Fun_args;
            assert forall|i: int| 0 <= i < args.len() implies teq(
                #[trigger] s2->Fun_args[i],
                gargs[i],
            ) by {
                assert(s1->Fun_args[i] == subst_ground(b1, args[i]));
                assert(s2->Fun_args[i] == subst_ground(b2, args[i]));
                assert(teq(s1->Fun_args[i], gargs[i]));
                assert(crate::expr::no_vars(gargs[i])) by {
                    assert forall|vn: Seq<char>, vid: u64|
                        !(#[trigger] crate::expr::var_in_term(gargs[i], vn, vid)) by {
                        if crate::expr::var_in_term(gargs[i], vn, vid) {
                            assert(crate::expr::var_in_term(g, vn, vid));
                        }
                    }
                }
                lemma_subst_ground_stable(b1, b2, args[i], gargs[i]);
            }
        },
    }
}

/// Soundness of unification against a variable-free goal: on success, the
/// binding set built (which only grew, with variable-free values) rewrites
/// the pattern into a term equal to the goal.
pub proof fn lemma_unify_sound_ground_goal(b: Map<u64, TermV>, pat: TermV, e: TermV, fuel: nat)
    requires
        crate::expr::no_vars(e),
        bindings_ground(b),
    ensures
        ({
            let m = unify_model(b, pat, e, fuel);
            &&& bindings_ground(m.1)
            &&& b.submap_of(m.1)
            &&& m.0 ==> teq(subst_ground(m.1, pat), e)
        }),
    decreases pat,
{
    match (pat, e) {
        (TermV::Var { name: pn, id: pi }, TermV::Var { name, id }) => {
            assert(crate::expr::var_in_term(e, name, id));
        },
        (TermV::Var { name: pn, id: pi }, _) => {
            lemma_solve_ground_goal(b, pi, e, fuel);
        },
        (_, TermV::Var { name, id }) => {
            assert(crate::expr::var_in_term(e, name, id));
        },
        (TermV::Fun { name: n, args: xs }, TermV::Fun { name: m, args: ys }) => {
            if n == m && xs.len() == ys.len() {
                assert forall|i: int, vn: Seq<char>, vid: u64|
                    0 <= i < ys.len() implies !(#[trigger] crate::expr::var_in_term(
                    ys[i],
                    vn,
                    vid,
                )) by {
                    if crate::expr::var_in_term(ys[i], vn, vid) {
                        assert(crate::expr::var_in_term(e, vn, vid));
                    }
                }
                lemma_unify_args_sound_ground_goal(b, xs, ys, fuel);
                let r = unify_args_model(b, xs, ys, fuel);
                if r.0 {
                    let sp = subst_ground(r.1, pat);
                    assert forall|i: int| 0 <= i < xs.len() implies teq(
                        #[trigger] sp->Fun_args[i],
                        ys[i],
                    ) by {
                        assert(sp->Fun_args[i] == subst_ground(r.1, xs[i]));
                    }
                }
            }
        },
    }
}

/// `lemma_unify_sound_ground_goal` over argument lists of equal length.
proof fn lemma_unify_args_sound_ground_goal(
    b: Map<u64, TermV>,
    xs: Seq<TermV>,
    ys: Seq<TermV>,
    fuel: nat,
)
    requires
        xs.len() == ys.len(),
        bindings_ground(b),
        forall|i: int, vn: Seq<char>, vid: u64|
            0 <= i < ys.len() ==> !(#[trigger] crate::expr::var_in_term(ys[i], vn, vid)),
    ensures
        ({
            let m = unify_args_model(b, xs, ys, fuel);
            &&& bindings_ground(m.1)
            &&& b.submap_of(m.1)
            &&& m.0 ==> forall|i: int|
                0 <= i < xs.len() ==> teq(#[trigger] subst_ground(m.1, xs[i]), ys[i])
        }),
    decreases xs,
{
    if xs.len() == 0 {
        assert(b.submap_of(b));
    } else {
        let xf = xs.subrange(0, xs.len() - 1);
        let yf = ys.subrange(0, ys.len() - 1);
        lemma_unify_args_sound_ground_goal(b, xf, yf, fuel);
        let front = unify_args_model(b, xf, yf, fuel);
        if front.0 {
            let last_y = ys[ys.len() - 1];
            assert(crate::expr::no_vars(last_y)) by {
                assert forall|vn: Seq<char>, vid: u64|
                    !(#[trigger] crate::expr::var_in_term(last_y, vn, vid)) by {
                    assert(!crate::expr::var_in_term(ys[ys.len() - 1], vn, vid));
                }
            }
            lemma_unify_sound_ground_goal(front.1, xs[xs.len() - 1], last_y, fuel);
            let m = unify_model(front.1, xs[xs.len() - 1], last_y, fuel);
            vstd::map_lib::lemma_submap_of_trans(b, front.1, m.1);
            if m.0 {
                assert forall|i: int| 0 <= i < xs.len() implies teq(
                    #[trigger] subst_ground(m.1, xs[i]),
                    ys[i],
                ) by {
                    if i < xs.len() - 1 {
                        assert(teq(subst_ground(front.1, xf[i]), yf[i]));
                        assert(crate::expr::no_vars(yf[i])) by {
                            assert forall|vn: Seq<char>, vid: u64|
                                !(#[trigger] crate::expr::var_in_term(yf[i], vn, vid)) by {
                                assert(!crate::expr::var_in_term(ys[i], vn, vid));
                            }
                        }
                        lemma_subst_ground_stable(front.1, m.1, xs[i], ys[i]);
                    }
                }
            }
        }
    }
}

/// Unification is symmetric when either side is variable-free: swapping the
/// two terms commits exactly the same variables to exactly the same subterms
/// in the same order, so the whole outcome — success and binding set — is
/// identical.
pub proof fn lemma_unify_one_ground_symmetric(b: Map<u64, TermV>, a: TermV, g: TermV, fuel: nat)
    requires
        crate::expr::no_vars(g),
    ensures
        unify_model(b, a, g, fuel) == unify_model(b, g, a, fuel),
    decreases a,
{
    match (a, g) {
        (_, TermV::Var { name, id }) => {
            assert(crate::expr::var_in_term(g, name, id));
        },
        (TermV::Var { name: an, id: ai }, TermV::Fun { .. }) => {
        },
        (TermV::Fun { name: n, args: xs }, TermV::Fun { name: m, args: ys }) => {
            if n == m && xs.len() == ys.len() {
                assert forall|i: int, vn: Seq<char>, vid: u64|
                    0 <= i < ys.len() implies !(#[trigger] crate::expr::var_in_term(
                    ys[i],
                    vn,
                    vid,
                )) by {
                    if crate::expr::var_in_term(ys[i], vn, vid) {
                        assert(crate::expr::var_in_term(g, vn, vid));
                    }
                }
                lemma_unify_args_one_ground_symmetric(b, xs, ys, fuel);
            }
        },
    }
}

/// `lemma_unify_one_ground_symmetric` over argument lists of equal length.
proof fn lemma_unify_args_one_ground_symmetric(
    b: Map<u64, TermV>,
    xs: Seq<TermV>,
    ys: Seq<TermV>,
    fuel: nat,
)
    requires
        xs.len() == ys.len(),
        forall|i: int, vn: Seq<char>, vid: u64|
            0 <= i < ys.len() ==> !(#[trigger] crate::expr::var_in_term(ys[i], vn, vid)),
    ensures
        unify_args_model(b, xs, ys, fuel) == unify_args_model(b, ys, xs, fuel),
    decreases xs,
{
    if xs.len() > 0 {
        let xf = xs.subrange(0, xs.len() - 1);
        let yf = ys.subrange(0, ys.len() - 1);
        lemma_unify_args_one_ground_symmetric(b, xf, yf, fuel);
        let front = unify_args_model(b, xf, yf, fuel);
        if front.0 {
            let last_y = ys[ys.len() - 1];
            assert(crate::expr::no_vars(last_y)) by {
                assert forall|vn: Seq<char>, vid: u64|
                    !(#[trigger] crate::expr::var_in_term(last_y, vn, vid)) by {
                    assert(!crate::expr::var_in_term(ys[ys.len() - 1], vn, vid));
                }
            }
            lemma_unify_one_ground_symmetric(front.1, xs[xs.len() - 1], last_y, fuel);
        }
    }
}

/// The model of `freshen`: rename every variable occurrence in the term
/// through the activation's allocator, so that equal old ids collapse to one
/// fresh id and distinct old ids stay distinct.
pub open spec fn fresh_model(fa: FaView, t: TermV) -> (FaView, TermV)
    decreases t,
{
    match t {
        TermV::Var { name, id } => {
            let a = fa.alloc_model(id);
            (a.0, TermV::Var { name, id: a.1 })
        },
        TermV::Fun { name, args } => {
            let a = fresh_args_model(fa, args);
            (a.0, TermV::Fun { name, args: a.1 })
        },
    }
}

/// `fresh_model` over a list of terms, left to right, threading the
/// allocator.
pub open spec fn fresh_args_model(fa: FaView, ts: Seq<TermV>) -> (FaView, Seq<TermV>)
    decreases ts,
{
    if ts.len() == 0 {
        (fa, Seq::empty())
    } else {
        let front = fresh_args_model(fa, ts.subrange(0, ts.len() - 1));
        let last = fresh_model(front.0, ts[ts.len() - 1]);
        (last.0, front.1.push(last.1))
    }
}

/// Hygiene of renaming: every variable id of a freshened term lies strictly
/// above the allocator's seed (or is `u64::MAX`, once the counter is
/// exhausted), and the seed never moves.  An activation seeded at the global
/// counter's next value therefore cannot capture any variable of the
/// database, the query, or an earlier step of the same branch.
pub proof fn lemma_fresh_ids_above_seed(fa: FaView, t: TermV)
    ensures
        ({
            let m = fresh_model(fa, t);
            &&& fa.wf() ==> m.0.wf()
            &&& fa.wf() ==> m.0.base() == fa.base()
            &&& fa.wf() ==> m.0.counter >= fa.counter
            &&& fa.wf() ==> forall|n: Seq<char>, i: u64|
                #[trigger] crate::expr::var_in_term(m.1, n, i) ==> (fa.base() < i <= m.0.counter)
                    || i == u64::MAX
        }),
    decreases t,
{
    if fa.wf() {
        let m = fresh_model(fa, t);
        match t {
            TermV::Var { name, id } => {
                fa.lemma_alloc_model_range(id);
            },
            TermV::Fun { name, args } => {
                lemma_fresh_args_ids_above_seed(fa, args);
                let a = fresh_args_model(fa, args);
                assert forall|n: Seq<char>, i: u64|
                    #[trigger] crate::expr::var_in_term(m.1, n, i) implies ((fa.base() < i
                    <= m.0.counter) || i == u64::MAX) by {
                    if crate::expr::var_in_term(m.1, n, i) {
                        assert(crate::expr::var_in_terms(a.1, n, i));
                    }
                }
            },
        }
    }
}

/// `lemma_fresh_ids_above_seed` over a list of terms.
proof fn lemma_fresh_args_ids_above_seed(fa: FaView, ts: Seq<TermV>)
    ensures
        ({
            let m = fresh_args_model(fa, ts);
            &&& fa.wf() ==> m.0.wf()
            &&& fa.wf() ==> m.0.base() == fa.base()
            &&& fa.wf() ==> m.0.counter >= fa.counter
            &&& fa.wf() ==> forall|n: Seq<char>, i: u64|
                #[trigger] crate::expr::var_in_terms(m.1, n, i) ==> (fa.base() < i <= m.0.counter)
                    || i == u64::MAX
        }),
    decreases ts,
{
    if fa.wf() && ts.len() > 0 {
        let tf = ts.subrange(0, ts.len() - 1);
        lemma_fresh_args_ids_above_seed(fa, tf);
        let front = fresh_args_model(fa, tf);
        lemma_fresh_ids_above_seed(front.0, ts[ts.len() - 1]);
        let last = fresh_model(front.0, ts[ts.len() - 1]);
        let m = fresh_args_model(fa, ts);
        assert forall|n: Seq<char>, i: u64|
            #[trigger] crate::expr::var_in_terms(m.1, n, i) implies ((fa.base() < i
            <= m.0.counter) || i == u64::MAX) by {
            if crate::expr::var_in_terms(m.1, n, i) {
                let j = choose|j: int|
                    0 <= j < m.1.len() && crate::expr::var_in_term(#[trigger] m.1[j], n, i);
                if j < front.1.len() {
                    assert(crate::expr::var_in_terms(front.1, n, i));
                } else {
                    assert(crate::expr::var_in_term(last.1, n, i));
                }
            }
        }
    }
}

/// The model of `substitute_and_freshen`: replace each bound variable by its
/// value, substituting on through the value (so bindings nested inside bound
/// values are applied too), and rename every variable occurrence of the
/// outcome through the activation's allocator.  The renaming applies to the
/// variables that remain free, including those inside bound values, because
/// a binding may hold variables of the clause being instantiated.
///
/// The `fuel` bounds how many bindings one chain may pass through.  An
/// acyclic binding set is exhausted before any chain grows that long, so a
/// generous bound only cuts off chains through a variable cycle, which no
/// substitution could finish; past the bound the bound value is renamed
/// without further substitution.
pub open spec fn subst_fresh_model(fa: FaView, b: Map<u64, TermV>, t: TermV, fuel: nat) -> (
    FaView,
    TermV,
)
    decreases fuel, t,
{
    match t {
        TermV::Var { name, id } => {
            if b.dom().contains(id) {
                if fuel > 0 {
                    subst_fresh_model(fa, b, b[id], (fuel - 1) as nat)
                } else {
                    fresh_model(fa, b[id])
                }
            } else {
                fresh_model(fa, t)
            }
        },
        TermV::Fun { name, args } => {
            let a = subst_fresh_args_model(fa, b, args, fuel);
            (a.0, TermV::Fun { name, args: a.1 })
        },
    }
}

/// `subst_fresh_model` over a list of terms, left to right, threading the
/// allocator.
pub open spec fn subst_fresh_args_model(
    fa: FaView,
    b: Map<u64, TermV>,
    ts: Seq<TermV>,
    fuel: nat,
) -> (FaView, Seq<TermV>)
    decreases fuel, ts,
{
    if ts.len() == 0 {
        (fa, Seq::empty())
    } else {
        let front = subst_fresh_args_model(fa, b, ts.subrange(0, ts.len() - 1), fuel);
        let last = subst_fresh_model(front.0, b, ts[ts.len() - 1], fuel);
        (last.0, front.1.push(last.1))
    }
}

/// Rename every variable occurrence in `e` through `gen`, as `fresh_model`
/// states.
pub fn freshen(e: &Expr, gen: &mut FreshAlloc) -> (r: Expr)
    requires
        old(gen)@.wf(),
    ensures
        final(gen)@.wf(),
        final(gen)@ == fresh_model(old(gen)@, e@).0,
        r@ == fresh_model(old(gen)@, e@).1,
    decreases *e,
{
    match e {
        Expr::Var { name, id, loc } => {
            let nid = gen.allocate(*id);
            Expr::Var { name: name.clone(), id: nid, loc: *loc }
        },
        Expr::Fun { name, args, loc } => {
            let ghost fa0 = gen@;
            let mut new_args: Vec<Expr> = Vec::new();
            let mut k: usize = 0;
            while k < args.len()
                invariant
                    k <= args@.len(),
                    gen@.wf(),
                    fresh_args_model(fa0, views_of(args@).subrange(0, k as int)) == (
                        gen@,
                        views_of(new_args@),
                    ),
                    *e == (Expr::Fun { name: *name, args: *args, loc: e.loc_spec() }),
                decreases args@.len() - k,
            {
                proof {
                    assert(decreases_to!(*e => e->Fun_args));
                    assert(decreases_to!(e->Fun_args => e->Fun_args@[k as int]));
                }
                let fresh = freshen(&args[k], gen);
                new_args.push(fresh);
                proof {
                    let av = views_of(args@);
                    assert(av.subrange(0, k + 1 as int).subrange(0, k as int) =~= av.subrange(
                        0,
                        k as int,
                    ));
                    assert(av.subrange(0, k + 1 as int)[k as int] == args@[k as int]@);
                    assert(views_of(new_args@) =~= fresh_args_model(
                        fa0,
                        av.subrange(0, k + 1 as int),
                    ).1);
                }
                k = k + 1;
            }
            proof {
                let av = views_of(args@);
                assert(av.subrange(0, av.len() as int) =~= av);
                assert(e@->Fun_args =~= av);
            }
            let ghost nav = views_of(new_args@);
            let r = Expr::Fun { name: name.clone(), args: new_args, loc: *loc };
            proof {
                assert(r@->Fun_args =~= nav);
                assert(r@ =~= fresh_model(fa0, e@).1);
            }
            r
        },
    }
}

/// Hygiene of one activation's rewriting: every variable id of a term put
/// through `subst_fresh_model` lies strictly above the allocator's seed (or
/// is `u64::MAX`, once the counter is exhausted), because every variable of
/// the outcome — bound or not — is renamed through the activation's
/// allocator.  The resolver seeds that allocator at the global counter's next
/// value, so no activation can capture a variable of the database, the query,
/// or an earlier step of the same branch.
pub proof fn lemma_subst_fresh_ids_above_seed(fa: FaView, b: Map<u64, TermV>, t: TermV, fuel: nat)
    ensures
        ({
            let m = subst_fresh_model(fa, b, t, fuel);
            &&& fa.wf() ==> m.0.wf()
            &&& fa.wf() ==> m.0.base() == fa.base()
            &&& fa.wf() ==> m.0.counter >= fa.counter
            &&& fa.wf() ==> forall|n: Seq<char>, i: u64|
                #[trigger] crate::expr::var_in_term(m.1, n, i) ==> (fa.base() < i <= m.0.counter)
                    || i == u64::MAX
        }),
    decreases fuel, t,
{
    if fa.wf() {
        let m = subst_fresh_model(fa, b, t, fuel);
        match t {
            TermV::Var { name, id } => {
                if b.dom().contains(id) {
                    if fuel > 0 {
                        lemma_subst_fresh_ids_above_seed(fa, b, b[id], (fuel - 1) as nat);
                    } else {
                        lemma_fresh_ids_above_seed(fa, b[id]);
                    }
                } else {
                    lemma_fresh_ids_above_seed(fa, t);
                }
            },
            TermV::Fun { name, args } => {
                lemma_subst_fresh_args_ids_above_seed(fa, b, args, fuel);
                let a = subst_fresh_args_model(fa, b, args, fuel);
                assert forall|n: Seq<char>, i: u64|
                    #[trigger] crate::expr::var_in_term(m.1, n, i) implies ((fa.base() < i
                    <= m.0.counter) || i == u64::MAX) by {
                    if crate::expr::var_in_term(m.1, n, i) {
                        assert(crate::expr::var_in_terms(a.1, n, i));
                    }
                }
            },
        }
    }
}

/// `lemma_subst_fresh_ids_above_seed` over a list of terms.
proof fn lemma_subst_fresh_args_ids_above_seed(
    fa: FaView,
    b: Map<u64, TermV>,
    ts: Seq<TermV>,
    fuel: nat,
)
    ensures
        ({
            let m = subst_fresh_args_model(fa, b, ts, fuel);
            &&& fa.wf() ==> m.0.wf()
            &&& fa.wf() ==> m.0.base() == fa.base()
            &&& fa.wf() ==> m.0.counter >= fa.counter
            &&& fa.wf() ==> forall|n: Seq<char>, i: u64|
                #[trigger] crate::expr::var_in_terms(m.1, n, i) ==> (fa.base() < i
                    <= m.0.counter) || i == u64::MAX
        }),
    decreases fuel, ts,
{
    if fa.wf() && ts.len() > 0 {
        let tf = ts.subrange(0, ts.len() - 1);
        lemma_subst_fresh_args_ids_above_seed(fa, b, tf, fuel);
        let front = subst_fresh_args_model(fa, b, tf, fuel);
        lemma_subst_fresh_ids_above_seed(front.0, b, ts[ts.len() - 1], fuel);
        let last = subst_fresh_model(front.0, b, ts[ts.len() - 1], fuel);
        let m = subst_fresh_args_model(fa, b, ts, fuel);
        assert forall|n: Seq<char>, i: u64|
            #[trigger] crate::expr::var_in_terms(m.1, n, i) implies ((fa.base() < i
            <= m.0.counter) || i == u64::MAX) by {
            if crate::expr::var_in_terms(m.1, n, i) {
                let j = choose|j: int|
                    0 <= j < m.1.len() && crate::expr::var_in_term(#[trigger] m.1[j], n, i);
                if j < front.1.len() {
                    assert(crate::expr::var_in_terms(front.1, n, i));
                } else {
                    assert(crate::expr::var_in_term(last.1, n, i));
                }
            }
        }
    }
}

/// Replace each bound variable in `rep` by its value, substituting on
/// through the bound values, and rename all remaining variable occurrences
/// through `gen`, as `subst_fresh_model` states.
pub fn substitute_and_freshen(gen: &mut FreshAlloc, b: &Bindings, rep: &Expr, fuel: u64) -> (r:
    Expr)
    requires
        old(gen)@.wf(),
    ensures
        final(gen)@.wf(),
        final(gen)@ == subst_fresh_model(old(gen)@, bview(b@), rep@, fuel as nat).0,
        r@ == subst_fresh_model(old(gen)@, bview(b@), rep@, fuel as nat).1,
    decreases fuel, *rep,
{
    proof {
        lemma_bview_dom(b@);
    }
    match rep {
        Expr::Var { id, .. } => {
            match b.get(id) {
                Some(bound) => {
                    let bb = bound.dup();
                    proof {
                        assert(bview(b@)[*id] == bb@);
                    }
                    if fuel > 0 {
                        substitute_and_freshen(gen, b, &bb, fuel - 1)
                    } else {
                        freshen(&bb, gen)
                    }
                },
                None => freshen(rep, gen),
            }
        },
        Expr::Fun { name, args, loc } => {
            let ghost fa0 = gen@;
            let mut new_args: Vec<Expr> = Vec::new();
            let mut k: usize = 0;
            while k < args.len()
                invariant
                    k <= args@.len(),
                    gen@.wf(),
                    subst_fresh_args_model(
                        fa0,
                        bview(b@),
                        views_of(args@).subrange(0, k as int),
                        fuel as nat,
                    ) == (gen@, views_of(new_args@)),
                    *rep == (Expr::Fun { name: *name, args: *args, loc: rep.loc_spec() }),
                decreases args@.len() - k,
            {
                proof {
                    assert(decreases_to!(*rep => rep->Fun_args));
                    assert(decreases_to!(rep->Fun_args => rep->Fun_args@[k as int]));
                }
                let sub = substitute_and_freshen(gen, b, &args[k], fuel);
                new_args.push(sub);
                proof {
                    let av = views_of(args@);
                    assert(av.subrange(0, k + 1 as int).subrange(0, k as int) =~= av.subrange(
                        0,
                        k as int,
                    ));
                    assert(av.subrange(0, k + 1 as int)[k as int] == args@[k as int]@);
                    assert(views_of(new_args@) =~= subst_fresh_args_model(
                        fa0,
                        bview(b@),
                        av.subrange(0, k + 1 as int),
                        fuel as nat,
                    ).1);
                }
                k = k + 1;
            }
            proof {
                let av = views_of(args@);
                assert(av.subrange(0, av.len() as int) =~= av);
                assert(rep@->Fun_args =~= av);
            }
            let ghost nav = views_of(new_args@);
            let r = Expr::Fun { name: name.clone(), args: new_args, loc: *loc };
            proof {
                assert(r@->Fun_args =~= nav);
                assert(r@ =~= subst_fresh_model(fa0, bview(b@), rep@, fuel as nat).1);
            }
            r
        },
    }
}

} // verus!

use vstd::prelude::*;

use crate::error::Loc;

verus! {

/// A first-order term: either a functor application (a zero-argument functor
/// is an atom) or a variable.  Variable identity is decided by `id` alone;
/// the `name` of a variable is cosmetic and only used for display.
#[derive(Debug)]
pub enum Expr {
    Fun { name: String, args: Vec<Expr>, loc: Loc },
    Var { name: String, id: u64, loc: Loc },
}

/// The mathematical model of a term: the same tree with source locations
/// erased, names as character sequences and arguments as mathematical
/// sequences.
#[verifier::ext_equal]
pub enum TermV {
    Fun { name: Seq<char>, args: Seq<TermV> },
    Var { name: Seq<char>, id: u64 },
}

/// The model of an executable term.
pub open spec fn term_view(e: Expr) -> TermV
    decreases e,
{
    match e {
        Expr::Fun { name, args, .. } => TermV::Fun {
            name: name@,
            args: Seq::new(
                args@.len(),
                |i: int|
                    if 0 <= i < args@.len() {
                        term_view(args@[i])
                    } else {
                        TermV::Var { name: Seq::empty(), id: 0 }
                    },
            ),
        },
        Expr::Var { name, id, .. } => TermV::Var { name: name@, id },
    }
}

impl View for Expr {
    type V = TermV;

    open spec fn view(&self) -> TermV {
        term_view(*self)
    }
}

/// The models of a sequence of executable terms, elementwise.
pub open spec fn views_of(s: Seq<Expr>) -> Seq<TermV> {
    Seq::new(s.len(), |i: int| s[i]@)
}

/// Whether a variable with name `n` and id `id` occurs somewhere in `t`.
pub open spec fn var_in_term(t: TermV, n: Seq<char>, id: u64) -> bool
    decreases t,
{
    match t {
        TermV::Var { name, id: vid } => name == n && vid == id,
        TermV::Fun { name, args } => exists|i: int|
            0 <= i < args.len() && var_in_term(#[trigger] args[i], n, id),
    }
}

/// Whether a variable with name `n` and id `id` occurs in one of the terms.
pub open spec fn var_in_terms(ts: Seq<TermV>, n: Seq<char>, id: u64) -> bool {
    exists|i: int| 0 <= i < ts.len() && var_in_term(#[trigger] ts[i], n, id)
}

/// Whether `t` holds no variable at all.
pub open spec fn no_vars(t: TermV) -> bool {
    forall|n: Seq<char>, id: u64| !var_in_term(t, n, id)
}

/// Semantic equality of terms: structural, with variables compared by id
/// only (their names are cosmetic).
pub open spec fn teq(a: TermV, b: TermV) -> bool
    decreases a,
{
    match (a, b) {
        (TermV::Var { id: i, .. }, TermV::Var { id: j, .. }) => i == j,
        (TermV::Fun { name: n, args: x }, TermV::Fun { name: m, args: y }) => {
            &&& n == m
            &&& x.len() == y.len()
            &&& forall|i: int| 0 <= i < x.len() ==> teq(#[trigger] x[i], y[i])
        },
        _ => false,
    }
}

/// Semantic equality is reflexive.
pub proof fn lemma_teq_refl(a: TermV)
    ensures
        teq(a, a),
    decreases a,
{
    match a {
        TermV::Fun { name, args } => {
            assert forall|i: int| 0 <= i < args.len() implies teq(#[trigger] args[i], args[i]) by {
                lemma_teq_refl(args[i]);
            }
        },
        TermV::Var { .. } => {},
    }
}

/// Semantic equality is symmetric.
pub proof fn lemma_teq_sym(a: TermV, b: TermV)
    ensures
        teq(a, b) == teq(b, a),
    decreases a,
{
    match (a, b) {
        (TermV::Fun { name: n, args: x }, TermV::Fun { name: m, args: y }) => {
            assert forall|i: int| 0 <= i < x.len() implies
                teq(#[trigger] x[i], y[i]) == teq(y[i], x[i]) by {
                lemma_teq_sym(x[i], y[i]);
            }
            if x.len() == y.len() {
                assert(teq(a, b) == teq(b, a));
            }
        },
        _ => {},
    }
}

/// Semantic equality is transitive.
pub proof fn lemma_teq_trans(a: TermV, b: TermV, c: TermV)
    requires
        teq(a, b),
        teq(b, c),
    ensures
        teq(a, c),
    decreases a,
{
    match (a, b, c) {
        (TermV::Fun { args: x, .. }, TermV::Fun { args: y, .. }, TermV::Fun { args: z, .. }) => {
            assert forall|i: int| 0 <= i < x.len() implies teq(#[trigger] x[i], z[i]) by {
                assert(teq(x[i], y[i]));
                assert(teq(y[i], z[i]));
                lemma_teq_trans(x[i], y[i], z[i]);
            }
        },
        _ => {},
    }
}

impl Expr {
    /// Decide semantic equality of the two terms' models, as `teq` states it.
    pub fn sem_eq(&self, other: &Expr) -> (r: bool)
        ensures
            r == teq(self@, other@),
        decreases *self,
    {
        match (self, other) {
            (Expr::Var { id: i, .. }, Expr::Var { id: j, .. }) => *i == *j,
            (Expr::Fun { name: n, args: x, .. }, Expr::Fun { name: m, args: y, .. }) => {
                if !(*n == *m) {
                    return false;
                }
                if x.len() != y.len() {
                    return false;
                }
                let mut k: usize = 0;
                while k < x.len()
                    invariant
                        k <= x@.len(),
                        x@.len() == y@.len(),
                        n@ == m@,
                        forall|i: int| 0 <= i < k ==> teq(#[trigger] x@[i]@, y@[i]@),
                        *self == (Expr::Fun { name: *n, args: *x, loc: self.loc_spec() }),
                        *other == (Expr::Fun { name: *m, args: *y, loc: other.loc_spec() }),
                    decreases x@.len() - k,
                {
                    proof {
                        assert(decreases_to!(*self => self->Fun_args));
                        assert(decreases_to!(self->Fun_args => self->Fun_args@[k as int]));
                    }
                    if !x[k].sem_eq(&y[k]) {
                        proof {
                            assert(self@->Fun_args[k as int] == x@[k as int]@);
                            assert(other@->Fun_args[k as int] == y@[k as int]@);
                        }
                        return false;
                    }
                    k = k + 1;
                }
                proof {
                    assert forall|i: int| 0 <= i < self@->Fun_args.len() implies
                        teq(#[trigger] self@->Fun_args[i], other@->Fun_args[i]) by {
                        assert(self@->Fun_args[i] == x@[i]@);
                        assert(other@->Fun_args[i] == y@[i]@);
                    }
                }
                true
            },
            _ => false,
        }
    }

    /// The source location the term was read from.
    pub fn get_loc(&self) -> (l: Loc)
        ensures
            l == self.loc_spec(),
    {
        match self {
            Expr::Fun { loc, .. } => *loc,
            Expr::Var { loc, .. } => *loc,
        }
    }

    /// The location field, ignored by all semantic operations.
    pub open spec fn loc_spec(&self) -> Loc {
        match *self {
            Expr::Fun { loc, .. } => loc,
            Expr::Var { loc, .. } => loc,
        }
    }

    /// A copy of the term with the same model.
    pub fn dup(&self) -> (r: Expr)
        ensures
            r@ == self@,
        decreases *self,
    {
        match self {
            Expr::Var { name, id, loc } => Expr::Var { name: name.clone(), id: *id, loc: *loc },
            Expr::Fun { name, args, loc } => {
                let mut new_args: Vec<Expr> = Vec::new();
                let mut k: usize = 0;
                while k < args.len()
                    invariant
                        k <= args@.len(),
                        new_args@.len() == k,
                        forall|i: int| 0 <= i < k ==> #[trigger] new_args@[i]@ == args@[i]@,
                        *self == (Expr::Fun { name: *name, args: *args, loc: self.loc_spec() }),
                    decreases args@.len() - k,
                {
                    proof {
                        assert(decreases_to!(*self => self->Fun_args));
                        assert(decreases_to!(self->Fun_args => self->Fun_args@[k as int]));
                    }
                    new_args.push(args[k].dup());
                    k = k + 1;
                }
                proof {
                    assert(views_of(new_args@) =~= views_of(args@));
                }
                let ghost final_args = new_args@;
                let r = Expr::Fun { name: name.clone(), args: new_args, loc: *loc };
                proof {
                    assert(r@->Fun_args =~= views_of(final_args));
                    assert(self@->Fun_args =~= views_of(args@));
                    assert(r@ =~= (*self)@);
                }
                r
            },
        }
    }
}

/// How a term is displayed: a functor as `name` when it has no arguments,
/// else `name(a1, a2, ...)`; a variable as its name.
pub open spec fn display_of(t: TermV) -> Seq<char>
    decreases t,
{
    match t {
        TermV::Var { name, .. } => name,
        TermV::Fun { name, args } => {
            if args.len() == 0 {
                name
            } else {
                name + "("@ + display_args(args) + ")"@
            }
        },
    }
}

/// The arguments of a displayed functor, comma-separated.
pub open spec fn display_args(ts: Seq<TermV>) -> Seq<char>
    decreases ts,
{
    if ts.len() == 0 {
        Seq::empty()
    } else if ts.len() == 1 {
        display_of(ts[0])
    } else {
        display_args(ts.subrange(0, ts.len() - 1)) + ", "@ + display_of(ts[ts.len() - 1])
    }
}

impl Expr {
    /// The display text of the term, as `display_of` states.
    pub fn render(&self) -> (s: String)
        ensures
            s@ == display_of(self@),
        decreases *self,
    {
        match self {
            Expr::Var { name, .. } => name.clone(),
            Expr::Fun { name, args, .. } => {
                if args.len() == 0 {
                    return name.clone();
                }
                let ghost av = views_of(args@);
                proof {
                    assert(self@->Fun_args =~= av);
                }
                let mut s = name.clone();
                s.append("(");
                let mut k: usize = 0;
                while k < args.len()
                    invariant
                        0 < k <= args@.len() || k == 0,
                        av.len() == args@.len(),
                        k == 0 ==> s@ == name@ + "("@,
                        k > 0 ==> s@ == name@ + "("@ + display_args(av.subrange(0, k as int)),
                        *self == (Expr::Fun { name: *name, args: *args, loc: self.loc_spec() }),
                    decreases args@.len() - k,
                {
                    proof {
                        assert(decreases_to!(*self => self->Fun_args));
                        assert(decreases_to!(self->Fun_args => self->Fun_args@[k as int]));
                    }
                    if k > 0 {
                        s.append(", ");
                    }
                    let piece = args[k].render();
                    s.append(piece.as_str());
                    proof {
                        assert(av.subrange(0, k + 1 as int).subrange(0, k as int) =~= av.subrange(
                            0,
                            k as int,
                        ));
                        assert(av.subrange(0, k + 1 as int)[k as int] == args@[k as int]@);
                        if k == 0 {
                            assert(av.subrange(0, 1int).len() == 1);
                        }
                        assert(s@ == name@ + "("@ + display_args(av.subrange(0, k + 1 as int)));
                    }
                    k = k + 1;
                }
                s.append(")");
                proof {
                    assert(av.subrange(0, av.len() as int) =~= av);
                }
                s
            },
        }
    }
}

impl Default for Expr {
    fn default() -> (r: Expr)
        ensures
            r@ == (TermV::Var { name: Seq::<char>::empty(), id: 0 }),
    {
        Expr::Var { name: String::new(), id: 0, loc: Loc::new() }
    }
}

} // verus!

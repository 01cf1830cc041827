use miniprolog::{
    is_quit, render_answer, vars, Answer, ApplyError, Def, Expr, FreshAlloc, IdAlloc, Loc,
    Scanner, TokenTy,
};

fn atom(name: &str) -> Expr {
    Expr::Fun { name: name.to_string(), args: vec![], loc: Loc::new() }
}

fn fun(name: &str, args: Vec<Expr>) -> Expr {
    Expr::Fun { name: name.to_string(), args, loc: Loc::new() }
}

fn var(name: &str, id: u64) -> Expr {
    Expr::Var { name: name.to_string(), id, loc: Loc::new() }
}

#[test]
fn id_alloc_shares_per_name_within_clause() {
    let mut a = IdAlloc::new(0);
    let x1 = a.allocate("X");
    let y1 = a.allocate("Y");
    let x2 = a.allocate("X");
    assert_eq!(x1, x2);
    assert_ne!(x1, y1);
    assert_eq!(x1, 1);
    assert_eq!(y1, 2);
}

#[test]
fn id_alloc_fresh_across_clauses() {
    let mut a = IdAlloc::new(0);
    let x1 = a.allocate("X");
    let y1 = a.allocate("Y");
    a.new_clause();
    let x2 = a.allocate("X");
    assert!(x2 > x1);
    assert!(x2 > y1);
    assert_eq!(a.get_next(), x2 + 1);
}

#[test]
fn fresh_alloc_renames_consistently() {
    let mut g = FreshAlloc::new(10);
    let a = g.allocate(3);
    let b = g.allocate(7);
    let a2 = g.allocate(3);
    assert_eq!(a, a2);
    assert_ne!(a, b);
    assert!(a > 10 && b > 10);
}

#[test]
fn render_terms() {
    assert_eq!(atom("tom").render(), "tom");
    assert_eq!(var("X", 1).render(), "X");
    let t = fun("cons", vec![atom("a"), fun("cons", vec![atom("b"), atom("nil")])]);
    assert_eq!(t.render(), "cons(a, cons(b, nil))");
}

#[test]
fn sem_eq_ignores_locations_and_var_names() {
    let a = fun("f", vec![var("X", 1), atom("c")]);
    let b = fun("f", vec![var("Y", 1), atom("c")]);
    assert!(a.sem_eq(&b));
    let c = fun("f", vec![var("X", 2), atom("c")]);
    assert!(!a.sem_eq(&c));
    let d = fun("g", vec![var("X", 1), atom("c")]);
    assert!(!a.sem_eq(&d));
}

#[test]
fn def_apply_unifies_and_fails() {
    let d = Def {
        name: "p".to_string(),
        loc: Loc::new(),
        pat: fun("p", vec![var("X", 1), atom("b")]),
        rep: vec![],
    };
    let ok = d.apply(&fun("p", vec![atom("a"), atom("b")]));
    assert!(ok.is_ok());
    let bindings = ok.unwrap();
    assert!(bindings.get(&1).is_some());
    assert!(bindings.get(&1).unwrap().sem_eq(&atom("a")));
    let bad = d.apply(&fun("p", vec![atom("a"), atom("c")]));
    assert!(matches!(bad, Err(ApplyError::UnifyFail)));
    let arity = d.apply(&fun("p", vec![atom("a")]));
    assert!(arity.is_err());
}

#[test]
fn def_apply_shared_variable() {
    let d = Def {
        name: "eq".to_string(),
        loc: Loc::new(),
        pat: fun("eq", vec![var("X", 1), var("X", 1)]),
        rep: vec![],
    };
    let r = d.apply(&fun("eq", vec![var("Z", 2), atom("foo")]));
    assert!(r.is_ok());
    let b = r.unwrap();
    assert!(b.get(&2).unwrap().sem_eq(&atom("foo")));
}

#[test]
fn render_answer_lines() {
    let a = Answer { names: vec!["X".to_string()], values: vec![atom("bob")] };
    assert_eq!(render_answer(&a), "X = bob");
    let b = Answer { names: vec![], values: vec![] };
    assert_eq!(render_answer(&b), "Yes");
    let c = Answer { names: vec!["X".to_string()], values: vec![var("X", 9)] };
    assert_eq!(render_answer(&c), "Yes");
    let d = Answer {
        names: vec!["X".to_string(), "Y".to_string()],
        values: vec![atom("a"), atom("b")],
    };
    assert_eq!(render_answer(&d), "X = a, Y = b");
}

#[test]
fn vars_first_occurrence_order() {
    let q = vec![fun("p", vec![var("Y", 2), var("X", 1), var("Y", 2)])];
    let a = vars(&q);
    assert_eq!(a.names, vec!["Y".to_string(), "X".to_string()]);
    assert_eq!(a.values.len(), 2);
    assert!(a.values[0].sem_eq(&var("Y", 2)));
}

#[test]
fn scanner_token_sequence() {
    let mut sc = Scanner::new("foo(X) :- bar, q12.");
    let t1 = sc.next_token().unwrap().ty();
    assert!(matches!(t1, TokenTy::Ident(s) if s == "foo"));
    assert!(matches!(sc.next_token().unwrap().ty(), TokenTy::Lparen));
    let tx = sc.next_token().unwrap().ty();
    assert!(matches!(tx, TokenTy::Ident(s) if s == "X"));
    assert!(matches!(sc.next_token().unwrap().ty(), TokenTy::Rparen));
    assert!(matches!(sc.next_token().unwrap().ty(), TokenTy::Pen));
    let tb = sc.next_token().unwrap().ty();
    assert!(matches!(tb, TokenTy::Ident(s) if s == "bar"));
    assert!(matches!(sc.next_token().unwrap().ty(), TokenTy::Comma));
    let tq = sc.next_token().unwrap().ty();
    assert!(matches!(tq, TokenTy::Ident(s) if s == "q12"));
    assert!(matches!(sc.next_token().unwrap().ty(), TokenTy::Period));
    assert!(matches!(sc.next_token().unwrap().ty(), TokenTy::Eof));
}

#[test]
fn scanner_peek_does_not_consume() {
    let mut sc = Scanner::new("a b");
    let p = sc.peek().unwrap().ty();
    assert!(matches!(p, TokenTy::Ident(s) if s == "a"));
    let t = sc.next_token().unwrap().ty();
    assert!(matches!(t, TokenTy::Ident(s) if s == "a"));
    let t2 = sc.next_token().unwrap().ty();
    assert!(matches!(t2, TokenTy::Ident(s) if s == "b"));
}

#[test]
fn scanner_rejects_unknown_character() {
    let mut sc = Scanner::new("foo & bar");
    let _ = sc.next_token().unwrap();
    let err = sc.next_token().unwrap_err();
    assert!(err.desc.contains("unrecognized character"));
    assert_eq!(err.loc.line, 1);
}

#[test]
fn scanner_tracks_lines() {
    let mut sc = Scanner::new("a\n  b");
    let _ = sc.next_token().unwrap();
    let t = sc.next_token().unwrap();
    assert_eq!(t.loc.line, 2);
    assert_eq!(t.loc.col, 3);
}

#[test]
fn quit_words() {
    assert!(is_quit("q"));
    assert!(is_quit("quit"));
    assert!(is_quit("exit"));
    assert!(!is_quit("quitx"));
    assert!(!is_quit(""));
}

#[test]
fn describe_token_kinds() {
    assert_eq!(TokenTy::Pen.describe(), "token `:-`");
    assert_eq!(TokenTy::Ident("foo".to_string()).describe(), "identifier `foo`");
    assert_eq!(TokenTy::Eof.describe(), "EOF");
}

#[test]
fn loc_tracking_defaults() {
    let l = Loc::new();
    assert_eq!(l.line, 1);
    assert_eq!(l.col, 1);
}

#[test]
fn unify_symmetric_on_ground_terms() {
    let g1 = fun("f", vec![atom("a"), atom("b")]);
    let g2 = fun("f", vec![atom("a"), atom("b")]);
    let d_fwd = Def { name: "f".to_string(), loc: Loc::new(), pat: g1, rep: vec![] };
    assert!(d_fwd.apply(&g2).is_ok());
    let g3 = fun("f", vec![atom("b"), atom("a")]);
    let d_rev = Def { name: "f".to_string(), loc: Loc::new(), pat: g3.dup(), rep: vec![] };
    let fwd_fails = d_rev.apply(&g2).is_err();
    let d_back = Def { name: "f".to_string(), loc: Loc::new(), pat: g2.dup(), rep: vec![] };
    let rev_fails = d_back.apply(&g3).is_err();
    assert_eq!(fwd_fails, rev_fails);
    assert!(fwd_fails);
}

#[test]
fn applying_bindings_rewrites_head_into_goal() {
    let pat = fun("p", vec![var("X", 1), fun("g", vec![var("X", 1)])]);
    let goal = fun("p", vec![fun("f", vec![atom("a")]), fun("g", vec![fun("f", vec![atom("a")])])]);
    let d = Def { name: "p".to_string(), loc: Loc::new(), pat: pat.dup(), rep: vec![] };
    let bindings = d.apply(&goal).expect("ground goal should unify");
    let mut gen = FreshAlloc::new(1000);
    let rewritten = miniprolog::substitute_and_freshen(&mut gen, &bindings, &pat, 1_000_000);
    assert!(rewritten.sem_eq(&goal));
}

#[test]
fn scanner_peek_twice_agrees() {
    let mut sc = Scanner::new("alpha beta");
    let p1 = sc.peek().unwrap().ty();
    let p2 = sc.peek().unwrap().ty();
    assert!(matches!(p1, TokenTy::Ident(ref s) if s == "alpha"));
    assert!(matches!(p2, TokenTy::Ident(ref s) if s == "alpha"));
}

#[test]
fn expect_token_reports_expected_and_found() {
    let mut sc = Scanner::new(", rest");
    let err = sc.expect_token(TokenTy::Period).unwrap_err();
    assert_eq!(err.desc, "expected token `.`, found token `,`");
}

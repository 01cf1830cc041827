use miniprolog::{Context, Rules};

const FUEL: u64 = 1_000_000;

fn load(db: &str) -> (Context, Rules) {
    let mut ctx = Context::new();
    let rules = ctx.parse(db.to_string()).expect("database should parse");
    (ctx, rules)
}

fn run(ctx: &mut Context, rules: &Rules, query: &str) -> Vec<String> {
    let e = ctx.parse_clause(query.to_string()).expect("query should parse");
    let mut sp = ctx.apply(rules, &e, FUEL);
    let mut out = Vec::new();
    loop {
        let (text, more) = sp.next_output(rules, FUEL);
        out.push(text);
        if !more {
            break;
        }
        if out.len() > 50 {
            panic!("unexpectedly many answers");
        }
    }
    out
}

#[test]
fn facts_and_atoms_yes() {
    let (mut ctx, rules) = load("parent(tom, bob). parent(bob, liz).");
    let out = run(&mut ctx, &rules, "parent(tom, bob).");
    assert_eq!(out, vec!["Yes.".to_string(), "No.".to_string()]);
}

#[test]
fn facts_and_atoms_no() {
    let (mut ctx, rules) = load("parent(tom, bob). parent(bob, liz).");
    let out = run(&mut ctx, &rules, "parent(tom, liz).");
    assert_eq!(out, vec!["No.".to_string()]);
}

#[test]
fn variable_binding() {
    let (mut ctx, rules) = load("parent(tom, bob). parent(bob, liz).");
    let out = run(&mut ctx, &rules, "parent(tom, X).");
    assert_eq!(out, vec!["X = bob.".to_string(), "No.".to_string()]);
}

#[test]
fn rule_with_recursion() {
    let (mut ctx, rules) = load(
        "parent(tom, bob). parent(bob, liz). \
         ancestor(X,Y) :- parent(X,Y). \
         ancestor(X,Y) :- parent(X,Z), ancestor(Z,Y).",
    );
    let out = run(&mut ctx, &rules, "ancestor(tom, X).");
    assert_eq!(
        out,
        vec!["X = bob.".to_string(), "X = liz.".to_string(), "No.".to_string()]
    );
}

#[test]
fn append_lists() {
    let (mut ctx, rules) = load(
        "append(nil, L, L). append(cons(H,T), L, cons(H,R)) :- append(T,L,R).",
    );
    let out = run(
        &mut ctx,
        &rules,
        "append(cons(a, cons(b, nil)), cons(c, nil), X).",
    );
    // Exactly one refutation exists; substitution applies the bindings nested
    // inside bound values, so the recursive activations stay hygienic and the
    // whole list surfaces.
    assert_eq!(
        out,
        vec![
            "X = cons(a, cons(b, cons(c, nil))).".to_string(),
            "No.".to_string()
        ]
    );
}

#[test]
fn shared_variable_binds_through() {
    let (mut ctx, rules) = load("eq(X,X).");
    let out = run(&mut ctx, &rules, "eq(Z, foo).");
    assert_eq!(out, vec!["Z = foo.".to_string(), "No.".to_string()]);
}

#[test]
fn shared_variable_two_free() {
    let (mut ctx, rules) = load("eq(X,X).");
    let out = run(&mut ctx, &rules, "eq(Y, Z).");
    // The two query variables collapse to one: the first is a trivial
    // self-binding (suppressed), the second displays once.
    assert_eq!(out, vec!["Z = Y.".to_string(), "No.".to_string()]);
}

#[test]
fn undefined_predicate() {
    let (mut ctx, rules) = load("");
    let out = run(&mut ctx, &rules, "foo(a).");
    assert_eq!(out, vec!["No.".to_string()]);
}

#[test]
fn free_variable_goal_fails() {
    let (mut ctx, rules) = load("parent(tom, bob).");
    let out = run(&mut ctx, &rules, "X.");
    assert_eq!(out, vec!["No.".to_string()]);
}

#[test]
fn duplicate_answers_suppressed() {
    let (mut ctx, rules) = load("p(a). p(a).");
    let out = run(&mut ctx, &rules, "p(X).");
    // Both clauses yield X = a; the formatter emits the line only once.
    assert_eq!(out, vec!["X = a.".to_string(), "No.".to_string()]);
}

#[test]
fn duplicate_yes_suppressed() {
    let (mut ctx, rules) = load("p(a). p(a).");
    let out = run(&mut ctx, &rules, "p(a).");
    assert_eq!(out, vec!["Yes.".to_string(), "No.".to_string()]);
}

#[test]
fn conjunctive_query() {
    let (mut ctx, rules) = load("parent(tom, bob). parent(bob, liz).");
    let out = run(&mut ctx, &rules, "parent(tom, X), parent(X, Y).");
    assert_eq!(
        out,
        vec!["X = bob, Y = liz.".to_string(), "No.".to_string()]
    );
}

#[test]
fn multiple_solutions_in_database_order() {
    let (mut ctx, rules) = load("color(red). color(green). color(blue).");
    let out = run(&mut ctx, &rules, "color(C).");
    assert_eq!(
        out,
        vec![
            "C = red.".to_string(),
            "C = green.".to_string(),
            "C = blue.".to_string(),
            "No.".to_string()
        ]
    );
}

#[test]
fn same_query_twice_same_answers() {
    let (mut ctx, rules) = load("color(red). color(green).");
    let out1 = run(&mut ctx, &rules, "color(C).");
    let out2 = run(&mut ctx, &rules, "color(C).");
    assert_eq!(out1, out2);
}

#[test]
fn comments_and_whitespace_ignored() {
    let (mut ctx, rules) = load("% a database\nparent(tom, bob). % a fact\n");
    let out = run(&mut ctx, &rules, "parent(tom, bob).");
    assert_eq!(out, vec!["Yes.".to_string(), "No.".to_string()]);
}

#[test]
fn parse_error_reports_location() {
    let mut ctx = Context::new();
    let err = match ctx.parse("parent(tom bob).".to_string()) {
        Err(e) => e,
        Ok(_) => panic!("parse should fail"),
    };
    assert_eq!(err.loc.line, 1);
    assert!(err.desc.contains("expected"));
}

#[test]
fn query_parse_error() {
    let mut ctx = Context::new();
    let err = match ctx.parse_clause("parent(tom,".to_string()) {
        Err(e) => e,
        Ok(_) => panic!("parse should fail"),
    };
    assert!(err.desc.contains("expected"));
}

#[test]
fn cross_clause_ids_increase() {
    let mut ctx = Context::new();
    let rules = ctx.parse("p(X, Y). q(A, B).".to_string()).expect("should parse");
    let first_head = &rules.defs[0].pat;
    let second_head = &rules.defs[1].pat;
    let max_first = match first_head {
        miniprolog::Expr::Fun { args, .. } => args
            .iter()
            .map(|a| match a {
                miniprolog::Expr::Var { id, .. } => *id,
                _ => 0,
            })
            .max()
            .unwrap(),
        _ => panic!("head should be a functor"),
    };
    let min_second = match second_head {
        miniprolog::Expr::Fun { args, .. } => args
            .iter()
            .map(|a| match a {
                miniprolog::Expr::Var { id, .. } => *id,
                _ => u64::MAX,
            })
            .min()
            .unwrap(),
        _ => panic!("head should be a functor"),
    };
    assert!(max_first < min_second);
}

#[test]
fn longer_ancestor_chain() {
    let (mut ctx, rules) = load(
        "parent(a, b). parent(b, c). parent(c, d). \
         ancestor(X,Y) :- parent(X,Y). \
         ancestor(X,Y) :- parent(X,Z), ancestor(Z,Y).",
    );
    let out = run(&mut ctx, &rules, "ancestor(a, W).");
    assert_eq!(
        out,
        vec![
            "W = b.".to_string(),
            "W = c.".to_string(),
            "W = d.".to_string(),
            "No.".to_string()
        ]
    );
}

#[test]
fn tiny_budget_reports_truncation() {
    let (mut ctx, rules) = load(
        "loop(X) :- loop(X). p(a).",
    );
    let e = ctx.parse_clause("loop(z).".to_string()).expect("query should parse");
    let mut sp = ctx.apply(&rules, &e, 100);
    let (text, more) = sp.next_output(&rules, 100);
    assert_eq!(text, "No.");
    assert!(!more);
    assert!(sp.truncated);
}

#[test]
fn shared_variable_three_ways() {
    let (mut ctx, rules) = load("same(X,X,X).");
    let out = run(&mut ctx, &rules, "same(Y, Z, c).");
    // Both query variables reach `c`: the second is bound to the first, and
    // substitution follows that binding through to its value.
    assert_eq!(out, vec!["Y = c, Z = c.".to_string(), "No.".to_string()]);
}

#[test]
fn display_order_is_surface_order() {
    let (mut ctx, rules) = load("p(a). q(b).");
    let out = run(&mut ctx, &rules, "p(A), q(B).");
    // Query variables display at their first occurrence left to right over
    // the query as written.
    assert_eq!(out, vec!["A = a, B = b.".to_string(), "No.".to_string()]);
}

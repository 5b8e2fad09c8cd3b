use std::rc::Rc;

use lambda::debruijn::ExprDbNode as Db;
use lambda::lexer::{lex, TokenKind};
use lambda::{fresh_name, Env, Expr, ExprNode, ExprParser, ParseError, ValueNode};

fn parse(input: &str) -> Expr {
    ExprParser::new().parse(input).unwrap()
}

fn var(x: &str) -> Expr {
    Rc::new(ExprNode::Var(x.to_string()))
}

fn dbvar(i: usize, x: &str) -> Rc<Db> {
    Rc::new(Db::Var(i, x.to_string()))
}

#[test]
fn find_returns_the_most_recent_binding() {
    let env: Env<i32> = Env::Empty;
    let env = env.push(&"x".to_string(), Rc::new(1));
    let env = env.push(&"y".to_string(), Rc::new(2));
    let env = env.push(&"x".to_string(), Rc::new(3));
    assert_eq!(*env.find(&"x".to_string()).unwrap(), 3);
    assert_eq!(*env.find(&"y".to_string()).unwrap(), 2);
    assert_eq!(env.find_idx(&"x".to_string()), Ok(0));
    assert_eq!(env.find_idx(&"y".to_string()), Ok(1));
}

#[test]
fn find_reports_unbound_names() {
    let env: Env<i32> = Env::Empty;
    let env = env.push(&"x".to_string(), Rc::new(1));
    assert_eq!(env.find(&"z".to_string()), Err("Variable not found z".to_string()));
    assert_eq!(env.find_idx(&"z".to_string()), Err("Variable not found z".to_string()));
}

#[test]
fn push_keeps_the_other_bindings() {
    let env: Env<i32> = Env::Empty;
    let env = env.push(&"a".to_string(), Rc::new(7));
    let pushed = env.push(&"b".to_string(), Rc::new(8));
    assert_eq!(pushed.find(&"a".to_string()), env.find(&"a".to_string()));
    assert_eq!(pushed.find_idx(&"a".to_string()), Ok(1));
    match &pushed {
        Env::Node(name, value, next) => {
            assert_eq!(name, "b");
            assert_eq!(**value, 8);
            assert_eq!(**next, env);
        }
        Env::Empty => panic!("push gave an empty environment"),
    }
}

#[test]
fn fresh_names_count_up() {
    let mut counter: u64 = 0;
    assert_eq!(fresh_name("x", &mut counter), "x#0");
    assert_eq!(fresh_name("x", &mut counter), "x#1");
    assert_eq!(counter, 2);
    let mut counter: u64 = 1234;
    assert_eq!(fresh_name("y#0", &mut counter), "y#0#1234");
    assert_eq!(counter, 1235);
}

#[test]
fn fresh_name_counter_wraps_at_the_top() {
    let mut counter: u64 = u64::MAX;
    assert_eq!(fresh_name("z", &mut counter), "z#18446744073709551615");
    assert_eq!(counter, 0);
}

#[test]
fn subst_replaces_free_occurrences() {
    let mut counter: u64 = 0;
    let e = parse("x + y");
    let r = e.subst(&"x".to_string(), &parse("5"), &mut counter);
    assert_eq!(*r, *parse("5 + y"));
    assert_eq!(counter, 0);
}

#[test]
fn subst_renames_binders_and_avoids_capture() {
    let mut counter: u64 = 0;
    let e = parse(r"\y. x");
    let r = e.subst(&"x".to_string(), &var("y"), &mut counter);
    assert_eq!(
        *r,
        ExprNode::Abs("y#0".to_string(), var("y"))
    );
    assert_eq!(counter, 1);
}

#[test]
fn subst_stops_at_a_binder_of_the_same_name() {
    let mut counter: u64 = 3;
    let e = parse(r"\x. x");
    let r = e.subst(&"x".to_string(), &parse("1"), &mut counter);
    assert_eq!(*r, *e);
    assert_eq!(counter, 3);
}

#[test]
fn eval_reports_each_error() {
    assert_eq!(parse("x y").eval(), Err("Not an abstraction".to_string()));
    assert_eq!(parse(r"x + 1").eval(), Err("Expecting integers".to_string()));
    assert_eq!(parse(r"(\x. x) + 1").eval(), Err("Expecting integers".to_string()));
    assert_eq!(parse("2147483647 + 1").eval(), Err("Integer overflow".to_string()));
}

#[test]
fn eval_env_reports_each_error() {
    let env = || Rc::new(Env::Empty);
    assert_eq!(parse("x y").eval_env(env()), Err("Invalid application".to_string()));
    assert_eq!(parse("x + 1").eval_env(env()), Err("Expecting integers".to_string()));
    assert_eq!(parse("2147483647 + 1").eval_env(env()), Err("Integer overflow".to_string()));
}

#[test]
fn eval_db_reports_each_error() {
    let e = |s: &str| parse(s).to_debruijn(&Env::Empty);
    assert_eq!(e("x y").eval(), Err("Invalid application".to_string()));
    assert_eq!(e("x + 1").eval(), Err("Expecting integers".to_string()));
    assert_eq!(e("2147483647 + 1").eval(), Err("Integer overflow".to_string()));
    assert_eq!(Db::Var(0, "x".to_string()).eval(), Err("Should not occur".to_string()));
    let far = Db::App(Rc::new(Db::Abs(dbvar(0, "x"))), dbvar(usize::MAX, "z"));
    assert_eq!(far.eval(), Err("Index overflow".to_string()));
}

#[test]
fn evaluation_stops_when_the_fuel_runs_out() {
    let omega = parse(r"(\x. x x) (\x. x x)");
    let mut counter: u64 = 0;
    assert_eq!(
        omega.eval_with(200, &mut counter),
        Err("Evaluation step limit reached".to_string())
    );
    assert_eq!(
        omega.eval_env_with(200, Rc::new(Env::Empty)),
        Err("Evaluation step limit reached".to_string())
    );
    assert_eq!(
        omega.to_debruijn(&Env::Empty).eval_with(200),
        Err("Evaluation step limit reached".to_string())
    );
    let mut counter: u64 = 0;
    assert_eq!(parse("1").eval_with(0, &mut counter), Err("Evaluation step limit reached".to_string()));
}

#[test]
fn more_fuel_keeps_a_finished_result() {
    let e = parse(r"(\x. \y. x) a b");
    let mut c1: u64 = 0;
    let mut c2: u64 = 0;
    let small = e.eval_with(5, &mut c1);
    let large = e.eval_with(5000, &mut c2);
    assert_eq!(small, large);
    assert_eq!(c1, c2);
    let db = e.to_debruijn(&Env::Empty);
    assert_eq!(db.eval_with(5), db.eval_with(5000));
}

#[test]
fn evaluating_a_result_again_gives_it_back() {
    for src in [r"(\x. x x) (\y. y)", "1+2", r"(\x. \y. x) y", "a"] {
        let v = parse(src).eval().unwrap();
        assert_eq!(v.eval().unwrap(), v);
        let d = parse(src).to_debruijn(&Env::Empty).eval().unwrap();
        assert_eq!(d.eval().unwrap(), d);
    }
}

#[test]
fn call_by_name_and_call_by_value_differ_on_a_failing_argument() {
    let e = parse(r"(\x. 1) (y z)");
    assert_eq!(*e.eval().unwrap(), ExprNode::Num(1));
    assert_eq!(*e.to_debruijn(&Env::Empty).eval().unwrap(), Db::Num(1));
    assert!(e.eval_env(Rc::new(Env::Empty)).is_err());
}

#[test]
fn substitution_and_debruijn_agree_up_to_names() {
    let e = parse(r"(\x. \y. \z. x y z) (\a. \b. \c. c) p");
    let named = e.eval().unwrap();
    let db = e.to_debruijn(&Env::Empty).eval().unwrap();
    assert_eq!(
        *named,
        ExprNode::Abs(
            "z#1#2#3".to_string(),
            Rc::new(ExprNode::App(
                Rc::new(ExprNode::App(
                    Rc::new(ExprNode::Abs(
                        "a#4#11".to_string(),
                        Rc::new(ExprNode::Abs(
                            "b#5#8#12#15".to_string(),
                            Rc::new(ExprNode::Abs(
                                "c#6#7#9#10#13#14#16#17".to_string(),
                                var("c#6#7#9#10#13#14#16#17")
                            ))
                        ))
                    )),
                    var("p")
                )),
                var("z#1#2#3")
            ))
        )
    );
    assert_eq!(
        *db,
        Db::Abs(Rc::new(Db::App(
            Rc::new(Db::App(
                Rc::new(Db::Abs(Rc::new(Db::Abs(Rc::new(Db::Abs(dbvar(0, "c"))))))),
                Rc::new(Db::Free("p".to_string()))
            )),
            dbvar(0, "z")
        )))
    );
}

#[test]
fn environment_evaluation_looks_names_up() {
    let env: Env<ValueNode> = Env::Empty;
    let env = env.push(&"k".to_string(), Rc::new(ValueNode::Num(41)));
    assert_eq!(*parse("k + 1").eval_env(Rc::new(env)).unwrap(), ValueNode::Num(42));
}

#[test]
fn to_debruijn_uses_the_given_environment() {
    let env: Env<()> = Env::Empty;
    let env = env.push(&"a".to_string(), Rc::new(()));
    let env = env.push(&"b".to_string(), Rc::new(()));
    let d = parse(r"\x. x a b c").to_debruijn(&env);
    assert_eq!(
        *d,
        Db::Abs(Rc::new(Db::App(
            Rc::new(Db::App(Rc::new(Db::App(dbvar(0, "x"), dbvar(2, "a"))), dbvar(1, "b"))),
            Rc::new(Db::Free("c".to_string()))
        )))
    );
}

#[test]
fn shift_moves_indices_at_or_above_the_barrier() {
    let t = Db::App(dbvar(0, "a"), Rc::new(Db::Abs(Rc::new(Db::App(dbvar(0, "b"), dbvar(1, "c"))))));
    assert_eq!(
        *t.shift(0),
        Db::App(dbvar(1, "a"), Rc::new(Db::Abs(Rc::new(Db::App(dbvar(0, "b"), dbvar(2, "c"))))))
    );
    assert_eq!(*t.shift(1), Db::App(dbvar(0, "a"), Rc::new(Db::Abs(Rc::new(Db::App(dbvar(0, "b"), dbvar(1, "c")))))));
    assert!(t.can_shift(0));
    assert!(!Db::Var(usize::MAX, "v".to_string()).can_shift(0));
    assert!(Db::Var(usize::MAX - 1, "v".to_string()).can_shift(0));
    assert!(!Db::Abs(dbvar(0, "w")).can_shift(usize::MAX));
}

#[test]
fn debruijn_subst_replaces_the_index() {
    let t = Db::App(dbvar(0, "a"), Rc::new(Db::Abs(Rc::new(Db::App(dbvar(0, "b"), dbvar(1, "c"))))));
    let val = Rc::new(Db::Num(9));
    assert_eq!(
        *t.subst(&0, &val),
        Db::App(val.clone(), Rc::new(Db::Abs(Rc::new(Db::App(dbvar(0, "b"), val.clone())))))
    );
    assert!(t.can_subst(0));
    assert!(!t.can_subst(usize::MAX));
}

#[test]
fn depth_check() {
    let e = parse(r"\a. \b. (\c. c) a");
    assert!(e.depth_at_most(3));
    assert!(!e.depth_at_most(2));
    assert!(parse("1 + x").depth_at_most(0));
}

#[test]
fn lexer_gives_spans() {
    let toks = lex(r" \foo_1. (12+x)").unwrap();
    let kinds: Vec<TokenKind> = toks.iter().map(|t| t.kind.clone()).collect();
    assert_eq!(
        kinds,
        vec![
            TokenKind::Lambda,
            TokenKind::Ident("foo_1".to_string()),
            TokenKind::Dot,
            TokenKind::LParen,
            TokenKind::Num(12),
            TokenKind::Plus,
            TokenKind::Ident("x".to_string()),
            TokenKind::RParen,
        ]
    );
    assert_eq!((toks[1].start, toks[1].end), (2, 7));
    assert_eq!((toks[4].start, toks[4].end), (10, 12));
}

#[test]
fn parser_reports_each_error() {
    let p = |s: &str| ExprParser::new().parse(s);
    assert_eq!(p("01"), Err(ParseError::InvalidToken { location: 0 }));
    assert_eq!(p("x $"), Err(ParseError::InvalidToken { location: 2 }));
    assert_eq!(p(""), Err(ParseError::UnrecognizedEof { location: 0 }));
    assert_eq!(p("(x"), Err(ParseError::UnrecognizedEof { location: 2 }));
    assert_eq!(p(r"\x."), Err(ParseError::UnrecognizedEof { location: 3 }));
    assert_eq!(
        p("x )"),
        Err(ParseError::UnrecognizedToken { start: 2, end: 3, token: ")".to_string() })
    );
    assert_eq!(
        p("1 + + 2"),
        Err(ParseError::UnrecognizedToken { start: 4, end: 5, token: "+".to_string() })
    );
    assert_eq!(
        p(r"\1. x"),
        Err(ParseError::UnrecognizedToken { start: 1, end: 2, token: "1".to_string() })
    );
    assert_eq!(
        p("2147483648"),
        Err(ParseError::User { error: "number is too large".to_string() })
    );
    assert_eq!(*p("2147483647").unwrap(), ExprNode::Num(2147483647));
    assert_eq!(*p("0").unwrap(), ExprNode::Num(0));
}

#[test]
fn addition_is_left_associative_and_looser_than_application() {
    assert_eq!(*parse("a + b + c"), *parse("(a + b) + c"));
    assert_eq!(*parse("f x + g y"), *parse("(f x) + (g y)"));
    assert_eq!(*parse(r"\x. x + 1"), *parse(r"\x. (x + 1)"));
}

#[test]
fn first_order_terms_agree_in_all_evaluators() {
    for (src, expected) in [("2 + 3", 5), ("1 + 2 + 3", 6)] {
        let e = parse(src);
        assert_eq!(*e.eval().unwrap(), ExprNode::Num(expected));
        assert_eq!(*e.eval_env(Rc::new(Env::Empty)).unwrap(), ValueNode::Num(expected));
    }
    let e = parse("q + 1");
    assert_eq!(e.eval(), Err("Expecting integers".to_string()));
    assert_eq!(e.eval_env(Rc::new(Env::Empty)), Err("Expecting integers".to_string()));
}

#[test]
fn closed_terms_are_not_moved_by_shift() {
    let d = parse(r"\x. \y. x (\z. z y)").to_debruijn(&Env::Empty);
    assert_eq!(*d.shift(0), *d);
    assert_eq!(*d.subst(&0, &Rc::new(Db::Num(1))), *d);
}

#[test]
fn substitution_brings_in_no_other_free_variable() {
    let mut counter: u64 = 0;
    let r = parse(r"\a. x a b").subst(&"x".to_string(), &parse("c"), &mut counter);
    assert_eq!(
        *r,
        ExprNode::Abs(
            "a#0".to_string(),
            Rc::new(ExprNode::App(Rc::new(ExprNode::App(var("c"), var("a#0"))), var("b")))
        )
    );
}

#[test]
fn a_closure_stands_for_the_abstraction_with_its_environment_put_in() {
    let e = parse(r"(\x. \y. x) 5");
    match e.eval_env(Rc::new(Env::Empty)).unwrap().as_ref() {
        ValueNode::Closure(param, body, env) => {
            assert_eq!(param, "y");
            assert_eq!(**body, ExprNode::Var("x".to_string()));
            assert_eq!(*env.find(&"x".to_string()).unwrap(), ValueNode::Num(5));
        }
        v => panic!("expected a closure, got {v:?}"),
    }
    assert_eq!(
        *e.to_debruijn(&Env::Empty).eval().unwrap(),
        Db::Abs(Rc::new(Db::Num(5)))
    );
}

/// The term with the display names of bound variables forgotten.
fn erase(t: &Db) -> Db {
    match t {
        Db::Var(i, _) => Db::Var(*i, String::new()),
        Db::Free(x) => Db::Free(x.clone()),
        Db::Num(n) => Db::Num(*n),
        Db::Add(a, b) => Db::Add(Rc::new(erase(a)), Rc::new(erase(b))),
        Db::Abs(b) => Db::Abs(Rc::new(erase(b))),
        Db::App(a, b) => Db::App(Rc::new(erase(a)), Rc::new(erase(b))),
    }
}

#[test]
fn closed_debruijn_terms_never_reach_an_unbound_index() {
    let d = parse(r"(\f. \x. f (f x)) (\y. y + 1) 3").to_debruijn(&Env::Empty);
    assert_eq!(*d.eval().unwrap(), Db::Num(5));
    let d = parse(r"(\x. \y. x) (\z. z)").to_debruijn(&Env::Empty);
    assert_eq!(*d.eval().unwrap(), Db::Abs(Rc::new(Db::Abs(dbvar(0, "z")))));
    assert_eq!(dbvar(0, "x").eval(), Err("Should not occur".to_string()));
}

#[test]
fn substituting_at_the_barrier_after_a_shift_changes_nothing() {
    let t = Db::App(
        Rc::new(Db::App(dbvar(0, "a"), dbvar(1, "b"))),
        Rc::new(Db::Abs(Rc::new(Db::App(dbvar(1, "c"), dbvar(2, "d"))))),
    );
    let val = Rc::new(Db::Num(7));
    for barrier in 0..3 {
        let s = t.shift(barrier);
        assert_eq!(*s.subst(&barrier, &val), *s);
    }
}

#[test]
fn renaming_a_bound_variable_changes_only_display_names() {
    let env: Env<()> = Env::Empty;
    let env = env.push(&"z".to_string(), Rc::new(()));
    let d1 = parse(r"\x. x z (\w. x w) q").to_debruijn(&env);
    let d2 = parse(r"\v. v z (\w. v w) q").to_debruijn(&env);
    assert_ne!(*d1, *d2);
    assert_eq!(erase(&d1), erase(&d2));
}

#[test]
fn substitution_leaves_the_free_variables_of_the_value_free() {
    let mut counter: u64 = 0;
    let r = parse(r"\y. x y").subst(&"x".to_string(), &var("y"), &mut counter);
    assert_eq!(
        *r.to_debruijn(&Env::Empty),
        Db::Abs(Rc::new(Db::App(Rc::new(Db::Free("y".to_string())), dbvar(0, "y#0"))))
    );
}

#[test]
fn sums_and_applications_evaluate_through_their_parts() {
    let a = parse(r"(\x. x) 4");
    let b = parse("5");
    let sum = Rc::new(ExprNode::Add(a.clone(), b.clone()));
    assert_eq!(*a.eval().unwrap(), ExprNode::Num(4));
    assert_eq!(*sum.eval().unwrap(), ExprNode::Num(9));
    assert_eq!(*a.eval_env(Rc::new(Env::Empty)).unwrap(), ValueNode::Num(4));
    assert_eq!(*sum.eval_env(Rc::new(Env::Empty)).unwrap(), ValueNode::Num(9));
    assert_eq!(*sum.to_debruijn(&Env::Empty).eval().unwrap(), Db::Num(9));
    let app = Rc::new(ExprNode::App(parse(r"\x. x + x"), a.clone()));
    assert_eq!(*app.eval().unwrap(), ExprNode::Num(8));
    assert_eq!(*app.eval_env(Rc::new(Env::Empty)).unwrap(), ValueNode::Num(8));
    assert_eq!(*app.to_debruijn(&Env::Empty).eval().unwrap(), Db::Num(8));
}

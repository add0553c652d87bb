use replisp::error::{Error, Halt};
use replisp::eval::eval;
use replisp::lenv::Lenv;
use replisp::lval::{lambda, Lval};

fn sym(s: &str) -> Lval {
    Lval::Sym(s.to_string())
}

fn n(v: i64) -> Lval {
    Lval::Num(v)
}

fn se(items: Vec<Lval>) -> Lval {
    Lval::Sexpr(items)
}

fn qe(items: Vec<Lval>) -> Lval {
    Lval::Qexpr(items)
}

fn run_in(env: &mut Lenv, scope: usize, e: Lval) -> Result<Lval, Halt> {
    let mut out = String::new();
    eval(env, scope, e, &mut out, 10_000)
}

fn run(e: Lval) -> Result<Lval, Halt> {
    let mut env = Lenv::new();
    run_in(&mut env, 0, e)
}

fn run_with_output(e: Lval) -> (Result<Lval, Halt>, String) {
    let mut env = Lenv::new();
    let mut out = String::new();
    let r = eval(&mut env, 0, e, &mut out, 10_000);
    (r, out)
}

#[test]
fn head_of_tail() {
    // (head (tail {1 2 3})) = 2
    let e = se(vec![
        sym("head"),
        se(vec![sym("tail"), qe(vec![n(1), n(2), n(3)])]),
    ]);
    assert_eq!(run(e), Ok(n(2)));
}

#[test]
fn tail_of_empty_fails() {
    // (tail {}) fails with EmptyList
    let e = se(vec![sym("tail"), qe(vec![])]);
    assert_eq!(run(e), Err(Halt::Error(Error::EmptyList)));
}

#[test]
fn tail_of_singleton_is_empty() {
    // (tail {1}) = {}
    let e = se(vec![sym("tail"), qe(vec![n(1)])]);
    assert_eq!(run(e), Ok(qe(vec![])));
}

#[test]
fn head_of_empty_fails() {
    let e = se(vec![sym("head"), qe(vec![])]);
    assert_eq!(run(e), Err(Halt::Error(Error::EmptyList)));
}

#[test]
fn init_drops_last() {
    let e = se(vec![sym("init"), qe(vec![n(1), n(2), n(3)])]);
    assert_eq!(run(e), Ok(qe(vec![n(1), n(2)])));
}

#[test]
fn init_of_empty_fails() {
    let e = se(vec![sym("init"), qe(vec![])]);
    assert_eq!(run(e), Err(Halt::Error(Error::EmptyList)));
}

#[test]
fn len_of_join() {
    // (len (join {1 2} {3 4})) = 4
    let e = se(vec![
        sym("len"),
        se(vec![sym("join"), qe(vec![n(1), n(2)]), qe(vec![n(3), n(4)])]),
    ]);
    assert_eq!(run(e), Ok(n(4)));
}

#[test]
fn join_concatenates_in_order() {
    let e = se(vec![sym("join"), qe(vec![n(1), n(2)]), qe(vec![n(3)])]);
    assert_eq!(run(e), Ok(qe(vec![n(1), n(2), n(3)])));
}

#[test]
fn cons_prepends() {
    // (cons 0 {1 2}) = {0 1 2}
    let e = se(vec![sym("cons"), n(0), qe(vec![n(1), n(2)])]);
    assert_eq!(run(e), Ok(qe(vec![n(0), n(1), n(2)])));
}

#[test]
fn cons_arity_is_two() {
    let e = se(vec![sym("cons"), n(0)]);
    assert_eq!(run(e), Err(Halt::Error(Error::NumArguments(2, 1))));
}

#[test]
fn list_converts_arguments() {
    let e = se(vec![sym("list"), n(1), n(2), n(3)]);
    assert_eq!(run(e), Ok(qe(vec![n(1), n(2), n(3)])));
}

#[test]
fn len_wants_one_argument() {
    let e = se(vec![sym("len"), qe(vec![n(1)]), qe(vec![n(2)])]);
    assert_eq!(run(e), Err(Halt::Error(Error::NumArguments(1, 2))));
}

#[test]
fn lambda_applies_to_two_arguments() {
    // ((\ {x y} {+ x y}) 3 4) = 7
    let lam = se(vec![
        sym("\\"),
        qe(vec![sym("x"), sym("y")]),
        qe(vec![sym("+"), sym("x"), sym("y")]),
    ]);
    let e = se(vec![lam, n(3), n(4)]);
    assert_eq!(run(e), Ok(n(7)));
}

#[test]
fn lambda_arity_mismatch() {
    // calling the same lambda with 1 argument fails with NumArguments(2, 1)
    let lam = se(vec![
        sym("\\"),
        qe(vec![sym("x"), sym("y")]),
        qe(vec![sym("+"), sym("x"), sym("y")]),
    ]);
    let e = se(vec![lam, n(3)]);
    assert_eq!(run(e), Err(Halt::Error(Error::NumArguments(2, 1))));
}

#[test]
fn lambda_formals_must_be_symbols() {
    let e = se(vec![sym("\\"), qe(vec![n(1)]), qe(vec![n(2)])]);
    assert_eq!(
        run(e),
        Err(Halt::Error(Error::WrongType(
            "Symbol".to_string(),
            "1".to_string()
        )))
    );
}

#[test]
fn def_binds_in_calling_scope() {
    // (def {a b} 1 2) then a = 1, b = 2 in the same scope
    let mut env = Lenv::new();
    let d = se(vec![sym("def"), qe(vec![sym("a"), sym("b")]), n(1), n(2)]);
    assert_eq!(run_in(&mut env, 0, d), Ok(se(vec![])));
    assert_eq!(run_in(&mut env, 0, sym("a")), Ok(n(1)));
    assert_eq!(run_in(&mut env, 0, sym("b")), Ok(n(2)));
}

#[test]
fn def_visible_through_scope_chain() {
    // a defined in a scope is visible from a child of that scope,
    // but not from a sibling scope that never defined it
    let mut env = Lenv::new();
    let defining = env.push_scope(Vec::new(), 0);
    let d = se(vec![sym("def"), qe(vec![sym("a"), sym("b")]), n(1), n(2)]);
    assert_eq!(run_in(&mut env, defining, d), Ok(se(vec![])));
    assert_eq!(run_in(&mut env, defining, sym("a")), Ok(n(1)));
    let child = env.push_scope(Vec::new(), defining);
    assert_eq!(run_in(&mut env, child, sym("a")), Ok(n(1)));
    let sibling = env.push_scope(Vec::new(), 0);
    assert_eq!(
        run_in(&mut env, sibling, sym("a")),
        Err(Halt::Error(Error::UnknownFunction("a".to_string())))
    );
}

#[test]
fn def_wants_matching_counts() {
    let d = se(vec![sym("def"), qe(vec![sym("a"), sym("b")]), n(1)]);
    assert_eq!(run(d), Err(Halt::Error(Error::NumArguments(2, 1))));
}

#[test]
fn assignment_alias_defines_too() {
    let mut env = Lenv::new();
    let d = se(vec![sym("="), qe(vec![sym("z")]), n(9)]);
    assert_eq!(run_in(&mut env, 0, d), Ok(se(vec![])));
    assert_eq!(run_in(&mut env, 0, sym("z")), Ok(n(9)));
}

#[test]
fn divide_by_zero() {
    // (/ 5 0) fails with DivideByZero
    let e = se(vec![sym("/"), n(5), n(0)]);
    assert_eq!(run(e), Err(Halt::Error(Error::DivideByZero)));
}

#[test]
fn unary_negation() {
    // (- 5) = -5
    let e = se(vec![sym("-"), n(5)]);
    assert_eq!(run(e), Ok(n(-5)));
}

#[test]
fn reduce_number_is_identity() {
    assert_eq!(run(n(42)), Ok(n(42)));
}

#[test]
fn reduce_string_is_identity() {
    let s = Lval::Str("hello".to_string());
    assert_eq!(run(s.clone()), Ok(s));
}

#[test]
fn reduce_qexpr_is_identity() {
    let q = qe(vec![n(1), sym("x"), qe(vec![n(2)])]);
    assert_eq!(run(q.clone()), Ok(q));
}

#[test]
fn empty_sexpr_evaluates_to_itself() {
    assert_eq!(run(se(vec![])), Ok(se(vec![])));
}

#[test]
fn single_child_sexpr_unwraps() {
    assert_eq!(run(se(vec![n(5)])), Ok(n(5)));
}

#[test]
fn symbol_resolves_to_builtin_value() {
    let r = run(sym("head"));
    assert!(matches!(r, Ok(Lval::Fun(_))));
}

#[test]
fn unknown_symbol_fails() {
    assert_eq!(
        run(sym("nosuch")),
        Err(Halt::Error(Error::UnknownFunction("nosuch".to_string())))
    );
}

#[test]
fn applying_a_number_fails() {
    let e = se(vec![n(1), n(2)]);
    assert_eq!(
        run(e),
        Err(Halt::Error(Error::WrongType(
            "Function".to_string(),
            "1".to_string()
        )))
    );
}

#[test]
fn arithmetic_folds() {
    assert_eq!(run(se(vec![sym("+"), n(1), n(2), n(3)])), Ok(n(6)));
    assert_eq!(run(se(vec![sym("-"), n(10), n(2), n(3)])), Ok(n(5)));
    assert_eq!(run(se(vec![sym("*"), n(2), n(3), n(4)])), Ok(n(24)));
    assert_eq!(run(se(vec![sym("/"), n(20), n(2), n(5)])), Ok(n(2)));
    assert_eq!(run(se(vec![sym("%"), n(7), n(3)])), Ok(n(1)));
    assert_eq!(run(se(vec![sym("^"), n(2), n(10)])), Ok(n(1024)));
    assert_eq!(run(se(vec![sym("min"), n(3), n(1), n(2)])), Ok(n(1)));
    assert_eq!(run(se(vec![sym("max"), n(3), n(7), n(2)])), Ok(n(7)));
}

#[test]
fn arithmetic_word_aliases() {
    assert_eq!(run(se(vec![sym("add"), n(1), n(2)])), Ok(n(3)));
    assert_eq!(run(se(vec![sym("sub"), n(5)])), Ok(n(-5)));
    assert_eq!(run(se(vec![sym("mul"), n(6), n(7)])), Ok(n(42)));
    assert_eq!(run(se(vec![sym("div"), n(9), n(3)])), Ok(n(3)));
    assert_eq!(run(se(vec![sym("pow"), n(3), n(2)])), Ok(n(9)));
    assert_eq!(run(se(vec![sym("rem"), n(9), n(4)])), Ok(n(1)));
}

#[test]
fn remainder_by_zero_fails() {
    let e = se(vec![sym("%"), n(5), n(0)]);
    assert_eq!(run(e), Err(Halt::Error(Error::DivideByZero)));
}

#[test]
fn adding_a_list_is_not_a_number() {
    let e = se(vec![sym("+"), n(1), qe(vec![])]);
    assert_eq!(run(e), Err(Halt::Error(Error::NotANumber)));
}

#[test]
fn head_of_a_number_is_wrong_type() {
    let e = se(vec![sym("head"), n(5)]);
    assert_eq!(
        run(e),
        Err(Halt::Error(Error::WrongType(
            "qexpr".to_string(),
            "5".to_string()
        )))
    );
}

#[test]
fn do_returns_last_value() {
    let e = se(vec![sym("do"), n(1), n(2), n(3)]);
    assert_eq!(run(e), Ok(n(3)));
}

#[test]
fn do_sequences_definitions() {
    let mut env = Lenv::new();
    let e = se(vec![
        sym("do"),
        se(vec![sym("def"), qe(vec![sym("c")]), n(5)]),
        se(vec![sym("+"), sym("c"), n(1)]),
    ]);
    assert_eq!(run_in(&mut env, 0, e), Ok(n(6)));
}

#[test]
fn print_writes_to_output() {
    let e = se(vec![
        sym("print"),
        Lval::Str("total: ".to_string()),
        n(1234567),
    ]);
    let (r, out) = run_with_output(e);
    assert_eq!(r, Ok(se(vec![])));
    assert_eq!(out, "total: 1,234,567\n");
}

#[test]
fn print_groups_negative_numbers_over_the_sign() {
    // the grouping rule counts the sign as a character
    let e = se(vec![sym("print"), n(-123456)]);
    let (r, out) = run_with_output(e);
    assert_eq!(r, Ok(se(vec![])));
    assert_eq!(out, "-,123,456\n");
}

#[test]
fn exit_requests_termination() {
    let e = se(vec![sym("exit"), n(0)]);
    let (r, out) = run_with_output(e);
    assert_eq!(r, Err(Halt::Exit));
    assert_eq!(out, "Goodbye!\n");
}

#[test]
fn evaluation_depth_is_bounded() {
    let mut env = Lenv::new();
    let mut out = String::new();
    let e = se(vec![sym("+"), n(1), n(2)]);
    assert_eq!(eval(&mut env, 0, e, &mut out, 1), Err(Halt::StackExhausted));
}

#[test]
fn addition_is_commutative_here() {
    let a = run(se(vec![sym("+"), n(17), n(4), n(21)]));
    let b = run(se(vec![sym("+"), n(21), n(17), n(4)]));
    assert_eq!(a, b);
    assert_eq!(a, Ok(n(42)));
}

#[test]
fn addition_is_associative_here() {
    let nested = run(se(vec![sym("+"), se(vec![sym("+"), n(1), n(2)]), n(3)]));
    let flat = run(se(vec![sym("+"), n(1), n(2), n(3)]));
    assert_eq!(nested, flat);
    assert_eq!(flat, Ok(n(6)));
}

#[test]
fn fun_alias_builds_lambda() {
    let lam = se(vec![sym("fun"), qe(vec![sym("x")]), qe(vec![sym("x")])]);
    let e = se(vec![lam, n(11)]);
    assert_eq!(run(e), Ok(n(11)));
}

#[test]
fn power_with_negative_exponent_is_rejected() {
    let e = se(vec![sym("^"), n(2), n(-1)]);
    assert_eq!(
        run(e),
        Err(Halt::Error(Error::WrongType(
            "non-negative Number".to_string(),
            "-1".to_string()
        )))
    );
}

#[test]
fn defined_lambda_is_callable_later() {
    let mut env = Lenv::new();
    let make = se(vec![
        sym("def"),
        qe(vec![sym("add5")]),
        se(vec![
            sym("\\"),
            qe(vec![sym("x")]),
            qe(vec![sym("+"), sym("x"), n(5)]),
        ]),
    ]);
    assert_eq!(run_in(&mut env, 0, make), Ok(se(vec![])));
    let call = se(vec![sym("add5"), n(37)]);
    assert_eq!(run_in(&mut env, 0, call), Ok(n(42)));
}

#[test]
fn qexpr_children_stay_unevaluated() {
    // a literal list may hold unresolved symbols and nested expressions
    let q = qe(vec![sym("undefined"), se(vec![sym("+"), n(1), n(2)])]);
    assert_eq!(run(q.clone()), Ok(q));
}

#[test]
fn print_of_empty_sexpr_is_silent() {
    let e = se(vec![sym("print"), se(vec![])]);
    let (r, out) = run_with_output(e);
    assert_eq!(r, Ok(se(vec![])));
    assert_eq!(out, "\n");
}

#[test]
fn rebinding_shadows_a_builtin_locally() {
    let mut env = Lenv::new();
    let d = se(vec![sym("def"), qe(vec![sym("+")]), n(1)]);
    assert_eq!(run_in(&mut env, 0, d), Ok(se(vec![])));
    // the operator position now reduces to a number, which cannot be applied
    let e = se(vec![sym("+"), n(1), n(2)]);
    assert_eq!(
        run_in(&mut env, 0, e),
        Err(Halt::Error(Error::WrongType(
            "Function".to_string(),
            "1".to_string()
        )))
    );
}

#[test]
fn nested_lists_reduce_inside_out() {
    // (* (+ 1 2) (- 10 4)) = 18
    let e = se(vec![
        sym("*"),
        se(vec![sym("+"), n(1), n(2)]),
        se(vec![sym("-"), n(10), n(4)]),
    ]);
    assert_eq!(run(e), Ok(n(18)));
}

#[test]
fn lambda_scoping_is_lexical() {
    // a name bound only in the calling scope is invisible to the body
    let mut env = Lenv::new();
    let caller = env.push_scope(Vec::new(), 0);
    let d = se(vec![sym("def"), qe(vec![sym("q")]), n(42)]);
    assert_eq!(run_in(&mut env, caller, d), Ok(se(vec![])));
    // built at the root, so its free names resolve from the root
    let built = run_in(
        &mut env,
        0,
        se(vec![sym("\\"), qe(vec![sym("x")]), qe(vec![sym("q")])]),
    );
    let lam = match built {
        Ok(v) => v,
        Err(_) => panic!("building the lambda failed"),
    };
    assert_eq!(
        run_in(&mut env, caller, se(vec![lam, n(1)])),
        Err(Halt::Error(Error::UnknownFunction("q".to_string())))
    );
}

#[test]
fn lambda_sees_its_defining_scope() {
    let mut env = Lenv::new();
    let defining = env.push_scope(Vec::new(), 0);
    let d = se(vec![sym("def"), qe(vec![sym("q")]), n(42)]);
    assert_eq!(run_in(&mut env, defining, d), Ok(se(vec![])));
    let built = run_in(
        &mut env,
        defining,
        se(vec![sym("\\"), qe(vec![sym("x")]), qe(vec![sym("q")])]),
    );
    let lam = match built {
        Ok(v) => v,
        Err(_) => panic!("building the lambda failed"),
    };
    // called from the root, where q is not bound: resolves lexically
    assert_eq!(run_in(&mut env, 0, se(vec![lam, n(1)])), Ok(n(42)));
}

#[test]
fn lambda_sees_later_definitions_in_its_scope() {
    let mut env = Lenv::new();
    let mk = se(vec![
        sym("def"),
        qe(vec![sym("addy")]),
        se(vec![
            sym("\\"),
            qe(vec![sym("x")]),
            qe(vec![sym("+"), sym("x"), sym("y")]),
        ]),
    ]);
    assert_eq!(run_in(&mut env, 0, mk), Ok(se(vec![])));
    let dy = se(vec![sym("def"), qe(vec![sym("y")]), n(10)]);
    assert_eq!(run_in(&mut env, 0, dy), Ok(se(vec![])));
    assert_eq!(run_in(&mut env, 0, se(vec![sym("addy"), n(1)])), Ok(n(11)));
}

#[test]
fn lone_non_number_operand_fails() {
    // every operand of an arithmetic fold must be a number, a lone one too
    let e = se(vec![sym("+"), qe(vec![n(1), n(2)])]);
    assert_eq!(run(e), Err(Halt::Error(Error::NotANumber)));
    let m = se(vec![sym("min"), qe(vec![])]);
    assert_eq!(run(m), Err(Halt::Error(Error::NotANumber)));
}

#[test]
fn lambda_from_a_missing_scope_cannot_be_applied() {
    // a hand-built lambda pointing at a scope this arena does not hold
    let lam = lambda(7, qe(vec![sym("x")]), qe(vec![sym("x")]));
    let r = run(se(vec![lam, n(1)]));
    assert!(matches!(
        r,
        Err(Halt::Error(Error::WrongType(kind, _))) if kind == "Function"
    ));
}


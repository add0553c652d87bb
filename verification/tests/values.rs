use replisp::builtins::builtin_stub;
use replisp::error::Error;
use replisp::lenv::Lenv;
use replisp::lval::{builtin, lambda, num, qexpr, sexpr, BuiltinOp, Lval};
use replisp::render::{format_number, render};

fn q(items: Vec<Lval>) -> Lval {
    Lval::Qexpr(items)
}

#[test]
fn as_num_reads_numbers_only() {
    assert_eq!(num(7).as_num(), Ok(7));
    assert_eq!(sexpr().as_num(), Err(Error::NotANumber));
}

#[test]
fn as_string_reads_symbols_and_strings() {
    assert_eq!(
        Lval::Sym("abc".to_string()).as_string(),
        Ok("abc".to_string())
    );
    assert_eq!(
        Lval::Str("txt".to_string()).as_string(),
        Ok("txt".to_string())
    );
    assert_eq!(
        num(3).as_string(),
        Err(Error::WrongType(
            "string or symbol".to_string(),
            "3".to_string()
        ))
    );
}

#[test]
fn len_counts_children() {
    assert_eq!(q(vec![num(1), num(2)]).len(), Ok(2));
    assert_eq!(sexpr().len(), Ok(0));
    assert_eq!(num(1).len(), Err(Error::NoChildren));
}

#[test]
fn add_appends_a_child() {
    let mut v = qexpr();
    assert_eq!(replisp::lval::add(&mut v, &num(1)), Ok(()));
    assert_eq!(replisp::lval::add(&mut v, &num(2)), Ok(()));
    assert_eq!(v, q(vec![num(1), num(2)]));
    let mut w = num(0);
    assert_eq!(replisp::lval::add(&mut w, &num(1)), Err(Error::NoChildren));
}

#[test]
fn pop_removes_at_index() {
    let mut v = q(vec![num(1), num(2), num(3)]);
    assert_eq!(replisp::lval::pop(&mut v, 1), Ok(num(2)));
    assert_eq!(v, q(vec![num(1), num(3)]));
    let mut w = Lval::Sym("a".to_string());
    assert_eq!(replisp::lval::pop(&mut w, 0), Err(Error::NoChildren));
}

#[test]
fn join_drains_the_second_list() {
    let mut x = q(vec![num(1)]);
    let y = q(vec![num(2), num(3)]);
    assert_eq!(replisp::lval::join(&mut x, y), Ok(()));
    assert_eq!(x, q(vec![num(1), num(2), num(3)]));
    let mut z = q(vec![]);
    assert_eq!(replisp::lval::join(&mut z, num(1)), Err(Error::NoChildren));
}

#[test]
fn clone_is_deep() {
    let original = q(vec![num(1), q(vec![Lval::Sym("x".to_string())])]);
    let copy = original.clone();
    assert_eq!(original, copy);
}

#[test]
fn format_number_groups_thousands() {
    assert_eq!(format_number(0), "0");
    assert_eq!(format_number(12), "12");
    assert_eq!(format_number(1234), "1,234");
    assert_eq!(format_number(1234567), "1,234,567");
    // the rule counts the sign as a character
    assert_eq!(format_number(-123456), "-,123,456");
}

#[test]
fn render_shows_the_display_form() {
    let e = Lval::Sexpr(vec![
        Lval::Sym("+".to_string()),
        num(1),
        q(vec![num(2), num(3)]),
    ]);
    assert_eq!(render(&e), "(+ 1 {2 3})");
    assert_eq!(render(&Lval::Str("hi".to_string())), "\"hi\"");
    assert_eq!(render(&builtin(BuiltinOp::Add, "+")), "<builtin +>");
}

#[test]
fn render_shows_lambdas() {
    let lam = lambda(
        0,
        q(vec![Lval::Sym("x".to_string())]),
        q(vec![Lval::Sym("x".to_string())]),
    );
    assert_eq!(render(&lam), "(\\ {x} {x})");
}

#[test]
fn environment_binds_and_resolves() {
    let mut env = Lenv::new();
    env.put(0, "answer".to_string(), num(42));
    assert_eq!(env.get(0, &"answer".to_string()), Ok(num(42)));
    assert_eq!(
        env.get(0, &"question".to_string()),
        Err(Error::UnknownFunction("question".to_string()))
    );
}

#[test]
fn environment_rebinding_shadows() {
    let mut env = Lenv::new();
    env.put(0, "x".to_string(), num(1));
    env.put(0, "x".to_string(), num(2));
    assert_eq!(env.get(0, &"x".to_string()), Ok(num(2)));
}

#[test]
fn child_scope_reads_parent_and_binds_locally() {
    let mut env = Lenv::new();
    env.put(0, "x".to_string(), num(1));
    let child = env.push_scope(Vec::new(), 0);
    assert_eq!(env.get(child, &"x".to_string()), Ok(num(1)));
    env.put(child, "x".to_string(), num(9));
    assert_eq!(env.get(child, &"x".to_string()), Ok(num(9)));
    // the parent binding is shadowed, never overwritten
    assert_eq!(env.get(0, &"x".to_string()), Ok(num(1)));
}

#[test]
fn builtins_are_pre_registered() {
    let env = Lenv::new();
    assert!(env.get(0, &"head".to_string()).is_ok());
    assert!(env.get(0, &"+".to_string()).is_ok());
    assert!(env.get(0, &"def".to_string()).is_ok());
}

#[test]
fn stub_always_fails() {
    let mut args = Lval::Sexpr(vec![num(1)]);
    let r = builtin_stub(&mut args);
    assert_eq!(
        r,
        Err(Error::WrongType(
            "builtin dispatched by the evaluator".to_string(),
            "(1)".to_string()
        ))
    );
}

#[test]
fn direct_builtin_head() {
    let mut args = Lval::Sexpr(vec![q(vec![num(4), num(5)])]);
    assert_eq!(replisp::builtins::builtin_head(&mut args), Ok(num(4)));
}

#[test]
fn direct_builtin_op_wrappers() {
    let mut a = Lval::Sexpr(vec![num(2), num(3)]);
    assert_eq!(replisp::builtins::builtin_add(&mut a), Ok(num(5)));
    let mut s = Lval::Sexpr(vec![num(2), num(3)]);
    assert_eq!(replisp::builtins::builtin_sub(&mut s), Ok(num(-1)));
    let mut m = Lval::Sexpr(vec![num(2), num(3)]);
    assert_eq!(replisp::builtins::builtin_mul(&mut m), Ok(num(6)));
    let mut d = Lval::Sexpr(vec![num(6), num(3)]);
    assert_eq!(replisp::builtins::builtin_div(&mut d), Ok(num(2)));
    let mut p = Lval::Sexpr(vec![num(2), num(3)]);
    assert_eq!(replisp::builtins::builtin_pow(&mut p), Ok(num(8)));
    let mut r = Lval::Sexpr(vec![num(7), num(4)]);
    assert_eq!(replisp::builtins::builtin_rem(&mut r), Ok(num(3)));
    let mut mx = Lval::Sexpr(vec![num(7), num(4)]);
    assert_eq!(replisp::builtins::builtin_max(&mut mx), Ok(num(7)));
    let mut mn = Lval::Sexpr(vec![num(7), num(4)]);
    assert_eq!(replisp::builtins::builtin_min(&mut mn), Ok(num(4)));
}

#[test]
fn wrapping_addition_at_the_edge() {
    let mut a = Lval::Sexpr(vec![num(i64::MAX), num(1)]);
    assert_eq!(replisp::builtins::builtin_add(&mut a), Ok(num(i64::MIN)));
}

#[test]
fn division_wraps_on_the_overflow_case() {
    let mut d = Lval::Sexpr(vec![num(i64::MIN), num(-1)]);
    assert_eq!(replisp::builtins::builtin_div(&mut d), Ok(num(i64::MIN)));
}

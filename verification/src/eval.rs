//! The evaluator: the recursive reduction algorithm, the application
//! dispatcher, and the environment-aware builtins `def` and `do`.
//!
//! Every evaluating function carries a `fuel` that bounds the depth of
//! nested evaluation, the analogue of the native call stack; running out of
//! it is the unrecoverable `StackExhausted` halt. Output written by `print`
//! and `exit` goes to the `out` sink.

use crate::builtins::{
    arith_spec, check_formals, cons_spec, head_spec, init_spec, is_arith, join_spec,
    lambda_spec, len_spec, print_seq, tail_spec,
};
use crate::error::{Error, ErrV, Halt, ReplispResult};
use crate::lenv::Lenv;
use crate::lval::{
    cells_of, lemma_vals_of, list_cells, sexpr, val_of, vals_of, BuiltinOp, Func, Lval, Val,
};
use crate::render::text_of;
use crate::semantics::{
    bind_s, call_s, do_s, do_seq_s, env_model, eval_cells_s, eval_s, eval_seq_s,
    lemma_eval_seq_value_shape, lemma_model_def, lemma_model_push, lemma_model_put,
    lemma_model_resolve, push_m, seq_glue, stay, Outcome, State, Step,
};
use vstd::prelude::*;

verus! {

/// The outcome of one evaluation: a value, or the reason it stopped.
pub type EvalResult = Result<Lval, Halt>;

/// The model of an evaluation outcome, where one exists: `Exit` and
/// `StackExhausted` carry no value.
pub open spec fn eval_res_view(r: EvalResult) -> Option<Result<Val, ErrV>> {
    match r {
        Ok(v) => Some(Ok(v@)),
        Err(Halt::Error(e)) => Some(Err(e@)),
        Err(_) => None,
    }
}

/// An evaluation outcome matches a modelled result exactly.
pub open spec fn lift_halt(s: Result<Val, ErrV>, r: EvalResult) -> bool {
    eval_res_view(r) == Some(s)
}

/// The model of the world an evaluation starts from or ends in.
pub open spec fn sem_state(env: Lenv, out: Seq<char>) -> State {
    State { scopes: env_model(env), out: out }
}

/// Execution landed exactly on the given semantic step: same scope models,
/// same output text, and the same outcome.
pub open spec fn matches_step(step: Step, env: Lenv, out: Seq<char>, r: EvalResult) -> bool {
    &&& env_model(env) == step.state.scopes
    &&& out == step.state.out
    &&& step.outcome == (match r {
        Ok(v) => Outcome::Value(v@),
        Err(Halt::Error(e)) => Outcome::Fail(e@),
        Err(Halt::Exit) => Outcome::Exit,
        Err(Halt::StackExhausted) => Outcome::Spent,
    })
}

/// The evaluator only ever grows the scope arena: well-formedness is kept,
/// no scope is dropped, and the parent chain of existing scopes is fixed.
pub open spec fn env_extended(pre: Lenv, post: Lenv) -> bool {
    &&& post.wf()
    &&& post.n_scopes() >= pre.n_scopes()
    &&& forall|j: int|
        0 <= j < pre.n_scopes() ==> #[trigger] post.parent_of(j) == pre.parent_of(j)
}

/// A value that evaluates to itself: everything but a symbol or an
/// S-expression.
pub open spec fn self_evaluating(v: Val) -> bool {
    !(v is Sym) && !(v is Sexpr)
}

/// The names bound by a `def` symbol list, in order.
pub open spec fn sym_names(s: Seq<Val>) -> Seq<Seq<char>>
    decreases s.len(),
{
    if s.len() == 0 {
        Seq::empty()
    } else {
        seq![
            match s[0] {
                Val::Sym(n) => n,
                _ => Seq::empty(),
            },
        ] + sym_names(s.subrange(1, s.len() as int))
    }
}

/// `sym_names` element by element.
proof fn lemma_sym_names(s: Seq<Val>)
    ensures
        sym_names(s).len() == s.len(),
        forall|i: int|
            0 <= i < s.len() ==> #[trigger] sym_names(s)[i] == (match s[i] {
                Val::Sym(n) => n,
                _ => Seq::empty(),
            }),
    decreases s.len(),
{
    if s.len() > 0 {
        lemma_sym_names(s.subrange(1, s.len() as int));
    }
}


/// When the formal check passes, every element is a symbol.
proof fn lemma_check_formals_ok(s: Seq<Val>)
    requires
        check_formals(s) is Ok,
    ensures
        forall|i: int| 0 <= i < s.len() ==> (#[trigger] s[i]) is Sym,
    decreases s.len(),
{
    if s.len() > 0 {
        let rest = s.subrange(1, s.len() as int);
        lemma_check_formals_ok(rest);
        assert forall|i: int| 0 <= i < s.len() implies (#[trigger] s[i]) is Sym by {
            if i > 0 {
                assert(rest[i - 1] == s[i]);
            }
        }
    }
}

/// What `def` decides from an argument list: the names to bind, or the
/// failure. The first argument must be a literal list of symbols, and the
/// remaining arguments must match it in number.
pub open spec fn def_spec(c: Seq<Val>) -> Result<Seq<Seq<char>>, ErrV>
    recommends
        c.len() >= 1,
{
    match c[0] {
        Val::Qexpr(symcells) => match check_formals(symcells) {
            Ok(()) => if symcells.len() != c.len() - 1 {
                Err(ErrV::NumArguments(symcells.len() as int, c.len() - 1))
            } else {
                Ok(sym_names(symcells))
            },
            Err(e) => Err(e),
        },
        _ => Err(ErrV::WrongType("Q-Expression"@, text_of(c[0]))),
    }
}

/// A map after binding each name to its value, left to right.
pub open spec fn insert_all(
    m: Map<Seq<char>, Val>,
    names: Seq<Seq<char>>,
    vals: Seq<Val>,
) -> Map<Seq<char>, Val>
    recommends
        names.len() == vals.len(),
    decreases names.len(),
{
    if names.len() == 0 {
        m
    } else {
        insert_all(
            m.insert(names[0], vals[0]),
            names.subrange(1, names.len() as int),
            vals.subrange(1, vals.len() as int),
        )
    }
}

/// What `def` leaves behind: on success an empty S-expression and the
/// calling scope alone extended with the bindings; on failure the exact
/// error and an untouched environment.
pub open spec fn def_outcome(
    c: Seq<Val>,
    pre: Lenv,
    post: Lenv,
    scope: int,
    outcome: Result<Val, ErrV>,
) -> bool {
    &&& (def_spec(c) matches Ok(names) ==> (outcome == Ok::<Val, ErrV>(
        Val::Sexpr(Seq::empty()),
    ) && post.bindings(scope) == insert_all(
        pre.bindings(scope),
        names,
        c.subrange(1, c.len() as int),
    ) && pre.same_but(post, scope) && post.n_scopes() == pre.n_scopes()))
    &&& (def_spec(c) matches Err(e) ==> (outcome == Err::<Val, ErrV>(e) && post == pre))
}

/// Bind each symbol of a literal list to the correspondingly positioned
/// value, in the calling scope alone; definition is always local.
#[verifier::loop_isolation(false)]
pub fn builtin_def(env: &mut Lenv, scope: usize, a: &mut Lval) -> (r: ReplispResult<Lval>)
    requires
        old(env).wf(),
        scope < old(env).n_scopes(),
        list_cells(old(a)@) matches Some(c) ==> c.len() >= 1,
    ensures
        final(env).wf(),
        final(env).n_scopes() == old(env).n_scopes(),
        list_cells(old(a)@) matches Some(c) ==> def_outcome(
            c,
            *old(env),
            *final(env),
            scope as int,
            match r {
                Ok(v) => Ok(v@),
                Err(e) => Err(e@),
            },
        ),
        list_cells(old(a)@) is None ==> (r matches Err(e) && e@ == ErrV::NoChildren
            && *final(env) == *old(env)),
{
    let ghost c = cells_of(a@);
    let symbols = crate::lval::pop(a, 0)?;
    match symbols {
        Lval::Qexpr(symcells) => {
            let n = symcells.len();
            proof {
                lemma_vals_of(symcells@);
                lemma_sym_names(vals_of(symcells@));
                assert(vals_of(symcells@).subrange(0, n as int) =~= vals_of(symcells@));
            }
            let mut i: usize = 0;
            while i < n
                invariant
                    i <= n,
                    n == symcells@.len(),
                    check_formals(vals_of(symcells@)) == check_formals(
                        vals_of(symcells@).subrange(i as int, n as int),
                    ),
                decreases n - i,
            {
                let ghost rest = vals_of(symcells@).subrange(i as int, n as int);
                proof {
                    assert(rest[0] == vals_of(symcells@)[i as int]);
                    assert(rest.subrange(1, rest.len() as int) =~= vals_of(
                        symcells@,
                    ).subrange(i as int + 1, n as int));
                }
                match &symcells[i] {
                    Lval::Sym(_) => (),
                    other => {
                        return Err(
                            Error::WrongType(
                                "Symbol".to_owned(),
                                crate::render::render(other),
                            ),
                        );
                    }
                }
                i = i + 1;
            }
            proof {
                assert(vals_of(symcells@).subrange(n as int, n as int)
                    =~= Seq::<Val>::empty());
            }
            let val_count = match a.len() {
                Ok(k) => k,
                Err(e) => {
                    proof {
                        assert(false);
                    }
                    return Err(e);
                }
            };
            if n != val_count {
                return Err(Error::NumArguments(n, val_count));
            }
            let ghost names = sym_names(vals_of(symcells@));
            let ghost vals = c.subrange(1, c.len() as int);
            let ghost bindings0 = env.bindings(scope as int);
            let ghost env0 = *env;
            proof {
                assert(cells_of(a@) =~= vals);
                assert(names.subrange(0, n as int) =~= names);
                assert(vals.subrange(0, n as int) =~= vals);
            }
            proof {
                lemma_check_formals_ok(vals_of(symcells@));
            }
            let mut k: usize = 0;
            while k < n
                invariant
                    k <= n,
                    n == symcells@.len(),
                    names.len() == n,
                    vals.len() == n,
                    forall|j: int|
                        0 <= j < n ==> (#[trigger] vals_of(symcells@)[j]) is Sym,
                    env.wf(),
                    scope < env.n_scopes(),
                    env.n_scopes() == env0.n_scopes(),
                    env0.same_but(*env, scope as int),
                    list_cells(a@) is Some,
                    cells_of(a@) =~= vals.subrange(k as int, n as int),
                    insert_all(bindings0, names, vals) == insert_all(
                        env.bindings(scope as int),
                        names.subrange(k as int, n as int),
                        vals.subrange(k as int, n as int),
                    ),
                decreases n - k,
            {
                let ghost names_rest = names.subrange(k as int, n as int);
                let ghost vals_rest = vals.subrange(k as int, n as int);
                proof {
                    assert(names_rest[0] == names[k as int]);
                    assert(vals_rest[0] == vals[k as int]);
                    assert(names_rest.subrange(1, names_rest.len() as int) =~= names.subrange(
                        k as int + 1,
                        n as int,
                    ));
                    assert(vals_rest.subrange(1, vals_rest.len() as int) =~= vals.subrange(
                        k as int + 1,
                        n as int,
                    ));
                }
                let name = match &symcells[k] {
                    Lval::Sym(s) => s.clone(),
                    _ => {
                        proof {
                            assert(false);
                        }
                        return Err(Error::NoChildren);
                    }
                };
                let value = match crate::lval::pop(a, 0) {
                    Ok(v) => v,
                    Err(e) => {
                        proof {
                            assert(false);
                        }
                        return Err(e);
                    }
                };
                proof {
                    assert(cells_of(a@) =~= vals.subrange(k as int + 1, n as int));
                }
                env.put(scope, name, value);
                k = k + 1;
            }
            proof {
                assert(names.subrange(n as int, n as int) =~= Seq::<Seq<char>>::empty());
                assert(vals.subrange(n as int, n as int) =~= Seq::<Val>::empty());
            }
            Ok(sexpr())
        }
        other => Err(
            Error::WrongType("Q-Expression".to_owned(), crate::render::render(&other)),
        ),
    }
}

/// Evaluate a sequence of sub-expressions in order within the calling
/// scope, returning the value of the last one; an empty sequence yields an
/// empty S-expression.
#[verifier::loop_isolation(false)]
pub fn builtin_do(
    env: &mut Lenv,
    scope: usize,
    v: &mut Lval,
    out: &mut String,
    fuel: u64,
) -> (r: EvalResult)
    requires
        old(env).wf(),
        scope < old(env).n_scopes(),
    ensures
        env_extended(*old(env), *final(env)),
        matches_step(
            do_s(sem_state(*old(env), old(out)@), scope as int, old(v)@, fuel as nat),
            *final(env),
            final(out)@,
            r,
        ),
        fuel == 0 ==> (r == Err::<Lval, Halt>(Halt::StackExhausted) && *final(env) == *old(env)
            && final(out)@ == old(out)@),
        fuel >= 1 && !(old(v)@ is Sexpr) ==> (r matches Err(h) && (h matches Halt::Error(e)
            && e@ == ErrV::WrongType("sexpr"@, text_of(old(v)@))) && *final(env) == *old(env)
            && final(out)@ == old(out)@),
        fuel >= 1 && old(v)@ == Val::Sexpr(Seq::<Val>::empty()) ==> (r matches Ok(res) && res@
            == Val::Sexpr(Seq::empty()) && *final(env) == *old(env) && final(out)@
            == old(out)@),
    decreases fuel,
{
    let ghost st0 = sem_state(*env, out@);
    if fuel == 0 {
        return Err(Halt::StackExhausted);
    }
    match v {
        Lval::Sexpr(cells) => {
            proof {
                lemma_vals_of(cells@);
            }
            if cells.len() == 0 {
                return Ok(sexpr());
            }
            let mut result = sexpr();
            let n = cells.len();
            let ghost env0 = *env;
            let ghost vals = vals_of(cells@);
            let ghost f1 = (fuel - 1) as nat;
            let ghost total = do_seq_s(st0, scope as int, vals, f1);
            proof {
                assert(vals.subrange(0, n as int) =~= vals);
            }
            let mut i: usize = 0;
            while i < n
                invariant
                    i <= n,
                    n == cells@.len(),
                    env.wf(),
                    scope < env.n_scopes(),
                    env_extended(env0, *env),
                    i < n ==> total == do_seq_s(
                        sem_state(*env, out@),
                        scope as int,
                        vals.subrange(i as int, n as int),
                        f1,
                    ),
                    i == n ==> total == stay(
                        sem_state(*env, out@),
                        Outcome::Value(result@),
                    ),
                decreases n - i,
            {
                let ghost rest = vals.subrange(i as int, n as int);
                proof {
                    assert(rest[0] == vals[i as int]);
                    assert(rest.subrange(1, rest.len() as int) =~= vals.subrange(
                        i as int + 1,
                        n as int,
                    ));
                }
                let mut cell_clone = cells[i].clone();
                match lval_eval(env, scope, &mut cell_clone, out, fuel - 1) {
                    Ok(value) => {
                        result = value;
                    }
                    Err(h) => {
                        return Err(h);
                    }
                }
                i = i + 1;
            }
            Ok(result)
        }
        other => {
            Err(
                Halt::Error(
                    Error::WrongType("sexpr".to_owned(), crate::render::render(other)),
                ),
            )
        }
    }
}

/// Reduce every child of an S-expression left to right, collecting the
/// results into a new S-expression of the same length.
#[verifier::loop_isolation(false)]
pub fn eval_cells(
    env: &mut Lenv,
    scope: usize,
    cells: &Vec<Lval>,
    out: &mut String,
    fuel: u64,
) -> (r: EvalResult)
    requires
        old(env).wf(),
        scope < old(env).n_scopes(),
    ensures
        env_extended(*old(env), *final(env)),
        matches_step(
            eval_cells_s(
                sem_state(*old(env), old(out)@),
                scope as int,
                vals_of(cells@),
                fuel as nat,
            ),
            *final(env),
            final(out)@,
            r,
        ),
        fuel == 0 ==> (r == Err::<Lval, Halt>(Halt::StackExhausted) && *final(env) == *old(env)
            && final(out)@ == old(out)@),
        r matches Ok(res) ==> (res@ is Sexpr && cells_of(res@).len() == cells@.len()),
    decreases fuel,
{
    let ghost st0 = sem_state(*env, out@);
    if fuel == 0 {
        return Err(Halt::StackExhausted);
    }
    proof {
        lemma_vals_of(cells@);
    }
    let mut acc = sexpr();
    let n = cells.len();
    let ghost env0 = *env;
    let ghost vals = vals_of(cells@);
    let ghost f1 = (fuel - 1) as nat;
    let ghost total = eval_seq_s(st0, scope as int, vals, f1);
    proof {
        assert(vals.subrange(0, n as int) =~= vals);
        lemma_eval_seq_value_shape(st0, scope as int, vals, f1);
        assert(Seq::<Val>::empty() + cells_of(total.outcome->Value_0)
            =~= cells_of(total.outcome->Value_0));
        assert(total == seq_glue(cells_of(acc@), eval_seq_s(st0, scope as int, vals, f1)))
            by {
            match total.outcome {
                Outcome::Value(rv) => {
                    assert(rv is Sexpr);
                    assert(Val::Sexpr(Seq::<Val>::empty() + cells_of(rv)) == rv);
                    assert(seq_glue(cells_of(acc@), total) =~~= total);
                }
                _ => (),
            }
        }
    }
    let mut i: usize = 0;
    while i < n
        invariant
            i <= n,
            n == cells@.len(),
            vals.len() == n,
            env.wf(),
            scope < env.n_scopes(),
            env_extended(env0, *env),
            acc@ is Sexpr,
            cells_of(acc@).len() == i,
            total == seq_glue(
                cells_of(acc@),
                eval_seq_s(
                    sem_state(*env, out@),
                    scope as int,
                    vals.subrange(i as int, n as int),
                    f1,
                ),
            ),
        decreases n - i,
    {
        let ghost rest = vals.subrange(i as int, n as int);
        let ghost cur = sem_state(*env, out@);
        let ghost done = cells_of(acc@);
        proof {
            assert(rest[0] == vals[i as int]);
            assert(rest.subrange(1, rest.len() as int) =~= vals.subrange(
                i as int + 1,
                n as int,
            ));
        }
        let mut child = cells[i].clone();
        let value = match lval_eval(env, scope, &mut child, out, fuel - 1) {
            Ok(value) => value,
            Err(h) => {
                return Err(h);
            }
        };
        proof {
            let first = eval_s(cur, scope as int, rest[0], f1);
            assert(first.outcome == Outcome::Value(value@));
            let tail_step = eval_seq_s(
                sem_state(*env, out@),
                scope as int,
                vals.subrange(i as int + 1, n as int),
                f1,
            );
            assert(eval_seq_s(cur, scope as int, rest, f1) == (match tail_step.outcome {
                Outcome::Value(rv) => Step {
                    state: tail_step.state,
                    outcome: Outcome::Value(Val::Sexpr(seq![value@] + cells_of(rv))),
                },
                _ => tail_step,
            }));
            match tail_step.outcome {
                Outcome::Value(rv) => {
                    assert(done + (seq![value@] + cells_of(rv)) =~= done.push(value@)
                        + cells_of(rv));
                    assert(seq_glue(done, eval_seq_s(cur, scope as int, rest, f1))
                        =~~= seq_glue(done.push(value@), tail_step));
                }
                _ => {
                    assert(seq_glue(done, eval_seq_s(cur, scope as int, rest, f1))
                        == seq_glue(done.push(value@), tail_step));
                }
            }
        }
        match crate::lval::add(&mut acc, &value) {
            Ok(()) => (),
            Err(e) => {
                proof {
                    assert(false);
                }
                return Err(Halt::Error(e));
            }
        }
        i = i + 1;
    }
    proof {
        assert(vals.subrange(n as int, n as int) =~= Seq::<Val>::empty());
        assert(cells_of(acc@) + Seq::<Val>::empty() =~= cells_of(acc@));
        assert(Val::Sexpr(cells_of(acc@) + Seq::<Val>::empty()) == acc@);
    }
    Ok(acc)
}

/// Apply an operator value to a reduced argument list. A native operation
/// is dispatched by its tag, the environment-aware ones and the output-
/// writing ones handled here; a lambda gets a fresh scope over its captured
/// bindings, its formals bound to the arguments, and its body reduced
/// there. Anything else is not a function.
#[verifier::loop_isolation(false)]
pub fn lval_call(
    env: &mut Lenv,
    scope: usize,
    f: Lval,
    args: &mut Lval,
    out: &mut String,
    fuel: u64,
) -> (r: EvalResult)
    requires
        old(env).wf(),
        scope < old(env).n_scopes(),
        old(args)@ matches Val::Sexpr(c) && c.len() >= 1,
    ensures
        env_extended(*old(env), *final(env)),
        matches_step(
            call_s(
                sem_state(*old(env), old(out)@),
                scope as int,
                f@,
                cells_of(old(args)@),
                fuel as nat,
            ),
            *final(env),
            final(out)@,
            r,
        ),
        fuel == 0 ==> (r == Err::<Lval, Halt>(Halt::StackExhausted) && *final(env) == *old(env)
            && final(out)@ == old(out)@),
        fuel >= 1 ==> lval_call_post(
            f@,
            cells_of(old(args)@),
            *old(env),
            *final(env),
            scope as int,
            old(out)@,
            final(out)@,
            r,
        ),
    decreases fuel,
{
    let ghost st0 = sem_state(*env, out@);
    let ghost fv = f@;
    if fuel == 0 {
        return Err(Halt::StackExhausted);
    }
    let ghost c = cells_of(args@);
    proof {
        assert(args@ == Val::Sexpr(c));
    }
    let ghost spec_step = call_s(st0, scope as int, fv, c, fuel as nat);
    match f {
        Lval::Fun(Func::Builtin(_name, op)) => {
            match op {
                BuiltinOp::Do => builtin_do(env, scope, args, out, fuel - 1),
                BuiltinOp::Def => {
                    let ghost pre = *env;
                    let result = builtin_def(env, scope, args);
                    proof {
                        match def_spec(c) {
                            Ok(names) => {
                                lemma_model_def(
                                    pre,
                                    *env,
                                    scope as int,
                                    names,
                                    c.subrange(1, c.len() as int),
                                );
                            }
                            Err(_) => (),
                        }
                    }
                    match result {
                        Ok(v) => Ok(v),
                        Err(e) => Err(Halt::Error(e)),
                    }
                }
                BuiltinOp::Print => {
                    match crate::builtins::builtin_print(args, out) {
                        Ok(v) => Ok(v),
                        Err(e) => {
                            proof {
                                assert(false);
                            }
                            Err(Halt::Error(e))
                        }
                    }
                }
                BuiltinOp::Exit => {
                    proof {
                        reveal_strlit("Goodbye!\n");
                    }
                    out.append("Goodbye!\n");
                    Err(Halt::Exit)
                }
                BuiltinOp::MakeLambda => {
                    match crate::builtins::builtin_lambda(args, scope) {
                        Ok(v) => Ok(v),
                        Err(e) => Err(Halt::Error(e)),
                    }
                }
                BuiltinOp::Cons => {
                    match crate::builtins::builtin_cons(args) {
                        Ok(v) => Ok(v),
                        Err(e) => Err(Halt::Error(e)),
                    }
                }
                BuiltinOp::Head => {
                    match crate::builtins::builtin_head(args) {
                        Ok(v) => Ok(v),
                        Err(e) => Err(Halt::Error(e)),
                    }
                }
                BuiltinOp::Tail => {
                    match crate::builtins::builtin_tail(args) {
                        Ok(v) => Ok(v),
                        Err(e) => Err(Halt::Error(e)),
                    }
                }
                BuiltinOp::Init => {
                    match crate::builtins::builtin_init(args) {
                        Ok(v) => Ok(v),
                        Err(e) => Err(Halt::Error(e)),
                    }
                }
                BuiltinOp::List => {
                    match crate::builtins::builtin_list(args) {
                        Ok(v) => Ok(v),
                        Err(e) => {
                            proof {
                                assert(false);
                            }
                            Err(Halt::Error(e))
                        }
                    }
                }
                BuiltinOp::Join => {
                    match crate::builtins::builtin_join(args) {
                        Ok(v) => Ok(v),
                        Err(e) => Err(Halt::Error(e)),
                    }
                }
                BuiltinOp::Len => {
                    match crate::builtins::builtin_len(args) {
                        Ok(v) => Ok(v),
                        Err(e) => Err(Halt::Error(e)),
                    }
                }
                _ => {
                    match crate::builtins::builtin_op(args, op) {
                        Ok(v) => Ok(v),
                        Err(e) => Err(Halt::Error(e)),
                    }
                }
            }
        }
        Lval::Fun(Func::Lambda(defined_in, formals, body)) => {
            let ghost formalsv = val_of(*formals);
            let ghost bodyv = val_of(*body);
            proof {
                assert(fv == Val::Lambda(defined_in, Box::new(formalsv), Box::new(bodyv)));
            }
            let given = match args.len() {
                Ok(k) => k,
                Err(e) => {
                    proof {
                        assert(false);
                    }
                    return Err(Halt::Error(e));
                }
            };
            let expected = match &*formals {
                Lval::Qexpr(fcells) => fcells.len(),
                _ => 0,
            };
            proof {
                if formals@ is Qexpr {
                    match *formals {
                        Lval::Qexpr(ref fc) => lemma_vals_of(fc@),
                        _ => (),
                    }
                }
            }
            if given != expected {
                return Err(Halt::Error(Error::NumArguments(expected, given)));
            }
            if defined_in >= env.scopes.len() {
                // a lambda can only be applied where its defining scope exists
                let whole = Lval::Fun(Func::Lambda(defined_in, formals, body));
                return Err(
                    Halt::Error(
                        Error::WrongType("Function".to_owned(), crate::render::render(&whole)),
                    ),
                );
            }
            let ghost before_push = *env;
            let local = env.push_scope(Vec::new(), defined_in);
            proof {
                crate::lval::lemma_pairs_of(Seq::<(String, Lval)>::empty());
                assert(crate::lval::pairs_of(Seq::<(String, Lval)>::empty())
                    =~= Seq::<(Seq<char>, Val)>::empty());
                assert(env.bindings(local as int) == Map::<Seq<char>, Val>::empty());
                lemma_model_push(before_push, *env, defined_in);
                assert(env_model(*env) == push_m(st0.scopes, defined_in));
            }
            match *formals {
                Lval::Qexpr(fcells) => {
                    proof {
                        lemma_vals_of(fcells@);
                        assert(formalsv == Val::Qexpr(vals_of(fcells@)));
                    }
                    let n = fcells.len();
                    let ghost fvals = vals_of(fcells@);
                    let ghost pushed = env_model(*env);
                    let ghost out0 = out@;
                    proof {
                        assert(fvals.subrange(0, n as int) =~= fvals);
                        assert(c.subrange(0, n as int) =~= c);
                    }
                    let mut i: usize = 0;
                    while i < n
                        invariant
                            i <= n,
                            n == fcells@.len(),
                            fvals == vals_of(fcells@),
                            fvals.len() == n,
                            c.len() == n,
                            out@ == out0,
                            forall|k2: int|
                                0 <= k2 < n ==> #[trigger] fvals[k2] == val_of(fcells@[k2]),
                            env.wf(),
                            local < env.n_scopes(),
                            list_cells(args@) is Some,
                            cells_of(args@) =~= c.subrange(i as int, n as int),
                            check_formals(fvals) == check_formals(
                                fvals.subrange(i as int, n as int),
                            ),
                            env_extended(*old(env), *env),
                            bind_s(pushed, local as int, fvals, c) == bind_s(
                                env_model(*env),
                                local as int,
                                fvals.subrange(i as int, n as int),
                                c.subrange(i as int, n as int),
                            ),
                        decreases n - i,
                    {
                        let ghost rest = fvals.subrange(i as int, n as int);
                        let ghost crest = c.subrange(i as int, n as int);
                        proof {
                            assert(rest[0] == fvals[i as int]);
                            assert(crest[0] == c[i as int]);
                            assert(rest.subrange(1, rest.len() as int) =~= fvals.subrange(
                                i as int + 1,
                                n as int,
                            ));
                            assert(crest.subrange(1, crest.len() as int) =~= c.subrange(
                                i as int + 1,
                                n as int,
                            ));
                        }
                        match &fcells[i] {
                            Lval::Sym(name) => {
                                let value = match crate::lval::pop(args, 0) {
                                    Ok(v) => v,
                                    Err(e) => {
                                        proof {
                                            assert(false);
                                        }
                                        return Err(Halt::Error(e));
                                    }
                                };
                                proof {
                                    assert(cells_of(args@) =~= c.subrange(
                                        i as int + 1,
                                        n as int,
                                    ));
                                }
                                let key = name.clone();
                                let ghost before_put = *env;
                                env.put(local, key, value);
                                proof {
                                    lemma_model_put(
                                        before_put,
                                        *env,
                                        local as int,
                                        name@,
                                        value@,
                                    );
                                }
                            }
                            other => {
                                return Err(
                                    Halt::Error(
                                        Error::WrongType(
                                            "Symbol".to_owned(),
                                            crate::render::render(other),
                                        ),
                                    ),
                                );
                            }
                        }
                        i = i + 1;
                    }
                    proof {
                        assert(fvals.subrange(n as int, n as int) =~= Seq::<Val>::empty());
                        assert(c.subrange(n as int, n as int) =~= Seq::<Val>::empty());
                    }
                    let mut body_to_eval = match *body {
                        Lval::Qexpr(bcells) => {
                            proof {
                                assert(bodyv == Val::Qexpr(vals_of(bcells@)));
                            }
                            Lval::Sexpr(bcells)
                        }
                        other_body => {
                            proof {
                                assert(bodyv == other_body@);
                                assert(!(bodyv is Qexpr));
                            }
                            other_body
                        }
                    };
                    let ghost cur_model = env_model(*env);
                    let ghost coerced_v = body_to_eval@;
                    proof {
                        assert(fvals.len() == n && c.len() == n);
                        assert(bind_s(pushed, local as int, fvals, c) == (
                            cur_model,
                            Ok::<(), ErrV>(()),
                        ));
                        assert(st0.scopes.len() == local as int);
                        assert(out@ == st0.out);
                        assert((match bodyv {
                            Val::Qexpr(bc) => Val::Sexpr(bc),
                            b => b,
                        }) == coerced_v);
                        assert(spec_step == eval_s(
                            State { scopes: cur_model, out: st0.out },
                            local as int,
                            coerced_v,
                            (fuel as nat - 1) as nat,
                        ));
                    }
                    lval_eval(env, local, &mut body_to_eval, out, fuel - 1)
                }
                other => {
                    Err(
                        Halt::Error(
                            Error::WrongType(
                                "Q-Expression".to_owned(),
                                crate::render::render(&other),
                            ),
                        ),
                    )
                }
            }
        }
        other => {
            Err(
                Halt::Error(
                    Error::WrongType("Function".to_owned(), crate::render::render(&other)),
                ),
            )
        }
    }
}

/// What applying an operator leaves behind, for every case that can be
/// pinned down: each pure builtin returns exactly what its model says and
/// touches nothing; `print` and `exit` write exactly their text; `def`
/// binds exactly its names in the calling scope; a lambda applied to the
/// wrong number of arguments, to a formal list that is not a literal list,
/// or to one holding a non-symbol fails exactly so; a non-function operator
/// fails exactly so.
pub open spec fn lval_call_post(
    fv: Val,
    c: Seq<Val>,
    pre: Lenv,
    post: Lenv,
    scope: int,
    out_pre: Seq<char>,
    out_post: Seq<char>,
    r: EvalResult,
) -> bool {
    &&& (!(fv is Builtin) && !(fv is Lambda) ==> (lift_halt(
        Err(ErrV::WrongType("Function"@, text_of(fv))),
        r,
    ) && post == pre && out_post == out_pre))
    &&& (fv matches Val::Builtin(_, op) ==> builtin_call_post(
        op,
        c,
        pre,
        post,
        scope,
        out_pre,
        out_post,
        r,
    ))
    &&& (fv is Lambda ==> lambda_call_post(fv, c, pre, post, out_pre, out_post, r))
}

/// The builtin half of `lval_call_post`.
pub open spec fn builtin_call_post(
    op: BuiltinOp,
    c: Seq<Val>,
    pre: Lenv,
    post: Lenv,
    scope: int,
    out_pre: Seq<char>,
    out_post: Seq<char>,
    r: EvalResult,
) -> bool {
    &&& (is_arith(op) ==> (lift_halt(arith_spec(op, c), r) && post == pre && out_post
        == out_pre))
    &&& (op == BuiltinOp::Head ==> (lift_halt(head_spec(c), r) && post == pre && out_post
        == out_pre))
    &&& (op == BuiltinOp::Tail ==> (lift_halt(tail_spec(c), r) && post == pre && out_post
        == out_pre))
    &&& (op == BuiltinOp::Init ==> (lift_halt(init_spec(c), r) && post == pre && out_post
        == out_pre))
    &&& (op == BuiltinOp::List ==> (lift_halt(Ok(Val::Qexpr(c)), r) && post == pre && out_post
        == out_pre))
    &&& (op == BuiltinOp::Join ==> (lift_halt(join_spec(c), r) && post == pre && out_post
        == out_pre))
    &&& (op == BuiltinOp::Len ==> (lift_halt(len_spec(c), r) && post == pre && out_post
        == out_pre))
    &&& (op == BuiltinOp::Cons ==> (lift_halt(cons_spec(c), r) && post == pre && out_post
        == out_pre))
    &&& (op == BuiltinOp::MakeLambda ==> (lift_halt(lambda_spec(c, scope as usize), r)
        && post == pre && out_post == out_pre))
    &&& (op == BuiltinOp::Print ==> (lift_halt(Ok(Val::Sexpr(Seq::empty())), r) && post == pre
        && out_post == out_pre + print_seq(c) + "\n"@))
    &&& (op == BuiltinOp::Exit ==> (r == Err::<Lval, Halt>(Halt::Exit) && post == pre
        && out_post == out_pre + "Goodbye!\n"@))
    &&& (op == BuiltinOp::Def ==> (eval_res_view(r) matches Some(outcome) && def_outcome(
        c,
        pre,
        post,
        scope,
        outcome,
    )))
}

/// The lambda half of `lval_call_post`: the failures are exact, a
/// successful body reduction is bounded only by `env_extended`.
pub open spec fn lambda_call_post(
    fv: Val,
    c: Seq<Val>,
    pre: Lenv,
    post: Lenv,
    out_pre: Seq<char>,
    out_post: Seq<char>,
    r: EvalResult,
) -> bool
    recommends
        fv is Lambda,
{
    match fv {
        Val::Lambda(defined_in, formals, body) => {
            let expected: int = if *formals is Qexpr {
                cells_of(*formals).len() as int
            } else {
                0
            };
            &&& (c.len() != expected ==> (lift_halt(
                Err(ErrV::NumArguments(expected, c.len() as int)),
                r,
            ) && post == pre && out_post == out_pre))
            &&& (c.len() == expected && defined_in >= pre.n_scopes() ==> (lift_halt(
                Err(ErrV::WrongType("Function"@, text_of(fv))),
                r,
            ) && post == pre && out_post == out_pre))
            &&& (c.len() == expected && defined_in < pre.n_scopes() && !(*formals is Qexpr)
                ==> lift_halt(Err(ErrV::WrongType("Q-Expression"@, text_of(*formals))), r))
            &&& (c.len() == expected && defined_in < pre.n_scopes() && *formals is Qexpr
                ==> (check_formals(cells_of(*formals)) matches Err(e) ==> lift_halt(
                Err(e),
                r,
            )))
        },
        _ => true,
    }
}

/// Reduce one expression in the given scope: numbers, strings, literal
/// lists and functions evaluate to themselves; a symbol resolves along the
/// scope chain; an S-expression reduces its children left to right and
/// applies the first result to the rest, an empty one evaluating to itself
/// and a one-element one to its element.
pub fn lval_eval(
    env: &mut Lenv,
    scope: usize,
    ast: &mut Lval,
    out: &mut String,
    fuel: u64,
) -> (r: EvalResult)
    requires
        old(env).wf(),
        scope < old(env).n_scopes(),
    ensures
        env_extended(*old(env), *final(env)),
        matches_step(
            eval_s(sem_state(*old(env), old(out)@), scope as int, old(ast)@, fuel as nat),
            *final(env),
            final(out)@,
            r,
        ),
        fuel == 0 ==> (r == Err::<Lval, Halt>(Halt::StackExhausted) && *final(env) == *old(env)
            && final(out)@ == old(out)@),
        fuel >= 1 && self_evaluating(old(ast)@) ==> (r matches Ok(v) && v@ == old(ast)@
            && *final(env) == *old(env) && final(out)@ == old(out)@),
        fuel >= 1 ==> (old(ast)@ matches Val::Sym(name) ==> (match old(env).resolve(
            scope as int,
            name,
        ) {
            Some(v) => r matches Ok(res) && res@ == v,
            None => lift_halt(Err(ErrV::UnknownFunction(name)), r),
        } && *final(env) == *old(env) && final(out)@ == old(out)@)),
        fuel >= 1 && old(ast)@ == Val::Sexpr(Seq::<Val>::empty()) ==> (r matches Ok(res)
            && res@ == Val::Sexpr(Seq::empty()) && *final(env) == *old(env) && final(out)@
            == old(out)@),
        !(old(ast)@ is Sexpr) ==> final(ast)@ == old(ast)@,
    decreases fuel,
{
    let ghost st0 = sem_state(*env, out@);
    if fuel == 0 {
        return Err(Halt::StackExhausted);
    }
    match ast {
        Lval::Sym(s) => {
            proof {
                lemma_model_resolve(*env, scope as int, s@);
            }
            match env.get(scope, s) {
                Ok(v) => Ok(v),
                Err(e) => Err(Halt::Error(e)),
            }
        }
        Lval::Sexpr(cells) => {
            proof {
                lemma_vals_of(cells@);
            }
            if cells.len() == 0 {
                return Ok(sexpr());
            }
            if cells.len() == 1 {
                let mut child = match crate::lval::pop(ast, 0) {
                    Ok(c) => c,
                    Err(e) => {
                        proof {
                            assert(false);
                        }
                        return Err(Halt::Error(e));
                    }
                };
                return lval_eval(env, scope, &mut child, out, fuel - 1);
            }
            let mut reduced = match eval_cells(env, scope, &*cells, out, fuel - 1) {
                Ok(r0) => r0,
                Err(h) => {
                    return Err(h);
                }
            };
            let ghost rvals = cells_of(reduced@);
            let fp = match crate::lval::pop(&mut reduced, 0) {
                Ok(f0) => f0,
                Err(e) => {
                    proof {
                        assert(false);
                    }
                    return Err(Halt::Error(e));
                }
            };
            proof {
                assert(cells_of(reduced@) =~= rvals.subrange(1, rvals.len() as int));
            }
            lval_call(env, scope, fp, &mut reduced, out, fuel - 1)
        }
        _ => Ok(ast.clone()),
    }
}

/// Reduce one expression tree: the public entry of the evaluator.
pub fn eval(env: &mut Lenv, scope: usize, ast: Lval, out: &mut String, fuel: u64) -> (r:
    EvalResult)
    requires
        old(env).wf(),
        scope < old(env).n_scopes(),
    ensures
        env_extended(*old(env), *final(env)),
        matches_step(
            eval_s(sem_state(*old(env), old(out)@), scope as int, ast@, fuel as nat),
            *final(env),
            final(out)@,
            r,
        ),
        fuel == 0 ==> (r == Err::<Lval, Halt>(Halt::StackExhausted) && *final(env) == *old(env)
            && final(out)@ == old(out)@),
        fuel >= 1 && self_evaluating(ast@) ==> (r matches Ok(v) && v@ == ast@ && *final(env)
            == *old(env) && final(out)@ == old(out)@),
        fuel >= 1 ==> (ast@ matches Val::Sym(name) ==> (match old(env).resolve(
            scope as int,
            name,
        ) {
            Some(v) => r matches Ok(res) && res@ == v,
            None => lift_halt(Err(ErrV::UnknownFunction(name)), r),
        } && *final(env) == *old(env) && final(out)@ == old(out)@)),
        fuel >= 1 && ast@ == Val::Sexpr(Seq::<Val>::empty()) ==> (r matches Ok(res) && res@
            == Val::Sexpr(Seq::empty()) && *final(env) == *old(env) && final(out)@
            == old(out)@),
{
    let mut ast_mut = ast;
    lval_eval(env, scope, &mut ast_mut, out, fuel)
}

} // verus!

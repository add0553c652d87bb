//! The big-step semantics of evaluation, stated over pure models: a scope
//! arena as a sequence of maps, the output sink as a character sequence.
//! The evaluator's contracts say that execution computes exactly what these
//! functions state, step for step and fuel for fuel.

use crate::builtins::{
    arith_spec, cons_spec, head_spec, init_spec, join_spec, lambda_spec, len_spec, print_seq,
    tail_spec,
};
use crate::error::ErrV;
use crate::eval::{def_spec, insert_all};
use crate::lenv::Lenv;
use crate::lval::{cells_of, BuiltinOp, Val};
use crate::render::text_of;
use vstd::prelude::*;

verus! {

/// The model of one scope: its bindings and its parent handle.
#[verifier::ext_equal]
pub struct ScopeM {
    pub map: Map<Seq<char>, Val>,
    pub parent: Option<usize>,
}

/// The model of the whole mutable world an evaluation touches: the scope
/// arena and the output sink.
#[verifier::ext_equal]
pub struct State {
    pub scopes: Seq<ScopeM>,
    pub out: Seq<char>,
}

/// How one evaluation ends: a value, a recoverable failure, the `exit`
/// signal, or an exhausted depth budget.
#[verifier::ext_equal]
pub enum Outcome {
    Value(Val),
    Fail(ErrV),
    Exit,
    Spent,
}

/// A state paired with how the evaluation of one expression in it ended.
#[verifier::ext_equal]
pub struct Step {
    pub state: State,
    pub outcome: Outcome,
}

/// The model of an environment: each scope's bindings and parent, in arena
/// order.
pub open spec fn env_model(env: Lenv) -> Seq<ScopeM> {
    Seq::new(
        env.n_scopes(),
        |i: int| ScopeM { map: env.bindings(i), parent: env.parent_of(i) },
    )
}

/// A scope arena after binding `key` in scope `s` alone.
pub open spec fn put_m(scopes: Seq<ScopeM>, s: int, key: Seq<char>, value: Val) -> Seq<
    ScopeM,
> {
    scopes.update(s, ScopeM { map: scopes[s].map.insert(key, value), parent: scopes[s].parent })
}

/// A scope arena after pushing a fresh, empty scope under the given
/// parent. The builtins are not re-seeded: they live in the root scope and
/// are reached through the chain.
pub open spec fn push_m(scopes: Seq<ScopeM>, parent: usize) -> Seq<ScopeM> {
    scopes.push(ScopeM { map: Map::empty(), parent: Some(parent) })
}

/// Chain lookup over the model: the scope's own bindings first, then its
/// parent's, and `None` when the chain runs out.
pub open spec fn resolve_m(scopes: Seq<ScopeM>, s: int, key: Seq<char>) -> Option<Val>
    recommends
        0 <= s < scopes.len(),
    decreases s,
{
    if 0 <= s < scopes.len() {
        if scopes[s].map.contains_key(key) {
            Some(scopes[s].map[key])
        } else {
            match scopes[s].parent {
                Some(p) => if 0 <= (p as int) < s {
                    resolve_m(scopes, p as int, key)
                } else {
                    None
                },
                None => None,
            }
        }
    } else {
        None
    }
}

/// A finished step that did not change the world.
pub open spec fn stay(st: State, outcome: Outcome) -> Step {
    Step { state: st, outcome }
}

/// A modelled operation result as an outcome.
pub open spec fn outcome_of(r: Result<Val, ErrV>) -> Outcome {
    match r {
        Ok(v) => Outcome::Value(v),
        Err(e) => Outcome::Fail(e),
    }
}

/// Reduce one expression: the model of the evaluator's dispatch.
pub open spec fn eval_s(st: State, scope: int, v: Val, fuel: nat) -> Step
    decreases fuel, 0nat, 0nat,
{
    if fuel == 0 {
        stay(st, Outcome::Spent)
    } else {
        match v {
            Val::Sym(name) => match resolve_m(st.scopes, scope, name) {
                Some(value) => stay(st, Outcome::Value(value)),
                None => stay(st, Outcome::Fail(ErrV::UnknownFunction(name))),
            },
            Val::Sexpr(cells) => if cells.len() == 0 {
                stay(st, Outcome::Value(Val::Sexpr(Seq::empty())))
            } else if cells.len() == 1 {
                eval_s(st, scope, cells[0], (fuel - 1) as nat)
            } else {
                let inner = eval_cells_s(st, scope, cells, (fuel - 1) as nat);
                match inner.outcome {
                    Outcome::Value(rv) => call_s(
                        inner.state,
                        scope,
                        cells_of(rv)[0],
                        cells_of(rv).subrange(1, cells_of(rv).len() as int),
                        (fuel - 1) as nat,
                    ),
                    _ => inner,
                }
            },
            _ => stay(st, Outcome::Value(v)),
        }
    }
}

/// Reduce every child of an S-expression, after spending one step of depth.
pub open spec fn eval_cells_s(st: State, scope: int, cells: Seq<Val>, fuel: nat) -> Step
    decreases fuel, 0nat, 1nat,
{
    if fuel == 0 {
        stay(st, Outcome::Spent)
    } else {
        eval_seq_s(st, scope, cells, (fuel - 1) as nat)
    }
}

/// Reduce a sequence of expressions left to right, collecting the results
/// into an S-expression; the first failure ends the walk.
pub open spec fn eval_seq_s(st: State, scope: int, cells: Seq<Val>, fuel: nat) -> Step
    decreases fuel, 1nat, cells.len(),
{
    if cells.len() == 0 {
        stay(st, Outcome::Value(Val::Sexpr(Seq::empty())))
    } else {
        let first = eval_s(st, scope, cells[0], fuel);
        match first.outcome {
            Outcome::Value(v0) => {
                let rest = eval_seq_s(
                    first.state,
                    scope,
                    cells.subrange(1, cells.len() as int),
                    fuel,
                );
                match rest.outcome {
                    Outcome::Value(rv) => Step {
                        state: rest.state,
                        outcome: Outcome::Value(Val::Sexpr(seq![v0] + cells_of(rv))),
                    },
                    _ => rest,
                }
            },
            _ => first,
        }
    }
}

/// Bind formal symbols to arguments one by one in scope `local`; a
/// non-symbol formal stops the walk after the bindings made so far.
pub open spec fn bind_s(
    scopes: Seq<ScopeM>,
    local: int,
    formals: Seq<Val>,
    args: Seq<Val>,
) -> (Seq<ScopeM>, Result<(), ErrV>)
    recommends
        formals.len() == args.len(),
    decreases formals.len(),
{
    if formals.len() == 0 {
        (scopes, Ok(()))
    } else {
        match formals[0] {
            Val::Sym(name) => bind_s(
                put_m(scopes, local, name, args[0]),
                local,
                formals.subrange(1, formals.len() as int),
                args.subrange(1, args.len() as int),
            ),
            _ => (scopes, Err(ErrV::WrongType("Symbol"@, text_of(formals[0])))),
        }
    }
}

/// Apply an operator value to a reduced argument list: the model of the
/// dispatcher.
pub open spec fn call_s(st: State, scope: int, f: Val, args: Seq<Val>, fuel: nat) -> Step
    decreases fuel, 0nat, 0nat,
{
    if fuel == 0 {
        stay(st, Outcome::Spent)
    } else {
        match f {
            Val::Builtin(_, op) => if op == BuiltinOp::Do {
                do_s(st, scope, Val::Sexpr(args), (fuel - 1) as nat)
            } else if op == BuiltinOp::Def {
                match def_spec(args) {
                    Ok(names) => Step {
                        state: State {
                            scopes: st.scopes.update(
                                scope,
                                ScopeM {
                                    map: insert_all(
                                        st.scopes[scope].map,
                                        names,
                                        args.subrange(1, args.len() as int),
                                    ),
                                    parent: st.scopes[scope].parent,
                                },
                            ),
                            out: st.out,
                        },
                        outcome: Outcome::Value(Val::Sexpr(Seq::empty())),
                    },
                    Err(e) => stay(st, Outcome::Fail(e)),
                }
            } else if op == BuiltinOp::Print {
                Step {
                    state: State { scopes: st.scopes, out: st.out + print_seq(args) + "\n"@ },
                    outcome: Outcome::Value(Val::Sexpr(Seq::empty())),
                }
            } else if op == BuiltinOp::Exit {
                Step {
                    state: State { scopes: st.scopes, out: st.out + "Goodbye!\n"@ },
                    outcome: Outcome::Exit,
                }
            } else if op == BuiltinOp::MakeLambda {
                stay(st, outcome_of(lambda_spec(args, scope as usize)))
            } else if op == BuiltinOp::Cons {
                stay(st, outcome_of(cons_spec(args)))
            } else if op == BuiltinOp::Head {
                stay(st, outcome_of(head_spec(args)))
            } else if op == BuiltinOp::Tail {
                stay(st, outcome_of(tail_spec(args)))
            } else if op == BuiltinOp::Init {
                stay(st, outcome_of(init_spec(args)))
            } else if op == BuiltinOp::List {
                stay(st, Outcome::Value(Val::Qexpr(args)))
            } else if op == BuiltinOp::Join {
                stay(st, outcome_of(join_spec(args)))
            } else if op == BuiltinOp::Len {
                stay(st, outcome_of(len_spec(args)))
            } else {
                stay(st, outcome_of(arith_spec(op, args)))
            },
            Val::Lambda(defined_in, formals, body) => {
                let expected: int = if *formals is Qexpr {
                    cells_of(*formals).len() as int
                } else {
                    0
                };
                if args.len() != expected {
                    stay(st, Outcome::Fail(ErrV::NumArguments(expected, args.len() as int)))
                } else if !((defined_in as int) < st.scopes.len() as int) {
                    stay(st, Outcome::Fail(ErrV::WrongType("Function"@, text_of(f))))
                } else {
                    let local = st.scopes.len() as int;
                    let pushed = push_m(st.scopes, defined_in);
                    match *formals {
                        Val::Qexpr(fcells) => {
                            let (bound, check) = bind_s(pushed, local, fcells, args);
                            match check {
                                Ok(()) => {
                                    let coerced = match *body {
                                        Val::Qexpr(bcells) => Val::Sexpr(bcells),
                                        b => b,
                                    };
                                    eval_s(
                                        State { scopes: bound, out: st.out },
                                        local,
                                        coerced,
                                        (fuel - 1) as nat,
                                    )
                                },
                                Err(e) => Step {
                                    state: State { scopes: bound, out: st.out },
                                    outcome: Outcome::Fail(e),
                                },
                            }
                        },
                        other => Step {
                            state: State { scopes: pushed, out: st.out },
                            outcome: Outcome::Fail(
                                ErrV::WrongType("Q-Expression"@, text_of(other)),
                            ),
                        },
                    }
                }
            },
            _ => stay(st, Outcome::Fail(ErrV::WrongType("Function"@, text_of(f)))),
        }
    }
}

/// Evaluate a sequence of sub-expressions in order, keeping the last value:
/// the model of `do`.
pub open spec fn do_s(st: State, scope: int, v: Val, fuel: nat) -> Step
    decreases fuel, 0nat, 0nat,
{
    if fuel == 0 {
        stay(st, Outcome::Spent)
    } else {
        match v {
            Val::Sexpr(cells) => if cells.len() == 0 {
                stay(st, Outcome::Value(Val::Sexpr(Seq::empty())))
            } else {
                do_seq_s(st, scope, cells, (fuel - 1) as nat)
            },
            other => stay(st, Outcome::Fail(ErrV::WrongType("sexpr"@, text_of(other)))),
        }
    }
}

/// Evaluate a non-empty sequence in order, keeping the last value.
pub open spec fn do_seq_s(st: State, scope: int, cells: Seq<Val>, fuel: nat) -> Step
    decreases fuel, 1nat, cells.len(),
{
    if cells.len() == 0 {
        stay(st, Outcome::Value(Val::Sexpr(Seq::empty())))
    } else {
        let first = eval_s(st, scope, cells[0], fuel);
        match first.outcome {
            Outcome::Value(_) => if cells.len() == 1 {
                first
            } else {
                do_seq_s(first.state, scope, cells.subrange(1, cells.len() as int), fuel)
            },
            _ => first,
        }
    }
}

// Glue between the executable environment and its model.

/// Resolution over the model agrees with resolution over the environment.
pub proof fn lemma_model_resolve(env: Lenv, s: int, key: Seq<char>)
    requires
        env.wf(),
        0 <= s < env.n_scopes(),
    ensures
        resolve_m(env_model(env), s, key) == env.resolve(s, key),
    decreases s,
{
    let m = env_model(env);
    assert(m[s].map == env.bindings(s));
    assert(m[s].parent == env.parent_of(s));
    if !env.bindings(s).contains_key(key) {
        match env.parent_of(s) {
            Some(p) => {
                if 0 <= (p as int) < s {
                    lemma_model_resolve(env, p as int, key);
                }
            },
            None => (),
        }
    }
}

/// Binding one name in one scope updates the model pointwise.
pub proof fn lemma_model_put(pre: Lenv, post: Lenv, s: int, key: Seq<char>, value: Val)
    requires
        0 <= s < pre.n_scopes(),
        post.n_scopes() == pre.n_scopes(),
        post.bindings(s) == pre.bindings(s).insert(key, value),
        pre.same_but(post, s),
    ensures
        env_model(post) == put_m(env_model(pre), s, key, value),
{
    let lhs = env_model(post);
    let rhs = put_m(env_model(pre), s, key, value);
    assert forall|j: int| 0 <= j < lhs.len() implies lhs[j] == rhs[j] by {
        if j == s {
            assert(lhs[j] =~= rhs[j]);
        } else {
            assert(post.scope_table(j) == pre.scope_table(j));
            assert(post.bindings(j) == pre.bindings(j));
            assert(lhs[j] =~= rhs[j]);
        }
    }
    assert(lhs =~= rhs);
}

/// A pushed empty scope extends the model with an empty map under the
/// given parent.
pub proof fn lemma_model_push(pre: Lenv, post: Lenv, parent: usize)
    requires
        post.n_scopes() == pre.n_scopes() + 1,
        post.parent_of(pre.n_scopes() as int) == Some(parent),
        post.bindings(pre.n_scopes() as int) == Map::<Seq<char>, Val>::empty(),
        forall|j: int|
            0 <= j < pre.n_scopes() ==> #[trigger] post.scope_table(j) == pre.scope_table(j),
        forall|j: int|
            0 <= j < pre.n_scopes() ==> #[trigger] post.parent_of(j) == pre.parent_of(j),
    ensures
        env_model(post) == push_m(env_model(pre), parent),
{
    let lhs = env_model(post);
    let rhs = push_m(env_model(pre), parent);
    assert forall|j: int| 0 <= j < lhs.len() implies lhs[j] == rhs[j] by {
        if j < pre.n_scopes() {
            assert(post.bindings(j) == pre.bindings(j));
            assert(lhs[j] =~= rhs[j]);
        } else {
            assert(lhs[j] =~= rhs[j]);
        }
    }
    assert(lhs =~= rhs);
}

/// A scope whose bindings took a batch of inserts updates the model
/// pointwise.
pub proof fn lemma_model_def(
    pre: Lenv,
    post: Lenv,
    s: int,
    names: Seq<Seq<char>>,
    vals: Seq<Val>,
)
    requires
        0 <= s < pre.n_scopes(),
        post.n_scopes() == pre.n_scopes(),
        post.bindings(s) == insert_all(pre.bindings(s), names, vals),
        pre.same_but(post, s),
    ensures
        env_model(post) == env_model(pre).update(
            s,
            ScopeM {
                map: insert_all(env_model(pre)[s].map, names, vals),
                parent: env_model(pre)[s].parent,
            },
        ),
{
    let lhs = env_model(post);
    let rhs = env_model(pre).update(
        s,
        ScopeM {
            map: insert_all(env_model(pre)[s].map, names, vals),
            parent: env_model(pre)[s].parent,
        },
    );
    assert forall|j: int| 0 <= j < lhs.len() implies lhs[j] == rhs[j] by {
        if j == s {
            assert(lhs[j] =~= rhs[j]);
        } else {
            assert(post.scope_table(j) == pre.scope_table(j));
            assert(post.bindings(j) == pre.bindings(j));
            assert(lhs[j] =~= rhs[j]);
        }
    }
    assert(lhs =~= rhs);
}

/// An untouched environment has an unchanged model.
pub proof fn lemma_model_same(pre: Lenv, post: Lenv)
    requires
        post == pre,
    ensures
        env_model(post) == env_model(pre),
{
}


/// Prefixing already-collected results onto a sequence-evaluation step.
pub open spec fn seq_glue(done: Seq<Val>, step: Step) -> Step {
    match step.outcome {
        Outcome::Value(rv) => Step {
            state: step.state,
            outcome: Outcome::Value(Val::Sexpr(done + cells_of(rv))),
        },
        _ => step,
    }
}

/// A sequence evaluation that yields a value yields an S-expression.
pub proof fn lemma_eval_seq_value_shape(st: State, scope: int, cells: Seq<Val>, fuel: nat)
    ensures
        eval_seq_s(st, scope, cells, fuel).outcome matches Outcome::Value(v) ==> v is Sexpr,
    decreases fuel, 1nat, cells.len(),
{
    if cells.len() > 0 {
        let first = eval_s(st, scope, cells[0], fuel);
        match first.outcome {
            Outcome::Value(_) => {
                lemma_eval_seq_value_shape(
                    first.state,
                    scope,
                    cells.subrange(1, cells.len() as int),
                    fuel,
                );
            },
            _ => (),
        }
    }
}


} // verus!

//! The builtin library: the fixed table of native operations, seeded once
//! into the root scope, and the operations themselves.

use crate::error::{Error, ErrV, ReplispResult};
use crate::lenv::{table_map, Lenv};
use crate::lval::{cells_of, list_cells, num, pairs_of, val_of, vals_of, BuiltinOp, Lval, Val};
use crate::render::text_of;
use vstd::prelude::*;

verus! {

/// The two's-complement wrap of addition.
pub open spec fn wrap_add(x: i64, y: i64) -> i64 {
    vstd::wrapping::i64_specs::wrapping_add(x, y)
}

/// The two's-complement wrap of subtraction.
pub open spec fn wrap_sub(x: i64, y: i64) -> i64 {
    vstd::wrapping::i64_specs::wrapping_sub(x, y)
}

/// The two's-complement wrap of multiplication.
pub open spec fn wrap_mul(x: i64, y: i64) -> i64 {
    vstd::wrapping::i64_specs::wrapping_mul(x, y)
}

/// The two's-complement wrap of negation.
pub open spec fn wrap_neg(x: i64) -> i64 {
    wrap_sub(0, x)
}

/// The quotient rounded toward zero, as machine division rounds.
pub open spec fn trunc_div(x: int, d: int) -> int
    recommends
        d != 0,
{
    if x == 0 {
        0
    } else if x > 0 && d > 0 {
        x / d
    } else if x < 0 && d < 0 {
        (x * -1) / (d * -1)
    } else if x < 0 {
        ((x * -1) / d) * -1
    } else {
        (x / (d * -1)) * -1
    }
}

/// The remainder of division rounded toward zero: it takes the sign of the
/// dividend.
pub open spec fn trunc_rem(x: int, d: int) -> int
    recommends
        d != 0,
{
    if x == 0 {
        0
    } else if x > 0 && d > 0 {
        x % d
    } else if x < 0 && d < 0 {
        ((x * -1) % (d * -1)) * -1
    } else if x < 0 {
        ((x * -1) % d) * -1
    } else {
        x % (d * -1)
    }
}

/// Truncated division, wrapping on the one overflowing case.
pub open spec fn wrap_div(x: i64, y: i64) -> i64
    recommends
        y != 0,
{
    if x == i64::MIN && y == -1 {
        i64::MIN
    } else {
        trunc_div(x as int, y as int) as i64
    }
}

/// Truncated remainder, zero on the one overflowing case.
pub open spec fn wrap_rem(x: i64, y: i64) -> i64
    recommends
        y != 0,
{
    if x == i64::MIN && y == -1 {
        0
    } else {
        trunc_rem(x as int, y as int) as i64
    }
}

/// Exponentiation under wrapping multiplication.
pub open spec fn wrap_pow(base: i64, e: u32) -> i64
    decreases e,
{
    if e == 0 {
        1
    } else {
        wrap_mul(base, wrap_pow(base, (e - 1) as u32))
    }
}

/// Bounds of truncated division over the 64-bit signed range: it only
/// leaves the range on the single overflowing case.
proof fn lemma_trunc_div_bounds(x: int, d: int)
    requires
        d != 0,
        -0x8000_0000_0000_0000 <= x <= 0x7fff_ffff_ffff_ffff,
        -0x8000_0000_0000_0000 <= d <= 0x7fff_ffff_ffff_ffff,
    ensures
        (x == -0x8000_0000_0000_0000 && d == -1) ==> trunc_div(x, d) == 0x8000_0000_0000_0000,
        !(x == -0x8000_0000_0000_0000 && d == -1) ==> -0x8000_0000_0000_0000 <= trunc_div(x, d)
            <= 0x7fff_ffff_ffff_ffff,
{
    if x == 0 {
    } else if x > 0 && d > 0 {
        vstd::arithmetic::div_mod::lemma_div_pos_is_pos(x, d);
        vstd::arithmetic::div_mod::lemma_div_nonincreasing(x, d);
    } else if x < 0 && d < 0 {
        let m = x * -1;
        let n = d * -1;
        vstd::arithmetic::div_mod::lemma_div_pos_is_pos(m, n);
        if n == 1 {
            vstd::arithmetic::div_mod::lemma_div_basics(m);
        } else {
            vstd::arithmetic::div_mod::lemma_div_is_strictly_smaller(m, n);
        }
    } else if x < 0 {
        let m = x * -1;
        vstd::arithmetic::div_mod::lemma_div_pos_is_pos(m, d);
        vstd::arithmetic::div_mod::lemma_div_nonincreasing(m, d);
    } else {
        let n = d * -1;
        vstd::arithmetic::div_mod::lemma_div_pos_is_pos(x, n);
        vstd::arithmetic::div_mod::lemma_div_nonincreasing(x, n);
    }
}

/// The operations the arithmetic fold accepts.
pub open spec fn is_arith(op: BuiltinOp) -> bool {
    match op {
        BuiltinOp::Add => true,
        BuiltinOp::Sub => true,
        BuiltinOp::Mul => true,
        BuiltinOp::Div => true,
        BuiltinOp::Rem => true,
        BuiltinOp::Pow => true,
        BuiltinOp::Min => true,
        BuiltinOp::Max => true,
        _ => false,
    }
}

/// One step of the arithmetic fold: combine the accumulator with the next
/// operand. A non-number operand is `NotANumber`; a zero right operand of
/// division or remainder is `DivideByZero`, found before the left operand
/// is inspected; a negative exponent is a type mismatch.
pub open spec fn fold_step(op: BuiltinOp, x: Val, y: Val) -> Result<Val, ErrV>
    recommends
        is_arith(op),
{
    if op == BuiltinOp::Div || op == BuiltinOp::Rem {
        match y {
            Val::Num(yn) => if yn == 0 {
                Err(ErrV::DivideByZero)
            } else {
                match x {
                    Val::Num(xn) => Ok(
                        Val::Num(
                            if op == BuiltinOp::Div {
                                wrap_div(xn, yn)
                            } else {
                                wrap_rem(xn, yn)
                            },
                        ),
                    ),
                    _ => Err(ErrV::NotANumber),
                }
            },
            _ => Err(ErrV::NotANumber),
        }
    } else if op == BuiltinOp::Pow {
        match x {
            Val::Num(xn) => match y {
                Val::Num(yn) => if yn < 0 {
                    Err(ErrV::WrongType("non-negative Number"@, text_of(y)))
                } else {
                    Ok(Val::Num(wrap_pow(xn, (yn % 0x1_0000_0000) as u32)))
                },
                _ => Err(ErrV::NotANumber),
            },
            _ => Err(ErrV::NotANumber),
        }
    } else if op == BuiltinOp::Min || op == BuiltinOp::Max {
        match x {
            Val::Num(xn) => match y {
                Val::Num(yn) => Ok(
                    Val::Num(
                        if op == BuiltinOp::Min {
                            if xn < yn {
                                xn
                            } else {
                                yn
                            }
                        } else {
                            if xn > yn {
                                xn
                            } else {
                                yn
                            }
                        },
                    ),
                ),
                _ => Err(ErrV::NotANumber),
            },
            _ => Err(ErrV::NotANumber),
        }
    } else {
        match x {
            Val::Num(xn) => match y {
                Val::Num(yn) => Ok(
                    Val::Num(
                        if op == BuiltinOp::Add {
                            wrap_add(xn, yn)
                        } else if op == BuiltinOp::Sub {
                            wrap_sub(xn, yn)
                        } else {
                            wrap_mul(xn, yn)
                        },
                    ),
                ),
                _ => Err(ErrV::NotANumber),
            },
            _ => Err(ErrV::NotANumber),
        }
    }
}

/// The arithmetic fold from an accumulator over the remaining operands,
/// left to right, stopping at the first failing step; a finished fold must
/// hold a number, so a lone non-number operand fails too.
pub open spec fn fold_run(op: BuiltinOp, x: Val, rest: Seq<Val>) -> Result<Val, ErrV>
    recommends
        is_arith(op),
    decreases rest.len(),
{
    if rest.len() == 0 {
        match x {
            Val::Num(_) => Ok(x),
            _ => Err(ErrV::NotANumber),
        }
    } else {
        match fold_step(op, x, rest[0]) {
            Ok(v) => fold_run(op, v, rest.subrange(1, rest.len() as int)),
            Err(e) => Err(e),
        }
    }
}

/// The whole arithmetic builtin on an argument list: subtraction of a
/// single operand negates it; otherwise the first operand seeds the fold
/// over the rest.
pub open spec fn arith_spec(op: BuiltinOp, args: Seq<Val>) -> Result<Val, ErrV>
    recommends
        is_arith(op),
        args.len() >= 1,
{
    if op == BuiltinOp::Sub && args.len() == 1 {
        match args[0] {
            Val::Num(n) => Ok(Val::Num(wrap_neg(n))),
            _ => Err(ErrV::NotANumber),
        }
    } else {
        fold_run(op, args[0], args.subrange(1, args.len() as int))
    }
}

/// An execution result matches a modelled result: same success or the same
/// failure.
pub open spec fn lift_eq(s: Result<Val, ErrV>, r: Result<Lval, Error>) -> bool {
    match r {
        Ok(lv) => s == Ok::<Val, ErrV>(lv@),
        Err(le) => s == Err::<Val, ErrV>(le@),
    }
}

/// What every arithmetic builtin ensures: on an argument list, the fold's
/// result exactly; on any other value, a copy of it unchanged.
pub open spec fn arith_post(op: BuiltinOp, before: Val, r: Result<Lval, Error>) -> bool {
    &&& (before matches Val::Sexpr(cells) ==> lift_eq(arith_spec(op, cells), r))
    &&& (!(before is Sexpr) ==> (r matches Ok(out) && out@ == before))
}

/// One step of the arithmetic fold, executably.
fn op_step(op: BuiltinOp, x: &Lval, y: &Lval) -> (r: ReplispResult<Lval>)
    requires
        is_arith(op),
    ensures
        lift_eq(fold_step(op, x@, y@), r),
{
    if op == BuiltinOp::Div || op == BuiltinOp::Rem {
        let yn = y.as_num()?;
        if yn == 0 {
            return Err(Error::DivideByZero);
        }
        let xn = x.as_num()?;
        if op == BuiltinOp::Div {
            match xn.checked_div(yn) {
                Some(q) => {
                    proof {
                        lemma_trunc_div_bounds(xn as int, yn as int);
                    }
                    Ok(num(q))
                }
                None => {
                    proof {
                        lemma_trunc_div_bounds(xn as int, yn as int);
                    }
                    Ok(num(i64::MIN))
                }
            }
        } else {
            match xn.checked_rem(yn) {
                Some(q) => Ok(num(q)),
                None => Ok(num(0)),
            }
        }
    } else if op == BuiltinOp::Pow {
        let xn = x.as_num()?;
        let yn = y.as_num()?;
        if yn < 0 {
            return Err(
                Error::WrongType(
                    "non-negative Number".to_owned(),
                    crate::render::int_to_decimal(yn),
                ),
            );
        }
        let reduced = match yn.checked_rem(0x1_0000_0000) {
            Some(r) => r,
            None => 0,
        };
        proof {
            assert(reduced == yn % 0x1_0000_0000);
            assert(0 <= reduced < 0x1_0000_0000);
        }
        let e = reduced as u32;
        let mut acc: i64 = 1;
        let mut k: u32 = 0;
        while k < e
            invariant
                k <= e,
                acc == wrap_pow(xn, k),
            decreases e - k,
        {
            proof {
                lemma_wrap_pow_unfold_left(xn, (k + 1) as u32);
            }
            acc = acc.wrapping_mul(xn);
            k = k + 1;
        }
        Ok(num(acc))
    } else if op == BuiltinOp::Min || op == BuiltinOp::Max {
        let xn = x.as_num()?;
        let yn = y.as_num()?;
        if op == BuiltinOp::Min {
            if xn < yn {
                Ok(num(xn))
            } else {
                Ok(num(yn))
            }
        } else {
            if xn > yn {
                Ok(num(xn))
            } else {
                Ok(num(yn))
            }
        }
    } else {
        let xn = x.as_num()?;
        let yn = y.as_num()?;
        if op == BuiltinOp::Add {
            Ok(num(xn.wrapping_add(yn)))
        } else if op == BuiltinOp::Sub {
            Ok(num(xn.wrapping_sub(yn)))
        } else {
            Ok(num(xn.wrapping_mul(yn)))
        }
    }
}

/// Peeling a factor off the high end of the power equals peeling it off the
/// low end: the wrapped product is commutative and associative.
proof fn lemma_wrap_pow_unfold_left(base: i64, e: u32)
    requires
        e >= 1,
    ensures
        wrap_pow(base, e) == wrap_mul(wrap_pow(base, (e - 1) as u32), base),
    decreases e,
{
    if e == 1 {
    } else {
        lemma_wrap_pow_unfold_left(base, (e - 1) as u32);
        let inner = wrap_pow(base, (e - 2) as u32);
        lemma_wrap_mul_assoc(base, inner, base);
    }
}

/// `signed_crop` depends only on the value modulo 2^64.
proof fn lemma_crop_periodic(u: int, t: int)
    ensures
        vstd::wrapping::i64_specs::signed_crop(u + 0x1_0000_0000_0000_0000 * t)
            == vstd::wrapping::i64_specs::signed_crop(u),
{
    let m = 0x1_0000_0000_0000_0000int;
    vstd::arithmetic::div_mod::lemma_mod_multiples_vanish(t, u, m);
    assert((m * t + u) == (u + m * t));
}

/// Cropping the left factor first does not change the cropped product.
proof fn lemma_crop_mul_left(x: int, y: int)
    ensures
        vstd::wrapping::i64_specs::signed_crop(
            (vstd::wrapping::i64_specs::signed_crop(x) as int) * y,
        ) == vstd::wrapping::i64_specs::signed_crop(x * y),
{
    let m = 0x1_0000_0000_0000_0000int;
    let s = vstd::wrapping::i64_specs::signed_crop(x) as int;
    vstd::arithmetic::div_mod::lemma_fundamental_div_mod(x, m);
    let q = x / m;
    if x % m > i64::MAX {
        assert(s == x - m * (q + 1));
        let t = -(q + 1) * y;
        assert(s * y == x * y + m * t) by (nonlinear_arith)
            requires
                s == x - m * (q + 1),
                t == -(q + 1) * y,
        ;
        lemma_crop_periodic(x * y, t);
    } else {
        assert(s == x - m * q);
        let t = -q * y;
        assert(s * y == x * y + m * t) by (nonlinear_arith)
            requires
                s == x - m * q,
                t == -q * y,
        ;
        lemma_crop_periodic(x * y, t);
    }
}

/// Cropping the right factor first does not change the cropped product.
proof fn lemma_crop_mul_right(x: int, y: int)
    ensures
        vstd::wrapping::i64_specs::signed_crop(
            x * (vstd::wrapping::i64_specs::signed_crop(y) as int),
        ) == vstd::wrapping::i64_specs::signed_crop(x * y),
{
    let s = vstd::wrapping::i64_specs::signed_crop(y) as int;
    lemma_crop_mul_left(y, x);
    assert(s * x == x * s && y * x == x * y) by (nonlinear_arith);
}

/// Wrapped multiplication is associative.
proof fn lemma_wrap_mul_assoc(a: i64, b: i64, c: i64)
    ensures
        wrap_mul(wrap_mul(a, b), c) == wrap_mul(a, wrap_mul(b, c)),
{
    let ab = wrap_mul(a, b) as int;
    let bc = wrap_mul(b, c) as int;
    lemma_crop_mul_left(a as int * b as int, c as int);
    lemma_crop_mul_right(a as int, b as int * c as int);
    assert((a as int * b as int) * c as int == a as int * (b as int * c as int))
        by (nonlinear_arith);
}

/// A map extended with every builtin under each of its registration names,
/// in registration order. Only the root scope carries these; other scopes
/// reach them through the chain, so user bindings shadow them.
pub open spec fn with_builtins(m: Map<Seq<char>, Val>) -> Map<Seq<char>, Val> {
    m.insert("\\"@, Val::Builtin("\\"@, BuiltinOp::MakeLambda)).insert(
        "fun"@,
        Val::Builtin("fun"@, BuiltinOp::MakeLambda),
    ).insert("def"@, Val::Builtin("def"@, BuiltinOp::Def)).insert(
        "="@,
        Val::Builtin("="@, BuiltinOp::Def),
    ).insert("cons"@, Val::Builtin("cons"@, BuiltinOp::Cons)).insert(
        "head"@,
        Val::Builtin("head"@, BuiltinOp::Head),
    ).insert("init"@, Val::Builtin("init"@, BuiltinOp::Init)).insert(
        "list"@,
        Val::Builtin("list"@, BuiltinOp::List),
    ).insert("join"@, Val::Builtin("join"@, BuiltinOp::Join)).insert(
        "len"@,
        Val::Builtin("len"@, BuiltinOp::Len),
    ).insert("tail"@, Val::Builtin("tail"@, BuiltinOp::Tail)).insert(
        "exit"@,
        Val::Builtin("exit"@, BuiltinOp::Exit),
    ).insert("print"@, Val::Builtin("print"@, BuiltinOp::Print)).insert(
        "do"@,
        Val::Builtin("do"@, BuiltinOp::Do),
    ).insert("+"@, Val::Builtin("+"@, BuiltinOp::Add)).insert(
        "add"@,
        Val::Builtin("add"@, BuiltinOp::Add),
    ).insert("-"@, Val::Builtin("-"@, BuiltinOp::Sub)).insert(
        "sub"@,
        Val::Builtin("sub"@, BuiltinOp::Sub),
    ).insert("*"@, Val::Builtin("*"@, BuiltinOp::Mul)).insert(
        "mul"@,
        Val::Builtin("mul"@, BuiltinOp::Mul),
    ).insert("/"@, Val::Builtin("/"@, BuiltinOp::Div)).insert(
        "div"@,
        Val::Builtin("div"@, BuiltinOp::Div),
    ).insert("^"@, Val::Builtin("^"@, BuiltinOp::Pow)).insert(
        "pow"@,
        Val::Builtin("pow"@, BuiltinOp::Pow),
    ).insert("%"@, Val::Builtin("%"@, BuiltinOp::Rem)).insert(
        "rem"@,
        Val::Builtin("rem"@, BuiltinOp::Rem),
    ).insert("min"@, Val::Builtin("min"@, BuiltinOp::Min)).insert(
        "max"@,
        Val::Builtin("max"@, BuiltinOp::Max),
    )
}

/// The bindings of a freshly created scope: the builtins over an empty
/// table.
pub open spec fn builtins_map() -> Map<Seq<char>, Val> {
    with_builtins(table_map(Seq::empty()))
}

/// Register one builtin under one name in the given scope.
fn register_builtin(env: &mut Lenv, scope: usize, name: &str, op: BuiltinOp)
    requires
        old(env).wf(),
        scope < old(env).n_scopes(),
    ensures
        final(env).wf(),
        final(env).n_scopes() == old(env).n_scopes(),
        final(env).bindings(scope as int) == old(env).bindings(scope as int).insert(
            name@,
            Val::Builtin(name@, op),
        ),
        old(env).same_but(*final(env), scope as int),
{
    env.put(scope, name.to_owned(), crate::lval::builtin(op, name));
}

/// Seed every builtin into the given scope, under its operator name and,
/// for the arithmetic operators and the binding forms, a word alias.
pub fn register_builtins(env: &mut Lenv, scope: usize)
    requires
        old(env).wf(),
        scope < old(env).n_scopes(),
    ensures
        final(env).wf(),
        final(env).n_scopes() == old(env).n_scopes(),
        final(env).bindings(scope as int) == with_builtins(old(env).bindings(scope as int)),
        old(env).same_but(*final(env), scope as int),
{
    register_builtin(env, scope, "\\", BuiltinOp::MakeLambda);
    register_builtin(env, scope, "fun", BuiltinOp::MakeLambda);
    register_builtin(env, scope, "def", BuiltinOp::Def);
    register_builtin(env, scope, "=", BuiltinOp::Def);
    register_builtin(env, scope, "cons", BuiltinOp::Cons);
    register_builtin(env, scope, "head", BuiltinOp::Head);
    register_builtin(env, scope, "init", BuiltinOp::Init);
    register_builtin(env, scope, "list", BuiltinOp::List);
    register_builtin(env, scope, "join", BuiltinOp::Join);
    register_builtin(env, scope, "len", BuiltinOp::Len);
    register_builtin(env, scope, "tail", BuiltinOp::Tail);
    register_builtin(env, scope, "exit", BuiltinOp::Exit);
    register_builtin(env, scope, "print", BuiltinOp::Print);
    register_builtin(env, scope, "do", BuiltinOp::Do);
    register_builtin(env, scope, "+", BuiltinOp::Add);
    register_builtin(env, scope, "add", BuiltinOp::Add);
    register_builtin(env, scope, "-", BuiltinOp::Sub);
    register_builtin(env, scope, "sub", BuiltinOp::Sub);
    register_builtin(env, scope, "*", BuiltinOp::Mul);
    register_builtin(env, scope, "mul", BuiltinOp::Mul);
    register_builtin(env, scope, "/", BuiltinOp::Div);
    register_builtin(env, scope, "div", BuiltinOp::Div);
    register_builtin(env, scope, "^", BuiltinOp::Pow);
    register_builtin(env, scope, "pow", BuiltinOp::Pow);
    register_builtin(env, scope, "%", BuiltinOp::Rem);
    register_builtin(env, scope, "rem", BuiltinOp::Rem);
    register_builtin(env, scope, "min", BuiltinOp::Min);
    register_builtin(env, scope, "max", BuiltinOp::Max);
}


/// Apply an arithmetic operation to a flat argument list, consuming it and
/// accumulating left to right; a lone operand under subtraction is negated.
/// Argument lists always carry at least one operand; a non-list value comes
/// back as a copy of itself.
#[verifier::loop_isolation(false)]
pub fn builtin_op(v: &mut Lval, op: BuiltinOp) -> (r: ReplispResult<Lval>)
    requires
        is_arith(op),
        old(v)@ matches Val::Sexpr(cells) ==> cells.len() >= 1,
    ensures
        arith_post(op, old(v)@, r),
{
    let ghost before = v@;
    let is_list = matches!(v, Lval::Sexpr(_));
    if !is_list {
        return Ok(v.clone());
    }
    let count = match v.len() {
        Ok(n) => n,
        Err(e) => {
            proof {
                assert(false);
            }
            return Err(e);
        }
    };
    let ghost args = cells_of(before);
    let x0 = match crate::lval::pop(v, 0) {
        Ok(c) => c,
        Err(e) => {
            proof {
                assert(false);
            }
            return Err(e);
        }
    };
    if op == BuiltinOp::Sub && count == 1 {
        let n = x0.as_num()?;
        return Ok(num(0i64.wrapping_sub(n)));
    }
    proof {
        assert(cells_of(v@) =~= args.subrange(1, count as int));
    }
    let mut x = x0;
    let mut k: usize = 1;
    while k < count
        invariant
            is_arith(op),
            1 <= k <= count,
            args.len() == count,
            v@ is Sexpr,
            cells_of(v@) =~= args.subrange(k as int, count as int),
            fold_run(op, x@, args.subrange(k as int, count as int)) == fold_run(
                op,
                args[0],
                args.subrange(1, count as int),
            ),
        decreases count - k,
    {
        let ghost rest = args.subrange(k as int, count as int);
        proof {
            assert(rest[0] == args[k as int]);
            assert(rest.subrange(1, rest.len() as int) =~= args.subrange(
                k as int + 1,
                count as int,
            ));
        }
        let y = match crate::lval::pop(v, 0) {
            Ok(c) => c,
            Err(e) => {
                proof {
                    assert(false);
                }
                return Err(e);
            }
        };
        proof {
            assert(cells_of(v@) =~= args.subrange(k as int + 1, count as int));
        }
        match op_step(op, &x, &y) {
            Ok(stepped) => {
                x = stepped;
            }
            Err(e) => {
                return Err(e);
            }
        }
        k = k + 1;
    }
    proof {
        assert(args.subrange(count as int, count as int) =~= Seq::<Val>::empty());
    }
    match x.as_num() {
        Ok(_) => Ok(x),
        Err(e) => Err(e),
    }
}

// Operator aliases: one public entry per operation, all driven by the same
// fold.

/// Fold `+` over an argument list.
pub fn builtin_add(a: &mut Lval) -> (r: ReplispResult<Lval>)
    requires
        old(a)@ matches Val::Sexpr(cells) ==> cells.len() >= 1,
    ensures
        arith_post(BuiltinOp::Add, old(a)@, r),
{
    builtin_op(a, BuiltinOp::Add)
}

/// Fold `-` over an argument list; a single operand is negated.
pub fn builtin_sub(a: &mut Lval) -> (r: ReplispResult<Lval>)
    requires
        old(a)@ matches Val::Sexpr(cells) ==> cells.len() >= 1,
    ensures
        arith_post(BuiltinOp::Sub, old(a)@, r),
{
    builtin_op(a, BuiltinOp::Sub)
}

/// Fold `*` over an argument list.
pub fn builtin_mul(a: &mut Lval) -> (r: ReplispResult<Lval>)
    requires
        old(a)@ matches Val::Sexpr(cells) ==> cells.len() >= 1,
    ensures
        arith_post(BuiltinOp::Mul, old(a)@, r),
{
    builtin_op(a, BuiltinOp::Mul)
}

/// Fold `/` over an argument list; a zero divisor fails first.
pub fn builtin_div(a: &mut Lval) -> (r: ReplispResult<Lval>)
    requires
        old(a)@ matches Val::Sexpr(cells) ==> cells.len() >= 1,
    ensures
        arith_post(BuiltinOp::Div, old(a)@, r),
{
    builtin_op(a, BuiltinOp::Div)
}

/// Fold `^` over an argument list.
pub fn builtin_pow(a: &mut Lval) -> (r: ReplispResult<Lval>)
    requires
        old(a)@ matches Val::Sexpr(cells) ==> cells.len() >= 1,
    ensures
        arith_post(BuiltinOp::Pow, old(a)@, r),
{
    builtin_op(a, BuiltinOp::Pow)
}

/// Fold `%` over an argument list; a zero divisor fails first.
pub fn builtin_rem(a: &mut Lval) -> (r: ReplispResult<Lval>)
    requires
        old(a)@ matches Val::Sexpr(cells) ==> cells.len() >= 1,
    ensures
        arith_post(BuiltinOp::Rem, old(a)@, r),
{
    builtin_op(a, BuiltinOp::Rem)
}

/// Fold the pairwise maximum over an argument list.
pub fn builtin_max(a: &mut Lval) -> (r: ReplispResult<Lval>)
    requires
        old(a)@ matches Val::Sexpr(cells) ==> cells.len() >= 1,
    ensures
        arith_post(BuiltinOp::Max, old(a)@, r),
{
    builtin_op(a, BuiltinOp::Max)
}

/// Fold the pairwise minimum over an argument list.
pub fn builtin_min(a: &mut Lval) -> (r: ReplispResult<Lval>)
    requires
        old(a)@ matches Val::Sexpr(cells) ==> cells.len() >= 1,
    ensures
        arith_post(BuiltinOp::Min, old(a)@, r),
{
    builtin_op(a, BuiltinOp::Min)
}



/// What `head` returns on an argument list: the first element of a
/// non-empty literal list.
pub open spec fn head_spec(args: Seq<Val>) -> Result<Val, ErrV>
    recommends
        args.len() >= 1,
{
    match args[0] {
        Val::Qexpr(c) => if c.len() == 0 {
            Err(ErrV::EmptyList)
        } else {
            Ok(c[0])
        },
        _ => Err(ErrV::WrongType("qexpr"@, text_of(args[0]))),
    }
}

/// What `tail` returns on an argument list: all but the first element of a
/// non-empty literal list.
pub open spec fn tail_spec(args: Seq<Val>) -> Result<Val, ErrV>
    recommends
        args.len() >= 1,
{
    match args[0] {
        Val::Qexpr(c) => if c.len() == 0 {
            Err(ErrV::EmptyList)
        } else {
            Ok(Val::Qexpr(c.subrange(1, c.len() as int)))
        },
        _ => Err(ErrV::WrongType("qexpr"@, text_of(args[0]))),
    }
}

/// What `init` returns on an argument list: all but the last element of a
/// non-empty literal list.
pub open spec fn init_spec(args: Seq<Val>) -> Result<Val, ErrV>
    recommends
        args.len() >= 1,
{
    match args[0] {
        Val::Qexpr(c) => if c.len() == 0 {
            Err(ErrV::EmptyList)
        } else {
            Ok(Val::Qexpr(c.subrange(0, c.len() - 1)))
        },
        _ => Err(ErrV::WrongType("qexpr"@, text_of(args[0]))),
    }
}

/// What the posted contract of every one-list builtin says of the argument
/// container: on a list of arguments, the given result; on any other value,
/// a `NoChildren` failure.
pub open spec fn list_post(
    spec_result: Result<Val, ErrV>,
    before: Val,
    r: Result<Lval, Error>,
) -> bool {
    &&& (list_cells(before) is Some ==> lift_eq(spec_result, r))
    &&& (list_cells(before) is None ==> (r matches Err(e) && e@ == ErrV::NoChildren))
}

/// Return the first element of a non-empty literal list; surplus arguments
/// are ignored.
pub fn builtin_head(v: &mut Lval) -> (r: ReplispResult<Lval>)
    requires
        list_cells(old(v)@) matches Some(cells) ==> cells.len() >= 1,
    ensures
        list_post(head_spec(cells_of(old(v)@)), old(v)@, r),
{
    let first = crate::lval::pop(v, 0)?;
    match first {
        Lval::Qexpr(mut c) => {
            proof {
                crate::lval::lemma_vals_of(c@);
            }
            if c.len() == 0 {
                Err(Error::EmptyList)
            } else {
                let h = c.remove(0);
                Ok(h)
            }
        }
        other => Err(Error::WrongType("qexpr".to_owned(), crate::render::render(&other))),
    }
}

/// Return all but the first element of a non-empty literal list.
pub fn builtin_tail(v: &mut Lval) -> (r: ReplispResult<Lval>)
    requires
        list_cells(old(v)@) matches Some(cells) ==> cells.len() >= 1,
    ensures
        list_post(tail_spec(cells_of(old(v)@)), old(v)@, r),
{
    let first = crate::lval::pop(v, 0)?;
    match first {
        Lval::Qexpr(mut c) => {
            let ghost before = c@;
            proof {
                crate::lval::lemma_vals_of(before);
            }
            if c.len() == 0 {
                Err(Error::EmptyList)
            } else {
                c.remove(0);
                proof {
                    crate::lval::lemma_vals_of(c@);
                    assert(vals_of(c@) =~= vals_of(before).subrange(
                        1,
                        vals_of(before).len() as int,
                    ));
                }
                Ok(Lval::Qexpr(c))
            }
        }
        other => Err(Error::WrongType("qexpr".to_owned(), crate::render::render(&other))),
    }
}

/// Return all but the last element of a non-empty literal list.
pub fn builtin_init(v: &mut Lval) -> (r: ReplispResult<Lval>)
    requires
        list_cells(old(v)@) matches Some(cells) ==> cells.len() >= 1,
    ensures
        list_post(init_spec(cells_of(old(v)@)), old(v)@, r),
{
    let first = crate::lval::pop(v, 0)?;
    match first {
        Lval::Qexpr(mut c) => {
            let ghost before = c@;
            proof {
                crate::lval::lemma_vals_of(before);
            }
            if c.len() == 0 {
                Err(Error::EmptyList)
            } else {
                c.pop();
                proof {
                    crate::lval::lemma_vals_of(c@);
                    assert(vals_of(c@) =~= vals_of(before).subrange(
                        0,
                        vals_of(before).len() - 1,
                    ));
                }
                Ok(Lval::Qexpr(c))
            }
        }
        other => Err(Error::WrongType("qexpr".to_owned(), crate::render::render(&other))),
    }
}

/// Turn a flat argument list into a literal list verbatim; a non-list value
/// comes back as a copy of itself.
pub fn builtin_list(v: &mut Lval) -> (r: ReplispResult<Lval>)
    ensures
        r matches Ok(out),
        old(v)@ matches Val::Sexpr(cells) ==> (r matches Ok(out) && out@ == Val::Qexpr(cells)),
        !(old(v)@ is Sexpr) ==> (r matches Ok(out) && out@ == old(v)@),
{
    match v {
        Lval::Sexpr(cells) => {
            let copied = crate::lval::clone_cells(cells);
            proof {
                crate::lval::lemma_vals_of(copied@);
                crate::lval::lemma_vals_of(cells@);
                assert(vals_of(copied@) =~= vals_of(cells@));
            }
            Ok(Lval::Qexpr(copied))
        }
        _ => Ok(v.clone()),
    }
}

/// What `join` returns once the literal lists seen so far have contributed
/// `acc`: the concatenation of everything, or a type mismatch at the first
/// argument that is not a literal list.
pub open spec fn join_run_spec(acc: Seq<Val>, rest: Seq<Val>) -> Result<Val, ErrV>
    decreases rest.len(),
{
    if rest.len() == 0 {
        Ok(Val::Qexpr(acc))
    } else {
        match rest[0] {
            Val::Qexpr(c) => join_run_spec(acc + c, rest.subrange(1, rest.len() as int)),
            _ => Err(ErrV::WrongType("qexpr"@, text_of(rest[0]))),
        }
    }
}

/// What `join` returns on an argument list.
pub open spec fn join_spec(args: Seq<Val>) -> Result<Val, ErrV> {
    join_run_spec(Seq::empty(), args)
}

/// Concatenate the argument lists, all of which must be literal lists, into
/// one literal list.
#[verifier::loop_isolation(false)]
pub fn builtin_join(v: &mut Lval) -> (r: ReplispResult<Lval>)
    ensures
        list_post(join_spec(cells_of(old(v)@)), old(v)@, r),
{
    let count = v.len()?;
    let ghost args = cells_of(v@);
    let mut acc: Vec<Lval> = Vec::new();
    let mut i: usize = 0;
    proof {
        crate::lval::lemma_vals_of(acc@);
        assert(vals_of(acc@) =~= Seq::<Val>::empty());
        assert(args.subrange(0, count as int) =~= args);
    }
    while i < count
        invariant
            i <= count,
            args.len() == count,
            list_cells(v@) is Some,
            cells_of(v@) == args,
            join_spec(args) == join_run_spec(
                vals_of(acc@),
                args.subrange(i as int, count as int),
            ),
        decreases count - i,
    {
        let ghost rest = args.subrange(i as int, count as int);
        proof {
            assert(rest[0] == args[i as int]);
            assert(rest.subrange(1, rest.len() as int) =~= args.subrange(
                i as int + 1,
                count as int,
            ));
        }
        let item: Lval = match v {
            Lval::Sexpr(cells) => {
                proof {
                    crate::lval::lemma_vals_of(cells@);
                }
                cells[i].clone()
            }
            Lval::Qexpr(cells) => {
                proof {
                    crate::lval::lemma_vals_of(cells@);
                }
                cells[i].clone()
            }
            _ => {
                proof {
                    assert(false);
                }
                return Err(Error::NoChildren);
            }
        };
        match item {
            Lval::Qexpr(inner) => {
                let ghost acc0 = acc@;
                let ghost inner0 = inner@;
                let copied = crate::lval::clone_cells(&inner);
                let ghost copied0 = copied@;
                crate::lval::append_cells(&mut acc, copied);
                proof {
                    crate::lval::lemma_vals_of(acc@);
                    crate::lval::lemma_vals_of(acc0);
                    crate::lval::lemma_vals_of(copied0);
                    crate::lval::lemma_vals_of(inner0);
                    assert(vals_of(acc@) =~= vals_of(acc0) + cells_of(args[i as int]));
                }
            }
            other => {
                return Err(
                    Error::WrongType("qexpr".to_owned(), crate::render::render(&other)),
                );
            }
        }
        i = i + 1;
    }
    proof {
        assert(args.subrange(count as int, count as int) =~= Seq::<Val>::empty());
    }
    Ok(Lval::Qexpr(acc))
}

/// Counts that cannot fit the number domain saturate at its ceiling.
pub open spec fn i64_clip(n: nat) -> i64 {
    if n > 0x7fff_ffff_ffff_ffff {
        i64::MAX
    } else {
        n as i64
    }
}

/// What `len` returns on an argument list: the element count of a single
/// literal-list argument.
pub open spec fn len_spec(args: Seq<Val>) -> Result<Val, ErrV> {
    if args.len() != 1 {
        Err(ErrV::NumArguments(1, args.len() as int))
    } else {
        match args[0] {
            Val::Qexpr(c) => Ok(Val::Num(i64_clip(c.len()))),
            _ => Err(ErrV::WrongType("qexpr"@, text_of(args[0]))),
        }
    }
}

/// The element count of a single literal-list argument.
pub fn builtin_len(v: &mut Lval) -> (r: ReplispResult<Lval>)
    ensures
        list_post(len_spec(cells_of(old(v)@)), old(v)@, r),
{
    let count = v.len()?;
    if count != 1 {
        return Err(Error::NumArguments(1, count));
    }
    let first = crate::lval::pop(v, 0)?;
    match first {
        Lval::Qexpr(c) => {
            proof {
                crate::lval::lemma_vals_of(c@);
            }
            let n = c.len();
            if n as u64 > i64::MAX as u64 {
                Ok(num(i64::MAX))
            } else {
                Ok(num(n as i64))
            }
        }
        other => Err(Error::WrongType("qexpr".to_owned(), crate::render::render(&other))),
    }
}

/// What `cons` returns on an argument list: the first argument prepended to
/// the second, which must be a literal list.
pub open spec fn cons_spec(args: Seq<Val>) -> Result<Val, ErrV> {
    if args.len() != 2 {
        Err(ErrV::NumArguments(2, args.len() as int))
    } else {
        match args[1] {
            Val::Qexpr(c) => Ok(Val::Qexpr(seq![args[0]] + c)),
            _ => Err(ErrV::WrongType("qexpr"@, text_of(args[1]))),
        }
    }
}

/// Attach a value to the front of a literal list.
pub fn builtin_cons(v: &mut Lval) -> (r: ReplispResult<Lval>)
    ensures
        list_post(cons_spec(cells_of(old(v)@)), old(v)@, r),
{
    let count = v.len()?;
    if count != 2 {
        return Err(Error::NumArguments(2, count));
    }
    let new_elem = crate::lval::pop(v, 0)?;
    let target = crate::lval::pop(v, 0)?;
    match target {
        Lval::Qexpr(mut c) => {
            let ghost before = c@;
            proof {
                crate::lval::lemma_vals_of(before);
            }
            c.insert(0, new_elem);
            proof {
                crate::lval::lemma_vals_of(c@);
                assert(vals_of(c@) =~= seq![cells_of(old(v)@)[0]] + vals_of(before));
            }
            Ok(Lval::Qexpr(c))
        }
        other => Err(Error::WrongType("qexpr".to_owned(), crate::render::render(&other))),
    }
}

/// Whether every formal parameter is a symbol; the first offender is a type
/// mismatch.
pub open spec fn check_formals(s: Seq<Val>) -> Result<(), ErrV>
    decreases s.len(),
{
    if s.len() == 0 {
        Ok(())
    } else {
        match s[0] {
            Val::Sym(_) => check_formals(s.subrange(1, s.len() as int)),
            _ => Err(ErrV::WrongType("Symbol"@, text_of(s[0]))),
        }
    }
}

/// What `\` returns on an argument list, built in the given scope: a
/// lambda value from a literal list of formal symbols and a literal-list
/// body, recording the defining scope so that free names in the body
/// resolve where the lambda was defined.
pub open spec fn lambda_spec(args: Seq<Val>, scope: usize) -> Result<Val, ErrV> {
    if args.len() != 2 {
        Err(ErrV::NumArguments(2, args.len() as int))
    } else {
        match args[0] {
            Val::Qexpr(formals) => match check_formals(formals) {
                Ok(()) => match args[1] {
                    Val::Qexpr(_) => Ok(
                        Val::Lambda(scope, Box::new(args[0]), Box::new(args[1])),
                    ),
                    _ => Err(ErrV::WrongType("Q-Expression"@, text_of(args[1]))),
                },
                Err(e) => Err(e),
            },
            _ => Err(ErrV::WrongType("Q-Expression"@, text_of(args[0]))),
        }
    }
}

/// Build a lambda from a literal list of formal symbols and a literal-list
/// body, recording `scope` as its defining environment. The formal list is
/// checked here, at construction time.
#[verifier::loop_isolation(false)]
pub fn builtin_lambda(v: &mut Lval, scope: usize) -> (r: ReplispResult<Lval>)
    ensures
        list_post(lambda_spec(cells_of(old(v)@), scope), old(v)@, r),
{
    let count = v.len()?;
    if count != 2 {
        return Err(Error::NumArguments(2, count));
    }
    let formals = crate::lval::pop(v, 0)?;
    let body = crate::lval::pop(v, 0)?;
    let ghost args = cells_of(old(v)@);
    match formals {
        Lval::Qexpr(cells) => {
            let n = cells.len();
            proof {
                crate::lval::lemma_vals_of(cells@);
                assert(vals_of(cells@).subrange(0, n as int) =~= vals_of(cells@));
            }
            let mut i: usize = 0;
            while i < n
                invariant
                    i <= n,
                    n == cells@.len(),
                    forall|k: int|
                        0 <= k < cells@.len() ==> #[trigger] vals_of(cells@)[k] == val_of(
                            cells@[k],
                        ),
                    vals_of(cells@).len() == n,
                    check_formals(vals_of(cells@)) == check_formals(
                        vals_of(cells@).subrange(i as int, n as int),
                    ),
                decreases n - i,
            {
                let ghost rest = vals_of(cells@).subrange(i as int, n as int);
                proof {
                    assert(rest[0] == vals_of(cells@)[i as int]);
                    assert(rest.subrange(1, rest.len() as int) =~= vals_of(
                        cells@,
                    ).subrange(i as int + 1, n as int));
                }
                match &cells[i] {
                    Lval::Sym(_) => (),
                    other => {
                        return Err(
                            Error::WrongType(
                                "Symbol".to_owned(),
                                crate::render::render(other),
                            ),
                        );
                    }
                }
                i = i + 1;
            }
            proof {
                assert(vals_of(cells@).subrange(n as int, n as int)
                    =~= Seq::<Val>::empty());
            }
            match body {
                Lval::Qexpr(body_cells) => {
                    Ok(
                        crate::lval::lambda(
                            scope,
                            Lval::Qexpr(cells),
                            Lval::Qexpr(body_cells),
                        ),
                    )
                }
                other => Err(
                    Error::WrongType("Q-Expression".to_owned(), crate::render::render(&other)),
                ),
            }
        }
        other => Err(
            Error::WrongType("Q-Expression".to_owned(), crate::render::render(&other)),
        ),
    }
}

/// Back a registered name that the evaluator dispatches itself; reaching it
/// through the generic path is always a failure.
pub fn builtin_stub(a: &mut Lval) -> (r: ReplispResult<Lval>)
    ensures
        r matches Err(e) && e@ == ErrV::WrongType(
            "builtin dispatched by the evaluator"@,
            text_of(old(a)@),
        ),
        final(a)@ == old(a)@,
{
    Err(
        Error::WrongType(
            "builtin dispatched by the evaluator".to_owned(),
            crate::render::render(a),
        ),
    )
}

/// The text `print` writes for an argument list: each argument's print form,
/// concatenated with no separator.
pub open spec fn print_seq(args: Seq<Val>) -> Seq<char>
    decreases args.len(),
{
    if args.len() == 0 {
        Seq::empty()
    } else {
        crate::render::print_text(args[0]) + print_seq(args.subrange(1, args.len() as int))
    }
}

/// Render each argument into the output sink, concatenated with no
/// separator and followed by one newline, and return an empty S-expression.
#[verifier::loop_isolation(false)]
pub fn builtin_print(v: &mut Lval, out: &mut String) -> (r: ReplispResult<Lval>)
    ensures
        list_cells(old(v)@) matches Some(cells) ==> (r matches Ok(res) && res@ == Val::Sexpr(
            Seq::empty(),
        ) && final(out)@ == old(out)@ + print_seq(cells) + "\n"@),
        list_cells(old(v)@) is None ==> (r matches Err(e) && e@ == ErrV::NoChildren
            && final(out)@ == old(out)@),
{
    let count = v.len()?;
    let ghost args = cells_of(v@);
    let ghost out0 = out@;
    proof {
        assert(args.subrange(0, count as int) =~= args);
    }
    let mut i: usize = 0;
    while i < count
        invariant
            i <= count,
            args.len() == count,
            list_cells(v@) is Some,
            cells_of(v@) == args,
            out@ == out0 + print_seq(args.subrange(0, i as int)),
        decreases count - i,
    {
        let item: Lval = match v {
            Lval::Sexpr(cells) => {
                proof {
                    crate::lval::lemma_vals_of(cells@);
                }
                cells[i].clone()
            }
            Lval::Qexpr(cells) => {
                proof {
                    crate::lval::lemma_vals_of(cells@);
                }
                cells[i].clone()
            }
            _ => {
                proof {
                    assert(false);
                }
                return Err(Error::NoChildren);
            }
        };
        let piece = crate::render::render_print(&item);
        out.append(piece.as_str());
        i = i + 1;
        proof {
            lemma_print_seq_snoc(args, i as int);
        }
    }
    proof {
        reveal_strlit("\n");
        assert(args.subrange(0, count as int) =~= args);
    }
    out.append("\n");
    Ok(crate::lval::sexpr())
}

/// Extending the printed prefix by one argument appends that argument's
/// print form.
proof fn lemma_print_seq_snoc(args: Seq<Val>, i: int)
    requires
        1 <= i <= args.len(),
    ensures
        print_seq(args.subrange(0, i)) == print_seq(args.subrange(0, i - 1))
            + crate::render::print_text(args[i - 1]),
    decreases i,
{
    lemma_print_seq_append_one(args.subrange(0, i));
    assert(args.subrange(0, i).subrange(0, i - 1) =~= args.subrange(0, i - 1));
    assert(args.subrange(0, i)[i - 1] == args[i - 1]);
}

/// A non-empty print sequence is its prefix plus its last element's form.
proof fn lemma_print_seq_append_one(s: Seq<Val>)
    requires
        s.len() >= 1,
    ensures
        print_seq(s) == print_seq(s.subrange(0, s.len() - 1)) + crate::render::print_text(
            s[s.len() - 1],
        ),
    decreases s.len(),
{
    if s.len() == 1 {
        assert(s.subrange(0, 0) =~= Seq::<Val>::empty());
        assert(s.subrange(1, s.len() as int) =~= Seq::<Val>::empty());
        assert(print_seq(s.subrange(1, s.len() as int)) == Seq::<char>::empty());
        assert(print_seq(s) == crate::render::print_text(s[0]) + print_seq(
            s.subrange(1, s.len() as int),
        ));
        assert(print_seq(s) =~= crate::render::print_text(s[0]));
        assert(print_seq(s.subrange(0, 0)) =~= Seq::<char>::empty());
        assert(print_seq(s) =~= print_seq(s.subrange(0, 0)) + crate::render::print_text(s[0]));
    } else {
        let rest = s.subrange(1, s.len() as int);
        lemma_print_seq_append_one(rest);
        assert(rest.subrange(0, rest.len() - 1) =~= s.subrange(0, s.len() - 1).subrange(
            1,
            s.len() - 1,
        ));
        assert(s.subrange(0, s.len() - 1)[0] == s[0]);
        assert(print_seq(s.subrange(0, s.len() - 1)) == crate::render::print_text(s[0])
            + print_seq(s.subrange(0, s.len() - 1).subrange(1, s.len() - 1)));
        assert(rest[rest.len() - 1] == s[s.len() - 1]);
    }
}



/// Whether every element of an argument list is a number.
pub open spec fn all_nums(s: Seq<Val>) -> bool {
    forall|i: int| 0 <= i < s.len() ==> (#[trigger] s[i]) is Num
}

/// The exact integer sum of a number list.
pub open spec fn int_sum(s: Seq<Val>) -> int
    recommends
        all_nums(s),
    decreases s.len(),
{
    if s.len() == 0 {
        0
    } else {
        (match s[0] {
            Val::Num(n) => n as int,
            _ => 0,
        }) + int_sum(s.subrange(1, s.len() as int))
    }
}

/// Cropping a summand first does not change the cropped sum.
proof fn lemma_crop_add_left(x: int, y: int)
    ensures
        vstd::wrapping::i64_specs::signed_crop(
            (vstd::wrapping::i64_specs::signed_crop(x) as int) + y,
        ) == vstd::wrapping::i64_specs::signed_crop(x + y),
{
    let m = 0x1_0000_0000_0000_0000int;
    let s = vstd::wrapping::i64_specs::signed_crop(x) as int;
    vstd::arithmetic::div_mod::lemma_fundamental_div_mod(x, m);
    let q = x / m;
    if x % m > i64::MAX {
        assert(s == x - m * (q + 1));
        lemma_crop_periodic(x + y, -(q + 1));
        assert(s + y == (x + y) + m * (-(q + 1)));
    } else {
        assert(s == x - m * q);
        lemma_crop_periodic(x + y, -q);
        assert(s + y == (x + y) + m * (-q));
    }
}

/// Wrapping addition is addition followed by the crop into the 64-bit
/// signed range.
proof fn lemma_wrap_add_is_crop(x: i64, y: i64)
    ensures
        wrap_add(x, y) == vstd::wrapping::i64_specs::signed_crop(x as int + y as int),
{
    let m = 0x1_0000_0000_0000_0000int;
    let u = x as int + y as int;
    if u > i64::MAX {
        vstd::arithmetic::div_mod::lemma_small_mod(u as nat, m as nat);
    } else if 0 <= u <= i64::MAX {
        vstd::arithmetic::div_mod::lemma_small_mod(u as nat, m as nat);
    } else {
        vstd::arithmetic::div_mod::lemma_mod_add_multiples_vanish(u, m);
        vstd::arithmetic::div_mod::lemma_small_mod((u + m) as nat, m as nat);
    }
}

/// The addition fold from any accumulator over a number list computes the
/// cropped exact sum.
proof fn lemma_fold_add(x: i64, rest: Seq<Val>)
    requires
        all_nums(rest),
    ensures
        fold_run(BuiltinOp::Add, Val::Num(x), rest) == Ok::<Val, ErrV>(
            Val::Num(vstd::wrapping::i64_specs::signed_crop(x as int + int_sum(rest))),
        ),
    decreases rest.len(),
{
    if rest.len() == 0 {
        lemma_wrap_add_is_crop(x, 0);
        assert(vstd::wrapping::i64_specs::signed_crop(x as int) == wrap_add(x, 0));
    } else {
        let tail = rest.subrange(1, rest.len() as int);
        assert(rest[0] is Num);
        let y = match rest[0] {
            Val::Num(n) => n,
            _ => 0,
        };
        assert(all_nums(tail)) by {
            assert(forall|i: int|
                0 <= i < tail.len() ==> #[trigger] tail[i] == rest[i + 1]);
        }
        lemma_fold_add(wrap_add(x, y), tail);
        lemma_wrap_add_is_crop(x, y);
        lemma_crop_add_left(x as int + y as int, int_sum(tail));
    }
}

/// Folding `+` over a non-empty number list yields exactly the sum of its
/// operands, wrapped into the 64-bit signed range.
pub proof fn lemma_add_fold_is_sum(args: Seq<Val>)
    requires
        all_nums(args),
        args.len() >= 1,
    ensures
        arith_spec(BuiltinOp::Add, args) == Ok::<Val, ErrV>(
            Val::Num(vstd::wrapping::i64_specs::signed_crop(int_sum(args))),
        ),
{
    let x = match args[0] {
        Val::Num(n) => n,
        _ => 0,
    };
    let rest = args.subrange(1, args.len() as int);
    assert(all_nums(rest)) by {
        assert(forall|i: int| 0 <= i < rest.len() ==> #[trigger] rest[i] == args[i + 1]);
    }
    lemma_fold_add(x, rest);
}

/// The sum of a concatenation is the sum of the parts.
proof fn lemma_int_sum_append(s1: Seq<Val>, s2: Seq<Val>)
    ensures
        int_sum(s1 + s2) == int_sum(s1) + int_sum(s2),
    decreases s1.len(),
{
    if s1.len() == 0 {
        assert(s1 + s2 =~= s2);
    } else {
        let rest = s1.subrange(1, s1.len() as int);
        lemma_int_sum_append(rest, s2);
        assert((s1 + s2).subrange(1, (s1 + s2).len() as int) =~= rest + s2);
        assert((s1 + s2)[0] == s1[0]);
    }
}

/// `+` is commutative: number operand lists folded in either order give
/// the same value.
pub proof fn lemma_add_commutative(s1: Seq<Val>, s2: Seq<Val>)
    requires
        all_nums(s1),
        all_nums(s2),
        s1.len() + s2.len() >= 1,
    ensures
        arith_spec(BuiltinOp::Add, s1 + s2) == arith_spec(BuiltinOp::Add, s2 + s1),
{
    assert(all_nums(s1 + s2)) by {
        assert(forall|i: int|
            0 <= i < s1.len() ==> #[trigger] (s1 + s2)[i] == s1[i]);
        assert(forall|i: int|
            s1.len() <= i < s1.len() + s2.len() ==> #[trigger] (s1 + s2)[i] == s2[
                i - s1.len()
            ]);
    }
    assert(all_nums(s2 + s1)) by {
        assert(forall|i: int|
            0 <= i < s2.len() ==> #[trigger] (s2 + s1)[i] == s2[i]);
        assert(forall|i: int|
            s2.len() <= i < s1.len() + s2.len() ==> #[trigger] (s2 + s1)[i] == s1[
                i - s2.len()
            ]);
    }
    lemma_add_fold_is_sum(s1 + s2);
    lemma_add_fold_is_sum(s2 + s1);
    lemma_int_sum_append(s1, s2);
    lemma_int_sum_append(s2, s1);
}

/// `+` is associative: folding a list's sum with further operands equals
/// folding the whole flattened list at once.
pub proof fn lemma_add_associative(s1: Seq<Val>, s2: Seq<Val>, t: i64)
    requires
        all_nums(s1),
        all_nums(s2),
        s1.len() >= 1,
        arith_spec(BuiltinOp::Add, s1) == Ok::<Val, ErrV>(Val::Num(t)),
    ensures
        arith_spec(BuiltinOp::Add, seq![Val::Num(t)] + s2) == arith_spec(
            BuiltinOp::Add,
            s1 + s2,
        ),
{
    lemma_add_fold_is_sum(s1);
    assert(t == vstd::wrapping::i64_specs::signed_crop(int_sum(s1)));
    assert(all_nums(seq![Val::Num(t)] + s2)) by {
        assert((seq![Val::Num(t)] + s2)[0] == Val::Num(t));
        assert(forall|i: int|
            1 <= i < 1 + s2.len() ==> #[trigger] (seq![Val::Num(t)] + s2)[i] == s2[i - 1]);
    }
    assert(all_nums(s1 + s2)) by {
        assert(forall|i: int|
            0 <= i < s1.len() ==> #[trigger] (s1 + s2)[i] == s1[i]);
        assert(forall|i: int|
            s1.len() <= i < s1.len() + s2.len() ==> #[trigger] (s1 + s2)[i] == s2[
                i - s1.len()
            ]);
    }
    lemma_add_fold_is_sum(seq![Val::Num(t)] + s2);
    lemma_add_fold_is_sum(s1 + s2);
    lemma_int_sum_append(seq![Val::Num(t)], s2);
    lemma_int_sum_append(s1, s2);
    assert(int_sum(seq![Val::Num(t)]) == t as int) by {
        assert(seq![Val::Num(t)].subrange(1, 1) =~= Seq::<Val>::empty());
        assert(int_sum(Seq::<Val>::empty()) == 0);
        assert(seq![Val::Num(t)][0] == Val::Num(t));
    }
    lemma_crop_add_left(int_sum(s1), int_sum(s2));
}


} // verus!

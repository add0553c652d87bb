//! The value representation of the language: a tagged tree of numbers,
//! symbols, string literals, expression lists and functions, together with
//! its mathematical model and the structural operations on child lists.

use crate::error::{Error, ReplispResult};
use vstd::prelude::*;

verus! {

/// The closed set of native operations. Operations that need the calling
/// environment (`Def`, `Do`), the calling scope's handle (`MakeLambda`,
/// which records it as the new lambda's defining environment) or the output
/// sink (`Print`, `Exit`) are distinguished at the type level and
/// dispatched by the evaluator itself; the rest are pure functions of their
/// argument list.
#[derive(Debug, Clone, Copy, PartialEq, Eq, Structural)]
pub enum BuiltinOp {
    Add,
    Sub,
    Mul,
    Div,
    Rem,
    Pow,
    Min,
    Max,
    Cons,
    Head,
    Tail,
    Init,
    List,
    Join,
    Len,
    MakeLambda,
    Def,
    Do,
    Print,
    Exit,
}

/// A function value: either a native operation, kept with the name it was
/// registered under, or a user-defined lambda carrying the handle of the
/// environment it was defined in (lexical scoping; the scope arena never
/// drops a scope, so the handle stays meaningful), a formal-parameter list
/// and a body.
#[derive(Debug, PartialEq)]
pub enum Func {
    Builtin(String, BuiltinOp),
    Lambda(usize, Box<Lval>, Box<Lval>),
}

/// A language value: the tree produced by the parser and consumed and
/// produced by the evaluator. `Sexpr` children are reduced by application;
/// `Qexpr` children are literal data.
#[derive(Debug, PartialEq)]
pub enum Lval {
    Num(i64),
    Sym(String),
    Str(String),
    Sexpr(Vec<Lval>),
    Qexpr(Vec<Lval>),
    Fun(Func),
}

/// The mathematical model of a value: strings become character sequences and
/// child vectors become sequences, so that contracts can state structural
/// equality directly.
#[verifier::ext_equal]
pub enum Val {
    Num(i64),
    Sym(Seq<char>),
    Str(Seq<char>),
    Sexpr(Seq<Val>),
    Qexpr(Seq<Val>),
    Builtin(Seq<char>, BuiltinOp),
    Lambda(usize, Box<Val>, Box<Val>),
}

/// The model of a single value.
pub open spec fn val_of(v: Lval) -> Val
    decreases v,
{
    match v {
        Lval::Num(n) => Val::Num(n),
        Lval::Sym(s) => Val::Sym(s@),
        Lval::Str(s) => Val::Str(s@),
        Lval::Sexpr(cells) => Val::Sexpr(vals_of(cells@)),
        Lval::Qexpr(cells) => Val::Qexpr(vals_of(cells@)),
        Lval::Fun(Func::Builtin(name, op)) => Val::Builtin(name@, op),
        Lval::Fun(Func::Lambda(defined_in, formals, body)) => Val::Lambda(
            defined_in,
            Box::new(val_of(*formals)),
            Box::new(val_of(*body)),
        ),
    }
}

/// The model of a child list, element by element.
pub open spec fn vals_of(s: Seq<Lval>) -> Seq<Val>
    decreases s,
{
    if s.len() == 0 {
        Seq::empty()
    } else {
        seq![val_of(s[0])] + vals_of(s.subrange(1, s.len() as int))
    }
}

/// The model of a captured-binding list, pair by pair.
pub open spec fn pairs_of(s: Seq<(String, Lval)>) -> Seq<(Seq<char>, Val)>
    decreases s,
{
    if s.len() == 0 {
        Seq::empty()
    } else {
        seq![(s[0].0@, val_of(s[0].1))] + pairs_of(s.subrange(1, s.len() as int))
    }
}

/// `vals_of` is the element-wise image of `val_of`.
pub broadcast proof fn lemma_vals_of(s: Seq<Lval>)
    ensures
        (#[trigger] vals_of(s)).len() == s.len(),
        forall|i: int| 0 <= i < s.len() ==> #[trigger] vals_of(s)[i] == val_of(s[i]),
    decreases s.len(),
{
    if s.len() > 0 {
        lemma_vals_of(s.subrange(1, s.len() as int));
    }
}

/// `pairs_of` is the element-wise image of its pair mapping.
pub broadcast proof fn lemma_pairs_of(s: Seq<(String, Lval)>)
    ensures
        (#[trigger] pairs_of(s)).len() == s.len(),
        forall|i: int|
            0 <= i < s.len() ==> #[trigger] pairs_of(s)[i] == (s[i].0@, val_of(s[i].1)),
    decreases s.len(),
{
    if s.len() > 0 {
        lemma_pairs_of(s.subrange(1, s.len() as int));
    }
}

impl View for Lval {
    type V = Val;

    open spec fn view(&self) -> Val {
        val_of(*self)
    }
}

/// The children of a list model, if the value is a list at all.
pub open spec fn list_cells(v: Val) -> Option<Seq<Val>> {
    match v {
        Val::Sexpr(cells) => Some(cells),
        Val::Qexpr(cells) => Some(cells),
        _ => None,
    }
}

/// The children of a list model, or the empty sequence for a non-list.
pub open spec fn cells_of(v: Val) -> Seq<Val> {
    match list_cells(v) {
        Some(cells) => cells,
        None => Seq::empty(),
    }
}

impl Lval {
    /// The number held by a `Num`; any other variant is `NotANumber`.
    pub fn as_num(&self) -> (r: ReplispResult<i64>)
        ensures
            match r {
                Ok(n) => self@ == Val::Num(n),
                Err(e) => !(self@ is Num) && e@ == crate::error::ErrV::NotANumber,
            },
    {
        match *self {
            Lval::Num(n) => Ok(n),
            _ => Err(Error::NotANumber),
        }
    }

    /// The text of a `Sym` or `Str`; any other variant is a type mismatch
    /// reported with the value's display form.
    pub fn as_string(&self) -> (r: ReplispResult<String>)
        ensures
            match r {
                Ok(s) => self@ == Val::Sym(s@) || self@ == Val::Str(s@),
                Err(e) => !(self@ is Sym) && !(self@ is Str) && e@
                    == crate::error::ErrV::WrongType(
                    "string or symbol"@,
                    crate::render::text_of(self@),
                ),
            },
    {
        match self {
            Lval::Sym(s) => Ok(s.clone()),
            Lval::Str(s) => Ok(s.clone()),
            _ => Err(
                Error::WrongType("string or symbol".to_owned(), crate::render::render(self)),
            ),
        }
    }

    /// The number of children of a list; any other variant is `NoChildren`.
    pub fn len(&self) -> (r: ReplispResult<usize>)
        ensures
            match r {
                Ok(n) => list_cells(self@) matches Some(cells) && cells.len() == n,
                Err(e) => list_cells(self@) is None && e@ == crate::error::ErrV::NoChildren,
            },
    {
        match self {
            Lval::Sexpr(children) => {
                proof {
                    lemma_vals_of(children@);
                }
                Ok(children.len())
            }
            Lval::Qexpr(children) => {
                proof {
                    lemma_vals_of(children@);
                }
                Ok(children.len())
            }
            _ => Err(Error::NoChildren),
        }
    }
}

impl Clone for Lval {
    /// A deep copy: the clone has the same model as the original.
    fn clone(&self) -> (r: Lval)
        ensures
            r@ == self@,
        decreases self,
    {
        match self {
            Lval::Num(n) => Lval::Num(*n),
            Lval::Sym(s) => Lval::Sym(s.clone()),
            Lval::Str(s) => Lval::Str(s.clone()),
            Lval::Sexpr(cells) => {
                let copied = clone_cells(cells);
                proof {
                    lemma_vals_of(copied@);
                    lemma_vals_of(cells@);
                    assert(vals_of(copied@) =~= vals_of(cells@));
                }
                Lval::Sexpr(copied)
            }
            Lval::Qexpr(cells) => {
                let copied = clone_cells(cells);
                proof {
                    lemma_vals_of(copied@);
                    lemma_vals_of(cells@);
                    assert(vals_of(copied@) =~= vals_of(cells@));
                }
                Lval::Qexpr(copied)
            }
            Lval::Fun(f) => Lval::Fun(f.clone()),
        }
    }
}

/// A deep copy of a child list, preserving each child's model.
pub(crate) fn clone_cells(cells: &Vec<Lval>) -> (r: Vec<Lval>)
    ensures
        r@.len() == cells@.len(),
        forall|i: int| 0 <= i < cells@.len() ==> val_of(#[trigger] r@[i]) == val_of(cells@[i]),
    decreases cells,
{
    let mut out: Vec<Lval> = Vec::new();
    let n = cells.len();
    for i in 0..n
        invariant
            n == cells@.len(),
            out@.len() == i,
            forall|j: int| 0 <= j < i ==> val_of(#[trigger] out@[j]) == val_of(cells@[j]),
        decreases n - i,
    {
        out.push(cells[i].clone());
    }
    out
}

impl Clone for Func {
    /// A deep copy: the clone has the same model as the original.
    fn clone(&self) -> (r: Func)
        ensures
            val_of(Lval::Fun(r)) == val_of(Lval::Fun(*self)),
        decreases self,
    {
        match self {
            Func::Builtin(name, op) => Func::Builtin(name.clone(), *op),
            Func::Lambda(defined_in, formals, body) => Func::Lambda(
                *defined_in,
                Box::new((**formals).clone()),
                Box::new((**body).clone()),
            ),
        }
    }
}

// Constructors. Each builds a fresh value; the recursive kinds start empty.

/// A native-function value under the given registration name.
pub fn builtin(op: BuiltinOp, name: &str) -> (r: Lval)
    ensures
        r@ == Val::Builtin(name@, op),
{
    Lval::Fun(Func::Builtin(name.to_owned(), op))
}

/// A lambda value from the handle of its defining environment, formal
/// parameters and a body.
pub fn lambda(env: usize, formals: Lval, body: Lval) -> (r: Lval)
    ensures
        r@ == Val::Lambda(env, Box::new(formals@), Box::new(body@)),
{
    Lval::Fun(Func::Lambda(env, Box::new(formals), Box::new(body)))
}

/// A number value.
pub fn num(n: i64) -> (r: Lval)
    ensures
        r@ == Val::Num(n),
{
    Lval::Num(n)
}

/// An empty S-expression.
pub fn sexpr() -> (r: Lval)
    ensures
        r@ == Val::Sexpr(Seq::empty()),
{
    let cells: Vec<Lval> = Vec::new();
    proof {
        lemma_vals_of(cells@);
        assert(vals_of(cells@) =~= Seq::<Val>::empty());
    }
    Lval::Sexpr(cells)
}

/// An empty Q-expression.
pub fn qexpr() -> (r: Lval)
    ensures
        r@ == Val::Qexpr(Seq::empty()),
{
    let cells: Vec<Lval> = Vec::new();
    proof {
        lemma_vals_of(cells@);
        assert(vals_of(cells@) =~= Seq::<Val>::empty());
    }
    Lval::Qexpr(cells)
}

// Manipulating children.

/// Append a copy of `x` to the children of list `v`; any other variant of
/// `v` is `NoChildren` and is left unchanged.
pub fn add(v: &mut Lval, x: &Lval) -> (r: ReplispResult<()>)
    ensures
        match r {
            Ok(()) => {
                &&& list_cells(old(v)@) is Some
                &&& (old(v)@ matches Val::Sexpr(cells) ==> final(v)@ == Val::Sexpr(cells.push(x@)))
                &&& (old(v)@ matches Val::Qexpr(cells) ==> final(v)@ == Val::Qexpr(cells.push(x@)))
            },
            Err(e) => {
                &&& list_cells(old(v)@) is None
                &&& e@ == crate::error::ErrV::NoChildren
                &&& final(v)@ == old(v)@
            },
        },
{
    match v {
        Lval::Sexpr(children) => {
            let ghost before = children@;
            children.push(x.clone());
            proof {
                lemma_vals_of(before);
                lemma_vals_of(children@);
                assert(vals_of(children@) =~= vals_of(before).push(x@));
            }
            Ok(())
        }
        Lval::Qexpr(children) => {
            let ghost before = children@;
            children.push(x.clone());
            proof {
                lemma_vals_of(before);
                lemma_vals_of(children@);
                assert(vals_of(children@) =~= vals_of(before).push(x@));
            }
            Ok(())
        }
        _ => Err(Error::NoChildren),
    }
}

/// Remove and return the child of list `v` at index `i`, shifting the
/// remaining children left; any other variant of `v` is `NoChildren`.
/// An out-of-range index on a list is a caller error, excluded here.
pub fn pop(v: &mut Lval, i: usize) -> (r: ReplispResult<Lval>)
    requires
        list_cells(old(v)@) matches Some(cells) ==> i < cells.len(),
    ensures
        match r {
            Ok(child) => {
                &&& list_cells(old(v)@) matches Some(cells) && child@ == cells[i as int]
                &&& (old(v)@ matches Val::Sexpr(cells) ==> final(v)@ == Val::Sexpr(
                    cells.remove(i as int),
                ))
                &&& (old(v)@ matches Val::Qexpr(cells) ==> final(v)@ == Val::Qexpr(
                    cells.remove(i as int),
                ))
            },
            Err(e) => {
                &&& list_cells(old(v)@) is None
                &&& e@ == crate::error::ErrV::NoChildren
                &&& final(v)@ == old(v)@
            },
        },
{
    match v {
        Lval::Sexpr(children) => {
            let ghost before = children@;
            proof {
                lemma_vals_of(before);
            }
            let child = children.remove(i);
            proof {
                lemma_vals_of(children@);
                assert(vals_of(children@) =~= vals_of(before).remove(i as int));
            }
            Ok(child)
        }
        Lval::Qexpr(children) => {
            let ghost before = children@;
            proof {
                lemma_vals_of(before);
            }
            let child = children.remove(i);
            proof {
                lemma_vals_of(children@);
                assert(vals_of(children@) =~= vals_of(before).remove(i as int));
            }
            Ok(child)
        }
        _ => Err(Error::NoChildren),
    }
}

/// Drain every child of `y` into `x`, left to right. `y` must be a list;
/// `x` must be one too unless `y` is empty, matching the step-by-step
/// draining order of the operation.
pub fn join(x: &mut Lval, y: Lval) -> (r: ReplispResult<()>)
    ensures
        match r {
            Ok(()) => {
                &&& list_cells(y@) is Some
                &&& (cells_of(y@).len() == 0 ==> final(x)@ == old(x)@)
                &&& (cells_of(y@).len() > 0 ==> list_cells(old(x)@) is Some)
                &&& (cells_of(y@).len() > 0 && old(x)@ is Sexpr ==> final(x)@ == Val::Sexpr(
                    cells_of(old(x)@) + cells_of(y@),
                ))
                &&& (cells_of(y@).len() > 0 && old(x)@ is Qexpr ==> final(x)@ == Val::Qexpr(
                    cells_of(old(x)@) + cells_of(y@),
                ))
            },
            Err(e) => {
                &&& e@ == crate::error::ErrV::NoChildren
                &&& final(x)@ == old(x)@
                &&& (list_cells(y@) is None || (list_cells(old(x)@) is None
                    && cells_of(y@).len() > 0))
            },
        },
{
    match y {
        Lval::Sexpr(ycells) => {
            proof {
                lemma_vals_of(ycells@);
            }
            join_cells(x, ycells)
        }
        Lval::Qexpr(ycells) => {
            proof {
                lemma_vals_of(ycells@);
            }
            join_cells(x, ycells)
        }
        _ => Err(Error::NoChildren),
    }
}

/// Append every element of `ycells` to the children of list `x`.
fn join_cells(x: &mut Lval, ycells: Vec<Lval>) -> (r: ReplispResult<()>)
    ensures
        match r {
            Ok(()) => {
                &&& (ycells@.len() == 0 ==> final(x)@ == old(x)@)
                &&& (ycells@.len() > 0 ==> list_cells(old(x)@) is Some)
                &&& (ycells@.len() > 0 && old(x)@ is Sexpr ==> final(x)@ == Val::Sexpr(
                    cells_of(old(x)@) + vals_of(ycells@),
                ))
                &&& (ycells@.len() > 0 && old(x)@ is Qexpr ==> final(x)@ == Val::Qexpr(
                    cells_of(old(x)@) + vals_of(ycells@),
                ))
            },
            Err(e) => {
                &&& e@ == crate::error::ErrV::NoChildren
                &&& final(x)@ == old(x)@
                &&& list_cells(old(x)@) is None
                &&& ycells@.len() > 0
            },
        },
{
    if ycells.len() == 0 {
        return Ok(());
    }
    match x {
        Lval::Sexpr(children) => {
            let ghost xs0 = children@;
            let ghost ys0 = ycells@;
            append_cells(children, ycells);
            proof {
                lemma_vals_of(children@);
                lemma_vals_of(xs0);
                lemma_vals_of(ys0);
                assert(vals_of(children@) =~= vals_of(xs0) + vals_of(ys0));
            }
            Ok(())
        }
        Lval::Qexpr(children) => {
            let ghost xs0 = children@;
            let ghost ys0 = ycells@;
            append_cells(children, ycells);
            proof {
                lemma_vals_of(children@);
                lemma_vals_of(xs0);
                lemma_vals_of(ys0);
                assert(vals_of(children@) =~= vals_of(xs0) + vals_of(ys0));
            }
            Ok(())
        }
        _ => Err(Error::NoChildren),
    }
}

/// Push every element of `ycells` onto `children`, in order.
pub(crate) fn append_cells(children: &mut Vec<Lval>, ycells: Vec<Lval>)
    ensures
        final(children)@.len() == old(children)@.len() + ycells@.len(),
        forall|j: int|
            0 <= j < old(children)@.len() ==> val_of(#[trigger] final(children)@[j]) == val_of(
                old(children)@[j],
            ),
        forall|j: int|
            old(children)@.len() <= j < old(children)@.len() + ycells@.len() ==> val_of(
                #[trigger] final(children)@[j],
            ) == val_of(ycells@[j - old(children)@.len()]),
{
    let mut rest = ycells;
    let n = rest.len();
    let ghost c0 = children@;
    let ghost y0 = rest@;
    for i in 0..n
        invariant
            n == y0.len(),
            rest@ == y0,
            children@.len() == c0.len() + i,
            forall|j: int|
                0 <= j < c0.len() ==> val_of(#[trigger] children@[j]) == val_of(c0[j]),
            forall|j: int|
                c0.len() <= j < c0.len() + i ==> val_of(#[trigger] children@[j]) == val_of(
                    y0[j - c0.len()],
                ),
        decreases n - i,
    {
        let item = rest[i].clone();
        children.push(item);
    }
}

} // verus!

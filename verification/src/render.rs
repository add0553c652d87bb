//! Textual rendering of values: the default display form, the decimal form
//! of numbers, and the comma-grouped form used by `print`.

use crate::lval::{val_of, vals_of, lemma_vals_of, Func, Lval, Val};
use vstd::prelude::*;

verus! {

/// The decimal digit character for `n` (`n < 10`).
pub open spec fn digit(n: nat) -> char
    recommends
        n < 10,
{
    if n == 0 {
        '0'
    } else if n == 1 {
        '1'
    } else if n == 2 {
        '2'
    } else if n == 3 {
        '3'
    } else if n == 4 {
        '4'
    } else if n == 5 {
        '5'
    } else if n == 6 {
        '6'
    } else if n == 7 {
        '7'
    } else if n == 8 {
        '8'
    } else {
        '9'
    }
}

/// The decimal digit string of a non-negative number, most significant first.
pub open spec fn dec_digits(n: nat) -> Seq<char>
    decreases n,
{
    if n < 10 {
        seq![digit(n)]
    } else {
        dec_digits(n / 10).push(digit(n % 10))
    }
}

/// The plain decimal form of a number, with a leading minus sign when
/// negative.
pub open spec fn num_text(n: i64) -> Seq<char> {
    if n < 0 {
        seq!['-'] + dec_digits((-(n as int)) as nat)
    } else {
        dec_digits(n as nat)
    }
}

/// The suffix of `s` from position `i` with a comma after every character
/// that has a multiple of three characters to its right, except the last.
pub open spec fn comma_from(s: Seq<char>, i: int) -> Seq<char>
    recommends
        0 <= i <= s.len(),
    decreases s.len() - i,
{
    if i < 0 || i >= s.len() {
        Seq::empty()
    } else if (s.len() - i - 1) % 3 == 0 && i < s.len() - 1 {
        seq![s[i], ','] + comma_from(s, i + 1)
    } else {
        seq![s[i]] + comma_from(s, i + 1)
    }
}

/// A string regrouped with thousands separators, counted over all of its
/// characters, the sign included.
pub open spec fn grouped(s: Seq<char>) -> Seq<char> {
    comma_from(s, 0)
}

/// The comma-grouped decimal form of a number.
pub open spec fn formatted_num(n: i64) -> Seq<char> {
    grouped(num_text(n))
}

/// The display form of a value.
pub open spec fn text_of(v: Val) -> Seq<char>
    decreases v,
{
    match v {
        Val::Num(n) => num_text(n),
        Val::Sym(s) => s,
        Val::Str(s) => seq!['"'] + s + seq!['"'],
        Val::Sexpr(cells) => seq!['('] + text_of_list(cells) + seq![')'],
        Val::Qexpr(cells) => seq!['{'] + text_of_list(cells) + seq!['}'],
        Val::Builtin(name, _) => "<builtin "@ + name + seq!['>'],
        Val::Lambda(_, formals, body) => "(\\ "@ + text_of(*formals) + seq![' '] + text_of(
            *body,
        ) + seq![')'],
    }
}

/// The display forms of a child list, separated by single spaces.
pub open spec fn text_of_list(cells: Seq<Val>) -> Seq<char>
    decreases cells,
{
    if cells.len() == 0 {
        Seq::empty()
    } else {
        text_of(cells[0]) + text_of_tail(cells.subrange(1, cells.len() as int))
    }
}

/// The display forms of a child list, each preceded by a space.
pub open spec fn text_of_tail(cells: Seq<Val>) -> Seq<char>
    decreases cells,
{
    if cells.len() == 0 {
        Seq::empty()
    } else {
        seq![' '] + text_of(cells[0]) + text_of_tail(cells.subrange(1, cells.len() as int))
    }
}

/// Every character of the decimal digit string is a digit.
proof fn lemma_dec_digits_are_digits(n: nat)
    ensures
        forall|i: int|
            0 <= i < dec_digits(n).len() ==> exists|d: nat|
                d < 10 && #[trigger] dec_digits(n)[i] == digit(d),
    decreases n,
{
    if n >= 10 {
        lemma_dec_digits_are_digits(n / 10);
        assert forall|i: int| 0 <= i < dec_digits(n).len() implies exists|d: nat|
            d < 10 && #[trigger] dec_digits(n)[i] == digit(d) by {
            if i < dec_digits(n / 10).len() {
                assert(dec_digits(n)[i] == dec_digits(n / 10)[i]);
            } else {
                assert(dec_digits(n)[i] == digit(n % 10));
            }
        }
    }
}

/// A one-character string for a decimal digit or the minus sign.
fn sign_or_digit_str(c: char) -> (r: &'static str)
    requires
        c == '-' || exists|d: nat| d < 10 && c == digit(d),
    ensures
        r@ =~= seq![c],
{
    proof {
        reveal_strlit("-");
        reveal_strlit("0");
        reveal_strlit("1");
        reveal_strlit("2");
        reveal_strlit("3");
        reveal_strlit("4");
        reveal_strlit("5");
        reveal_strlit("6");
        reveal_strlit("7");
        reveal_strlit("8");
        reveal_strlit("9");
    }
    match c {
        '-' => "-",
        '0' => "0",
        '1' => "1",
        '2' => "2",
        '3' => "3",
        '4' => "4",
        '5' => "5",
        '6' => "6",
        '7' => "7",
        '8' => "8",
        '9' => "9",
        _ => {
            proof {
                assert(false);
            }
            "-"
        }
    }
}

/// The decimal digit string of `m`, most significant digit first.
fn dec_u64(m: u64) -> (r: String)
    ensures
        r@ =~= dec_digits(m as nat),
    decreases m,
{
    if m < 10 {
        let s = sign_or_digit_str_of_value(m);
        s.to_owned()
    } else {
        let mut prefix = dec_u64(m / 10);
        let last = sign_or_digit_str_of_value(m % 10);
        prefix.append(last);
        prefix
    }
}

/// A one-character string for the digit value `d` (`d < 10`).
fn sign_or_digit_str_of_value(d: u64) -> (r: &'static str)
    requires
        d < 10,
    ensures
        r@ =~= seq![digit(d as nat)],
{
    sign_or_digit_str(digit_char(d))
}

/// The digit character for the digit value `d` (`d < 10`).
fn digit_char(d: u64) -> (r: char)
    requires
        d < 10,
    ensures
        r == digit(d as nat),
{
    if d == 0 {
        '0'
    } else if d == 1 {
        '1'
    } else if d == 2 {
        '2'
    } else if d == 3 {
        '3'
    } else if d == 4 {
        '4'
    } else if d == 5 {
        '5'
    } else if d == 6 {
        '6'
    } else if d == 7 {
        '7'
    } else if d == 8 {
        '8'
    } else {
        '9'
    }
}

/// The plain decimal form of `n`, sign included.
pub fn int_to_decimal(n: i64) -> (r: String)
    ensures
        r@ =~= num_text(n),
{
    if n >= 0 {
        dec_u64(n as u64)
    } else {
        let wide: i128 = n as i128;
        let magnitude: u64 = (-wide) as u64;
        let mut s = String::from_str("-");
        proof {
            reveal_strlit("-");
        }
        let digits = dec_u64(magnitude);
        s.append(digits.as_str());
        s
    }
}

/// Format a number in decimal with a comma after every character that has a
/// multiple of three characters to its right, except the last; the sign
/// counts as a character.
pub fn format_number(n: i64) -> (r: String)
    ensures
        r@ =~= formatted_num(n),
{
    let s = int_to_decimal(n);
    proof {
        if n < 0 {
            lemma_dec_digits_are_digits((-(n as int)) as nat);
        } else {
            lemma_dec_digits_are_digits(n as nat);
        }
    }
    let len = s.as_str().unicode_len();
    let mut out = String::new();
    let mut i: usize = 0;
    while i < len
        invariant
            len == s@.len(),
            i <= len,
            forall|k: int|
                0 <= k < s@.len() ==> s@[k] == '-' || exists|d: nat|
                    d < 10 && #[trigger] s@[k] == digit(d),
            grouped(s@) =~= out@ + comma_from(s@, i as int),
        decreases len - i,
    {
        let c = s.as_str().get_char(i);
        let piece = sign_or_digit_str(c);
        out.append(piece);
        if (len - i - 1) % 3 == 0 && i < len - 1 {
            proof {
                reveal_strlit(",");
            }
            out.append(",");
        }
        i = i + 1;
    }
    out
}

/// The display form of a value, as `text_of` states it.
pub fn render(v: &Lval) -> (r: String)
    ensures
        r@ =~= text_of(v@),
    decreases v,
{
    match v {
        Lval::Num(n) => int_to_decimal(*n),
        Lval::Sym(s) => s.clone(),
        Lval::Str(s) => {
            proof {
                reveal_strlit("\"");
            }
            let mut out = String::from_str("\"");
            out.append(s.as_str());
            out.append("\"");
            out
        }
        Lval::Sexpr(cells) => {
            proof {
                reveal_strlit("(");
                reveal_strlit(")");
            }
            let mut out = String::from_str("(");
            let inner = render_cells(cells);
            out.append(inner.as_str());
            out.append(")");
            out
        }
        Lval::Qexpr(cells) => {
            proof {
                reveal_strlit("{");
                reveal_strlit("}");
            }
            let mut out = String::from_str("{");
            let inner = render_cells(cells);
            out.append(inner.as_str());
            out.append("}");
            out
        }
        Lval::Fun(Func::Builtin(name, _)) => {
            proof {
                reveal_strlit("<builtin ");
                reveal_strlit(">");
            }
            let mut out = String::from_str("<builtin ");
            out.append(name.as_str());
            out.append(">");
            out
        }
        Lval::Fun(Func::Lambda(_, formals, body)) => {
            proof {
                reveal_strlit("(\\ ");
                reveal_strlit(" ");
                reveal_strlit(")");
            }
            let mut out = String::from_str("(\\ ");
            let formals_text = render(formals);
            out.append(formals_text.as_str());
            out.append(" ");
            let body_text = render(body);
            out.append(body_text.as_str());
            out.append(")");
            out
        }
    }
}

/// The display forms of the children of a list, separated by single spaces.
fn render_cells(cells: &Vec<Lval>) -> (r: String)
    ensures
        r@ =~= text_of_list(vals_of(cells@)),
    decreases cells,
{
    proof {
        lemma_vals_of(cells@);
    }
    let mut out = String::new();
    let n = cells.len();
    proof {
        assert(vals_of(cells@).subrange(0, n as int) =~= vals_of(cells@));
    }
    let mut i: usize = 0;
    while i < n
        invariant
            n == cells@.len(),
            i <= n,
            vals_of(cells@).len() == n,
            forall|k: int| 0 <= k < n ==> #[trigger] vals_of(cells@)[k] == val_of(cells@[k]),
            (if i == 0 {
                out@ =~= Seq::<char>::empty() && text_of_list(vals_of(cells@)) =~= out@
                    + text_of_list(vals_of(cells@).subrange(i as int, n as int))
            } else {
                text_of_list(vals_of(cells@)) =~= out@ + text_of_tail(
                    vals_of(cells@).subrange(i as int, n as int),
                )
            }),
        decreases n - i,
    {
        proof {
            let whole = vals_of(cells@);
            let rest = whole.subrange(i as int, n as int);
            assert(rest.len() > 0);
            assert(rest[0] == whole[i as int]);
            assert(rest.subrange(1, rest.len() as int) =~= whole.subrange(
                i as int + 1,
                n as int,
            ));
        }
        if i > 0 {
            proof {
                reveal_strlit(" ");
            }
            out.append(" ");
        }
        let piece = render(&cells[i]);
        out.append(piece.as_str());
        i = i + 1;
    }
    proof {
        assert(vals_of(cells@).subrange(n as int, n as int) =~= Seq::<Val>::empty());
    }
    out
}

/// The form a value takes under `print`: numbers comma-grouped, symbols and
/// string literals bare, an empty S-expression silent, everything else in
/// its display form.
pub open spec fn print_text(v: Val) -> Seq<char> {
    match v {
        Val::Num(n) => formatted_num(n),
        Val::Sym(s) => s,
        Val::Str(s) => s,
        Val::Sexpr(cells) => if cells.len() == 0 {
            Seq::empty()
        } else {
            text_of(v)
        },
        _ => text_of(v),
    }
}

/// The `print` form of a value, as `print_text` states it.
pub fn render_print(v: &Lval) -> (r: String)
    ensures
        r@ =~= print_text(v@),
{
    match v {
        Lval::Num(n) => format_number(*n),
        Lval::Sym(s) => s.clone(),
        Lval::Str(s) => s.clone(),
        Lval::Sexpr(cells) => {
            if cells.len() == 0 {
                proof {
                    lemma_vals_of(cells@);
                }
                String::new()
            } else {
                proof {
                    lemma_vals_of(cells@);
                }
                render(v)
            }
        }
        _ => render(v),
    }
}

} // verus!

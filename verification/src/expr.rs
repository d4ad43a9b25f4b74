//! The abstract syntax of lambda terms with De Bruijn indices.

use vstd::prelude::*;

verus! {

/// A lambda term: a variable (a De Bruijn index, 1 = innermost binder), an
/// abstraction over a body, or an application of a function to an argument.
/// The tree is immutable and finite by construction.
#[derive(Debug)]
pub enum Expr {
    Var(usize),
    Abs(Box<Expr>),
    App(Box<Expr>, Box<Expr>),
}

/// Builds an abstraction.
pub fn abs(body: Expr) -> (r: Expr)
    ensures
        r == Expr::Abs(Box::new(body)),
{
    Expr::Abs(Box::new(body))
}

/// Builds an application.
pub fn app(function: Expr, argument: Expr) -> (r: Expr)
    ensures
        r == Expr::App(Box::new(function), Box::new(argument)),
{
    Expr::App(Box::new(function), Box::new(argument))
}

impl PartialEq for Expr {
    fn eq(&self, other: &Expr) -> (r: bool)
        ensures
            r == (self == other),
        decreases self,
    {
        match (self, other) {
            (Expr::Var(i), Expr::Var(j)) => i == j,
            (Expr::Abs(a), Expr::Abs(b)) => (&**a).eq(&**b),
            (Expr::App(f1, a1), Expr::App(f2, a2)) => (&**f1).eq(&**f2) && (&**a1).eq(&**a2),
            _ => false,
        }
    }
}

impl vstd::std_specs::cmp::PartialEqSpecImpl for Expr {
    open spec fn obeys_eq_spec() -> bool {
        true
    }

    open spec fn eq_spec(&self, other: &Expr) -> bool {
        self == other
    }
}

impl Eq for Expr {
}

/// The character for one hexadecimal digit, upper case.
pub open spec fn hex_digit(d: nat) -> char {
    if d == 0 {
        '0'
    } else if d == 1 {
        '1'
    } else if d == 2 {
        '2'
    } else if d == 3 {
        '3'
    } else if d == 4 {
        '4'
    } else if d == 5 {
        '5'
    } else if d == 6 {
        '6'
    } else if d == 7 {
        '7'
    } else if d == 8 {
        '8'
    } else if d == 9 {
        '9'
    } else if d == 10 {
        'A'
    } else if d == 11 {
        'B'
    } else if d == 12 {
        'C'
    } else if d == 13 {
        'D'
    } else if d == 14 {
        'E'
    } else {
        'F'
    }
}

/// A number written in upper-case hexadecimal, without leading zeros.
pub open spec fn hex_text(n: nat) -> Seq<char>
    decreases n,
{
    if n < 16 {
        seq![hex_digit(n)]
    } else {
        hex_text(n / 16) + seq![hex_digit(n % 16)]
    }
}

/// The text of a term in De Bruijn notation, in a position of the given
/// precedence: a variable is its index in hexadecimal; an abstraction is `λ`
/// before its body, parenthesized when it stands in either side of an
/// application; an application is its sides one after the other, the right
/// side parenthesized when it is itself an application.
pub open spec fn expr_text(t: Expr, prec: int) -> Seq<char>
    decreases t,
{
    match t {
        Expr::Var(i) => hex_text(i as nat),
        Expr::Abs(body) => {
            let inner = seq!['λ'] + expr_text(*body, 0);
            if prec > 1 {
                seq!['('] + inner + seq![')']
            } else {
                inner
            }
        },
        Expr::App(f, a) => {
            let inner = expr_text(*f, 2) + expr_text(*a, 3);
            if prec == 3 {
                seq!['('] + inner + seq![')']
            } else {
                inner
            }
        },
    }
}

/// The string for one hexadecimal digit.
fn hex_digit_str(d: usize) -> (r: &'static str)
    requires
        d < 16,
    ensures
        r@ == seq![hex_digit(d as nat)],
{
    proof {
        reveal_strlit("0");
        reveal_strlit("1");
        reveal_strlit("2");
        reveal_strlit("3");
        reveal_strlit("4");
        reveal_strlit("5");
        reveal_strlit("6");
        reveal_strlit("7");
        reveal_strlit("8");
        reveal_strlit("9");
        reveal_strlit("A");
        reveal_strlit("B");
        reveal_strlit("C");
        reveal_strlit("D");
        reveal_strlit("E");
        reveal_strlit("F");
    }
    let r = if d == 0 {
        "0"
    } else if d == 1 {
        "1"
    } else if d == 2 {
        "2"
    } else if d == 3 {
        "3"
    } else if d == 4 {
        "4"
    } else if d == 5 {
        "5"
    } else if d == 6 {
        "6"
    } else if d == 7 {
        "7"
    } else if d == 8 {
        "8"
    } else if d == 9 {
        "9"
    } else if d == 10 {
        "A"
    } else if d == 11 {
        "B"
    } else if d == 12 {
        "C"
    } else if d == 13 {
        "D"
    } else if d == 14 {
        "E"
    } else {
        "F"
    };
    proof {
        assert(r@ =~= seq![hex_digit(d as nat)]);
    }
    r
}

/// Writes a number after `out` in upper-case hexadecimal.
fn write_hex(n: usize, out: &mut String)
    ensures
        final(out)@ == old(out)@ + hex_text(n as nat),
    decreases n,
{
    if n < 16 {
        out.append(hex_digit_str(n));
    } else {
        write_hex(n / 16, out);
        out.append(hex_digit_str(n % 16));
        proof {
            assert(old(out)@ + (hex_text((n / 16) as nat) + seq![hex_digit((n % 16) as nat)])
                =~= (old(out)@ + hex_text((n / 16) as nat)) + seq![hex_digit((n % 16) as nat)]);
        }
    }
}

/// Writes the text of a term after `out`.
fn write_expr(t: &Expr, prec: usize, out: &mut String)
    ensures
        final(out)@ == old(out)@ + expr_text(*t, prec as int),
    decreases *t,
{
    proof {
        reveal_strlit("λ");
        reveal_strlit("(");
        reveal_strlit(")");
    }
    match t {
        Expr::Var(i) => {
            write_hex(*i, out);
        },
        Expr::Abs(body) => {
            if prec > 1 {
                out.append("(");
            }
            out.append("λ");
            write_expr(body, 0, out);
            if prec > 1 {
                out.append(")");
            }
            proof {
                let inner = seq!['λ'] + expr_text(*(*body), 0);
                if prec > 1 {
                    assert(final(out)@ =~= old(out)@ + (seq!['('] + inner + seq![')']));
                } else {
                    assert(final(out)@ =~= old(out)@ + inner);
                }
            }
        },
        Expr::App(f, a) => {
            if prec == 3 {
                out.append("(");
            }
            write_expr(f, 2, out);
            write_expr(a, 3, out);
            if prec == 3 {
                out.append(")");
            }
            proof {
                let inner = expr_text(*(*f), 2) + expr_text(*(*a), 3);
                if prec == 3 {
                    assert(final(out)@ =~= old(out)@ + (seq!['('] + inner + seq![')']));
                } else {
                    assert(final(out)@ =~= old(out)@ + inner);
                }
            }
        },
    }
}

impl Expr {
    /// The term in De Bruijn notation, `λ` for each binder and each variable
    /// written as its index in upper-case hexadecimal.
    pub fn to_text(&self) -> (r: String)
        ensures
            r@ == expr_text(*self, 0),
    {
        let mut out = String::new();
        write_expr(self, 0, &mut out);
        proof {
            assert(Seq::<char>::empty() + expr_text(*self, 0) =~= expr_text(*self, 0));
        }
        out
    }
}

} // verus!

//! A parser for binary-encoded lambda expressions.
//!
//! The grammar reads a prefix of the input and returns the unconsumed rest:
//! `00` starts an abstraction, `01` an application, and a run of `1`s a
//! variable whose De Bruijn index is the run length.  The run is normally
//! closed by a single `0`; a run that meets the end of the input is accepted
//! without its terminator.  Whitespace (tab, newline, carriage return, space)
//! is stripped anywhere in the input before parsing.

use vstd::prelude::*;

use crate::execution::Error;
use crate::expr::Expr;

verus! {

/// The symbol `'0'`.
pub const SYM0: u8 = 48;

/// The symbol `'1'`.
pub const SYM1: u8 = 49;

/// The four symbols that the preprocessing pass deletes.
pub open spec fn is_blank(b: u8) -> bool {
    b == 9 || b == 10 || b == 13 || b == 32
}

/// The input after the preprocessing pass: the same symbols in the same
/// order, with the blank symbols deleted.
pub open spec fn strip(s: Seq<u8>) -> Seq<u8>
    decreases s.len(),
{
    if s.len() == 0 {
        Seq::empty()
    } else if is_blank(s[0]) {
        strip(s.skip(1))
    } else {
        seq![s[0]] + strip(s.skip(1))
    }
}

/// The length of the run of `'1'` symbols at the start of `s`.
pub open spec fn ones_run(s: Seq<u8>) -> nat
    decreases s.len(),
{
    if s.len() == 0 || s[0] != SYM1 {
        0
    } else {
        1 + ones_run(s.skip(1))
    }
}

/// The grammar, defined with a fuel bound on the recursion depth; `s.len()`
/// units are always enough (`lemma_parse_fuel_stable`).  The result is the
/// parsed term and the number of symbols consumed, or `None` when no prefix
/// of `s` belongs to the grammar.
pub open spec fn parse_fuel(s: Seq<u8>, fuel: nat) -> Option<(Expr, nat)>
    decreases fuel,
{
    if fuel == 0 || s.len() == 0 {
        None
    } else if s[0] == SYM0 {
        if s.len() < 2 {
            None
        } else if s[1] == SYM0 {
            match parse_fuel(s.skip(2), (fuel - 1) as nat) {
                Some(p) => Some((Expr::Abs(Box::new(p.0)), p.1 + 2)),
                None => None,
            }
        } else if s[1] == SYM1 {
            match parse_fuel(s.skip(2), (fuel - 1) as nat) {
                Some(p1) => match parse_fuel(s.skip(2 + p1.1 as int), (fuel - 1) as nat) {
                    Some(p2) => Some(
                        (Expr::App(Box::new(p1.0), Box::new(p2.0)), 2 + p1.1 + p2.1),
                    ),
                    None => None,
                },
                None => None,
            }
        } else {
            None
        }
    } else if s[0] == SYM1 {
        let i = ones_run(s);
        if i == s.len() {
            Some((Expr::Var(i as usize), i))
        } else if s[i as int] == SYM0 {
            Some((Expr::Var(i as usize), i + 1))
        } else {
            None
        }
    } else {
        None
    }
}

/// What a prefix of `s` parses to, and how many symbols it takes, or `None`
/// when `s` starts with no term of the grammar.
pub open spec fn spec_parse(s: Seq<u8>) -> Option<(Expr, nat)> {
    parse_fuel(s, s.len())
}

/// A successful parse never consumes more symbols than the input holds.
pub proof fn lemma_parse_fuel_consumed(s: Seq<u8>, fuel: nat)
    ensures
        parse_fuel(s, fuel) matches Some(p) ==> p.1 <= s.len(),
    decreases fuel,
{
    if fuel > 0 && s.len() > 0 {
        if s[0] == SYM0 && s.len() >= 2 {
            lemma_parse_fuel_consumed(s.skip(2), (fuel - 1) as nat);
            if s[1] == SYM1 {
                if let Some(p1) = parse_fuel(s.skip(2), (fuel - 1) as nat) {
                    lemma_parse_fuel_consumed(s.skip(2 + p1.1 as int), (fuel - 1) as nat);
                }
            }
        } else if s[0] == SYM1 {
            lemma_ones_run_le(s);
        }
    }
}

/// The leading run of `'1'`s is never longer than the input.
pub proof fn lemma_ones_run_le(s: Seq<u8>)
    ensures
        ones_run(s) <= s.len(),
    decreases s.len(),
{
    if s.len() > 0 && s[0] == SYM1 {
        lemma_ones_run_le(s.skip(1));
    }
}

/// Any fuel of at least `s.len()` gives the same parse.
pub proof fn lemma_parse_fuel_stable(s: Seq<u8>, f1: nat, f2: nat)
    requires
        f1 >= s.len(),
        f2 >= s.len(),
    ensures
        parse_fuel(s, f1) == parse_fuel(s, f2),
    decreases f1,
{
    if s.len() > 0 && s[0] == SYM0 && s.len() >= 2 {
        lemma_parse_fuel_stable(s.skip(2), (f1 - 1) as nat, (f2 - 1) as nat);
        if s[1] == SYM1 {
            if let Some(p1) = parse_fuel(s.skip(2), (f1 - 1) as nat) {
                lemma_parse_fuel_consumed(s.skip(2), (f1 - 1) as nat);
                lemma_parse_fuel_stable(
                    s.skip(2 + p1.1 as int),
                    (f1 - 1) as nat,
                    (f2 - 1) as nat,
                );
            }
        }
    }
}

/// The run of `'1'`s is exactly the number of leading positions that hold
/// `SYM1`, stopped by the end of the input or the first other symbol.
pub proof fn lemma_ones_run_eq(s: Seq<u8>, k: nat)
    requires
        k <= s.len(),
        forall|j: int| 0 <= j < k ==> s[j] == SYM1,
        k < s.len() ==> s[k as int] != SYM1,
    ensures
        ones_run(s) == k,
    decreases k,
{
    if k == 0 {
    } else {
        assert(s[0] == SYM1);
        assert forall|j: int| 0 <= j < k - 1 implies s.skip(1)[j] == SYM1 by {
            assert(s.skip(1)[j] == s[j + 1]);
        }
        lemma_ones_run_eq(s.skip(1), (k - 1) as nat);
    }
}

/// Every position inside the run holds `SYM1`, and the position right after
/// the run, when there is one, does not.
pub proof fn lemma_ones_run_shape(s: Seq<u8>)
    ensures
        forall|j: int| 0 <= j < ones_run(s) ==> s[j] == SYM1,
        ones_run(s) < s.len() ==> s[ones_run(s) as int] != SYM1,
        ones_run(s) <= s.len(),
    decreases s.len(),
{
    lemma_ones_run_le(s);
    if s.len() > 0 && s[0] == SYM1 {
        lemma_ones_run_shape(s.skip(1));
        assert forall|j: int| 0 <= j < ones_run(s) implies s[j] == SYM1 by {
            if j > 0 {
                assert(s.skip(1)[j - 1] == s[j]);
            }
        }
        if ones_run(s) < s.len() {
            assert(s.skip(1)[ones_run(s) - 1] == s[ones_run(s) as int]);
        }
    }
}

/// The empty input parses to nothing.
pub proof fn lemma_parse_empty(s: Seq<u8>)
    requires
        s.len() == 0,
    ensures
        spec_parse(s) is None,
{
}

/// An input starting `00` parses as an abstraction whose body is parsed from
/// the rest, two more symbols consumed.
pub proof fn lemma_parse_abs(s: Seq<u8>)
    requires
        s.len() >= 2,
        s[0] == SYM0,
        s[1] == SYM0,
    ensures
        spec_parse(s) == match spec_parse(s.skip(2)) {
            Some(p) => Some((Expr::Abs(Box::new(p.0)), (p.1 + 2) as nat)),
            None => None::<(Expr, nat)>,
        },
{
    lemma_parse_fuel_stable(s.skip(2), (s.len() - 1) as nat, s.skip(2).len());
}

/// An input starting `01` parses as an application: the function term is
/// parsed after the prefix, the argument from what that parse leaves.
pub proof fn lemma_parse_app(s: Seq<u8>)
    requires
        s.len() >= 2,
        s[0] == SYM0,
        s[1] == SYM1,
    ensures
        spec_parse(s) == match spec_parse(s.skip(2)) {
            Some(p1) => match spec_parse(s.skip(2 + p1.1 as int)) {
                Some(p2) => Some(
                    (Expr::App(Box::new(p1.0), Box::new(p2.0)), (2 + p1.1 + p2.1) as nat),
                ),
                None => None::<(Expr, nat)>,
            },
            None => None::<(Expr, nat)>,
        },
{
    lemma_parse_fuel_stable(s.skip(2), (s.len() - 1) as nat, s.skip(2).len());
    if let Some(p1) = spec_parse(s.skip(2)) {
        lemma_parse_fuel_consumed(s.skip(2), s.skip(2).len());
        lemma_parse_fuel_stable(
            s.skip(2 + p1.1 as int),
            (s.len() - 1) as nat,
            s.skip(2 + p1.1 as int).len(),
        );
    }
}

/// An input starting `1` parses as a variable: the index is the length of the
/// run of `1`s, which is closed by a `0` or by the end of the input.
pub proof fn lemma_parse_var(s: Seq<u8>)
    requires
        s.len() >= 1,
        s[0] == SYM1,
    ensures
        spec_parse(s) == (if ones_run(s) == s.len() {
            Some((Expr::Var(ones_run(s) as usize), ones_run(s)))
        } else if s[ones_run(s) as int] == SYM0 {
            Some((Expr::Var(ones_run(s) as usize), (ones_run(s) + 1) as nat))
        } else {
            None::<(Expr, nat)>
        }),
{
}

/// Stripping distributes over concatenation.
pub proof fn lemma_strip_add(a: Seq<u8>, b: Seq<u8>)
    ensures
        strip(a + b) == strip(a) + strip(b),
    decreases a.len(),
{
    if a.len() == 0 {
        assert(a + b =~= b);
        assert(strip(a) + strip(b) =~= strip(b));
    } else {
        assert((a + b).skip(1) =~= a.skip(1) + b);
        lemma_strip_add(a.skip(1), b);
        if !is_blank(a[0]) {
            assert(seq![(a + b)[0]] + (strip(a.skip(1)) + strip(b)) =~= (seq![a[0]] + strip(
                a.skip(1),
            )) + strip(b));
        }
    }
}

/// Stripping a single symbol keeps it exactly when it is not blank.
proof fn lemma_strip_one(x: u8)
    ensures
        strip(seq![x]) == if is_blank(x) {
            Seq::<u8>::empty()
        } else {
            seq![x]
        },
{
    assert(seq![x].skip(1) =~= Seq::<u8>::empty());
    assert(strip(Seq::<u8>::empty()) == Seq::<u8>::empty());
    if !is_blank(x) {
        assert(seq![x] + Seq::<u8>::empty() =~= seq![x]);
    }
}

/// Deletes the blank symbols from the input, keeping the rest in order.
fn strip_symbols(input: &[u8]) -> (out: Vec<u8>)
    ensures
        out@ == strip(input@),
{
    let mut out: Vec<u8> = Vec::new();
    let mut i: usize = 0;
    while i < input.len()
        invariant
            i <= input@.len(),
            out@ == strip(input@.take(i as int)),
        decreases input@.len() - i,
    {
        let b = input[i];
        proof {
            assert(input@.take(i + 1) =~= input@.take(i as int) + seq![input@[i as int]]);
            lemma_strip_add(input@.take(i as int), seq![input@[i as int]]);
            lemma_strip_one(input@[i as int]);
        }
        if !(b == 9 || b == 10 || b == 13 || b == 32) {
            out.push(b);
        }
        i += 1;
    }
    proof {
        assert(input@.take(input@.len() as int) =~= input@);
    }
    out
}

/// Parses one term of the grammar from `s`, starting at `pos`; returns the
/// term and the position right after the symbols it consumed.
fn parse_at(s: &Vec<u8>, pos: usize) -> (r: Option<(Expr, usize)>)
    requires
        pos <= s@.len(),
    ensures
        match r {
            Some(p) => pos < p.1 && p.1 <= s@.len() && spec_parse(s@.skip(pos as int)) == Some(
                (p.0, (p.1 - pos) as nat),
            ),
            None => spec_parse(s@.skip(pos as int)) is None,
        },
    decreases s@.len() - pos,
{
    let ghost t = s@.skip(pos as int);
    if pos == s.len() {
        proof {
            lemma_parse_empty(t);
        }
        return None;
    }
    let b0 = s[pos];
    assert(t[0] == b0);
    if b0 == SYM0 {
        if pos + 1 == s.len() {
            proof {
                lemma_parse_bad(t);
            }
            return None;
        }
        let b1 = s[pos + 1];
        assert(t[1] == b1);
        if b1 == SYM0 {
            proof {
                lemma_parse_abs(t);
                assert(t.skip(2) =~= s@.skip(pos + 2));
            }
            match parse_at(s, pos + 2) {
                Some((body, p1)) => Some((Expr::Abs(Box::new(body)), p1)),
                None => None,
            }
        } else if b1 == SYM1 {
            proof {
                lemma_parse_app(t);
                assert(t.skip(2) =~= s@.skip(pos + 2));
            }
            match parse_at(s, pos + 2) {
                Some((f, p1)) => {
                    proof {
                        assert(t.skip(2 + (p1 - (pos + 2)) as int) =~= s@.skip(p1 as int));
                    }
                    match parse_at(s, p1) {
                        Some((a, p2)) => Some((Expr::App(Box::new(f), Box::new(a)), p2)),
                        None => None,
                    }
                },
                None => None,
            }
        } else {
            proof {
                lemma_parse_bad(t);
            }
            None
        }
    } else if b0 == SYM1 {
        let mut e = pos;
        while e < s.len() && s[e] == SYM1
            invariant
                pos <= e,
                e <= s@.len(),
                forall|j: int| pos <= j < e ==> s@[j] == SYM1,
            decreases s@.len() - e,
        {
            e = e + 1;
        }
        proof {
            assert forall|j: int| 0 <= j < e - pos implies t[j] == SYM1 by {
                assert(t[j] == s@[pos + j]);
            }
            if e - pos < t.len() {
                assert(t[e - pos] == s@[e as int]);
            }
            lemma_ones_run_eq(t, (e - pos) as nat);
            lemma_parse_var(t);
        }
        let i = e - pos;
        if e == s.len() {
            Some((Expr::Var(i), e))
        } else if s[e] == SYM0 {
            Some((Expr::Var(i), e + 1))
        } else {
            None
        }
    } else {
        proof {
            lemma_parse_bad(t);
        }
        None
    }
}

/// Parses a binary-encoded lambda expression.  The blank symbols are deleted
/// first; the longest prefix of what is left that the grammar generates gives
/// the term, and any symbols after it are ignored.  Fails when no such prefix
/// exists: on empty input, an unrecognized two-symbol prefix, or an
/// incomplete sub-term.
pub fn parse(input: &[u8]) -> (r: Result<Expr, Error>)
    ensures
        match r {
            Ok(t) => spec_parse(strip(input@)) matches Some(p) && p.0 == t,
            Err(e) => spec_parse(strip(input@)) is None && e == Error::InvalidProgram,
        },
{
    let unspaced = strip_symbols(input);
    proof {
        assert(unspaced@.skip(0) =~= unspaced@);
    }
    match parse_at(&unspaced, 0) {
        Some((t, _)) => Ok(t),
        None => Err(Error::InvalidProgram),
    }
}

/// An input that starts with no symbol of the grammar parses to nothing.
pub proof fn lemma_parse_bad(s: Seq<u8>)
    requires
        s.len() >= 1,
        s[0] == SYM0 ==> s.len() < 2 || (s[1] != SYM0 && s[1] != SYM1),
        s[0] == SYM1 ==> false,
    ensures
        spec_parse(s) is None,
{
}

/// A sequence of `n` `'1'` symbols.
pub open spec fn ones(n: nat) -> Seq<u8> {
    Seq::new(n, |i: int| SYM1)
}

/// A term the grammar can write: every De Bruijn index is at least 1, since
/// an index is a non-empty run of `1`s.
pub open spec fn grammatical(t: Expr) -> bool
    decreases t,
{
    match t {
        Expr::Var(i) => i >= 1,
        Expr::Abs(body) => grammatical(*body),
        Expr::App(f, a) => grammatical(*f) && grammatical(*a),
    }
}

/// The inverse of the grammar table: `00` before an abstraction body, `01`
/// before the two sides of an application, and a `0`-closed run of `1`s for
/// a variable.
pub open spec fn serialize(t: Expr) -> Seq<u8>
    decreases t,
{
    match t {
        Expr::Var(i) => ones(i as nat) + seq![SYM0],
        Expr::Abs(body) => seq![SYM0, SYM0] + serialize(*body),
        Expr::App(f, a) => seq![SYM0, SYM1] + serialize(*f) + serialize(*a),
    }
}

/// Completeness half of the round trip: the serialization of a term, before
/// any continuation whatever, parses back to that term, consuming exactly
/// the serialization.
pub proof fn lemma_serialize_parses(t: Expr, rest: Seq<u8>)
    requires
        grammatical(t),
    ensures
        spec_parse(serialize(t) + rest) == Some((t, serialize(t).len())),
    decreases t,
{
    let s = serialize(t) + rest;
    match t {
        Expr::Var(v) => {
            assert(s[0] == SYM1);
            assert forall|j: int| 0 <= j < v implies s[j] == SYM1 by {
                assert(s[j] == ones(v as nat)[j]);
            }
            assert(s[v as int] == SYM0);
            lemma_ones_run_eq(s, v as nat);
            lemma_parse_var(s);
        },
        Expr::Abs(body) => {
            assert(s[0] == SYM0 && s[1] == SYM0);
            lemma_parse_abs(s);
            assert(s.skip(2) =~= serialize(*body) + rest);
            lemma_serialize_parses(*body, rest);
        },
        Expr::App(f, a) => {
            assert(s[0] == SYM0 && s[1] == SYM1);
            lemma_parse_app(s);
            assert(s.skip(2) =~= serialize(*f) + (serialize(*a) + rest));
            lemma_serialize_parses(*f, serialize(*a) + rest);
            let n1 = serialize(*f).len();
            assert(s.skip(2 + n1 as int) =~= serialize(*a) + rest);
            lemma_serialize_parses(*a, rest);
        },
    }
}

/// A term of the grammar parses back from its serialization alone.
pub proof fn lemma_parse_of_serialized(t: Expr)
    requires
        grammatical(t),
    ensures
        spec_parse(serialize(t)) == Some((t, serialize(t).len())),
{
    lemma_serialize_parses(t, Seq::empty());
    assert(serialize(t) + Seq::<u8>::empty() =~= serialize(t));
}

/// Soundness half of the round trip: whatever parses is the serialization of
/// the returned term — exactly the consumed prefix, or, when the lenient
/// end-of-input rule closed a final run of `1`s (so the input ends in `1`
/// and was consumed whole), that prefix plus the missing terminator.
pub proof fn lemma_parse_serializes(s: Seq<u8>)
    requires
        s.len() <= usize::MAX,
    ensures
        spec_parse(s) matches Some(p) ==> {
            &&& grammatical(p.0)
            &&& p.1 <= s.len()
            &&& (serialize(p.0) == s.take(p.1 as int) || (p.1 == s.len() && s.len() > 0 && s[
                s.len() - 1
            ] == SYM1 && serialize(p.0) == s.take(p.1 as int) + seq![SYM0]))
        },
    decreases s.len(),
{
    lemma_parse_fuel_consumed(s, s.len());
    if s.len() == 0 {
    } else if s[0] == SYM0 && s.len() >= 2 && s[1] == SYM0 {
        lemma_parse_abs(s);
        lemma_parse_serializes(s.skip(2));
        if let Some(p) = spec_parse(s.skip(2)) {
            let (body, n) = p;
            let t = Expr::Abs(Box::new(body));
            if serialize(body) == s.skip(2).take(n as int) {
                assert(serialize(t) =~= s.take((n + 2) as int)) by {
                    assert forall|j: int| 0 <= j < n + 2 implies serialize(t)[j] == s[j] by {
                        if j >= 2 {
                            assert(serialize(t)[j] == s.skip(2).take(n as int)[j - 2]);
                        }
                    }
                }
            } else {
                assert(serialize(t) =~= s.take((n + 2) as int) + seq![SYM0]) by {
                    assert forall|j: int| 0 <= j < n + 3 implies serialize(t)[j] == (s.take((n + 2) as int)
                        + seq![SYM0])[j] by {
                        if 2 <= j < n + 2 {
                            assert(serialize(t)[j] == (s.skip(2).take(n as int)
                                + seq![SYM0])[j - 2]);
                        } else if j == n + 2 {
                            assert(serialize(t)[j] == (s.skip(2).take(n as int)
                                + seq![SYM0])[j - 2]);
                        }
                    }
                }
                assert(s[s.len() - 1] == s.skip(2)[s.skip(2).len() - 1]);
            }
        }
    } else if s[0] == SYM0 && s.len() >= 2 && s[1] == SYM1 {
        lemma_parse_app(s);
        lemma_parse_serializes(s.skip(2));
        if let Some(p1) = spec_parse(s.skip(2)) {
            let (f, n1) = p1;
            lemma_parse_fuel_consumed(s.skip(2), s.skip(2).len());
            lemma_parse_serializes(s.skip(2 + n1 as int));
            if let Some(p2) = spec_parse(s.skip(2 + n1 as int)) {
                let (a, n2) = p2;
                if n1 == s.skip(2).len() {
                    assert(s.skip(2 + n1 as int).len() == 0);
                    lemma_parse_empty(s.skip(2 + n1 as int));
                    assert(false);
                }
                assert(serialize(f) == s.skip(2).take(n1 as int));
                let t = Expr::App(Box::new(f), Box::new(a));
                if serialize(a) == s.skip(2 + n1 as int).take(n2 as int) {
                    assert(serialize(t) =~= s.take((2 + n1 + n2) as int)) by {
                        assert forall|j: int| 0 <= j < 2 + n1 + n2 implies serialize(t)[j]
                            == s[j] by {
                            if 2 <= j < 2 + n1 {
                                assert(serialize(t)[j] == s.skip(2).take(n1 as int)[j - 2]);
                            } else if j >= 2 + n1 {
                                assert(serialize(t)[j] == s.skip(2 + n1 as int).take(
                                    n2 as int,
                                )[j - 2 - n1]);
                            }
                        }
                    }
                } else {
                    assert(serialize(t) =~= s.take((2 + n1 + n2) as int) + seq![SYM0]) by {
                        assert forall|j: int| 0 <= j < 2 + n1 + n2 + 1 implies serialize(t)[j] == (
                        s.take((2 + n1 + n2) as int) + seq![SYM0])[j] by {
                            if 2 <= j < 2 + n1 {
                                assert(serialize(t)[j] == s.skip(2).take(n1 as int)[j - 2]);
                            } else if j >= 2 + n1 {
                                assert(serialize(t)[j] == (s.skip(2 + n1 as int).take(n2 as int)
                                    + seq![SYM0])[j - 2 - n1]);
                            }
                        }
                    }
                    assert(s[s.len() - 1] == s.skip(2 + n1 as int)[s.skip(2 + n1 as int).len()
                        - 1]);
                }
            }
        }
    } else if s[0] == SYM1 {
        lemma_parse_var(s);
        lemma_ones_run_shape(s);
        let i = ones_run(s);
        assert(i >= 1);
        if i == s.len() {
            let t = Expr::Var(i as usize);
            assert(serialize(t) =~= s.take(i as int) + seq![SYM0]) by {
                assert forall|j: int| 0 <= j < i + 1 implies serialize(t)[j] == (s.take(i as int)
                    + seq![SYM0])[j] by {
                    if j < i {
                        assert(serialize(t)[j] == ones(i)[j]);
                    }
                }
            }
            assert(s[s.len() - 1] == SYM1);
        } else if s[i as int] == SYM0 {
            let t = Expr::Var(i as usize);
            assert(serialize(t) =~= s.take((i + 1) as int)) by {
                assert forall|j: int| 0 <= j < i + 1 implies serialize(t)[j] == s[j] by {
                    if j < i {
                        assert(serialize(t)[j] == ones(i)[j]);
                    }
                }
            }
        }
    }
}

/// Round trip: a string of the grammar, parsed whole with nothing left
/// over, is reproduced exactly by serializing the term it returns.  (A
/// string of the grammar ends in its terminating `0`, so the lenient
/// end-of-input rule plays no part here.)
pub proof fn lemma_round_trip(s: Seq<u8>, t: Expr, n: nat)
    requires
        s.len() <= usize::MAX,
        s.len() > 0,
        s[s.len() - 1] == SYM0,
        spec_parse(s) == Some((t, n)),
        n == s.len(),
    ensures
        serialize(t) == s,
        grammatical(t),
{
    lemma_parse_serializes(s);
    assert(s.take(n as int) =~= s);
}

/// Variable boundary law: an input of exactly `n` consecutive `1`s, for any
/// `n` of at least 1, parses to the variable with index `n` with an empty
/// remainder, by the lenient end-of-input rule.
pub proof fn lemma_variable_boundary(n: usize)
    requires
        n >= 1,
    ensures
        spec_parse(ones(n as nat)) == Some((Expr::Var(n), n as nat)),
{
    let s = ones(n as nat);
    lemma_ones_run_eq(s, n as nat);
    lemma_parse_var(s);
}

/// Variable terminator law: `n` consecutive `1`s closed by a `0` parse to
/// the variable with index `n`, consuming the run and its terminator and
/// leaving exactly what follows unconsumed.
pub proof fn lemma_variable_terminator(n: usize, rest: Seq<u8>)
    requires
        n >= 1,
    ensures
        spec_parse(ones(n as nat) + seq![SYM0] + rest) == Some((Expr::Var(n), (n + 1) as nat)),
        (ones(n as nat) + seq![SYM0] + rest).skip(n + 1) == rest,
{
    let s = ones(n as nat) + seq![SYM0] + rest;
    assert forall|j: int| 0 <= j < n implies s[j] == SYM1 by {
        assert(s[j] == ones(n as nat)[j]);
    }
    assert(s[n as int] == SYM0);
    lemma_ones_run_eq(s, n as nat);
    lemma_parse_var(s);
    assert(s.skip(n + 1) =~= rest);
}

/// A sequence of blank symbols strips to nothing.
pub proof fn lemma_strip_blank(w: Seq<u8>)
    requires
        forall|j: int| 0 <= j < w.len() ==> is_blank(w[j]),
    ensures
        strip(w) == Seq::<u8>::empty(),
    decreases w.len(),
{
    if w.len() > 0 {
        assert(is_blank(w[0]));
        assert forall|j: int| 0 <= j < w.skip(1).len() implies is_blank(w.skip(1)[j]) by {
            assert(w.skip(1)[j] == w[j + 1]);
        }
        lemma_strip_blank(w.skip(1));
    }
}

/// Whitespace invariance: inserting any blank symbols at any position of an
/// input does not change what it parses to.
pub proof fn lemma_blank_insertion(a: Seq<u8>, w: Seq<u8>, b: Seq<u8>)
    requires
        forall|j: int| 0 <= j < w.len() ==> is_blank(w[j]),
    ensures
        spec_parse(strip(a + w + b)) == spec_parse(strip(a + b)),
{
    lemma_strip_add(a + w, b);
    lemma_strip_add(a, w);
    lemma_strip_add(a, b);
    lemma_strip_blank(w);
    assert(strip(a) + Seq::<u8>::empty() =~= strip(a));
}

} // verus!


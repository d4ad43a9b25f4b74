//! Lambda encoding of byte strings: a byte string is a Church list of bytes,
//! a byte a Church list of its eight bits (most significant first), and a bit
//! a Church boolean — `λλ2` for 0 and `λλ1` for 1.

use vstd::prelude::*;

use crate::expr::Expr;

verus! {

/// The empty Church list, `λλ1`.
pub open spec fn nil_term() -> Expr {
    Expr::Abs(Box::new(Expr::Abs(Box::new(Expr::Var(1usize)))))
}

/// A Church list node, `λ1HT` for head `H` and tail `T`.
pub open spec fn cons_term(head: Expr, tail: Expr) -> Expr {
    Expr::Abs(
        Box::new(
            Expr::App(
                Box::new(Expr::App(Box::new(Expr::Var(1usize)), Box::new(head))),
                Box::new(tail),
            ),
        ),
    )
}

/// The Church boolean for one bit: `λλ1` when the bit is 1, `λλ2` when 0.
pub open spec fn bit_term(one: bool) -> Expr {
    if one {
        Expr::Abs(Box::new(Expr::Abs(Box::new(Expr::Var(1usize)))))
    } else {
        Expr::Abs(Box::new(Expr::Abs(Box::new(Expr::Var(2usize)))))
    }
}

/// The lambda encoding of one byte: its eight bits, most significant first.
pub open spec fn encode_byte(b: u8) -> Expr {
    cons_term(
        bit_term((b >> 7) & 1 == 1),
        cons_term(
            bit_term((b >> 6) & 1 == 1),
            cons_term(
                bit_term((b >> 5) & 1 == 1),
                cons_term(
                    bit_term((b >> 4) & 1 == 1),
                    cons_term(
                        bit_term((b >> 3) & 1 == 1),
                        cons_term(
                            bit_term((b >> 2) & 1 == 1),
                            cons_term(
                                bit_term((b >> 1) & 1 == 1),
                                cons_term(bit_term(b & 1 == 1), nil_term()),
                            ),
                        ),
                    ),
                ),
            ),
        ),
    )
}

/// The lambda encoding of a byte string.
pub open spec fn encode_string(s: Seq<u8>) -> Expr
    decreases s.len(),
{
    if s.len() == 0 {
        nil_term()
    } else {
        cons_term(encode_byte(s[0]), encode_string(s.skip(1)))
    }
}

/// Whether a term has the shape of a Church list node.
pub open spec fn is_cons(t: Expr) -> bool {
    match t {
        Expr::Abs(body) => match *body {
            Expr::App(rest, _tail) => match *rest {
                Expr::App(v, _head) => *v == Expr::Var(1usize),
                _ => false,
            },
            _ => false,
        },
        _ => false,
    }
}

/// The head of a Church list node; a variable when the shape is no node.
pub open spec fn cons_head(t: Expr) -> Expr {
    match t {
        Expr::Abs(body) => match *body {
            Expr::App(rest, _tail) => match *rest {
                Expr::App(v, head) => if *v == Expr::Var(1usize) {
                    *head
                } else {
                    Expr::Var(0usize)
                },
                _ => Expr::Var(0usize),
            },
            _ => Expr::Var(0usize),
        },
        _ => Expr::Var(0usize),
    }
}

/// The tail of a Church list node; the term itself when the shape is no node.
pub open spec fn cons_tail(t: Expr) -> Expr {
    match t {
        Expr::Abs(body) => match *body {
            Expr::App(rest, tail) => match *rest {
                Expr::App(v, _head) => if *v == Expr::Var(1usize) {
                    *tail
                } else {
                    t
                },
                _ => t,
            },
            _ => t,
        },
        _ => t,
    }
}

/// The value a term denotes as a bit: 1 for the Church boolean `λλ1`,
/// otherwise 0.
pub open spec fn bit_val(t: Expr) -> nat {
    if t == bit_term(true) {
        1
    } else {
        0
    }
}

/// The byte a term denotes when read as a Church list of eight bits, most
/// significant first; bits beyond a malformed shape read as 0.
pub open spec fn decode_byte(t: Expr) -> u8 {
    let t1 = cons_tail(t);
    let t2 = cons_tail(t1);
    let t3 = cons_tail(t2);
    let t4 = cons_tail(t3);
    let t5 = cons_tail(t4);
    let t6 = cons_tail(t5);
    let t7 = cons_tail(t6);
    (bit_val(cons_head(t)) * 128 + bit_val(cons_head(t1)) * 64 + bit_val(cons_head(t2)) * 32
        + bit_val(cons_head(t3)) * 16 + bit_val(cons_head(t4)) * 8 + bit_val(cons_head(t5)) * 4
        + bit_val(cons_head(t6)) * 2 + bit_val(cons_head(t7))) as u8
}

/// The byte string a term denotes when read as a Church list of bytes; the
/// list ends at the first term that is not a list node.
pub open spec fn decode_string(t: Expr) -> Seq<u8>
    decreases t,
{
    match t {
        Expr::Abs(body) => match *body {
            Expr::App(rest, tail) => match *rest {
                Expr::App(v, head) => if *v == Expr::Var(1usize) {
                    seq![decode_byte(*head)] + decode_string(*tail)
                } else {
                    Seq::empty()
                },
                _ => Seq::empty(),
            },
            _ => Seq::empty(),
        },
        _ => Seq::empty(),
    }
}

/// Builds the empty Church list.
fn nil_exec() -> (r: Expr)
    ensures
        r == nil_term(),
{
    Expr::Abs(Box::new(Expr::Abs(Box::new(Expr::Var(1usize)))))
}

/// Builds a Church list node.
fn cons_exec(head: Expr, tail: Expr) -> (r: Expr)
    ensures
        r == cons_term(head, tail),
{
    Expr::Abs(
        Box::new(
            Expr::App(
                Box::new(Expr::App(Box::new(Expr::Var(1usize)), Box::new(head))),
                Box::new(tail),
            ),
        ),
    )
}

/// Builds the Church boolean for one bit.
fn bit_exec(one: bool) -> (r: Expr)
    ensures
        r == bit_term(one),
{
    if one {
        Expr::Abs(Box::new(Expr::Abs(Box::new(Expr::Var(1usize)))))
    } else {
        Expr::Abs(Box::new(Expr::Abs(Box::new(Expr::Var(2usize)))))
    }
}

/// Lambda-encodes one byte as its Church list of eight bits.
fn encode_byte_exec(b: u8) -> (r: Expr)
    ensures
        r == encode_byte(b),
{
    let mut t = nil_exec();
    t = cons_exec(bit_exec(b & 1 == 1), t);
    t = cons_exec(bit_exec((b >> 1) & 1 == 1), t);
    t = cons_exec(bit_exec((b >> 2) & 1 == 1), t);
    t = cons_exec(bit_exec((b >> 3) & 1 == 1), t);
    t = cons_exec(bit_exec((b >> 4) & 1 == 1), t);
    t = cons_exec(bit_exec((b >> 5) & 1 == 1), t);
    t = cons_exec(bit_exec((b >> 6) & 1 == 1), t);
    t = cons_exec(bit_exec((b >> 7) & 1 == 1), t);
    t
}

/// Lambda-encodes a byte string as nested Church lists.  This step is total:
/// every byte sequence has an encoding.
pub fn encode(input: &[u8]) -> (r: Expr)
    ensures
        r == encode_string(input@),
{
    let mut acc = nil_exec();
    let mut i = input.len();
    while i > 0
        invariant
            i <= input@.len(),
            acc == encode_string(input@.skip(i as int)),
        decreases i,
    {
        i = i - 1;
        proof {
            assert(input@.skip(i as int).skip(1) =~= input@.skip(i + 1));
            assert(input@.skip(i as int)[0] == input@[i as int]);
        }
        acc = cons_exec(encode_byte_exec(input[i]), acc);
    }
    proof {
        assert(input@.skip(0) =~= input@);
    }
    acc
}

/// Splits a Church list node into its head and tail.
fn split_cons(t: &Expr) -> (r: Option<(&Expr, &Expr)>)
    ensures
        r is Some <==> is_cons(*t),
        r matches Some(p) ==> *p.0 == cons_head(*t) && *p.1 == cons_tail(*t),
{
    match t {
        Expr::Abs(body) => match &**body {
            Expr::App(rest, tail) => match &**rest {
                Expr::App(v, head) => match &**v {
                    Expr::Var(i) => if *i == 1 {
                        Some((&**head, &**tail))
                    } else {
                        None
                    },
                    _ => None,
                },
                _ => None,
            },
            _ => None,
        },
        _ => None,
    }
}

/// Reads a term as one bit.
fn bit_val_exec(t: &Expr) -> (r: u8)
    ensures
        r == bit_val(*t),
{
    let one = Expr::Abs(Box::new(Expr::Abs(Box::new(Expr::Var(1usize)))));
    if *t == one {
        1
    } else {
        0
    }
}

/// Reads one step of a Church list: the bit its head denotes and its tail.
fn bit_step<'a>(t: &'a Expr) -> (r: (u8, &'a Expr))
    ensures
        r.0 == bit_val(cons_head(*t)),
        *r.1 == cons_tail(*t),
{
    match split_cons(t) {
        Some((head, tail)) => (bit_val_exec(head), tail),
        None => {
            assert(bit_val(cons_head(*t)) == 0);
            (0, t)
        },
    }
}

/// Reads a term back as the byte its Church bit list denotes.
fn decode_byte_exec(t: &Expr) -> (r: u8)
    ensures
        r == decode_byte(*t),
{
    let (b7, t1) = bit_step(t);
    let (b6, t2) = bit_step(t1);
    let (b5, t3) = bit_step(t2);
    let (b4, t4) = bit_step(t3);
    let (b3, t5) = bit_step(t4);
    let (b2, t6) = bit_step(t5);
    let (b1, t7) = bit_step(t6);
    let (b0, _) = bit_step(t7);
    b7 * 128 + b6 * 64 + b5 * 32 + b4 * 16 + b3 * 8 + b2 * 4 + b1 * 2 + b0
}

/// Appends to `out` the byte string a term denotes.
fn decode_into(t: &Expr, out: &mut Vec<u8>)
    ensures
        final(out)@ == old(out)@ + decode_string(*t),
    decreases *t,
{
    match t {
        Expr::Abs(body) => match &**body {
            Expr::App(rest, tail) => match &**rest {
                Expr::App(v, head) => match &**v {
                    Expr::Var(i) => if *i == 1 {
                        let b = decode_byte_exec(head);
                        out.push(b);
                        decode_into(tail, out);
                        proof {
                            assert(old(out)@ + (seq![b] + decode_string(*(*tail))) =~= (old(out)@
                                + seq![b]) + decode_string(*(*tail)));
                        }
                    } else {
                        proof {
                            assert(final(out)@ =~= old(out)@ + decode_string(*t));
                        }
                    },
                    _ => {
                        proof {
                            assert(final(out)@ =~= old(out)@ + decode_string(*t));
                        }
                    },
                },
                _ => {
                    proof {
                        assert(final(out)@ =~= old(out)@ + decode_string(*t));
                    }
                },
            },
            _ => {
                proof {
                    assert(final(out)@ =~= old(out)@ + decode_string(*t));
                }
            },
        },
        _ => {
            proof {
                assert(final(out)@ =~= old(out)@ + decode_string(*t));
            }
        },
    }
}

/// Reads a term back as a byte string: the inverse of `encode` on encoded
/// values, reading the list until its end or the first malformed node.
pub fn decode(t: &Expr) -> (r: Vec<u8>)
    ensures
        r@ == decode_string(*t),
{
    let mut out: Vec<u8> = Vec::new();
    decode_into(t, &mut out);
    proof {
        assert(Seq::<u8>::empty() + decode_string(*t) =~= decode_string(*t));
    }
    out
}

/// Reading the lambda encoding of a byte back gives that byte.
pub proof fn lemma_decode_encode_byte(b: u8)
    ensures
        decode_byte(encode_byte(b)) == b,
{
    assert((b >> 7) & 1 <= 1 && (b >> 6) & 1 <= 1 && (b >> 5) & 1 <= 1 && (b >> 4) & 1 <= 1 && (b
        >> 3) & 1 <= 1 && (b >> 2) & 1 <= 1 && (b >> 1) & 1 <= 1 && b & 1 <= 1) by (bit_vector);
    assert(((b >> 7) & 1) * 128 + ((b >> 6) & 1) * 64 + ((b >> 5) & 1) * 32 + ((b >> 4) & 1) * 16
        + ((b >> 3) & 1) * 8 + ((b >> 2) & 1) * 4 + ((b >> 1) & 1) * 2 + (b & 1) == b)
        by (bit_vector);
}

/// Law: decoding inverts encoding — the lambda encoding of any byte string
/// reads back as exactly that byte string.
pub proof fn lemma_decode_encode(s: Seq<u8>)
    ensures
        decode_string(encode_string(s)) == s,
    decreases s.len(),
{
    if s.len() == 0 {
        assert(decode_string(nil_term()) =~= Seq::<u8>::empty());
    } else {
        lemma_decode_encode_byte(s[0]);
        lemma_decode_encode(s.skip(1));
        assert(seq![s[0]] + s.skip(1) =~= s);
    }
}

} // verus!

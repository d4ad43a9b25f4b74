//! The raw binary form of programs: unpacking packed program bytes into the
//! `'0'`/`'1'` symbol stream, and decoding that stream into a term.

use vstd::prelude::*;

use crate::execution::Error;
use crate::parser::{spec_parse, strip, SYM0, SYM1};
use crate::expr::Expr;

verus! {

/// The symbol stream packed program bytes stand for: each byte in order,
/// most significant bit first, one `'0'` or `'1'` symbol per bit.
pub open spec fn decompress_spec(s: Seq<u8>) -> Seq<u8> {
    Seq::new(
        s.len() * 8,
        |i: int|
            if (s[i / 8] >> ((7 - (i % 8)) as u8)) & 1 == 1 {
                SYM1
            } else {
                SYM0
            },
    )
}

/// Expands a packed program into the symbol stream the parser consumes:
/// eight symbols per byte, most significant bit first.
pub fn decompress(input: &[u8]) -> (out: Vec<u8>)
    ensures
        out@ == decompress_spec(input@),
{
    let ghost whole = decompress_spec(input@);
    let mut out: Vec<u8> = Vec::new();
    let mut i: usize = 0;
    while i < input.len()
        invariant
            i <= input@.len(),
            whole == decompress_spec(input@),
            out@ == whole.take(8 * i as int),
        decreases input@.len() - i,
    {
        let b = input[i];
        let mut j: u8 = 0;
        while j < 8
            invariant
                j <= 8,
                i < input@.len(),
                b == input@[i as int],
                whole == decompress_spec(input@),
                out@ == whole.take(8 * i as int + j as int),
            decreases 8 - j,
        {
            proof {
                assert((8 * i as int + j as int) / 8 == i as int && (8 * i as int + j as int) % 8
                    == j as int) by (nonlinear_arith)
                    requires
                        0 <= j < 8,
                        0 <= i,
                ;
                assert(whole.take(8 * i as int + j as int + 1) =~= whole.take(
                    8 * i as int + j as int,
                ).push(whole[8 * i as int + j as int]));
            }
            if (b >> (7 - j)) & 1 == 1 {
                out.push(SYM1);
            } else {
                out.push(SYM0);
            }
            j = j + 1;
        }
        i = i + 1;
    }
    proof {
        assert(whole.take(8 * input@.len() as int) =~= whole);
    }
    out
}

/// Writes the binary encoding of a term after `out`.
fn write_binary(t: &Expr, out: &mut Vec<u8>)
    ensures
        final(out)@ == old(out)@ + crate::parser::serialize(*t),
    decreases *t,
{
    match t {
        Expr::Var(i) => {
            let mut k: usize = 0;
            while k < *i
                invariant
                    k <= *i,
                    out@ == old(out)@ + crate::parser::ones(k as nat),
                decreases *i - k,
            {
                out.push(SYM1);
                proof {
                    assert(old(out)@ + crate::parser::ones((k + 1) as nat) =~= (old(out)@
                        + crate::parser::ones(k as nat)).push(SYM1));
                }
                k = k + 1;
            }
            out.push(SYM0);
            proof {
                assert(old(out)@ + (crate::parser::ones(*i as nat) + seq![SYM0]) =~= (old(out)@
                    + crate::parser::ones(*i as nat)).push(SYM0));
            }
        },
        Expr::Abs(body) => {
            out.push(SYM0);
            out.push(SYM0);
            let ghost mid = out@;
            write_binary(body, out);
            proof {
                assert(mid =~= old(out)@ + seq![SYM0, SYM0]);
                assert(old(out)@ + (seq![SYM0, SYM0] + crate::parser::serialize(*(*body))) =~= (
                old(out)@ + seq![SYM0, SYM0]) + crate::parser::serialize(*(*body)));
            }
        },
        Expr::App(f, a) => {
            out.push(SYM0);
            out.push(SYM1);
            let ghost mid = out@;
            write_binary(f, out);
            write_binary(a, out);
            proof {
                assert(mid =~= old(out)@ + seq![SYM0, SYM1]);
                assert(old(out)@ + (seq![SYM0, SYM1] + crate::parser::serialize(*(*f))
                    + crate::parser::serialize(*(*a))) =~= ((old(out)@ + seq![SYM0, SYM1])
                    + crate::parser::serialize(*(*f))) + crate::parser::serialize(*(*a)));
            }
        },
    }
}

/// Serializes a term back into its binary encoding, the inverse of the
/// grammar table: the `0`-closed unary run for a variable, `00` before an
/// abstraction body, `01` before the sides of an application.
pub fn to_binary(t: &Expr) -> (out: Vec<u8>)
    ensures
        out@ == crate::parser::serialize(*t),
{
    let mut out: Vec<u8> = Vec::new();
    write_binary(t, &mut out);
    proof {
        assert(Seq::<u8>::empty() + crate::parser::serialize(*t) =~= crate::parser::serialize(*t));
    }
    out
}

/// What a raw program encoding decodes to: after deleting the blank symbols,
/// the longest prefix the grammar generates gives the term; symbols after it
/// (the padding of a packed program) are ignored.
pub open spec fn decodes_to(p: Seq<u8>) -> Option<Expr> {
    match spec_parse(strip(p)) {
        Some(pair) => Some(pair.0),
        None => None,
    }
}

/// Decodes a raw program encoding into a term.  Fails on empty input, an
/// input that violates the grammar, and an incomplete sub-term.
pub fn from_binary(input: &[u8]) -> (r: Result<Expr, Error>)
    ensures
        match r {
            Ok(t) => decodes_to(input@) == Some(t),
            Err(e) => e == Error::InvalidProgram && decodes_to(input@) is None,
        },
{
    match crate::parser::parse(input) {
        Ok(t) => Ok(t),
        Err(e) => Err(e),
    }
}

} // verus!

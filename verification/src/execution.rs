//! Binary lambda calculus execution: decode the program, lambda-encode the
//! argument, apply the one to the other, normalize, and decode the result.

use vstd::prelude::*;

use crate::binary_encoding::{decodes_to, from_binary};
use crate::lambda_encoding::{decode, decode_string, encode, encode_string};
use crate::engine::{normal_form_of, normalize};
use crate::expr::{app, Expr};

verus! {

/// An error that can occur during blc execution.
#[derive(Debug, PartialEq, Eq, Structural)]
pub enum Error {
    InvalidProgram,
}

/// What the bytes a run produces look like as text: a function of the bytes
/// alone.
pub uninterp spec fn text_of_bytes(v: Seq<u8>) -> Seq<char>;

/// Relies on String::from_utf8_lossy: the result depends on the bytes alone,
/// and bytes below 128 are ASCII, which the documentation promises come
/// through unchanged, each byte its own character.
#[verifier::external_body]
fn bytes_to_string(v: Vec<u8>) -> (r: String)
    ensures
        r@ == text_of_bytes(v@),
        (forall|i: int| 0 <= i < v@.len() ==> v@[i] < 128) ==> r@ == v@.map_values(
            |b: u8| b as char,
        ),
{
    String::from_utf8_lossy(&v).into_owned()
}

/// The byte string a successful run produces: the program term applied to
/// the lambda-encoded argument, normalized, and read back as a byte string.
pub open spec fn run_output(program: Expr, argument: Seq<u8>) -> Seq<u8> {
    decode_string(
        normal_form_of(
            Expr::App(Box::new(program), Box::new(encode_string(argument))),
        ),
    )
}

/// A run whose normalization hands the lambda-encoded argument back unchanged
/// — as the identity program's does — produces exactly the argument bytes:
/// decoding inverts the encoding.
pub proof fn lemma_run_output_of_encoded(program: Expr, argument: Seq<u8>)
    requires
        normal_form_of(Expr::App(Box::new(program), Box::new(encode_string(argument))))
            == encode_string(argument),
    ensures
        run_output(program, argument) == argument,
{
    crate::lambda_encoding::lemma_decode_encode(argument);
}

/// Executes a binary lambda calculus program, feeding it the given argument.
/// Succeeds exactly when the program bytes decode to a term; the result is
/// the decoded normal form of the program applied to the encoded argument,
/// read as text.  It does not return when the program diverges.
pub fn run(blc_program: &[u8], blc_argument: &[u8]) -> (r: Result<String, Error>)
    ensures
        r is Ok <==> decodes_to(blc_program@) is Some,
        match r {
            Ok(s) => decodes_to(blc_program@) matches Some(program) && {
                let out = run_output(program, blc_argument@);
                &&& s@ == text_of_bytes(out)
                &&& (forall|i: int| 0 <= i < out.len() ==> out[i] < 128) ==> s@ == out.map_values(
                    |b: u8| b as char,
                )
            },
            Err(e) => e == Error::InvalidProgram,
        },
{
    let program = match from_binary(blc_program) {
        Ok(p) => p,
        Err(e) => {
            return Err(e);
        },
    };
    let argument = encode(blc_argument);
    let applied = app(program, argument);
    let normal = normalize(&applied);
    let bytes = decode(&normal);
    Ok(bytes_to_string(bytes))
}

} // verus!

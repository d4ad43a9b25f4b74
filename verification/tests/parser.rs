use blc::expr::Expr::Var;
use blc::expr::{abs, app};
use blc::parser::parse;

#[test]
fn variables() {
    assert_eq!(parse(b"10").unwrap(), Var(1));
    assert_eq!(parse(b"110").unwrap(), Var(2));
    assert_eq!(parse(b"1110").unwrap(), Var(3));
}

#[test]
fn abstractions() {
    assert_eq!(parse(b"00\t10").unwrap(), abs(Var(1)));
    assert_eq!(parse(b"00\n00\r\n10").unwrap(), abs(abs(Var(1))));
    assert_eq!(parse(b"00 00\t00\n10").unwrap(), abs(abs(abs(Var(1)))));
}

#[test]
fn applications() {
    assert_eq!(parse(b"011010").unwrap(), app(Var(1), Var(1)));
    assert_eq!(parse(b"0110110").unwrap(), app(Var(1), Var(2)));
    assert_eq!(parse(b"0111010").unwrap(), app(Var(2), Var(1)));
}

#[test]
fn parse_and_display() {
    let k = b"0000110";
    let v15 = b"1111111111111110";
    let s = b"00000001011110100111010";
    let succ = b"000000011100101111011010";
    let quine = b"000101100100011010000000000001011011110010111100111111011111011010";
    let primes = b"0001000110011001010001101000000001011000001001000101011111011110100100011010000111001101000000000010\
1101110011100111111101111000000001111100110111000000101100000110110";
    let blc = b"0101000110100000000101011000000000011110000101111110011110000101110011110000001111000010110110111001\
1111000011111000010111101001110100101100111000011011000010111110000111110000111001101111011111001111\
01110110000110010001101000011010";

    assert_eq!(parse(&*k).unwrap().to_text(), "λλ2");
    assert_eq!(parse(&*v15).unwrap().to_text(), "F");
    assert_eq!(parse(&*s).unwrap().to_text(), "λλλ31(21)");
    assert_eq!(parse(&*succ).unwrap().to_text(), "λλλ2(321)");
    assert_eq!(parse(&*quine).unwrap().to_text(), "λ1((λ11)(λλλλλ14(3(55)2)))1");
    assert_eq!(
        parse(&*primes).unwrap().to_text(),
        "λ(λ1(1((λ11)(λλλ1(λλ1)((λ441((λ11)(λ2(11))))(λλλλ13(2(64)))))(λλλ4(13)))))(λλ1(λλ2)2)"
    );
    assert_eq!(
        parse(&*blc).unwrap().to_text(),
        "(λ11)(λλλ1(λλλλ3(λ5(3(λ2(3(λλ3(λ123)))(4(λ4(λ31(21))))))(1(2(λ12))(λ4(λ4(λ2(14)))5))))(33)2)(λ1((λ11)(λ11)))"
    );
}

#[test]
fn variable_boundary() {
    assert_eq!(parse(b"1").unwrap(), Var(1));
    assert_eq!(parse(b"11").unwrap(), Var(2));
    assert_eq!(parse(b"111").unwrap(), Var(3));
    assert_eq!(parse(b"1111111").unwrap(), Var(7));
}

#[test]
fn variable_terminator() {
    assert_eq!(parse(b"1110111111").unwrap(), Var(3));
    assert_eq!(parse(b"10001010").unwrap(), Var(1));
}

#[test]
fn whitespace_invariance() {
    assert_eq!(parse(b"0 0\t0\n0 1\r\n1 1 0 10").unwrap(), parse(b"0000111010").unwrap());
    assert_eq!(parse(b" \t\r\n0010").unwrap(), abs(Var(1)));
}

#[test]
fn parse_failures() {
    assert!(parse(b"").is_err());
    assert!(parse(b"0").is_err());
    assert!(parse(b"00").is_err());
    assert!(parse(b"01").is_err());
    assert!(parse(b"0110").is_err());
    assert!(parse(b"0x10").is_err());
}

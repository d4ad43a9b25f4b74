use blc::binary_encoding::{decompress, from_binary, to_binary};
use blc::execution::{run, Error};
use blc::lambda_encoding::{decode, encode};

#[test]
fn inflating() {
    let inflate_compressed = [
        0x44, 0x44, 0x68, 0x16, 0x01, 0x79, 0x1a, 0x00, 0x16, 0x7f, 0xfb, 0xcb, 0xcf, 0xdf, 0x65,
        0xfb, 0xed, 0x0f, 0x3c, 0xe7, 0x3c, 0xf3, 0xc2, 0xd8, 0x20, 0x58, 0x2c, 0x0b, 0x06, 0xc0,
    ];

    let inflate_blc = decompress(&inflate_compressed);
    let s_compressed = [0x1, 0x7a, 0x74];

    assert_eq!(
        run(&*inflate_blc, &s_compressed[..]).unwrap(),
        "000000010111101001110100".to_owned()
    );
}

#[test]
fn deflating() {
    let deflate_compressed = [
        0x44, 0x68, 0x16, 0x05, 0x7e, 0x01, 0x17, 0x00, 0xbe, 0x55, 0xff, 0xf0, 0x0d, 0xc1, 0x8b,
        0xb2, 0xc1, 0xb0, 0xf8, 0x7c, 0x2d, 0xd8, 0x05, 0x9e, 0x09, 0x7f, 0xbf, 0xb1, 0x48, 0x39,
        0xce, 0x81, 0xce, 0x80,
    ];

    let deflate_blc = decompress(&deflate_compressed);
    let s_blc = b"00000001011110100111010";

    assert_eq!(run(&*deflate_blc, &s_blc[..]).unwrap().as_bytes(), [0x1, 0x7a, 0x74]);
}

#[test]
fn identity_program() {
    assert_eq!(run(b"0010", b"herp derp"), Ok("herp derp".into()));
    assert_eq!(run(b"0010", b""), Ok("".into()));
}

#[test]
fn reversing() {
    let reverse = b"0001011001000110100000000001011100111110111100001011011110110000010";

    assert_eq!(run(&reverse[..], b"herp derp"), Ok("pred preh".into()));
}

#[test]
fn invalid_programs() {
    assert_eq!(run(b"", b"anything"), Err(Error::InvalidProgram));
    assert_eq!(run(b"00", b"anything"), Err(Error::InvalidProgram));
    assert_eq!(run(b"0110", b"anything"), Err(Error::InvalidProgram));
    assert!(from_binary(b"").is_err());
    assert!(from_binary(b"00").is_err());
}

#[test]
fn binary_round_trip() {
    let s = b"00011010";
    let t = from_binary(s).unwrap();
    assert_eq!(to_binary(&t), s.to_vec());

    let quine = b"000101100100011010000000000001011011110010111100111111011111011010";
    let q = from_binary(quine).unwrap();
    assert_eq!(to_binary(&q), quine.to_vec());
}

#[test]
fn encoding_round_trip() {
    assert_eq!(decode(&encode(b"")), b"".to_vec());
    assert_eq!(decode(&encode(b"a")), b"a".to_vec());
    assert_eq!(decode(&encode(b"herp derp")), b"herp derp".to_vec());
}

#[test]
fn decompression() {
    assert_eq!(decompress(&[0x01]), b"00000001".to_vec());
    assert_eq!(decompress(&[0x7a, 0x74]), b"0111101001110100".to_vec());
    assert_eq!(decompress(&[]), b"".to_vec());
}

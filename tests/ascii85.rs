use data_onion::{decode_ascii85_str, decode_sequence, DecodeErrorKind};

#[test]
fn test_decode_ascii85_str() {
    const ENCODED: &str = r#"
            <~9jqo^BlbD-BleB1DJ+*+F(f,q/0JhKF<GL>Cj@.4Gp$d7F!,L7@<6@)/0JDEF<G%<+EV:2F!,
            O<DJ+*.@<*K0@<6L(Df-\0Ec5e;DffZ(EZee.Bl.9pF"AGXBPCsi+DGm>@3BB/F*&OCAfu2/AKY
            i(DIb:@FD,*)+C]U=@3BN#EcYf8ATD3s@q?d$AftVqCh[NqF<G:8+EV:.+Cf>-FD5W8ARlolDIa
            l(DId<j@<?3r@:F%a+D58'ATD4$Bl@l3De:,-DJs`8ARoFb/0JMK@qB4^F!,R<AKZ&-DfTqBG%G
            >uD.RTpAKYo'+CT/5+Cei#DII?(E,9)oF*2M7/c~>
        "#;
    const DECODED: &str = "Man is distinguished, not only by his reason, but by this singular passion from other animals, which is a lust of the mind, that by a perseverance of delight in the continued and indefatigable generation of knowledge, exceeds the short vehemence of any carnal pleasure.";

    let res = decode_ascii85_str(ENCODED).unwrap();
    let s = String::from_utf8(res).unwrap();

    assert_eq!(s, DECODED);
}

#[test]
fn test_decode_z() {
    const ENCODED: &str = "<~z~>";
    const DECODED: &[u8] = &[0, 0, 0, 0];

    let res = decode_ascii85_str(ENCODED).unwrap();

    assert_eq!(res.as_slice(), DECODED);
}

#[test]
fn test_invalid_character() {
    const ENCODED: &str = "<~àç_èé'(è~>";
    let res = decode_ascii85_str(ENCODED);

    assert!(res.is_err());
}

#[test]
fn test_decode_sequence() {
    assert_eq!(
        decode_sequence(&['9', 'j', 'q', 'o', '^']).unwrap(),
        vec![b'M', b'a', b'n', b' ']
    );
}

#[test]
fn test_decode_sequence_padded() {
    assert_eq!(decode_sequence(&['/', 'c']).unwrap(), vec![b'.']);
}

#[test]
fn ascii85_empty_payload() {
    assert_eq!(decode_ascii85_str("<~~>").unwrap(), Vec::<u8>::new());
    assert_eq!(decode_ascii85_str("  <~ \n ~>  \t").unwrap(), Vec::<u8>::new());
}

#[test]
fn ascii85_whitespace_inside_groups() {
    assert_eq!(decode_ascii85_str("<~9j q\no^~>").unwrap(), b"Man ".to_vec());
}

#[test]
fn ascii85_z_after_partial_group() {
    assert_eq!(
        decode_ascii85_str("<~/cz~>").unwrap(),
        vec![b'.', 0, 0, 0, 0]
    );
}

#[test]
fn ascii85_group_value_exact() {
    // "s8W-!" is the largest group: 0xFFFFFFFF.
    assert_eq!(decode_sequence(&['s', '8', 'W', '-', '!']).unwrap(), vec![0xFF; 4]);
    assert_eq!(decode_sequence(&['!', '!', '!', '!', '!']).unwrap(), vec![0; 4]);
    assert_eq!(decode_sequence(&['!']).unwrap(), Vec::<u8>::new());
}

#[test]
fn ascii85_overflowing_group() {
    let e = decode_sequence(&['u', 'u', 'u', 'u', 'u']).unwrap_err();
    assert_eq!(e.kind, DecodeErrorKind::Overflow);
    let e = decode_ascii85_str("<~uuuuu~>").unwrap_err();
    assert_eq!(e.kind, DecodeErrorKind::Overflow);
}

#[test]
fn ascii85_invalid_character_kind() {
    let e = decode_ascii85_str("<~ab{cd~>").unwrap_err();
    assert_eq!(e.kind, DecodeErrorKind::InvalidCharacter);
    let e = decode_sequence(&['a', 'v']).unwrap_err();
    assert_eq!(e.kind, DecodeErrorKind::InvalidCharacter);
}

#[test]
fn ascii85_syntax_errors() {
    let e = decode_ascii85_str("9jqo^~>").unwrap_err();
    assert_eq!(e.kind, DecodeErrorKind::Syntax);
    let e = decode_ascii85_str("<~9jqo^").unwrap_err();
    assert_eq!(e.kind, DecodeErrorKind::Syntax);
    let e = decode_ascii85_str("<~9jqo^~> x").unwrap_err();
    assert_eq!(e.kind, DecodeErrorKind::Syntax);
    let e = decode_ascii85_str("<~9jqo^~x").unwrap_err();
    assert_eq!(e.kind, DecodeErrorKind::Syntax);
}

#[test]
fn ascii85_same_input_same_output() {
    let a = decode_ascii85_str("<~9jqo^BlbD-~>");
    let b = decode_ascii85_str("<~9jqo^BlbD-~>");
    assert_eq!(a, b);
}

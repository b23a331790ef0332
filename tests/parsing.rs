use assembler::lexer::{parse_digit, parse_line, parse_value};
use assembler::syntax::{Error, Instruction, Line, Macro, Register, ValueVariant};
use assembler::text::prepare_line;

fn immediate(text: &str) -> u16 {
    match parse_digit(text) {
        Ok(v) => v,
        Err(e) => panic!("{} did not parse: {:?}", text, e),
    }
}

fn bad_number(text: &str) -> String {
    match parse_digit(text) {
        Err(Error::BadNumber(body)) => body,
        other => panic!("{} should be a bad number: {:?}", text, other),
    }
}

#[test]
fn literal_forms() {
    assert_eq!(immediate("0x1A"), 0x1A);
    assert_eq!(immediate("0xff"), 0xFF);
    assert_eq!(immediate("0b101"), 5);
    assert_eq!(immediate("42"), 42);
    assert_eq!(immediate("-3"), 0xFFFD);
    assert_eq!(immediate("-1"), 0xFFFF);
    assert_eq!(immediate("-32768"), 0x8000);
    assert_eq!(immediate("65535"), 0xFFFF);
    assert_eq!(immediate("0"), 0);
}

#[test]
fn malformed_literals() {
    assert_eq!(bad_number("0xZZ"), "ZZ");
    assert_eq!(bad_number("0x"), "");
    assert_eq!(bad_number("0x10000"), "10000");
    assert_eq!(bad_number("0b102"), "102");
    assert_eq!(bad_number("-32769"), "32769");
    assert_eq!(bad_number("65536"), "65536");
    assert_eq!(bad_number("12ab"), "12ab");
}

#[test]
fn bracketed_register_is_addressed() {
    let v = parse_value("[r0]").unwrap();
    assert!(matches!(v.variant, ValueVariant::Register(Register::R0)));
    assert!(v.addressed);
    let v = parse_value("r0").unwrap();
    assert!(matches!(v.variant, ValueVariant::Register(Register::R0)));
    assert!(!v.addressed);
    let v = parse_value("r1").unwrap();
    assert!(matches!(v.variant, ValueVariant::Register(Register::R1)));
}

#[test]
fn operand_kinds() {
    let v = parse_value("[0x10]").unwrap();
    assert!(matches!(v.variant, ValueVariant::Immediate(16)));
    assert!(v.addressed);
    let v = parse_value("loop").unwrap();
    assert!(matches!(v.variant, ValueVariant::Reference { ref label } if label == "loop"));
    assert!(!v.addressed);
    let v = parse_value("[buf]").unwrap();
    assert!(matches!(v.variant, ValueVariant::Reference { ref label } if label == "buf"));
    assert!(v.addressed);
    assert!(matches!(parse_value("0xQ"), Err(Error::BadNumber(ref b)) if b == "Q"));
    assert!(matches!(parse_value("-x"), Err(Error::BadNumber(ref b)) if b == "x"));
}

#[test]
fn unprefixed_non_number_is_reference() {
    let v = parse_value("1abc").unwrap();
    assert!(matches!(v.variant, ValueVariant::Reference { ref label } if label == "1abc"));
    let v = parse_value("70000").unwrap();
    assert!(matches!(v.variant, ValueVariant::Reference { ref label } if label == "70000"));
    let v = parse_value("[70000]").unwrap();
    assert!(matches!(v.variant, ValueVariant::Reference { ref label } if label == "70000"));
    assert!(v.addressed);
    let v = parse_value("65535").unwrap();
    assert!(matches!(v.variant, ValueVariant::Immediate(0xFFFF)));
}

#[test]
fn arity_too_few_and_too_many() {
    assert!(matches!(
        parse_line(vec!["mov", "r0"]),
        Err(Error::TooFewValues { expected: 2, received: 1 })
    ));
    assert!(matches!(
        parse_line(vec!["hlt", "r0"]),
        Err(Error::TooManyValues { expected: 0, received: 1 })
    ));
    assert!(matches!(
        parse_line(vec!["add", "r0", "r1", "r0", "r1"]),
        Err(Error::TooManyValues { expected: 3, received: 4 })
    ));
}

#[test]
fn unknown_mnemonic_names_line() {
    match parse_line(vec!["nop", "r0", "5"]) {
        Err(Error::UnknownStatement(m, line)) => {
            assert_eq!(m, "nop");
            assert_eq!(line, "nop r0 5");
        },
        other => panic!("{:?}", other),
    }
}

#[test]
fn byte_move_and_modifier() {
    match parse_line(vec!["mov", "byte", "[r1]", "7"]) {
        Ok(Line::Instruction(Instruction::MovByte(a, b))) => {
            assert!(matches!(a.variant, ValueVariant::Register(Register::R1)));
            assert!(a.addressed);
            assert!(matches!(b.variant, ValueVariant::Immediate(7)));
        },
        other => panic!("{:?}", other),
    }
    assert!(matches!(
        parse_line(vec!["mov", "word", "r0", "7"]),
        Err(Error::UnknownMovModifier(ref m)) if m == "word"
    ));
}

#[test]
fn labels_and_sub_labels() {
    assert!(matches!(parse_line(vec!["foo:"]), Ok(Line::Macro(Macro::Label(ref n))) if n == "foo"));
    assert!(matches!(parse_line(vec![".bar:"]), Ok(Line::Macro(Macro::SubLabel(ref n))) if n == "bar"));
    assert!(matches!(
        parse_line(vec!["foo:", "hlt"]),
        Err(Error::TooManyValues { expected: 1, received: 2 })
    ));
}

#[test]
fn define_directive() {
    assert!(matches!(
        parse_line(vec!["%define", "SIZE", "0x10"]),
        Ok(Line::Macro(Macro::Define { ref label, value: 16 })) if label == "SIZE"
    ));
    assert!(matches!(
        parse_line(vec!["%define", "SIZE"]),
        Err(Error::TooFewValues { expected: 3, received: 2 })
    ));
    assert!(matches!(parse_line(vec!["%define", "SIZE", "0xG"]), Err(Error::BadNumber(_))));
}

#[test]
fn add_with_three_operands() {
    let (_, tokens) = prepare_line((0, "add r0, r0, 0x5"));
    match parse_line(tokens) {
        Ok(Line::Instruction(Instruction::Add(a, b, c))) => {
            assert!(matches!(a.variant, ValueVariant::Register(Register::R0)));
            assert!(matches!(b.variant, ValueVariant::Register(Register::R0)));
            assert!(matches!(c.variant, ValueVariant::Immediate(5)));
        },
        other => panic!("{:?}", other),
    }
}

#[test]
fn normaliser_strips_comments_and_separators() {
    let (n, tokens) = prepare_line((4, "  mov r0,[0x10] ; load it"));
    assert_eq!(n, 5);
    assert_eq!(tokens, vec!["mov", "r0", "[0x10]"]);
    let (_, tokens) = prepare_line((0, "; only a comment"));
    assert!(tokens.is_empty());
    let (_, tokens) = prepare_line((0, "\tjnz r1, , loop\r"));
    assert_eq!(tokens, vec!["jnz", "r1", "loop"]);
}

#[test]
fn renderings_parse_back() {
    for n in [0u16, 1, 9, 10, 255, 0x1234, 0xABCD, 0xFFFF] {
        assert_eq!(immediate(&n.to_string()), n);
        assert_eq!(immediate(&format!("0x{:x}", n)), n);
        assert_eq!(immediate(&format!("0x{:X}", n)), n);
        assert_eq!(immediate(&format!("0b{:b}", n)), n);
    }
}

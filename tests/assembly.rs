use assembler::lexer::parse_line;
use assembler::resolve::{assemble, assign_addresses};
use assembler::syntax::{Error, Instruction, Line, Statement};
use assembler::text::prepare_line;

fn program(lines: &[&str]) -> Vec<Statement> {
    let mut out = Vec::new();
    for (i, text) in lines.iter().enumerate() {
        let (line, tokens) = prepare_line((i, text));
        if !tokens.is_empty() {
            out.push(Statement { line, body: parse_line(tokens).unwrap() });
        }
    }
    out
}

fn lookup(stmts: &[&str], name: &str) -> Option<u16> {
    let layout = assign_addresses(&program(stmts), 0);
    layout.symbols.iter().find(|s| s.name == name).map(|s| s.value)
}

#[test]
fn single_halt() {
    let p = program(&["hlt"]);
    assert_eq!(p.len(), 1);
    let w = match &p[0].body {
        Line::Instruction(i) => i.width(),
        _ => panic!("not an instruction"),
    };
    assert_eq!(w, Instruction::Hlt.width());
    let bytes = assemble(&p, 0).unwrap();
    assert_eq!(bytes.len(), w);
    assert_eq!(bytes, vec![0, 0]);
}

#[test]
fn add_encoding() {
    let bytes = assemble(&program(&["add r0, r0, 0x5"]), 0).unwrap();
    assert_eq!(bytes, vec![8, 0x30, 0, 0, 5, 0]);
}

#[test]
fn byte_move_encoding() {
    let bytes = assemble(&program(&["mov byte [r1], 0x1234"]), 0).unwrap();
    assert_eq!(bytes, vec![6, 0x11, 1, 0x34]);
    let bytes = assemble(&program(&["mov byte r0, [0x1234]"]), 0).unwrap();
    assert_eq!(bytes, vec![6, 0x12, 0, 0x34, 0x12]);
}

#[test]
fn label_address_is_sum_of_prior_widths() {
    let src = ["hlt", "mov r0, 5", "start:", "jmp [r1]", "end:"];
    assert_eq!(lookup(&src, "start"), Some(2 + 5));
    assert_eq!(lookup(&src, "end"), Some(2 + 5 + 3));
    let layout = assign_addresses(&program(&src), 0x100);
    assert_eq!(layout.end, 0x100 + 10);
    assert_eq!(layout.addresses, vec![0x100, 0x102, 0x107, 0x107, 0x10A]);
}

#[test]
fn forward_reference_resolves() {
    let bytes = assemble(&program(&["jmp target", "hlt", "target:", "reti"]), 0).unwrap();
    assert_eq!(bytes, vec![2, 0, 6, 0, 0, 0, 1, 0]);
}

#[test]
fn sub_label_scoping() {
    let src = ["foo:", "hlt", ".bar:", "jmp .bar", "jmp bar"];
    assert_eq!(lookup(&src, "foo.bar"), Some(2));
    let bytes = assemble(&program(&src), 0).unwrap();
    assert_eq!(bytes, vec![0, 0, 2, 0, 2, 0, 2, 0, 2, 0]);
}

#[test]
fn sub_label_without_parent() {
    match assemble(&program(&[".bar:", "hlt"]), 0) {
        Err(es) => {
            assert_eq!(es.len(), 1);
            assert!(matches!(es[0], Error::NoParentLabel(ref n, 1) if n == "bar"));
        },
        Ok(b) => panic!("{:?}", b),
    }
}

#[test]
fn define_resolves_to_value() {
    let bytes = assemble(&program(&["%define SIZE 0x10", "mov r0, SIZE"]), 0).unwrap();
    assert_eq!(bytes, vec![5, 0x10, 0, 16, 0]);
}

#[test]
fn duplicate_symbols_reported() {
    match assemble(&program(&["a:", "hlt", "a:", "%define a 1"]), 0) {
        Err(es) => {
            assert_eq!(es.len(), 2);
            assert!(matches!(es[0], Error::DuplicateSymbol(ref n, 3) if n == "a"));
            assert!(matches!(es[1], Error::DuplicateSymbol(ref n, 4) if n == "a"));
        },
        Ok(b) => panic!("{:?}", b),
    }
}

#[test]
fn all_unknown_symbols_collected() {
    match assemble(&program(&["jmp one", "hlt", "add r0, two, three"]), 0) {
        Err(es) => {
            assert_eq!(es.len(), 3);
            assert!(matches!(es[0], Error::UnknownSymbol(ref n, 1) if n == "one"));
            assert!(matches!(es[1], Error::UnknownSymbol(ref n, 3) if n == "two"));
            assert!(matches!(es[2], Error::UnknownSymbol(ref n, 3) if n == "three"));
        },
        Ok(b) => panic!("{:?}", b),
    }
}

#[test]
fn address_space_overflow() {
    match assemble(&program(&["hlt"]), 0xFFFE) {
        Err(es) => assert!(matches!(es[0], Error::AddressOverflow(1))),
        Ok(b) => panic!("{:?}", b),
    }
    assert_eq!(assemble(&program(&["hlt"]), 0xFFFD).unwrap(), vec![0, 0]);
}

#[test]
fn assembling_twice_is_identical() {
    let src = ["start:", "mov r0, [data]", "jnz r0, start", "lvcd 0b11", "lkbd [r1]", "and r1, r1, -1", "data:"];
    let first = assemble(&program(&src), 0).unwrap();
    let second = assemble(&program(&src), 0).unwrap();
    assert_eq!(first, second);
    assert_eq!(first.len(), 5 + 5 + 4 + 3 + 6);
}

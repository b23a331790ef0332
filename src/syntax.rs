//! The data model: operands, instructions, directives, statements and errors,
//! each with a mathematical view used by the contracts.
use vstd::prelude::*;

verus! {

/// One of the machine's two general registers.
#[derive(Debug, Clone, Copy, PartialEq, Eq, Structural)]
pub enum Register {
    R0,
    R1,
}

/// What an operand names, before addressing is taken into account.
#[derive(Debug)]
pub enum ValueVariant {
    Reference { label: String },
    Immediate(u16),
    Register(Register),
}

/// An operand; `addressed` marks a memory operand written in brackets.
#[derive(Debug)]
pub struct Value {
    pub variant: ValueVariant,
    pub addressed: bool,
}

/// The closed instruction set.
#[derive(Debug)]
pub enum Instruction {
    Mov(Value, Value),
    MovByte(Value, Value),
    Lvcd(Value),
    Lkbd(Value),
    Jmp(Value),
    Hlt,
    Jnz(Value, Value),
    Reti,
    Add(Value, Value, Value),
    And(Value, Value, Value),
}

/// Assembler directives.
#[derive(Debug)]
pub enum Macro {
    Define { label: String, value: u16 },
    Label(String),
    SubLabel(String),
}

/// A parsed source line.
#[derive(Debug)]
pub enum Line {
    Macro(Macro),
    Instruction(Instruction),
}

/// A parsed line together with its source line number.
#[derive(Debug)]
pub struct Statement {
    pub line: usize,
    pub body: Line,
}

/// Everything that can go wrong while parsing or assembling.
#[derive(Debug)]
pub enum Error {
    TooFewValues { expected: usize, received: usize },
    TooManyValues { expected: usize, received: usize },
    /// The mnemonic and the whole line, tokens joined by single spaces.
    UnknownStatement(String, String),
    /// The digits of a literal that carries a numeric prefix but does not parse.
    BadNumber(String),
    UnknownMovModifier(String),
    /// A name bound twice, with the line of the second binding.
    DuplicateSymbol(String, usize),
    /// A sub-label seen before any label, with its line.
    NoParentLabel(String, usize),
    /// A reference that names no symbol, with the line that holds it.
    UnknownSymbol(String, usize),
    /// An instruction that would reach past the last address, with its line.
    AddressOverflow(usize),
}

/// The operation of an instruction, without its operands.
#[derive(Debug, Clone, Copy, PartialEq, Eq, Structural)]
pub enum Opcode {
    Mov,
    MovByte,
    Lvcd,
    Lkbd,
    Jmp,
    Hlt,
    Jnz,
    Reti,
    Add,
    And,
}

/// How many operands an operation takes.
pub open spec fn operand_count(op: Opcode) -> nat {
    match op {
        Opcode::Hlt | Opcode::Reti => 0,
        Opcode::Jmp | Opcode::Lvcd | Opcode::Lkbd => 1,
        Opcode::Mov | Opcode::MovByte | Opcode::Jnz => 2,
        Opcode::Add | Opcode::And => 3,
    }
}

/// Model of an operand's variant.
pub enum VariantModel {
    Reference(Seq<char>),
    Immediate(u16),
    Register(Register),
}

/// Model of an operand.
pub struct ValueModel {
    pub variant: VariantModel,
    pub addressed: bool,
}

/// Model of an instruction: its operation and its operands in order.
pub struct InstrModel {
    pub op: Opcode,
    pub operands: Seq<ValueModel>,
}

/// Model of a directive.
pub enum MacroModel {
    Define(Seq<char>, u16),
    Label(Seq<char>),
    SubLabel(Seq<char>),
}

/// Model of a parsed line.
pub enum LineModel {
    Macro(MacroModel),
    Instruction(InstrModel),
}

/// Model of a statement.
pub struct StatementModel {
    pub line: usize,
    pub body: LineModel,
}

/// Model of an error.
pub enum ErrorModel {
    TooFewValues(usize, usize),
    TooManyValues(usize, usize),
    UnknownStatement(Seq<char>, Seq<char>),
    BadNumber(Seq<char>),
    UnknownMovModifier(Seq<char>),
    DuplicateSymbol(Seq<char>, usize),
    NoParentLabel(Seq<char>, usize),
    UnknownSymbol(Seq<char>, usize),
    AddressOverflow(usize),
}

impl View for ValueVariant {
    type V = VariantModel;

    open spec fn view(&self) -> VariantModel {
        match self {
            ValueVariant::Reference { label } => VariantModel::Reference(label@),
            ValueVariant::Immediate(x) => VariantModel::Immediate(*x),
            ValueVariant::Register(r) => VariantModel::Register(*r),
        }
    }
}

impl View for Value {
    type V = ValueModel;

    open spec fn view(&self) -> ValueModel {
        ValueModel { variant: self.variant@, addressed: self.addressed }
    }
}

impl View for Instruction {
    type V = InstrModel;

    open spec fn view(&self) -> InstrModel {
        match self {
            Instruction::Mov(a, b) => InstrModel { op: Opcode::Mov, operands: seq![a@, b@] },
            Instruction::MovByte(a, b) => InstrModel { op: Opcode::MovByte, operands: seq![a@, b@] },
            Instruction::Lvcd(a) => InstrModel { op: Opcode::Lvcd, operands: seq![a@] },
            Instruction::Lkbd(a) => InstrModel { op: Opcode::Lkbd, operands: seq![a@] },
            Instruction::Jmp(a) => InstrModel { op: Opcode::Jmp, operands: seq![a@] },
            Instruction::Hlt => InstrModel { op: Opcode::Hlt, operands: seq![] },
            Instruction::Jnz(a, b) => InstrModel { op: Opcode::Jnz, operands: seq![a@, b@] },
            Instruction::Reti => InstrModel { op: Opcode::Reti, operands: seq![] },
            Instruction::Add(a, b, c) => InstrModel { op: Opcode::Add, operands: seq![a@, b@, c@] },
            Instruction::And(a, b, c) => InstrModel { op: Opcode::And, operands: seq![a@, b@, c@] },
        }
    }
}

impl View for Macro {
    type V = MacroModel;

    open spec fn view(&self) -> MacroModel {
        match self {
            Macro::Define { label, value } => MacroModel::Define(label@, *value),
            Macro::Label(n) => MacroModel::Label(n@),
            Macro::SubLabel(n) => MacroModel::SubLabel(n@),
        }
    }
}

impl View for Line {
    type V = LineModel;

    open spec fn view(&self) -> LineModel {
        match self {
            Line::Macro(m) => LineModel::Macro(m@),
            Line::Instruction(i) => LineModel::Instruction(i@),
        }
    }
}

impl View for Statement {
    type V = StatementModel;

    open spec fn view(&self) -> StatementModel {
        StatementModel { line: self.line, body: self.body@ }
    }
}

impl View for Error {
    type V = ErrorModel;

    open spec fn view(&self) -> ErrorModel {
        match self {
            Error::TooFewValues { expected, received } => ErrorModel::TooFewValues(*expected, *received),
            Error::TooManyValues { expected, received } => ErrorModel::TooManyValues(*expected, *received),
            Error::UnknownStatement(m, l) => ErrorModel::UnknownStatement(m@, l@),
            Error::BadNumber(t) => ErrorModel::BadNumber(t@),
            Error::UnknownMovModifier(t) => ErrorModel::UnknownMovModifier(t@),
            Error::DuplicateSymbol(n, l) => ErrorModel::DuplicateSymbol(n@, *l),
            Error::NoParentLabel(n, l) => ErrorModel::NoParentLabel(n@, *l),
            Error::UnknownSymbol(n, l) => ErrorModel::UnknownSymbol(n@, *l),
            Error::AddressOverflow(l) => ErrorModel::AddressOverflow(*l),
        }
    }
}

/// The model of a parse result.
pub open spec fn result_view(r: Result<Line, Error>) -> Result<LineModel, ErrorModel> {
    match r {
        Ok(l) => Ok(l@),
        Err(e) => Err(e@),
    }
}

/// The models of a sequence of errors.
pub open spec fn errors_view(es: Seq<Error>) -> Seq<ErrorModel> {
    es.map_values(|e: Error| e@)
}

/// The models of a sequence of statements.
pub open spec fn statements_view(ss: Seq<Statement>) -> Seq<StatementModel> {
    ss.map_values(|s: Statement| s@)
}

} // verus!

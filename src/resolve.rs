//! Two-pass resolution: address assignment with the symbol table, then
//! reference resolution and encoding.
use vstd::prelude::*;
use crate::encode::{all_resolved, encode_into, encoding, instr_width};
use crate::lexer::values_view;
use crate::syntax::{
    Error, ErrorModel, InstrModel, Line, LineModel, Macro, MacroModel, Statement, StatementModel,
    Value, ValueModel, ValueVariant, VariantModel, errors_view, statements_view,
};

verus! {

/// The highest address an instruction may end at.
pub const ADDRESS_LIMIT: u32 = 0xFFFF;

/// One binding of the symbol table.
pub struct Symbol {
    pub name: String,
    pub value: u16,
}

/// The models of a table's bindings, in the order they were made.
pub open spec fn symbols_view(t: Seq<Symbol>) -> Seq<(Seq<char>, u16)> {
    t.map_values(|s: Symbol| (s.name@, s.value))
}

/// The value bound to `name`, if any.
pub open spec fn lookup(t: Seq<(Seq<char>, u16)>, name: Seq<char>) -> Option<u16>
    decreases t.len(),
{
    if t.len() == 0 {
        None
    } else if t.last().0 == name {
        Some(t.last().1)
    } else {
        lookup(t.drop_last(), name)
    }
}

/// The full name of `name` inside the scope of label `parent`: the two joined
/// by a dot, after one leading dot of `name` is dropped.
pub open spec fn scoped_name(parent: Seq<char>, name: Seq<char>) -> Seq<char> {
    parent + seq!['.'] + (if name.len() > 0 && name[0] == '.' {
        name.drop_first()
    } else {
        name
    })
}

/// The state of address assignment after some statements: the next address,
/// the table, the current top-level label, the address and scope recorded for
/// each statement seen, and the errors found.
pub struct PassOne {
    pub addr: u16,
    pub table: Seq<(Seq<char>, u16)>,
    pub scope: Option<Seq<char>>,
    pub addrs: Seq<u16>,
    pub scopes: Seq<Option<Seq<char>>>,
    pub errors: Seq<ErrorModel>,
}

/// Binds `name` to `value`, or records a duplicate.
pub open spec fn bind(st: PassOne, name: Seq<char>, value: u16, line: usize) -> PassOne {
    if lookup(st.table, name) is Some {
        PassOne { errors: st.errors.push(ErrorModel::DuplicateSymbol(name, line)), ..st }
    } else {
        PassOne { table: st.table.push((name, value)), ..st }
    }
}

/// One statement of address assignment.
pub open spec fn pass_one_step(st0: PassOne, s: StatementModel) -> PassOne {
    let st = PassOne { addrs: st0.addrs.push(st0.addr), scopes: st0.scopes.push(st0.scope), ..st0 };
    match s.body {
        LineModel::Macro(MacroModel::Define(n, v)) => bind(st, n, v, s.line),
        LineModel::Macro(MacroModel::Label(n)) => PassOne {
            scope: Some(n),
            ..bind(st, n, st.addr, s.line)
        },
        LineModel::Macro(MacroModel::SubLabel(n)) => match st.scope {
            None => PassOne { errors: st.errors.push(ErrorModel::NoParentLabel(n, s.line)), ..st },
            Some(p) => bind(st, scoped_name(p, n), st.addr, s.line),
        },
        LineModel::Instruction(i) => if st.addr + instr_width(i) > ADDRESS_LIMIT {
            PassOne { errors: st.errors.push(ErrorModel::AddressOverflow(s.line)), ..st }
        } else {
            PassOne { addr: (st.addr + instr_width(i)) as u16, ..st }
        },
    }
}

/// Address assignment over a whole program, starting at `start`.
pub open spec fn pass_one(ss: Seq<StatementModel>, start: u16) -> PassOne
    decreases ss.len(),
{
    if ss.len() == 0 {
        PassOne {
            addr: start,
            table: Seq::empty(),
            scope: None,
            addrs: Seq::empty(),
            scopes: Seq::empty(),
            errors: Seq::empty(),
        }
    } else {
        pass_one_step(pass_one(ss.drop_last(), start), ss.last())
    }
}

/// The result of address assignment.
pub struct Layout {
    pub symbols: Vec<Symbol>,
    pub addresses: Vec<u16>,
    pub scopes: Vec<Option<String>>,
    pub scope: Option<String>,
    pub end: u16,
    pub errors: Vec<Error>,
}

/// The model of an optional name.
pub open spec fn name_view(o: Option<String>) -> Option<Seq<char>> {
    match o {
        Some(s) => Some(s@),
        None => None,
    }
}

impl View for Layout {
    type V = PassOne;

    open spec fn view(&self) -> PassOne {
        PassOne {
            addr: self.end,
            table: symbols_view(self.symbols@),
            scope: name_view(self.scope),
            addrs: self.addresses@,
            scopes: self.scopes@.map_values(|o: Option<String>| name_view(o)),
            errors: errors_view(self.errors@),
        }
    }
}

fn find_symbol(symbols: &Vec<Symbol>, name: &String) -> (r: Option<u16>)
    ensures
        r == lookup(symbols_view(symbols@), name@),
{
    let ghost t = symbols_view(symbols@);
    let mut i: usize = symbols.len();
    assert(t.take(i as int) =~= t);
    while i > 0
        invariant
            t == symbols_view(symbols@),
            i <= symbols.len(),
            lookup(t, name@) == lookup(t.take(i as int), name@),
        decreases i,
    {
        let ghost p = t.take(i as int);
        assert(p.drop_last() =~= t.take(i - 1));
        assert(p.last() == t[i - 1]);
        if symbols[i - 1].name == *name {
            return Some(symbols[i - 1].value);
        }
        i = i - 1;
    }
    assert(t.take(0) =~= Seq::<(Seq<char>, u16)>::empty());
    None
}

fn clone_name(o: &Option<String>) -> (r: Option<String>)
    ensures
        name_view(r) == name_view(*o),
{
    match o {
        Some(s) => Some(s.clone()),
        None => None,
    }
}

fn scoped(parent: &String, name: &String) -> (r: String)
    ensures
        r@ == scoped_name(parent@, name@),
{
    let mut out = parent.clone();
    proof {
        reveal_strlit(".");
    }
    out.append(".");
    let s = name.as_str();
    let n = s.unicode_len();
    if n > 0 && s.get_char(0) == '.' {
        out.append(s.substring_char(1, n));
        assert(s@.subrange(1, n as int) =~= name@.drop_first());
    } else {
        out.append(s);
    }
    assert(out@ =~= scoped_name(parent@, name@));
    out
}

impl Layout {
    fn bind(&mut self, name: String, value: u16, line: usize)
        ensures
            final(self)@ == bind(old(self)@, name@, value, line),
    {
        if find_symbol(&self.symbols, &name).is_some() {
            let ghost e = self.errors@;
            self.errors.push(Error::DuplicateSymbol(name, line));
            assert(errors_view(self.errors@) =~= errors_view(e).push(ErrorModel::DuplicateSymbol(name@, line)));
        } else {
            let ghost t = self.symbols@;
            let ghost nv = name@;
            self.symbols.push(Symbol { name, value });
            assert(symbols_view(self.symbols@) =~= symbols_view(t).push((nv, value)));
        }
    }

    fn push_error(&mut self, e: Error)
        ensures
            final(self)@ == (PassOne { errors: old(self)@.errors.push(e@), ..old(self)@ }),
    {
        let ghost es = self.errors@;
        let ghost ev = e@;
        self.errors.push(e);
        assert(errors_view(self.errors@) =~= errors_view(es).push(ev));
    }

    fn step(&mut self, s: &Statement)
        ensures
            final(self)@ == pass_one_step(old(self)@, s@),
    {
        let ghost a = self.addresses@;
        let ghost sc = self.scopes@;
        self.addresses.push(self.end);
        let here = clone_name(&self.scope);
        self.scopes.push(here);
        assert(self.scopes@.map_values(|o: Option<String>| name_view(o)) =~= sc.map_values(
            |o: Option<String>| name_view(o),
        ).push(name_view(self.scope)));
        match &s.body {
            Line::Macro(Macro::Define { label, value }) => {
                self.bind(label.clone(), *value, s.line);
            },
            Line::Macro(Macro::Label(n)) => {
                let addr = self.end;
                self.bind(n.clone(), addr, s.line);
                self.scope = Some(n.clone());
            },
            Line::Macro(Macro::SubLabel(n)) => {
                match &self.scope {
                    None => {
                        self.push_error(Error::NoParentLabel(n.clone(), s.line));
                    },
                    Some(p) => {
                        let full = scoped(p, n);
                        let addr = self.end;
                        self.bind(full, addr, s.line);
                    },
                }
            },
            Line::Instruction(i) => {
                let w = i.width();
                if self.end as u32 + w as u32 > ADDRESS_LIMIT {
                    self.push_error(Error::AddressOverflow(s.line));
                } else {
                    self.end = (self.end as u32 + w as u32) as u16;
                }
            },
        }
    }
}

/// Pass one: walks the statements in order, assigning each its address and
/// binding labels, sub-labels and constants.
pub fn assign_addresses(statements: &Vec<Statement>, start: u16) -> (r: Layout)
    ensures
        r@ == pass_one(statements_view(statements@), start),
        r.addresses.len() == statements.len(),
        r.scopes.len() == statements.len(),
{
    let ghost ss = statements_view(statements@);
    let mut layout = Layout {
        symbols: Vec::new(),
        addresses: Vec::new(),
        scopes: Vec::new(),
        scope: None,
        end: start,
        errors: Vec::new(),
    };
    assert(symbols_view(layout.symbols@) =~= Seq::empty());
    assert(errors_view(layout.errors@) =~= Seq::empty());
    assert(layout.scopes@.map_values(|o: Option<String>| name_view(o)) =~= Seq::empty());
    assert(layout@ == pass_one(ss.take(0), start));
    let mut i: usize = 0;
    while i < statements.len()
        invariant
            ss == statements_view(statements@),
            i <= statements.len(),
            layout@ == pass_one(ss.take(i as int), start),
        decreases statements.len() - i,
    {
        assert(ss.take(i + 1).drop_last() =~= ss.take(i as int));
        layout.step(&statements[i]);
        i = i + 1;
    }
    assert(ss.take(i as int) =~= ss);
    proof {
        lemma_pass_one_lengths(ss, start);
    }
    layout
}

/// The value a reference to `name` takes: the binding of `name` itself, or
/// else, inside the scope of a label, the binding of its scoped name.
pub open spec fn resolve_name(
    table: Seq<(Seq<char>, u16)>,
    scope: Option<Seq<char>>,
    name: Seq<char>,
) -> Option<u16> {
    match lookup(table, name) {
        Some(v) => Some(v),
        None => match scope {
            Some(p) => lookup(table, scoped_name(p, name)),
            None => None,
        },
    }
}

/// An operand with its reference replaced by the immediate it resolves to;
/// a reference that resolves to nothing is left as it is.
pub open spec fn resolve_value(
    v: ValueModel,
    table: Seq<(Seq<char>, u16)>,
    scope: Option<Seq<char>>,
) -> ValueModel {
    match v.variant {
        VariantModel::Reference(n) => match resolve_name(table, scope, n) {
            Some(x) => ValueModel { variant: VariantModel::Immediate(x), addressed: v.addressed },
            None => v,
        },
        _ => v,
    }
}

/// Every operand resolved.
pub open spec fn resolve_all(
    vs: Seq<ValueModel>,
    table: Seq<(Seq<char>, u16)>,
    scope: Option<Seq<char>>,
) -> Seq<ValueModel> {
    vs.map_values(|v: ValueModel| resolve_value(v, table, scope))
}

/// One error for each operand, in order, whose reference resolves to nothing.
pub open spec fn unresolved(
    vs: Seq<ValueModel>,
    table: Seq<(Seq<char>, u16)>,
    scope: Option<Seq<char>>,
    line: usize,
) -> Seq<ErrorModel>
    decreases vs.len(),
{
    if vs.len() == 0 {
        Seq::empty()
    } else {
        unresolved(vs.drop_last(), table, scope, line) + match vs.last().variant {
            VariantModel::Reference(n) => if resolve_name(table, scope, n) is None {
                seq![ErrorModel::UnknownSymbol(n, line)]
            } else {
                Seq::empty()
            },
            _ => Seq::empty(),
        }
    }
}

/// The state of encoding after some statements: the bytes so far and the
/// references that could not be resolved.
pub struct PassTwo {
    pub bytes: Seq<u8>,
    pub errors: Seq<ErrorModel>,
}

/// Pass two over a whole program, given the table of pass one and the scope
/// it recorded for each statement. An
/// instruction with an unresolved reference adds its errors and no bytes.
pub open spec fn pass_two(
    ss: Seq<StatementModel>,
    table: Seq<(Seq<char>, u16)>,
    scopes: Seq<Option<Seq<char>>>,
) -> PassTwo
    decreases ss.len(),
{
    if ss.len() == 0 {
        PassTwo { bytes: Seq::empty(), errors: Seq::empty() }
    } else {
        let prev = pass_two(ss.drop_last(), table, scopes);
        let k = ss.len() - 1;
        let s = ss.last();
        match s.body {
            LineModel::Instruction(i) => {
                let errs = unresolved(i.operands, table, scopes[k], s.line);
                if errs.len() == 0 {
                    PassTwo {
                        bytes: prev.bytes + encoding(
                            InstrModel { op: i.op, operands: resolve_all(i.operands, table, scopes[k]) },
                        ),
                        ..prev
                    }
                } else {
                    PassTwo { errors: prev.errors + errs, ..prev }
                }
            },
            _ => prev,
        }
    }
}

/// The whole pipeline: the bytes of the program, or every error that the
/// two passes found, those of pass one first.
pub open spec fn assemble_model(ss: Seq<StatementModel>, start: u16) -> Result<Seq<u8>, Seq<ErrorModel>> {
    let first = pass_one(ss, start);
    let second = pass_two(ss, first.table, first.scopes);
    let errs = first.errors + second.errors;
    if errs.len() == 0 {
        Ok(second.bytes)
    } else {
        Err(errs)
    }
}

/// The output of pass two.
pub struct Encoded {
    pub bytes: Vec<u8>,
    pub errors: Vec<Error>,
}

impl View for Encoded {
    type V = PassTwo;

    open spec fn view(&self) -> PassTwo {
        PassTwo { bytes: self.bytes@, errors: errors_view(self.errors@) }
    }
}

fn resolve_one(v: &Value, table: &Vec<Symbol>, scope: &Option<String>) -> (r: Option<Value>)
    ensures
        match r {
            Some(x) => x@ == resolve_value(v@, symbols_view(table@), name_view(*scope))
                && !(x@.variant is Reference),
            None => v@.variant is Reference && resolve_name(
                symbols_view(table@),
                name_view(*scope),
                v@.variant->Reference_0,
            ) is None,
        },
{
    let variant = match &v.variant {
        ValueVariant::Register(r) => ValueVariant::Register(*r),
        ValueVariant::Immediate(x) => ValueVariant::Immediate(*x),
        ValueVariant::Reference { label } => {
            let found = match find_symbol(table, label) {
                Some(x) => Some(x),
                None => match scope {
                    Some(p) => find_symbol(table, &scoped(p, label)),
                    None => None,
                },
            };
            match found {
                Some(x) => ValueVariant::Immediate(x),
                None => {
                    return None;
                },
            }
        },
    };
    Some(Value { variant, addressed: v.addressed })
}

fn resolve_operands(
    ops: &Vec<&Value>,
    table: &Vec<Symbol>,
    scope: &Option<String>,
    line: usize,
    errors: &mut Vec<Error>,
) -> (r: Vec<Value>)
    ensures
        errors_view(final(errors)@) == errors_view(old(errors)@) + unresolved(
            crate::encode::refs_view(ops@),
            symbols_view(table@),
            name_view(*scope),
            line,
        ),
        unresolved(crate::encode::refs_view(ops@), symbols_view(table@), name_view(*scope), line).len() == 0
            ==> values_view(r@) == resolve_all(crate::encode::refs_view(ops@), symbols_view(table@), name_view(*scope))
            && all_resolved(values_view(r@)) && r.len() == ops.len(),
{
    let ghost vs = crate::encode::refs_view(ops@);
    let ghost t = symbols_view(table@);
    let ghost sc = name_view(*scope);
    let ghost e0 = errors_view(errors@);
    let mut out: Vec<Value> = Vec::new();
    let mut i: usize = 0;
    assert(errors_view(errors@) =~= e0 + unresolved(vs.take(0), t, sc, line));
    while i < ops.len()
        invariant
            vs == crate::encode::refs_view(ops@),
            t == symbols_view(table@),
            sc == name_view(*scope),
            i <= ops.len(),
            errors_view(errors@) == e0 + unresolved(vs.take(i as int), t, sc, line),
            unresolved(vs.take(i as int), t, sc, line).len() == 0 ==> values_view(out@)
                =~= resolve_all(vs.take(i as int), t, sc) && all_resolved(values_view(out@))
                && out.len() == i,
        decreases ops.len() - i,
    {
        assert(vs.take(i + 1).drop_last() =~= vs.take(i as int));
        assert(vs.take(i + 1).last() == ops@[i as int]@);
        let ghost before = errors_view(errors@);
        let ghost outb = out@;
        match resolve_one(ops[i], table, scope) {
            Some(x) => {
                out.push(x);
                assert(errors_view(errors@) =~= e0 + unresolved(vs.take(i + 1), t, sc, line));
                proof {
                    if unresolved(vs.take(i + 1), t, sc, line).len() == 0 {
                        assert(values_view(out@) =~= values_view(outb).push(x@));
                        assert(resolve_all(vs.take(i + 1), t, sc) =~= resolve_all(vs.take(i as int), t, sc).push(
                            resolve_value(vs[i as int], t, sc),
                        ));
                    }
                }
            },
            None => {
                let label = match &ops[i].variant {
                    ValueVariant::Reference { label } => label.clone(),
                    _ => String::new(),
                };
                errors.push(Error::UnknownSymbol(label, line));
                assert(errors_view(errors@) =~= before.push(ErrorModel::UnknownSymbol(vs[i as int].variant->Reference_0, line)));
                assert(errors_view(errors@) =~= e0 + unresolved(vs.take(i + 1), t, sc, line));
            },
        }
        i = i + 1;
    }
    assert(vs.take(i as int) =~= vs);
    out
}

/// Pass two: resolves every reference against the table of pass one and
/// encodes each instruction, collecting every unresolved reference.
pub fn encode_program(statements: &Vec<Statement>, layout: &Layout) -> (r: Encoded)
    requires
        layout.scopes.len() == statements.len(),
    ensures
        r@ == pass_two(statements_view(statements@), layout@.table, layout@.scopes),
{
    let ghost ss = statements_view(statements@);
    let ghost first = layout@;
    let mut r = Encoded { bytes: Vec::new(), errors: Vec::new() };
    assert(errors_view(r.errors@) =~= Seq::empty());
    let mut k: usize = 0;
    while k < statements.len()
        invariant
            ss == statements_view(statements@),
            first == layout@,
            layout.scopes.len() == statements.len(),
            k <= statements.len(),
            r@ == pass_two(ss.take(k as int), first.table, first.scopes),
        decreases statements.len() - k,
    {
        assert(ss.take(k + 1).drop_last() =~= ss.take(k as int));
        assert(ss.take(k + 1).last() == statements@[k as int]@);
        if let Line::Instruction(i) = &statements[k].body {
            let ops = i.operands();
            let before = r.errors.len();
            let ghost eb = errors_view(r.errors@);
            let resolved = resolve_operands(
                &ops,
                &layout.symbols,
                &layout.scopes[k],
                statements[k].line,
                &mut r.errors,
            );
            assert(first.scopes[k as int] == name_view(layout.scopes@[k as int]));
            assert(errors_view(r.errors@).len() == r.errors@.len());
            assert(eb.len() == before);
            if r.errors.len() == before {
                encode_into(i.opcode(), &resolved, &mut r.bytes);
            } else {
                assert(errors_view(r.errors@).len() == r.errors@.len());
            }
        }
        k = k + 1;
    }
    assert(ss.take(k as int) =~= ss);
    r
}

/// Pass one records one address and one scope for each statement.
pub proof fn lemma_pass_one_lengths(ss: Seq<StatementModel>, start: u16)
    ensures
        pass_one(ss, start).scopes.len() == ss.len(),
        pass_one(ss, start).addrs.len() == ss.len(),
    decreases ss.len(),
{
    if ss.len() > 0 {
        lemma_pass_one_lengths(ss.drop_last(), start);
    }
}

/// Assembles a program: pass one, then pass two, starting at address `start`.
/// Succeeds with the bytes exactly when neither pass found an error.
pub fn assemble(statements: &Vec<Statement>, start: u16) -> (r: Result<Vec<u8>, Vec<Error>>)
    ensures
        match r {
            Ok(bytes) => assemble_model(statements_view(statements@), start) == Ok::<Seq<u8>, Seq<ErrorModel>>(bytes@),
            Err(es) => assemble_model(statements_view(statements@), start) == Err::<Seq<u8>, Seq<ErrorModel>>(errors_view(es@)),
        },
{
    let layout = assign_addresses(statements, start);
    let Layout { symbols, addresses, scopes, scope, end, errors } = layout;
    let layout = Layout { symbols, addresses, scopes, scope, end, errors: Vec::new() };
    let mut errors = errors;
    let mut enc = encode_program(statements, &layout);
    let ghost e1 = errors@;
    let ghost e2 = enc.errors@;
    errors.append(&mut enc.errors);
    assert(errors_view(errors@) =~= errors_view(e1) + errors_view(e2));
    if errors.len() == 0 {
        Ok(enc.bytes)
    } else {
        Err(errors)
    }
}

} // verus!

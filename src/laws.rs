//! Properties of the whole pipeline, proved over the models of the two passes.
use vstd::prelude::*;
use crate::encode::{all_resolved, instr_width, lemma_encoding_len};
use crate::lexer::{all_digits, digit_of, digits_value, literal_value};
use crate::resolve::{
    PassOne, assemble_model, lookup, pass_one, pass_one_step, pass_two, resolve_all,
    resolve_value, scoped_name, unresolved,
};
use crate::syntax::{
    ErrorModel, InstrModel, LineModel, MacroModel, StatementModel, ValueModel, VariantModel,
};

verus! {

/// The total width of the instructions among `ss`.
pub open spec fn prior_width(ss: Seq<StatementModel>) -> nat
    decreases ss.len(),
{
    if ss.len() == 0 {
        0
    } else {
        prior_width(ss.drop_last()) + match ss.last().body {
            LineModel::Instruction(i) => instr_width(i),
            _ => 0,
        }
    }
}

/// The name and value that statement `s` binds when pass one reaches it in state `st`.
pub open spec fn binding(st: PassOne, s: StatementModel) -> Option<(Seq<char>, u16)> {
    match s.body {
        LineModel::Macro(MacroModel::Define(n, v)) => Some((n, v)),
        LineModel::Macro(MacroModel::Label(n)) => Some((n, st.addr)),
        LineModel::Macro(MacroModel::SubLabel(n)) => match st.scope {
            Some(p) => Some((scoped_name(p, n), st.addr)),
            None => None,
        },
        LineModel::Instruction(_) => None,
    }
}

proof fn lemma_step_errors(st: PassOne, s: StatementModel)
    ensures
        pass_one_step(st, s).errors.len() >= st.errors.len(),
        pass_one_step(st, s).errors.subrange(0, st.errors.len() as int) == st.errors,
{
    assert(pass_one_step(st, s).errors.subrange(0, st.errors.len() as int) =~= st.errors);
}

proof fn lemma_errors_prefix(ss: Seq<StatementModel>, start: u16, j: int)
    requires
        0 <= j <= ss.len(),
    ensures
        pass_one(ss.take(j), start).errors.len() <= pass_one(ss, start).errors.len(),
        pass_one(ss, start).errors.subrange(0, pass_one(ss.take(j), start).errors.len() as int)
            == pass_one(ss.take(j), start).errors,
    decreases ss.len(),
{
    if j == ss.len() {
        assert(ss.take(j) =~= ss);
        assert(pass_one(ss, start).errors.subrange(0, pass_one(ss, start).errors.len() as int)
            =~= pass_one(ss, start).errors);
    } else {
        let prev = ss.drop_last();
        assert(prev.take(j) =~= ss.take(j));
        lemma_errors_prefix(prev, start, j);
        lemma_step_errors(pass_one(prev, start), ss.last());
        let e = pass_one(ss.take(j), start).errors;
        let m = pass_one(prev, start).errors;
        let f = pass_one(ss, start).errors;
        assert(f.subrange(0, e.len() as int) =~= m.subrange(0, e.len() as int));
    }
}

proof fn lemma_no_errors_before(ss: Seq<StatementModel>, start: u16, j: int)
    requires
        0 <= j <= ss.len(),
        pass_one(ss, start).errors.len() == 0,
    ensures
        pass_one(ss.take(j), start).errors.len() == 0,
{
    lemma_errors_prefix(ss, start, j);
}

proof fn lemma_addr_is_width(ss: Seq<StatementModel>, start: u16)
    requires
        pass_one(ss, start).errors.len() == 0,
    ensures
        pass_one(ss, start).addr == start + prior_width(ss),
    decreases ss.len(),
{
    if ss.len() > 0 {
        let prev = ss.drop_last();
        lemma_step_errors(pass_one(prev, start), ss.last());
        lemma_addr_is_width(prev, start);
    }
}

proof fn lemma_addrs_stable(ss: Seq<StatementModel>, start: u16, j: int)
    requires
        0 <= j < ss.len(),
    ensures
        pass_one(ss, start).addrs.len() == ss.len(),
        pass_one(ss, start).scopes.len() == ss.len(),
        pass_one(ss, start).addrs[j] == pass_one(ss.take(j), start).addr,
        pass_one(ss, start).scopes[j] == pass_one(ss.take(j), start).scope,
    decreases ss.len(),
{
    let prev = ss.drop_last();
    if j == ss.len() - 1 {
        assert(prev =~= ss.take(j));
        if prev.len() > 0 {
            lemma_addrs_stable(prev, start, 0);
        }
    } else {
        assert(prev.take(j) =~= ss.take(j));
        lemma_addrs_stable(prev, start, j);
    }
}

proof fn lemma_binding_kept(ss: Seq<StatementModel>, start: u16, j: int, n: Seq<char>, v: u16)
    requires
        0 <= j < ss.len(),
        pass_one(ss, start).errors.len() == 0,
        binding(pass_one(ss.take(j), start), ss[j]) == Some((n, v)),
    ensures
        lookup(pass_one(ss, start).table, n) == Some(v),
    decreases ss.len(),
{
    let prev = ss.drop_last();
    let st = pass_one(prev, start);
    lemma_step_errors(st, ss.last());
    if j == ss.len() - 1 {
        assert(prev =~= ss.take(j));
        let t = pass_one(ss, start).table;
        assert(t.last() == (n, v));
        assert(t.drop_last() == st.table);
    } else {
        assert(prev.take(j) =~= ss.take(j));
        lemma_binding_kept(prev, start, j, n, v);
        let t = pass_one(ss, start).table;
        if t.len() > st.table.len() {
            assert(t.drop_last() == st.table);
            assert(lookup(st.table, t.last().0) is None);
        }
    }
}

/// Every label is bound to the total width of the instructions that precede
/// it, counted from the start address, once pass one has found no error.
pub proof fn label_address_is_prior_width(ss: Seq<StatementModel>, start: u16, j: int, n: Seq<char>)
    requires
        0 <= j < ss.len(),
        pass_one(ss, start).errors.len() == 0,
        ss[j].body == LineModel::Macro(MacroModel::Label(n)),
    ensures
        lookup(pass_one(ss, start).table, n) == Some((start + prior_width(ss.take(j))) as u16),
        pass_one(ss, start).addrs[j] == start + prior_width(ss.take(j)),
{
    lemma_no_errors_before(ss, start, j);
    lemma_addr_is_width(ss.take(j), start);
    lemma_addrs_stable(ss, start, j);
    lemma_binding_kept(ss, start, j, n, pass_one(ss.take(j), start).addr);
}

/// Every sub-label is bound, under its scoped name, to the total width of the
/// instructions that precede it, counted from the start address, once pass
/// one has found no error.
pub proof fn sub_label_address_is_prior_width(
    ss: Seq<StatementModel>,
    start: u16,
    j: int,
    p: Seq<char>,
    b: Seq<char>,
)
    requires
        0 <= j < ss.len(),
        pass_one(ss, start).errors.len() == 0,
        ss[j].body == LineModel::Macro(MacroModel::SubLabel(b)),
        pass_one(ss, start).scopes[j] == Some(p),
    ensures
        lookup(pass_one(ss, start).table, scoped_name(p, b)) == Some(
            (start + prior_width(ss.take(j))) as u16,
        ),
        pass_one(ss, start).addrs[j] == start + prior_width(ss.take(j)),
{
    lemma_no_errors_before(ss, start, j);
    lemma_addr_is_width(ss.take(j), start);
    lemma_addrs_stable(ss, start, j);
    lemma_binding_kept(ss, start, j, scoped_name(p, b), pass_one(ss.take(j), start).addr);
}

/// A reference to a label resolves to the address of that label, wherever
/// the label stands in the program, before or after the reference.
pub proof fn reference_resolves_to_label(
    ss: Seq<StatementModel>,
    start: u16,
    i: int,
    o: int,
    j: int,
    n: Seq<char>,
)
    requires
        0 <= i < ss.len(),
        0 <= j < ss.len(),
        pass_one(ss, start).errors.len() == 0,
        ss[j].body == LineModel::Macro(MacroModel::Label(n)),
        ss[i].body is Instruction,
        0 <= o < ss[i].body->Instruction_0.operands.len(),
        ss[i].body->Instruction_0.operands[o].variant == VariantModel::Reference(n),
    ensures
        ({
            let first = pass_one(ss, start);
            let v = ss[i].body->Instruction_0.operands[o];
            resolve_value(v, first.table, first.scopes[i]) == (ValueModel {
                variant: VariantModel::Immediate(first.addrs[j]),
                addressed: v.addressed,
            })
        }),
{
    label_address_is_prior_width(ss, start, j, n);
}

/// A sub-label is bound under the name of the label whose scope it is in.
pub proof fn sub_label_is_scoped(ss: Seq<StatementModel>, start: u16, j: int, p: Seq<char>, b: Seq<char>)
    requires
        0 <= j < ss.len(),
        pass_one(ss, start).errors.len() == 0,
        ss[j].body == LineModel::Macro(MacroModel::SubLabel(b)),
        pass_one(ss, start).scopes[j] == Some(p),
    ensures
        lookup(pass_one(ss, start).table, scoped_name(p, b)) == Some(pass_one(ss, start).addrs[j]),
{
    lemma_addrs_stable(ss, start, j);
    lemma_binding_kept(ss, start, j, scoped_name(p, b), pass_one(ss.take(j), start).addr);
}

/// The scope recorded for a statement is the most recent label before it.
pub proof fn scope_is_last_label(ss: Seq<StatementModel>, start: u16, k: int, j: int, p: Seq<char>)
    requires
        0 <= k < j < ss.len(),
        ss[k].body == LineModel::Macro(MacroModel::Label(p)),
        forall|m: int| k < m < j ==> !(#[trigger] ss[m].body is Macro && ss[m].body->Macro_0 is Label),
    ensures
        pass_one(ss, start).scopes[j] == Some(p),
    decreases j - k,
{
    lemma_addrs_stable(ss, start, j);
    lemma_scope_after(ss.take(j), start, k, p);
}

proof fn lemma_scope_after(ss: Seq<StatementModel>, start: u16, k: int, p: Seq<char>)
    requires
        0 <= k < ss.len(),
        ss[k].body == LineModel::Macro(MacroModel::Label(p)),
        forall|m: int| k < m < ss.len() ==> !(#[trigger] ss[m].body is Macro && ss[m].body->Macro_0 is Label),
    ensures
        pass_one(ss, start).scope == Some(p),
    decreases ss.len(),
{
    if k < ss.len() - 1 {
        let prev = ss.drop_last();
        assert forall|m: int| k < m < prev.len() implies !(#[trigger] prev[m].body is Macro && prev[m].body->Macro_0 is Label) by {
            assert(prev[m] == ss[m]);
        }
        lemma_scope_after(prev, start, k, p);
        assert(!(ss[ss.len() - 1].body is Macro && ss[ss.len() - 1].body->Macro_0 is Label));
    }
}

proof fn lemma_no_scope(ss: Seq<StatementModel>, start: u16)
    requires
        forall|m: int| 0 <= m < ss.len() ==> !(#[trigger] ss[m].body is Macro && ss[m].body->Macro_0 is Label),
    ensures
        pass_one(ss, start).scope is None,
    decreases ss.len(),
{
    if ss.len() > 0 {
        let prev = ss.drop_last();
        assert forall|m: int| 0 <= m < prev.len() implies !(#[trigger] prev[m].body is Macro && prev[m].body->Macro_0 is Label) by {
            assert(prev[m] == ss[m]);
        }
        lemma_no_scope(prev, start);
        assert(!(ss[ss.len() - 1].body is Macro && ss[ss.len() - 1].body->Macro_0 is Label));
    }
}

/// A sub-label with no label before it is reported as having no parent.
pub proof fn sub_label_without_parent_fails(ss: Seq<StatementModel>, start: u16, j: int, b: Seq<char>)
    requires
        0 <= j < ss.len(),
        ss[j].body == LineModel::Macro(MacroModel::SubLabel(b)),
        forall|m: int| 0 <= m < j ==> !(#[trigger] ss[m].body is Macro && ss[m].body->Macro_0 is Label),
    ensures
        pass_one(ss, start).errors.contains(ErrorModel::NoParentLabel(b, ss[j].line)),
        assemble_model(ss, start) is Err,
{
    let pre = ss.take(j);
    assert forall|m: int| 0 <= m < pre.len() implies !(#[trigger] pre[m].body is Macro && pre[m].body->Macro_0 is Label) by {
        assert(pre[m] == ss[m]);
    }
    lemma_no_scope(pre, start);
    let upto = ss.take(j + 1);
    assert(upto.drop_last() =~= pre);
    assert(upto.last() == ss[j]);
    let e = pass_one(upto, start).errors;
    assert(e.last() == ErrorModel::NoParentLabel(b, ss[j].line));
    lemma_errors_prefix(ss, start, j + 1);
    let f = pass_one(ss, start).errors;
    assert(f.subrange(0, e.len() as int)[e.len() - 1] == f[e.len() - 1]);
}

/// A reference to a constant resolves to the constant's value, not to an address.
pub proof fn reference_resolves_to_constant(
    ss: Seq<StatementModel>,
    start: u16,
    i: int,
    o: int,
    j: int,
    n: Seq<char>,
    v: u16,
)
    requires
        0 <= i < ss.len(),
        0 <= j < ss.len(),
        pass_one(ss, start).errors.len() == 0,
        ss[j].body == LineModel::Macro(MacroModel::Define(n, v)),
        ss[i].body is Instruction,
        0 <= o < ss[i].body->Instruction_0.operands.len(),
        ss[i].body->Instruction_0.operands[o].variant == VariantModel::Reference(n),
    ensures
        ({
            let first = pass_one(ss, start);
            let x = ss[i].body->Instruction_0.operands[o];
            resolve_value(x, first.table, first.scopes[i]) == (ValueModel {
                variant: VariantModel::Immediate(v),
                addressed: x.addressed,
            })
        }),
{
    lemma_binding_kept(ss, start, j, n, v);
}

proof fn lemma_resolved_when_no_errors(
    vs: Seq<ValueModel>,
    t: Seq<(Seq<char>, u16)>,
    sc: Option<Seq<char>>,
    line: usize,
)
    requires
        unresolved(vs, t, sc, line).len() == 0,
    ensures
        all_resolved(resolve_all(vs, t, sc)),
    decreases vs.len(),
{
    if vs.len() > 0 {
        lemma_resolved_when_no_errors(vs.drop_last(), t, sc, line);
        let r = resolve_all(vs, t, sc);
        let q = resolve_all(vs.drop_last(), t, sc);
        assert forall|k: int| 0 <= k < r.len() implies !(#[trigger] r[k].variant is Reference) by {
            if k < r.len() - 1 {
                assert(r[k] == q[k]);
            }
        }
    }
}

proof fn lemma_bytes_len(ss: Seq<StatementModel>, t: Seq<(Seq<char>, u16)>, scopes: Seq<Option<Seq<char>>>)
    requires
        pass_two(ss, t, scopes).errors.len() == 0,
    ensures
        pass_two(ss, t, scopes).bytes.len() == prior_width(ss),
    decreases ss.len(),
{
    if ss.len() > 0 {
        let prev = ss.drop_last();
        let k = ss.len() - 1;
        if let LineModel::Instruction(i) = ss.last().body {
            let errs = unresolved(i.operands, t, scopes[k], ss.last().line);
            if errs.len() == 0 {
                lemma_resolved_when_no_errors(i.operands, t, scopes[k], ss.last().line);
                let m = InstrModel { op: i.op, operands: resolve_all(i.operands, t, scopes[k]) };
                lemma_encoding_len(m);
                lemma_width_resolved(i, t, scopes[k]);
            }
        }
        lemma_bytes_len(prev, t, scopes);
    }
}

proof fn lemma_width_resolved(i: InstrModel, t: Seq<(Seq<char>, u16)>, sc: Option<Seq<char>>)
    ensures
        instr_width(InstrModel { op: i.op, operands: resolve_all(i.operands, t, sc) }) == instr_width(i),
{
    lemma_operands_width_resolved(i.operands, t, sc, i.op == crate::syntax::Opcode::MovByte);
}

proof fn lemma_operands_width_resolved(
    vs: Seq<ValueModel>,
    t: Seq<(Seq<char>, u16)>,
    sc: Option<Seq<char>>,
    byte_mode: bool,
)
    ensures
        crate::encode::operands_width(resolve_all(vs, t, sc), byte_mode) == crate::encode::operands_width(
            vs,
            byte_mode,
        ),
    decreases vs.len(),
{
    if vs.len() > 0 {
        assert(resolve_all(vs, t, sc).drop_last() =~= resolve_all(vs.drop_last(), t, sc));
        lemma_operands_width_resolved(vs.drop_last(), t, sc, byte_mode);
    }
}

/// A successful assembly yields exactly as many bytes as pass one advanced
/// the address counter.
pub proof fn output_length_matches_addresses(ss: Seq<StatementModel>, start: u16)
    requires
        assemble_model(ss, start) is Ok,
    ensures
        assemble_model(ss, start)->Ok_0.len() == pass_one(ss, start).addr - start,
{
    let first = pass_one(ss, start);
    assert(first.errors.len() == 0);
    lemma_addr_is_width(ss, start);
    lemma_bytes_len(ss, first.table, first.scopes);
}

/// Assembling the same statements twice gives the same outcome, byte for byte.
pub proof fn assemble_is_deterministic(ss1: Seq<StatementModel>, ss2: Seq<StatementModel>, start: u16)
    requires
        ss1 == ss2,
    ensures
        assemble_model(ss1, start) == assemble_model(ss2, start),
{
}

/// A negative decimal literal in range parses to the 16-bit two's-complement
/// pattern of its value; `-1` gives `0xFFFF`.
pub proof fn negative_literal_is_twos_complement(digits: Seq<char>)
    requires
        all_digits(digits, 10),
        digits_value(digits, 10) <= 0x8000,
    ensures
        literal_value(seq!['-'] + digits) == Ok::<u16, ErrorModel>(
            ((0x10000 - digits_value(digits, 10)) % 0x10000) as u16,
        ),
        digits_value(digits, 10) == 1 ==> literal_value(seq!['-'] + digits) == Ok::<u16, ErrorModel>(0xFFFF),
{
    let t = seq!['-'] + digits;
    assert(t.subrange(1, t.len() as int) =~= digits);
    assert(!crate::lexer::has_prefix2(t, '0', 'x'));
}

proof fn lemma_lookup_none(t: Seq<(Seq<char>, u16)>, n: Seq<char>)
    requires
        lookup(t, n) is None,
    ensures
        forall|k: int| 0 <= k < t.len() ==> (#[trigger] t[k]).0 != n,
    decreases t.len(),
{
    if t.len() > 0 {
        lemma_lookup_none(t.drop_last(), n);
        assert forall|k: int| 0 <= k < t.len() implies (#[trigger] t[k]).0 != n by {
            if k < t.len() - 1 {
                assert(t[k] == t.drop_last()[k]);
            }
        }
    }
}

proof fn lemma_step_table(st: PassOne, s: StatementModel)
    ensures
        pass_one_step(st, s).table == st.table || (pass_one_step(st, s).table == st.table.push(
            pass_one_step(st, s).table.last(),
        ) && lookup(st.table, pass_one_step(st, s).table.last().0) is None),
{
}

/// No name is bound twice in the table that pass one builds.
pub proof fn table_names_are_unique(ss: Seq<StatementModel>, start: u16)
    ensures
        forall|i: int, j: int|
            0 <= i < j < pass_one(ss, start).table.len() ==> (#[trigger] pass_one(ss, start).table[i]).0
                != (#[trigger] pass_one(ss, start).table[j]).0,
    decreases ss.len(),
{
    if ss.len() > 0 {
        let prev = ss.drop_last();
        table_names_are_unique(prev, start);
        let a = pass_one(prev, start).table;
        let t = pass_one(ss, start).table;
        lemma_step_table(pass_one(prev, start), ss.last());
        if t != a {
            lemma_lookup_none(a, t.last().0);
            assert forall|i: int, j: int| 0 <= i < j < t.len() implies (#[trigger] t[i]).0 != (#[trigger] t[j]).0 by {
                assert(t[i] == a[i]);
                if j < t.len() - 1 {
                    assert(t[j] == a[j]);
                }
            }
        }
    }
}

/// The digit characters, in lower or upper case.
pub open spec fn digit_chars(upper: bool) -> Seq<char> {
    if upper {
        seq!['0', '1', '2', '3', '4', '5', '6', '7', '8', '9', 'A', 'B', 'C', 'D', 'E', 'F']
    } else {
        seq!['0', '1', '2', '3', '4', '5', '6', '7', '8', '9', 'a', 'b', 'c', 'd', 'e', 'f']
    }
}

/// `n` written in base `radix` without leading zeros, most significant digit first.
pub open spec fn render(n: nat, radix: nat, upper: bool) -> Seq<char>
    decreases n,
{
    if !(radix == 2 || radix == 10 || radix == 16) || n < radix {
        seq![digit_chars(upper)[n as int]]
    } else {
        render(high_part(n, radix), radix, upper).push(digit_chars(upper)[(n - high_part(n, radix) * radix) as int])
    }
}

/// `n` divided by a radix of two, ten or sixteen.
pub open spec fn high_part(n: nat, radix: nat) -> nat {
    if radix == 2 {
        n / 2
    } else if radix == 10 {
        n / 10
    } else {
        n / 16
    }
}

proof fn lemma_digit_char(d: nat, radix: nat, upper: bool)
    requires
        radix == 2 || radix == 10 || radix == 16,
        d < radix,
    ensures
        digit_of(digit_chars(upper)[d as int], radix) == d,
{
    let c = digit_chars(upper)[d as int];
    if d < 10 {
        assert(c as int == '0' as int + d) by {
            if d == 0 {} else if d == 1 {} else if d == 2 {} else if d == 3 {} else if d == 4 {}
            else if d == 5 {} else if d == 6 {} else if d == 7 {} else if d == 8 {} else {}
        }
    } else if upper {
        assert(c as int == 'A' as int + d - 10) by {
            if d == 10 {} else if d == 11 {} else if d == 12 {} else if d == 13 {} else if d == 14 {} else {}
        }
    } else {
        assert(c as int == 'a' as int + d - 10) by {
            if d == 10 {} else if d == 11 {} else if d == 12 {} else if d == 13 {} else if d == 14 {} else {}
        }
    }
}

proof fn lemma_render_value(n: nat, radix: nat, upper: bool)
    requires
        radix == 2 || radix == 10 || radix == 16,
    ensures
        all_digits(render(n, radix, upper), radix),
        digits_value(render(n, radix, upper), radix) == n,
    decreases n,
{
    let r = render(n, radix, upper);
    if n < radix {
        lemma_digit_char(n, radix, upper);
        assert(r.drop_last() =~= Seq::<char>::empty());
        assert(digits_value(r.drop_last(), radix) == 0);
        assert(0 * radix == 0);
        assert(r[0] == r.last());
    } else {
        let q = high_part(n, radix);
        let m = (n - q * radix) as nat;
        assert(0 <= n - q * radix < radix && q < n);
        lemma_render_value(q, radix, upper);
        lemma_digit_char(m, radix, upper);
        let pre = render(q, radix, upper);
        assert(r.drop_last() =~= pre);
        assert forall|i: int| 0 <= i < r.len() implies #[trigger] digit_of(r[i], radix) >= 0 by {
            if i < r.len() - 1 {
                assert(r[i] == pre[i]);
            }
        }
        assert(r.last() == digit_chars(upper)[m as int]);
        assert(digits_value(r, radix) == q * radix + m);
    }
}

/// Every 16-bit value, written in decimal, in hexadecimal after `0x` (in
/// either case), or in binary after `0b`, parses back to itself.
pub proof fn literal_round_trip(n: u16)
    ensures
        literal_value(render(n as nat, 10, false)) == Ok::<u16, ErrorModel>(n),
        literal_value(seq!['0', 'x'] + render(n as nat, 16, false)) == Ok::<u16, ErrorModel>(n),
        literal_value(seq!['0', 'x'] + render(n as nat, 16, true)) == Ok::<u16, ErrorModel>(n),
        literal_value(seq!['0', 'b'] + render(n as nat, 2, false)) == Ok::<u16, ErrorModel>(n),
{
    let d = render(n as nat, 10, false);
    lemma_render_value(n as nat, 10, false);
    assert(digit_of(d[0], 10) >= 0);
    if d.len() >= 2 {
        assert(digit_of(d[1], 10) >= 0);
    }
    let h = seq!['0', 'x'] + render(n as nat, 16, false);
    lemma_render_value(n as nat, 16, false);
    assert(h.subrange(2, h.len() as int) =~= render(n as nat, 16, false));
    let u = seq!['0', 'x'] + render(n as nat, 16, true);
    lemma_render_value(n as nat, 16, true);
    assert(u.subrange(2, u.len() as int) =~= render(n as nat, 16, true));
    let b = seq!['0', 'b'] + render(n as nat, 2, false);
    lemma_render_value(n as nat, 2, false);
    assert(b.subrange(2, b.len() as int) =~= render(n as nat, 2, false));
}

} // verus!

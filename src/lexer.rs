//! Numeric literals, operands and statements.
use vstd::prelude::*;
use crate::syntax::{
    Error, ErrorModel, Instruction, InstrModel, Line, LineModel, Macro, MacroModel, Opcode, Register,
    Value, ValueModel, ValueVariant, VariantModel, operand_count, result_view,
};
use crate::text::{first_is, last_is, same_text, starts_with_text};

verus! {

/// The value of `c` as a digit in base `radix`, or -1 where it is none.
/// Letters stand for the digits ten to fifteen in either case.
pub open spec fn digit_of(c: char, radix: nat) -> int {
    let d: int = if '0' <= c && c <= '9' {
        c as int - '0' as int
    } else if 'a' <= c && c <= 'f' {
        c as int - 'a' as int + 10
    } else if 'A' <= c && c <= 'F' {
        c as int - 'A' as int + 10
    } else {
        -1
    };
    if 0 <= d && d < radix {
        d
    } else {
        -1
    }
}

/// Whether `s` is a non-empty run of digits in base `radix`.
pub open spec fn all_digits(s: Seq<char>, radix: nat) -> bool {
    s.len() > 0 && forall|i: int| 0 <= i < s.len() ==> #[trigger] digit_of(s[i], radix) >= 0
}

/// The number that the digits of `s` denote in base `radix`, most significant first.
pub open spec fn digits_value(s: Seq<char>, radix: nat) -> int
    decreases s.len(),
{
    if s.len() == 0 {
        0
    } else {
        digits_value(s.drop_last(), radix) * radix + digit_of(s.last(), radix)
    }
}

/// Whether `t` starts with the two characters `a` and `b`.
pub open spec fn has_prefix2(t: Seq<char>, a: char, b: char) -> bool {
    t.len() >= 2 && t[0] == a && t[1] == b
}

/// The value of a numeric literal, as a 16-bit pattern, or the error it gives.
/// `0x` starts a hexadecimal literal, `0b` a binary one, `-` a negative decimal
/// one (stored in two's complement, down to -32768), and anything else is read
/// as an unsigned decimal literal. On failure the error holds the digits
/// that follow the prefix.
pub open spec fn literal_value(t: Seq<char>) -> Result<u16, ErrorModel> {
    if has_prefix2(t, '0', 'x') {
        let body = t.subrange(2, t.len() as int);
        if all_digits(body, 16) && digits_value(body, 16) <= 0xFFFF {
            Ok(digits_value(body, 16) as u16)
        } else {
            Err(ErrorModel::BadNumber(body))
        }
    } else if has_prefix2(t, '0', 'b') {
        let body = t.subrange(2, t.len() as int);
        if all_digits(body, 2) && digits_value(body, 2) <= 0xFFFF {
            Ok(digits_value(body, 2) as u16)
        } else {
            Err(ErrorModel::BadNumber(body))
        }
    } else if t.len() > 0 && t[0] == '-' {
        let body = t.subrange(1, t.len() as int);
        if all_digits(body, 10) && digits_value(body, 10) <= 0x8000 {
            Ok(((0x10000 - digits_value(body, 10)) % 0x10000) as u16)
        } else {
            Err(ErrorModel::BadNumber(body))
        }
    } else if all_digits(t, 10) && digits_value(t, 10) <= 0xFFFF {
        Ok(digits_value(t, 10) as u16)
    } else {
        Err(ErrorModel::BadNumber(t))
    }
}

/// The model of a literal's parse result.
pub open spec fn number_view(r: Result<u16, Error>) -> Result<u16, ErrorModel> {
    match r {
        Ok(v) => Ok(v),
        Err(e) => Err(e@),
    }
}

fn digit(c: char, radix: u32) -> (r: Option<u32>)
    requires
        radix <= 16,
    ensures
        match r {
            Some(d) => d as int == digit_of(c, radix as nat) && d < radix,
            None => digit_of(c, radix as nat) == -1,
        },
{
    let d: u32 = if '0' <= c && c <= '9' {
        (c as u32) - ('0' as u32)
    } else if 'a' <= c && c <= 'f' {
        (c as u32) - ('a' as u32) + 10
    } else if 'A' <= c && c <= 'F' {
        (c as u32) - ('A' as u32) + 10
    } else {
        return None;
    };
    if d < radix {
        Some(d)
    } else {
        None
    }
}

/// Reads `t` as digits in base `radix`; `None` unless every character is a
/// digit and the value is at most `limit`.
fn parse_digits(t: &str, radix: u32, limit: u32) -> (r: Option<u32>)
    requires
        radix == 2 || radix == 10 || radix == 16,
        limit <= 0xFFFF,
    ensures
        match r {
            Some(v) => all_digits(t@, radix as nat) && v as int == digits_value(t@, radix as nat)
                && v <= limit,
            None => !(all_digits(t@, radix as nat) && digits_value(t@, radix as nat) <= limit),
        },
{
    let n = t.unicode_len();
    if n == 0 {
        return None;
    }
    let ghost s = t@;
    let mut acc: u32 = 0;
    let mut big = false;
    let mut i: usize = 0;
    while i < n
        invariant
            n == s.len(),
            s == t@,
            i <= n,
            radix == 2 || radix == 10 || radix == 16,
            limit <= 0xFFFF,
            forall|k: int| 0 <= k < i ==> #[trigger] digit_of(s[k], radix as nat) >= 0,
            big ==> digits_value(s.take(i as int), radix as nat) > limit,
            !big ==> acc as int == digits_value(s.take(i as int), radix as nat),
            acc <= limit,
        decreases n - i,
    {
        let c = t.get_char(i);
        let ghost prev = digits_value(s.take(i as int), radix as nat);
        assert(s.take(i + 1).drop_last() =~= s.take(i as int));
        assert(s.take(i + 1).last() == s[i as int]);
        match digit(c, radix) {
            None => {
                return None;
            },
            Some(d) => {
                if big {
                    assert(prev * radix + d >= prev) by (nonlinear_arith)
                        requires
                            prev > 0,
                            radix >= 2,
                            d >= 0,
                    ;
                } else {
                    let next: u32 = acc * radix + d;
                    if next > limit {
                        big = true;
                    } else {
                        acc = next;
                    }
                }
            },
        }
        i = i + 1;
    }
    assert(s.take(n as int) =~= s);
    if big {
        None
    } else {
        Some(acc)
    }
}

/// Parses a numeric literal into its 16-bit pattern.
pub fn parse_digit(text: &str) -> (r: Result<u16, Error>)
    ensures
        number_view(r) == literal_value(text@),
{
    let n = text.unicode_len();
    let hex = n >= 2 && text.get_char(0) == '0' && text.get_char(1) == 'x';
    let bin = n >= 2 && text.get_char(0) == '0' && text.get_char(1) == 'b';
    if hex || bin {
        let body = text.substring_char(2, n);
        let radix: u32 = if hex { 16 } else { 2 };
        match parse_digits(body, radix, 0xFFFF) {
            Some(v) => Ok(v as u16),
            None => Err(Error::BadNumber(body.to_owned())),
        }
    } else if n > 0 && text.get_char(0) == '-' {
        let body = text.substring_char(1, n);
        match parse_digits(body, 10, 0x8000) {
            Some(v) => Ok(((0x10000 - v) % 0x10000) as u16),
            None => Err(Error::BadNumber(body.to_owned())),
        }
    } else {
        match parse_digits(text, 10, 0xFFFF) {
            Some(v) => Ok(v as u16),
            None => Err(Error::BadNumber(text.to_owned())),
        }
    }
}

/// Whether `t` is written in brackets, marking a memory operand.
pub open spec fn is_bracketed(t: Seq<char>) -> bool {
    t.len() >= 2 && t[0] == '[' && t.last() == ']'
}

/// The text of an operand without its brackets.
pub open spec fn inner_text(t: Seq<char>) -> Seq<char> {
    if is_bracketed(t) {
        t.subrange(1, t.len() - 1)
    } else {
        t
    }
}

/// The register that `t` names, if any.
pub open spec fn register_named(t: Seq<char>) -> Option<Register> {
    if t.len() == 2 && t[0] == 'r' && t[1] == '0' {
        Some(Register::R0)
    } else if t.len() == 2 && t[0] == 'r' && t[1] == '1' {
        Some(Register::R1)
    } else {
        None
    }
}

/// Whether `t` carries a numeric prefix: `0x`, `0b` or a minus sign.
pub open spec fn has_numeric_prefix(t: Seq<char>) -> bool {
    has_prefix2(t, '0', 'x') || has_prefix2(t, '0', 'b') || (t.len() > 0 && t[0] == '-')
}

/// The operand that a token denotes, or the error it gives. A literal with a
/// numeric prefix must parse; an unprefixed token is an unsigned decimal
/// literal where it reads as one and a reference to a label otherwise.
pub open spec fn operand_value(t: Seq<char>) -> Result<ValueModel, ErrorModel> {
    let addressed = is_bracketed(t);
    let inner = inner_text(t);
    if let Some(r) = register_named(inner) {
        Ok(ValueModel { variant: VariantModel::Register(r), addressed })
    } else if has_numeric_prefix(inner) {
        match literal_value(inner) {
            Ok(v) => Ok(ValueModel { variant: VariantModel::Immediate(v), addressed }),
            Err(e) => Err(e),
        }
    } else if all_digits(inner, 10) && digits_value(inner, 10) <= 0xFFFF {
        Ok(ValueModel { variant: VariantModel::Immediate(digits_value(inner, 10) as u16), addressed })
    } else {
        Ok(ValueModel { variant: VariantModel::Reference(inner), addressed })
    }
}

/// The model of an operand's parse result.
pub open spec fn value_view(r: Result<Value, Error>) -> Result<ValueModel, ErrorModel> {
    match r {
        Ok(v) => Ok(v@),
        Err(e) => Err(e@),
    }
}

/// Parses one token into an operand.
pub fn parse_value(component: &str) -> (r: Result<Value, Error>)
    ensures
        value_view(r) == operand_value(component@),
{
    let n = component.unicode_len();
    let addressed = n >= 2 && first_is(component, '[') && last_is(component, ']');
    let inner = if addressed {
        component.substring_char(1, n - 1)
    } else {
        component
    };
    let m = inner.unicode_len();
    let variant = if m == 2 && inner.get_char(0) == 'r' && inner.get_char(1) == '0' {
        ValueVariant::Register(Register::R0)
    } else if m == 2 && inner.get_char(0) == 'r' && inner.get_char(1) == '1' {
        ValueVariant::Register(Register::R1)
    } else if (m >= 2 && inner.get_char(0) == '0' && (inner.get_char(1) == 'x' || inner.get_char(1)
        == 'b')) || (m > 0 && inner.get_char(0) == '-') {
        match parse_digit(inner) {
            Ok(v) => ValueVariant::Immediate(v),
            Err(e) => {
                return Err(e);
            },
        }
    } else {
        match parse_digits(inner, 10, 0xFFFF) {
            Some(v) => ValueVariant::Immediate(v as u16),
            None => ValueVariant::Reference { label: inner.to_owned() },
        }
    };
    Ok(Value { variant, addressed })
}

/// The arity error for `received` tokens where `expected` are needed, if any.
pub open spec fn arity_error(expected: usize, received: usize) -> Option<ErrorModel> {
    if received > expected {
        Some(ErrorModel::TooManyValues(expected, received))
    } else if received < expected {
        Some(ErrorModel::TooFewValues(expected, received))
    } else {
        None
    }
}

fn assert_components_len(expected: usize, received: usize) -> (r: Result<(), Error>)
    ensures
        match r {
            Ok(()) => arity_error(expected, received) is None,
            Err(e) => arity_error(expected, received) == Some(e@),
        },
{
    if received > expected {
        Err(Error::TooManyValues { expected, received })
    } else if received < expected {
        Err(Error::TooFewValues { expected, received })
    } else {
        Ok(())
    }
}

/// The index of the first character of `s` at or after `i` that is not `c`.
pub open spec fn skip_from(s: Seq<char>, c: char, i: int) -> int
    decreases s.len() - i,
{
    if 0 <= i < s.len() && s[i] == c {
        skip_from(s, c, i + 1)
    } else {
        i
    }
}

/// The end of `s[lo..j]` once every trailing `c` is removed.
pub open spec fn keep_until(s: Seq<char>, c: char, lo: int, j: int) -> int
    decreases j - lo,
{
    if lo < j && j <= s.len() && s[j - 1] == c {
        keep_until(s, c, lo, j - 1)
    } else {
        j
    }
}

/// A label token without its leading dots and trailing colons.
pub open spec fn label_name(s: Seq<char>) -> Seq<char> {
    let a = skip_from(s, '.', 0);
    s.subrange(a, keep_until(s, ':', a, s.len() as int))
}

/// The directive for a label line.
pub open spec fn label_model(toks: Seq<Seq<char>>) -> Result<LineModel, ErrorModel> {
    if let Some(e) = arity_error(1, toks.len() as usize) {
        Err(e)
    } else if toks[0].len() > 0 && toks[0][0] == '.' {
        Ok(LineModel::Macro(MacroModel::SubLabel(label_name(toks[0]))))
    } else {
        Ok(LineModel::Macro(MacroModel::Label(label_name(toks[0]))))
    }
}

fn trim_label(t: &str) -> (r: String)
    ensures
        r@ == label_name(t@),
{
    let n = t.unicode_len();
    let ghost s = t@;
    let mut a: usize = 0;
    while a < n && t.get_char(a) == '.'
        invariant
            n == s.len(),
            s == t@,
            a <= n,
            skip_from(s, '.', 0) == skip_from(s, '.', a as int),
        decreases n - a,
    {
        a = a + 1;
    }
    let mut b: usize = n;
    while b > a && t.get_char(b - 1) == ':'
        invariant
            n == s.len(),
            s == t@,
            a <= b <= n,
            skip_from(s, '.', 0) == a,
            keep_until(s, ':', a as int, n as int) == keep_until(s, ':', a as int, b as int),
        decreases b,
    {
        b = b - 1;
    }
    t.substring_char(a, b).to_owned()
}

fn parse_label(components: &Vec<&str>) -> (r: Result<Line, Error>)
    ensures
        result_view(r) == label_model(tokens_view(components@)),
{
    match assert_components_len(1, components.len()) {
        Err(e) => {
            return Err(e);
        },
        Ok(()) => {},
    }
    let label = components[0];
    let name = trim_label(label);
    if first_is(label, '.') {
        Ok(Line::Macro(Macro::SubLabel(name)))
    } else {
        Ok(Line::Macro(Macro::Label(name)))
    }
}

/// The directive for a `%define` line.
pub open spec fn define_model(toks: Seq<Seq<char>>) -> Result<LineModel, ErrorModel> {
    if let Some(e) = arity_error(3, toks.len() as usize) {
        Err(e)
    } else {
        match literal_value(toks[2]) {
            Ok(v) => Ok(LineModel::Macro(MacroModel::Define(toks[1], v))),
            Err(e) => Err(e),
        }
    }
}

fn parse_define(components: &Vec<&str>) -> (r: Result<Line, Error>)
    ensures
        result_view(r) == define_model(tokens_view(components@)),
{
    match assert_components_len(3, components.len()) {
        Err(e) => {
            return Err(e);
        },
        Ok(()) => {},
    }
    let label = components[1].to_owned();
    match parse_digit(components[2]) {
        Ok(value) => Ok(Line::Macro(Macro::Define { label, value })),
        Err(e) => Err(e),
    }
}

/// The characters of each token.
pub open spec fn tokens_view(v: Seq<&str>) -> Seq<Seq<char>> {
    v.map_values(|t: &str| t@)
}

/// The operation a mnemonic names and how many operands it takes.
pub open spec fn mnemonic_model(m: Seq<char>) -> Option<(Opcode, usize)> {
    if m == "hlt"@ {
        Some((Opcode::Hlt, 0))
    } else if m == "reti"@ {
        Some((Opcode::Reti, 0))
    } else if m == "jmp"@ {
        Some((Opcode::Jmp, 1))
    } else if m == "lvcd"@ {
        Some((Opcode::Lvcd, 1))
    } else if m == "lkbd"@ {
        Some((Opcode::Lkbd, 1))
    } else if m == "mov"@ {
        Some((Opcode::Mov, 2))
    } else if m == "jnz"@ {
        Some((Opcode::Jnz, 2))
    } else if m == "add"@ {
        Some((Opcode::Add, 3))
    } else if m == "and"@ {
        Some((Opcode::And, 3))
    } else {
        None
    }
}

fn mnemonic(m: &str) -> (r: Option<(Opcode, usize)>)
    ensures
        r == mnemonic_model(m@),
{
    if same_text(m, "hlt") {
        Some((Opcode::Hlt, 0))
    } else if same_text(m, "reti") {
        Some((Opcode::Reti, 0))
    } else if same_text(m, "jmp") {
        Some((Opcode::Jmp, 1))
    } else if same_text(m, "lvcd") {
        Some((Opcode::Lvcd, 1))
    } else if same_text(m, "lkbd") {
        Some((Opcode::Lkbd, 1))
    } else if same_text(m, "mov") {
        Some((Opcode::Mov, 2))
    } else if same_text(m, "jnz") {
        Some((Opcode::Jnz, 2))
    } else if same_text(m, "add") {
        Some((Opcode::Add, 3))
    } else if same_text(m, "and") {
        Some((Opcode::And, 3))
    } else {
        None
    }
}

/// The tokens joined by single spaces.
pub open spec fn join_words(toks: Seq<Seq<char>>) -> Seq<char>
    decreases toks.len(),
{
    if toks.len() == 0 {
        Seq::empty()
    } else if toks.len() == 1 {
        toks[0]
    } else {
        join_words(toks.drop_last()) + seq![' '] + toks.last()
    }
}

fn reached_unknown(components: &Vec<&str>) -> (e: Error)
    requires
        components.len() > 0,
    ensures
        e@ == ErrorModel::UnknownStatement(
            tokens_view(components@)[0],
            join_words(tokens_view(components@)),
        ),
{
    let ghost toks = tokens_view(components@);
    let mut line = components[0].to_owned();
    let mut i: usize = 1;
    proof {
        reveal_strlit(" ");
        assert(" "@ =~= seq![' ']);
        assert(toks.take(1) =~= seq![toks[0]]);
    }
    while i < components.len()
        invariant
            toks == tokens_view(components@),
            1 <= i <= components.len(),
            line@ == join_words(toks.take(i as int)),
            " "@ == seq![' '],
        decreases components.len() - i,
    {
        line.append(" ");
        line.append(components[i]);
        assert(toks.take(i + 1).drop_last() =~= toks.take(i as int));
        assert(toks.take(i + 1).last() == toks[i as int]);
        i = i + 1;
    }
    assert(toks.take(i as int) =~= toks);
    Error::UnknownStatement(components[0].to_owned(), line)
}

/// The operands that the tokens denote, in order, or the first error.
pub open spec fn operands_model(ts: Seq<Seq<char>>) -> Result<Seq<ValueModel>, ErrorModel>
    decreases ts.len(),
{
    if ts.len() == 0 {
        Ok(Seq::empty())
    } else {
        match operands_model(ts.drop_last()) {
            Err(e) => Err(e),
            Ok(vs) => match operand_value(ts.last()) {
                Err(e) => Err(e),
                Ok(v) => Ok(vs.push(v)),
            },
        }
    }
}

/// The models of a sequence of operands.
pub open spec fn values_view(vs: Seq<Value>) -> Seq<ValueModel> {
    vs.map_values(|v: Value| v@)
}

fn parse_operands(components: &Vec<&str>, from: usize) -> (r: Result<Vec<Value>, Error>)
    requires
        from <= components.len(),
    ensures
        match r {
            Ok(vs) => operands_model(tokens_view(components@).subrange(from as int, components@.len() as int))
                == Ok::<Seq<ValueModel>, ErrorModel>(values_view(vs@)),
            Err(e) => operands_model(tokens_view(components@).subrange(from as int, components@.len() as int))
                == Err::<Seq<ValueModel>, ErrorModel>(e@),
        },
{
    let ghost toks = tokens_view(components@);
    let mut out: Vec<Value> = Vec::new();
    let mut i: usize = from;
    assert(values_view(out@) =~= Seq::empty());
    while i < components.len()
        invariant
            toks == tokens_view(components@),
            from <= i <= components.len(),
            operands_model(toks.subrange(from as int, i as int)) == Ok::<Seq<ValueModel>, ErrorModel>(values_view(out@)),
        decreases components.len() - i,
    {
        let ghost prev = toks.subrange(from as int, i as int);
        let ghost next = toks.subrange(from as int, i + 1);
        assert(next.drop_last() =~= prev);
        assert(next.last() == toks[i as int]);
        match parse_value(components[i]) {
            Err(e) => {
                proof {
                    lemma_operands_error_sticks(toks, from as int, i + 1, components.len() as int);
                }
                return Err(e);
            },
            Ok(v) => {
                let ghost before = out@;
                out.push(v);
                assert(values_view(out@) =~= values_view(before).push(v@));
            },
        }
        i = i + 1;
    }
    Ok(out)
}

/// Once a prefix of the operand tokens fails, every longer prefix fails the same way.
proof fn lemma_operands_error_sticks(toks: Seq<Seq<char>>, from: int, j: int, k: int)
    requires
        0 <= from <= j <= k <= toks.len(),
        operands_model(toks.subrange(from, j)) is Err,
    ensures
        operands_model(toks.subrange(from, k)) == operands_model(toks.subrange(from, j)),
    decreases k - j,
{
    if k > j {
        lemma_operands_error_sticks(toks, from, j, k - 1);
        assert(toks.subrange(from, k).drop_last() =~= toks.subrange(from, k - 1));
    }
}

fn take_last(vs: &mut Vec<Value>) -> (r: Value)
    requires
        old(vs).len() > 0,
    ensures
        final(vs)@ == old(vs)@.drop_last(),
        r == old(vs)@.last(),
{
    vs.pop().unwrap()
}

fn build_instruction(op: Opcode, vs: Vec<Value>) -> (r: Instruction)
    requires
        vs.len() == operand_count(op),
    ensures
        r@ == (InstrModel { op, operands: values_view(vs@) }),
{
    let ghost all = vs@;
    let mut vs = vs;
    match op {
        Opcode::Hlt => {
            assert(values_view(all) =~= seq![]);
            Instruction::Hlt
        },
        Opcode::Reti => {
            assert(values_view(all) =~= seq![]);
            Instruction::Reti
        },
        Opcode::Jmp | Opcode::Lvcd | Opcode::Lkbd => {
            let a = take_last(&mut vs);
            assert(values_view(all) =~= seq![a@]);
            match op {
                Opcode::Jmp => Instruction::Jmp(a),
                Opcode::Lvcd => Instruction::Lvcd(a),
                _ => Instruction::Lkbd(a),
            }
        },
        Opcode::Mov | Opcode::MovByte | Opcode::Jnz => {
            let b = take_last(&mut vs);
            let a = take_last(&mut vs);
            assert(values_view(all) =~= seq![a@, b@]);
            match op {
                Opcode::Mov => Instruction::Mov(a, b),
                Opcode::MovByte => Instruction::MovByte(a, b),
                _ => Instruction::Jnz(a, b),
            }
        },
        Opcode::Add | Opcode::And => {
            let c = take_last(&mut vs);
            let b = take_last(&mut vs);
            let a = take_last(&mut vs);
            assert(values_view(all) =~= seq![a@, b@, c@]);
            match op {
                Opcode::Add => Instruction::Add(a, b, c),
                _ => Instruction::And(a, b, c),
            }
        },
    }
}

/// The instruction that a line of tokens denotes, or the error it gives.
/// The mnemonic is looked up first, then the operand count is checked, then
/// the operands are parsed from left to right. `mov` with three operands is
/// the byte-wide move, whose first operand must be the word `byte`.
pub open spec fn instruction_model(toks: Seq<Seq<char>>) -> Result<LineModel, ErrorModel> {
    let k = (toks.len() - 1) as usize;
    match mnemonic_model(toks[0]) {
        None => Err(ErrorModel::UnknownStatement(toks[0], join_words(toks))),
        Some((op, n)) => if op == Opcode::Mov && k == 3 {
            if toks[1] == "byte"@ {
                match operands_model(toks.subrange(2, toks.len() as int)) {
                    Ok(vs) => Ok(LineModel::Instruction(InstrModel { op: Opcode::MovByte, operands: vs })),
                    Err(e) => Err(e),
                }
            } else {
                Err(ErrorModel::UnknownMovModifier(toks[1]))
            }
        } else if let Some(e) = arity_error(n, k) {
            Err(e)
        } else {
            match operands_model(toks.subrange(1, toks.len() as int)) {
                Ok(vs) => Ok(LineModel::Instruction(InstrModel { op, operands: vs })),
                Err(e) => Err(e),
            }
        },
    }
}

/// Whether `t` begins with `p`.
pub open spec fn starts_with(t: Seq<char>, p: Seq<char>) -> bool {
    p.len() <= t.len() && t.subrange(0, p.len() as int) == p
}

/// What a non-empty line of tokens denotes: a label when its first token
/// ends with a colon, a constant when it starts with `%define`, otherwise
/// an instruction.
pub open spec fn line_model(toks: Seq<Seq<char>>) -> Result<LineModel, ErrorModel> {
    if toks[0].len() > 0 && toks[0].last() == ':' {
        label_model(toks)
    } else if starts_with(toks[0], "%define"@) {
        define_model(toks)
    } else {
        instruction_model(toks)
    }
}

proof fn lemma_operands_len(ts: Seq<Seq<char>>)
    requires
        operands_model(ts) is Ok,
    ensures
        operands_model(ts)->Ok_0.len() == ts.len(),
    decreases ts.len(),
{
    if ts.len() > 0 {
        lemma_operands_len(ts.drop_last());
    }
}

fn parse_instruction(components: &Vec<&str>) -> (r: Result<Line, Error>)
    requires
        components.len() > 0,
    ensures
        result_view(r) == instruction_model(tokens_view(components@)),
{
    let ghost toks = tokens_view(components@);
    let k = components.len() - 1;
    let (op, n) = match mnemonic(components[0]) {
        None => {
            return Err(reached_unknown(components));
        },
        Some(found) => found,
    };
    let (op, from) = if op == Opcode::Mov && k == 3 {
        proof {
            reveal_strlit("byte");
        }
        if !same_text(components[1], "byte") {
            return Err(Error::UnknownMovModifier(components[1].to_owned()));
        }
        (Opcode::MovByte, 2)
    } else {
        match assert_components_len(n, k) {
            Err(e) => {
                return Err(e);
            },
            Ok(()) => {},
        }
        (op, 1)
    };
    match parse_operands(components, from) {
        Err(e) => Err(e),
        Ok(vs) => {
            proof {
                lemma_operands_len(toks.subrange(from as int, toks.len() as int));
            }
            Ok(Line::Instruction(build_instruction(op, vs)))
        },
    }
}

/// Parses one non-empty line of tokens into a directive or an instruction.
pub fn parse_line(components: Vec<&str>) -> (r: Result<Line, Error>)
    requires
        components.len() > 0,
    ensures
        result_view(r) == line_model(tokens_view(components@)),
{
    if last_is(components[0], ':') {
        return parse_label(&components);
    }
    if starts_with_text(components[0], "%define") {
        return parse_define(&components);
    }
    parse_instruction(&components)
}

} // verus!

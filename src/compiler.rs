//! The JAS assembler: source text to an IJVM image and its constant pool.
use crate::ijvm::{bytes_equal, command_named, lemma_command_named, IjvmCommand};
use crate::pool::{
    inserted, lookup, table_entries, table_entries_vec, table_get, table_insert, table_len,
    table_new, Table,
};
use crate::parser::is_mnemonic;
use crate::text::{
    all_digits, copy_bytes, digit_value, digits_value, parse_radix, split, tail_bytes, views,
};
use vstd::prelude::*;
use vstd::string::StringSliceAdditionalSpecFns;

verus! {

/// The word emitted where a forward reference is patched later.
pub const PLACEHOLDER: i32 = 0x00;

/// An assembled image: the constant pool and the byte stream, one byte per
/// word.
pub struct ProcessorInfo {
    pub constants: Vec<i32>,
    pub main_program: Vec<i32>,
}

/// Why source text does not assemble.
#[derive(Clone, Copy, Debug, PartialEq, Eq, Structural)]
pub enum CompileError {
    /// A branch names a label that its block does not define.
    UndefinedLabel,
    /// A variable instruction names neither a parameter nor a local.
    UndefinedVariable,
    /// A constant instruction names no declared constant.
    UndefinedConstant,
    /// An invocation names no method.
    UndefinedMethod,
    /// A token that starts with a digit is no number.
    MalformedNumber,
    /// An identifier follows a word that takes none.
    IdentifierNotAllowed,
    /// The blocks are not laid out as the grammar asks.
    Syntax,
    /// A resolved address does not fit in a word.
    ImageTooLarge,
}

/// What an identifier names, by the opcode before it.
#[allow(non_camel_case_types)]
#[derive(Clone, Copy, Debug, PartialEq, Eq, Structural)]
pub enum IdentifierRole {
    CONSTANT,
    LABEL,
    VARIABLE,
    METHOD,
}

/// The assembler's directives.
#[derive(Clone, Copy, Debug, PartialEq, Eq, Structural)]
pub enum Directive {
    Constant,
    EndConstant,
    Main,
    EndMain,
    Var,
    EndVar,
    Method,
    EndMethod,
}

impl Directive {
    /// The directive's text, as ASCII bytes.
    pub open spec fn text(self) -> Seq<u8> {
        match self {
            // .constant
            Directive::Constant => seq![46, 99, 111, 110, 115, 116, 97, 110, 116],
            // .end-constant
            Directive::EndConstant => seq![46, 101, 110, 100, 45, 99, 111, 110, 115, 116, 97, 110, 116],
            // .main
            Directive::Main => seq![46, 109, 97, 105, 110],
            // .end-main
            Directive::EndMain => seq![46, 101, 110, 100, 45, 109, 97, 105, 110],
            // .var
            Directive::Var => seq![46, 118, 97, 114],
            // .end-var
            Directive::EndVar => seq![46, 101, 110, 100, 45, 118, 97, 114],
            // .method
            Directive::Method => seq![46, 109, 101, 116, 104, 111, 100],
            // .end-method
            Directive::EndMethod => seq![46, 101, 110, 100, 45, 109, 101, 116, 104, 111, 100],
        }
    }

    pub fn text_bytes(&self) -> (r: Vec<u8>)
        ensures
            r@ == self.text(),
    {
        let r: Vec<u8> = match self {
            Directive::Constant => vec![46, 99, 111, 110, 115, 116, 97, 110, 116],
            Directive::EndConstant => vec![46, 101, 110, 100, 45, 99, 111, 110, 115, 116, 97, 110, 116],
            Directive::Main => vec![46, 109, 97, 105, 110],
            Directive::EndMain => vec![46, 101, 110, 100, 45, 109, 97, 105, 110],
            Directive::Var => vec![46, 118, 97, 114],
            Directive::EndVar => vec![46, 101, 110, 100, 45, 118, 97, 114],
            Directive::Method => vec![46, 109, 101, 116, 104, 111, 100],
            Directive::EndMethod => vec![46, 101, 110, 100, 45, 109, 101, 116, 104, 111, 100],
        };
        assert(r@ =~= self.text());
        r
    }

    /// `t` is this directive.
    pub fn matches(&self, t: &Vec<u8>) -> (r: bool)
        ensures
            r == (t@ == self.text()),
    {
        let text = self.text_bytes();
        bytes_equal(text.as_slice(), t.as_slice())
    }
}

/// Branches take a label; IINC, ILOAD and ISTORE a variable; LDC_W and
/// BIPUSH a constant; INVOKEVIRTUAL a method.
pub open spec fn role_of(previous: int) -> Option<IdentifierRole> {
    if previous == IjvmCommand::GOTO.spec_opcode() || previous == IjvmCommand::IFEQ.spec_opcode()
        || previous == IjvmCommand::IFLT.spec_opcode() {
        Some(IdentifierRole::LABEL)
    } else if previous == IjvmCommand::IINC.spec_opcode() || previous
        == IjvmCommand::ILOAD.spec_opcode() || previous == IjvmCommand::ISTORE.spec_opcode() {
        Some(IdentifierRole::VARIABLE)
    } else if previous == IjvmCommand::LDC_W.spec_opcode() || previous
        == IjvmCommand::BIPUSH.spec_opcode() {
        Some(IdentifierRole::CONSTANT)
    } else if previous == IjvmCommand::INVOKEVIRTUAL.spec_opcode() {
        Some(IdentifierRole::METHOD)
    } else {
        None
    }
}

pub fn identifier_role(previous_command: i32) -> (r: Option<IdentifierRole>)
    ensures
        r == role_of(previous_command as int),
{
    if previous_command == IjvmCommand::GOTO.opcode() || previous_command
        == IjvmCommand::IFEQ.opcode() || previous_command == IjvmCommand::IFLT.opcode() {
        Some(IdentifierRole::LABEL)
    } else if previous_command == IjvmCommand::IINC.opcode() || previous_command
        == IjvmCommand::ILOAD.opcode() || previous_command == IjvmCommand::ISTORE.opcode() {
        Some(IdentifierRole::VARIABLE)
    } else if previous_command == IjvmCommand::LDC_W.opcode() || previous_command
        == IjvmCommand::BIPUSH.opcode() {
        Some(IdentifierRole::CONSTANT)
    } else if previous_command == IjvmCommand::INVOKEVIRTUAL.opcode() {
        Some(IdentifierRole::METHOD)
    } else {
        None
    }
}

/// `i` is the first position of `n` in `names`.
pub open spec fn is_first(names: Seq<Seq<u8>>, n: Seq<u8>, i: int) -> bool {
    0 <= i < names.len() && names[i] == n && forall|j: int| 0 <= j < i ==> names[j] != n
}

/// `n` is not among `names`.
pub open spec fn absent(names: Seq<Seq<u8>>, n: Seq<u8>) -> bool {
    forall|j: int| 0 <= j < names.len() ==> names[j] != n
}

/// The first position of `n` in `names`, if any.
pub open spec fn first_index(names: Seq<Seq<u8>>, n: Seq<u8>) -> Option<int> {
    if exists|i: int| is_first(names, n, i) {
        Some(choose|i: int| is_first(names, n, i))
    } else {
        None
    }
}

/// The slot of variable `n`: its first position among the parameters, or
/// else the parameter count plus its first position among the locals.
pub open spec fn var_slot(params: Seq<Seq<u8>>, vars: Seq<Seq<u8>>, n: Seq<u8>) -> Option<int> {
    match first_index(params, n) {
        Some(i) => Some(i),
        None => match first_index(vars, n) {
            Some(j) => Some(j + params.len()),
            None => None,
        },
    }
}

proof fn lemma_first_index(names: Seq<Seq<u8>>, n: Seq<u8>, i: int)
    requires
        is_first(names, n, i),
    ensures
        first_index(names, n) == Some(i),
{
    let c = choose|c: int| is_first(names, n, c);
    assert(is_first(names, n, c));
    if c < i {
        assert(names[c] != n);
    } else if i < c {
        assert(names[i] != n);
    }
}

/// The first position of `name` in `names`.
pub fn find_name(names: &Vec<Vec<u8>>, name: &Vec<u8>) -> (r: Option<usize>)
    ensures
        r matches Some(i) ==> is_first(views(names@), name@, i as int),
        r is None ==> absent(views(names@), name@),
        r matches Some(i) ==> first_index(views(names@), name@) == Some(i as int),
        r is None ==> first_index(views(names@), name@) is None,
{
    let mut i: usize = 0;
    while i < names.len()
        invariant
            i <= names@.len(),
            forall|j: int| 0 <= j < i ==> views(names@)[j] != name@,
        decreases names@.len() - i,
    {
        if bytes_equal(names[i].as_slice(), name.as_slice()) {
            proof {
                lemma_first_index(views(names@), name@, i as int);
            }
            return Some(i);
        }
        i += 1;
    }
    None
}

/// The slot of a variable: parameters first, numbered from 0, then locals.
pub fn variable_index(parameters: &Vec<Vec<u8>>, variables: &Vec<Vec<u8>>, name: &Vec<u8>) -> (r: Option<i32>)
    requires
        parameters@.len() + variables@.len() <= i32::MAX,
    ensures
        r is None <==> absent(views(parameters@), name@) && absent(views(variables@), name@),
        r matches Some(v) ==> is_first(views(parameters@), name@, v as int) || (absent(
            views(parameters@),
            name@,
        ) && is_first(views(variables@), name@, v - parameters@.len())),
        r matches Some(v) ==> var_slot(views(parameters@), views(variables@), name@) == Some(
            v as int,
        ),
        r is None ==> var_slot(views(parameters@), views(variables@), name@) is None,
{
    assert(views(parameters@).len() == parameters@.len());
    match find_name(parameters, name) {
        Some(t) => Some(t as i32),
        None => match find_name(variables, name) {
            Some(t) => Some((t + parameters.len()) as i32),
            None => None,
        },
    }
}

/// Radix and first digit of a number token: `0x` hexadecimal, `0b` binary,
/// a leading `0` octal, decimal otherwise.
pub open spec fn number_format(t: Seq<u8>) -> (int, int) {
    if t.len() >= 2 && t[0] == 48 && t[1] == 120 {
        (16, 2)
    } else if t.len() >= 2 && t[0] == 48 && t[1] == 98 {
        (2, 2)
    } else if t.len() >= 2 && t[0] == 48 {
        (8, 1)
    } else {
        (10, 0)
    }
}

/// The value of a number token, if it is one that fits in `i32`.
pub open spec fn number_value(t: Seq<u8>) -> Option<int> {
    let (radix, start) = number_format(t);
    let d = t.subrange(start, t.len() as int);
    if d.len() > 0 && all_digits(d, radix) && digits_value(d, radix) <= i32::MAX {
        Some(digits_value(d, radix))
    } else {
        None
    }
}

pub fn parse_number(t: &Vec<u8>) -> (r: Option<i32>)
    ensures
        r matches Some(v) ==> number_value(t@) == Some(v as int),
        r is None ==> number_value(t@) is None,
{
    let (radix, start): (u32, usize) = if t.len() >= 2 && t[0] == 48 && t[1] == 120 {
        (16, 2)
    } else if t.len() >= 2 && t[0] == 48 && t[1] == 98 {
        (2, 2)
    } else if t.len() >= 2 && t[0] == 48 {
        (8, 1)
    } else {
        (10, 0)
    };
    let digits = tail_bytes(t, start);
    parse_radix(digits.as_slice(), radix)
}

/// The value of a constant declaration: decimal digits after an optional
/// sign.
pub open spec fn declared_value(t: Seq<u8>) -> Option<int> {
    let neg = t.len() > 0 && t[0] == 45;
    let start = if t.len() > 0 && (t[0] == 45 || t[0] == 43) {
        1int
    } else {
        0int
    };
    let d = t.subrange(start, t.len() as int);
    if d.len() > 0 && all_digits(d, 10) && digits_value(d, 10) <= i32::MAX {
        Some(
            if neg {
                -digits_value(d, 10)
            } else {
                digits_value(d, 10)
            },
        )
    } else {
        None
    }
}

pub fn parse_declared_value(t: &Vec<u8>) -> (r: Option<i32>)
    ensures
        r matches Some(v) ==> declared_value(t@) == Some(v as int),
        r is None ==> declared_value(t@) is None,
{
    let neg = t.len() > 0 && t[0] == 45;
    let start: usize = if t.len() > 0 && (t[0] == 45 || t[0] == 43) {
        1
    } else {
        0
    };
    let digits = tail_bytes(t, start);
    match parse_radix(digits.as_slice(), 10) {
        Some(v) => Some(
            if neg {
                -v
            } else {
                v
            },
        ),
        None => None,
    }
}

/// Where the label `name` stands: its last definition.
pub open spec fn label_at(labels: Seq<(Seq<u8>, int)>, name: Seq<u8>) -> Option<int>
    decreases labels.len(),
{
    if labels.len() == 0 {
        None
    } else if labels.last().0 == name {
        Some(labels.last().1)
    } else {
        label_at(labels.drop_last(), name)
    }
}

/// `name` is defined, and its position plus `offset` fits in a word.
pub open spec fn resolvable(labels: Seq<(Seq<u8>, int)>, name: Seq<u8>, offset: int) -> bool {
    match label_at(labels, name) {
        Some(p) => p + offset <= i32::MAX,
        None => false,
    }
}

/// The first label reference from `k` on that does not resolve: undefined,
/// or too far for a word.
pub open spec fn ref_failure(
    labels: Seq<(Seq<u8>, int)>,
    refs: Seq<(int, Seq<u8>)>,
    offset: int,
    k: int,
) -> Option<CompileError>
    decreases refs.len() - k,
{
    if k < 0 || k >= refs.len() {
        None
    } else {
        match label_at(labels, refs[k].1) {
            None => Some(CompileError::UndefinedLabel),
            Some(p) => if p + offset > i32::MAX {
                Some(CompileError::ImageTooLarge)
            } else {
                ref_failure(labels, refs, offset, k + 1)
            },
        }
    }
}

/// Label definitions as names and positions.
pub open spec fn label_view(labels: Seq<(Vec<u8>, usize)>) -> Seq<(Seq<u8>, int)> {
    Seq::new(labels.len(), |i: int| (labels[i].0@, labels[i].1 as int))
}

fn find_label(labels: &Vec<(Vec<u8>, usize)>, name: &Vec<u8>) -> (r: Option<usize>)
    ensures
        r matches Some(p) ==> label_at(label_view(labels@), name@) == Some(p as int),
        r is None ==> label_at(label_view(labels@), name@) is None,
{
    let mut i: usize = labels.len();
    assert(labels@.subrange(0, labels@.len() as int) =~= labels@);
    while i > 0
        invariant
            i <= labels@.len(),
            label_at(label_view(labels@), name@) == label_at(label_view(labels@.subrange(0, i as int)), name@),
        decreases i,
    {
        let ghost prefix = labels@.subrange(0, i as int);
        assert(label_view(prefix).drop_last() =~= label_view(labels@.subrange(0, i - 1)));
        if bytes_equal(labels[i - 1].0.as_slice(), name.as_slice()) {
            return Some(labels[i - 1].1);
        }
        i -= 1;
    }
    assert(label_view(labels@.subrange(0, 0)) =~= Seq::<(Seq<u8>, int)>::empty());
    None
}

/// Backpatches label references: each reference slot gets the position of
/// its label's definition (the labelled instruction) plus the loader's
/// program start offset.
pub fn resolve_labels(
    main_program: &mut Vec<i32>,
    label_positions: &Vec<(usize, Vec<u8>)>,
    labels: &Vec<(Vec<u8>, usize)>,
    program_start_offset: u32,
) -> (r: Result<(), CompileError>)
    requires
        forall|k: int|
            0 <= k < label_positions@.len() ==> #[trigger] label_positions@[k].0 < old(main_program)@.len(),
        forall|k: int, l: int|
            0 <= k < l < label_positions@.len() ==> #[trigger] label_positions@[k].0
                < #[trigger] label_positions@[l].0,
    ensures
        final(main_program)@.len() == old(main_program)@.len(),
        r is Ok <==> forall|k: int|
            0 <= k < label_positions@.len() ==> #[trigger] resolvable(
                label_view(labels@),
                label_positions@[k].1@,
                program_start_offset as int,
            ),
        r is Ok ==> forall|k: int|
            0 <= k < label_positions@.len() ==> final(main_program)@[#[trigger] label_positions@[k].0 as int]
                == label_at(label_view(labels@), label_positions@[k].1@).unwrap()
                + program_start_offset,
        forall|i: int|
            0 <= i < old(main_program)@.len() && (forall|k: int|
                0 <= k < label_positions@.len() ==> #[trigger] label_positions@[k].0 != i)
                ==> final(main_program)@[i] == old(main_program)@[i],
        r is Err ==> r == Err::<(), CompileError>(CompileError::UndefinedLabel) || r == Err::<
            (),
            CompileError,
        >(CompileError::ImageTooLarge),
        r matches Err(e) ==> ref_failure(
            label_view(labels@),
            pair_view(label_positions@),
            program_start_offset as int,
            0,
        ) == Some(e),
        r is Ok ==> ref_failure(
            label_view(labels@),
            pair_view(label_positions@),
            program_start_offset as int,
            0,
        ) is None,
{
    let ghost lv = label_view(labels@);
    let ghost pv = pair_view(label_positions@);
    let mut k: usize = 0;
    while k < label_positions.len()
        invariant
            k <= label_positions@.len(),
            main_program@.len() == old(main_program)@.len(),
            forall|j: int|
                0 <= j < label_positions@.len() ==> #[trigger] label_positions@[j].0
                    < main_program@.len(),
            forall|j: int, l: int|
                0 <= j < l < label_positions@.len() ==> #[trigger] label_positions@[j].0
                    < #[trigger] label_positions@[l].0,
            forall|j: int|
                0 <= j < k ==> #[trigger] resolvable(
                    label_view(labels@),
                    label_positions@[j].1@,
                    program_start_offset as int,
                ),
            forall|j: int|
                0 <= j < k ==> main_program@[#[trigger] label_positions@[j].0 as int] == label_at(
                    label_view(labels@),
                    label_positions@[j].1@,
                ).unwrap() + program_start_offset,
            forall|i: int|
                0 <= i < old(main_program)@.len() && (forall|j: int|
                    0 <= j < k ==> #[trigger] label_positions@[j].0 != i) ==> main_program@[i]
                    == old(main_program)@[i],
            lv == label_view(labels@),
            pv == pair_view(label_positions@),
            ref_failure(lv, pv, program_start_offset as int, 0) == ref_failure(
                lv,
                pv,
                program_start_offset as int,
                k as int,
            ),
        decreases label_positions@.len() - k,
    {
        let slot = label_positions[k].0;
        assert(pv[k as int] == (label_positions@[k as int].0 as int, label_positions@[k as int].1@));
        match find_label(labels, &label_positions[k].1) {
            Some(p) => {
                if p > 0x7fff_ffff || program_start_offset as usize > 0x7fff_ffff - p {
                    assert(!resolvable(
                        label_view(labels@),
                        label_positions@[k as int].1@,
                        program_start_offset as int,
                    ));
                    return Err(CompileError::ImageTooLarge);
                }
                main_program.set(slot, (p + program_start_offset as usize) as i32);
            },
            None => {
                assert(!resolvable(
                    label_view(labels@),
                    label_positions@[k as int].1@,
                    program_start_offset as int,
                ));
                return Err(CompileError::UndefinedLabel);
            },
        }
        k += 1;
    }
    assert(ref_failure(lv, pv, program_start_offset as int, k as int) is None);
    Ok(())
}

/// The name that a label definition defines.
fn label_name(t: &Vec<u8>) -> (r: Vec<u8>)
    requires
        t@.len() >= 1,
    ensures
        r@ == t@.subrange(0, t@.len() - 1),
{
    let mut r: Vec<u8> = Vec::new();
    let mut i: usize = 0;
    while i < t.len() - 1
        invariant
            i < t@.len(),
            r@ == t@.subrange(0, i as int),
        decreases t@.len() - i,
    {
        r.push(t[i]);
        assert(r@ =~= t@.subrange(0, i + 1));
        i += 1;
    }
    r
}

/// The names of a `.var` block that starts at `start`, and the position
/// after its `.end-var`.
pub fn process_variables(tokens: &Vec<Vec<u8>>, start: usize) -> (r: Result<(Vec<Vec<u8>>, usize), CompileError>)
    requires
        start < tokens@.len(),
        tokens@[start as int]@ == Directive::Var.text(),
    ensures
        r matches Ok((vars, next)) ==> start < next <= tokens@.len() && vars@.len() < next - start
            && tokens@[next - 1]@ == Directive::EndVar.text() && views(vars@) == views(
            tokens@.subrange(start + 1, next - 1),
        ) && forall|j: int| start < j < next - 1 ==> (#[trigger] tokens@[j])@ != Directive::EndVar.text(),
        r is Ok <==> exists|e: int|
            start < e < tokens@.len() && (#[trigger] tokens@[e])@ == Directive::EndVar.text(),
        r is Err ==> r == Err::<(Vec<Vec<u8>>, usize), CompileError>(CompileError::Syntax),
{
    let mut vars: Vec<Vec<u8>> = Vec::new();
    let n = tokens.len();
    assert(start < n);
    let mut x: usize = start + 1;
    while x < tokens.len() && !Directive::EndVar.matches(&tokens[x])
        invariant
            start < x <= tokens@.len(),
            views(vars@) == views(tokens@.subrange(start + 1, x as int)),
            vars@.len() == x - start - 1,
            forall|j: int| start < j < x ==> (#[trigger] tokens@[j])@ != Directive::EndVar.text(),
        decreases tokens@.len() - x,
    {
        let ghost old_vars = vars@;
        vars.push(copy_bytes(&tokens[x]));
        assert(vars@.last()@ == tokens@[x as int]@);
        assert forall|j: int| 0 <= j < vars@.len() implies #[trigger] views(vars@)[j] == views(
            tokens@.subrange(start + 1, x + 1),
        )[j] by {
            if j < old_vars.len() {
                assert(vars@[j] == old_vars[j]);
                assert(views(old_vars)[j] == views(tokens@.subrange(start + 1, x as int))[j]);
            }
        }
        assert(views(vars@) =~= views(tokens@.subrange(start + 1, x + 1)));
        x += 1;
    }
    if x >= tokens.len() {
        return Err(CompileError::Syntax);
    }
    Ok((vars, x + 1))
}

/// Token `j` of a parameter list opened at `start`: a name (neither `,` nor
/// `)`) at even distance from the `(`'s successor, a `,` at odd distance.
pub open spec fn list_token_ok(toks: Seq<Seq<u8>>, start: int, j: int) -> bool {
    if (j - start - 1) % 2 == 0 {
        toks[j] != seq![44u8] && toks[j] != seq![41u8]
    } else {
        toks[j] == seq![44u8]
    }
}

/// Tokens `start..=close` are `(`, names separated by `,`, and `)`.
pub open spec fn parameter_list(toks: Seq<Seq<u8>>, start: int, close: int) -> bool {
    &&& 0 <= start < close < toks.len()
    &&& toks[start] == seq![40u8]
    &&& toks[close] == seq![41u8]
    &&& (close == start + 1 || (close - start) % 2 == 0)
    &&& forall|j: int| start < j < close ==> #[trigger] list_token_ok(toks, start, j)
}

proof fn lemma_punct_distinct()
    ensures
        seq![44u8] != seq![41u8],
        seq![40u8] != seq![41u8],
{
    assert(seq![44u8][0] != seq![41u8][0]);
    assert(seq![40u8][0] != seq![41u8][0]);
}

/// The names of a parameter list whose `(` is token `start`, up to token `x`.
pub open spec fn parameter_names(toks: Seq<Seq<u8>>, start: int, x: int) -> Seq<Seq<u8>> {
    Seq::new(((x - start) / 2) as nat, |i: int| toks[start + 1 + 2 * i])
}

/// The parameter names of `( a , b , ... )` that starts at `start`, and the
/// position after the `)`.
pub fn process_parameters(tokens: &Vec<Vec<u8>>, start: usize) -> (r: Result<(Vec<Vec<u8>>, usize), CompileError>)
    ensures
        r is Ok <==> exists|close: int| #[trigger] parameter_list(views(tokens@), start as int, close),
        r matches Ok((params, next)) ==> start < next <= tokens@.len() && parameter_list(
            views(tokens@),
            start as int,
            next - 1,
        ) && views(params@) == parameter_names(views(tokens@), start as int, next - 1),
        r is Err ==> r == Err::<(Vec<Vec<u8>>, usize), CompileError>(CompileError::Syntax),
{
    let ghost toks = views(tokens@);
    if start >= tokens.len() || !is_punct_token(&tokens[start], 40) {
        proof {
            if start < tokens@.len() {
                assert(toks[start as int] == tokens@[start as int]@);
            }
        }
        return Err(CompileError::Syntax);
    }
    assert(toks[start as int] == seq![40u8]);
    let mut params: Vec<Vec<u8>> = Vec::new();
    let mut x: usize = start + 1;
    let mut expect_name = true;
    let mut closing = x < tokens.len() && is_punct_token(&tokens[x], 41);
    while x < tokens.len() && !closing
        invariant
            closing == (x < tokens@.len() && tokens@[x as int]@ == seq![41u8]),
            start < x <= tokens@.len(),
            toks == views(tokens@),
            toks[start as int] == seq![40u8],
            expect_name == ((x - start - 1) % 2 == 0),
            forall|j: int| start < j < x ==> #[trigger] list_token_ok(toks, start as int, j),
            views(params@) == parameter_names(toks, start as int, x as int),
        decreases tokens@.len() - x,
    {
        assert(toks[x as int] == tokens@[x as int]@);
        if is_punct_token(&tokens[x], 44) {
            if expect_name {
                assert forall|c: int| #[trigger] parameter_list(toks, start as int, c) implies false by {
            lemma_punct_distinct();
                    if c > x {
                        assert(list_token_ok(toks, start as int, x as int));
                    } else if start < c < x {
                        assert(list_token_ok(toks, start as int, c));
                    }
                }
                return Err(CompileError::Syntax);
            }
            expect_name = true;
        } else {
            if !expect_name {
                assert forall|c: int| #[trigger] parameter_list(toks, start as int, c) implies false by {
            lemma_punct_distinct();
                    if c > x {
                        assert(list_token_ok(toks, start as int, x as int));
                    } else if start < c < x {
                        assert(list_token_ok(toks, start as int, c));
                    }
                }
                return Err(CompileError::Syntax);
            }
            let ghost before = params@;
            params.push(copy_bytes(&tokens[x]));
            proof {
                let k = (x - start - 1) / 2;
                assert(x - start - 1 == 2 * k);
                assert((x - start) / 2 == k);
                assert(start + 1 + 2 * k == x);
                assert(views(before).len() == before.len());
                assert(parameter_names(toks, start as int, x as int).len() == k);
                assert(before.len() == k);
                assert forall|i: int| 0 <= i < params@.len() implies #[trigger] views(params@)[i]
                    == parameter_names(toks, start as int, x + 1)[i] by {
                    if i < before.len() {
                        assert(params@[i] == before[i]);
                        assert(views(before)[i] == parameter_names(toks, start as int, x as int)[i]);
                    }
                }
                assert(views(params@) =~= parameter_names(toks, start as int, x + 1));
            }
            expect_name = false;
        }
        proof {
            assert(list_token_ok(toks, start as int, x as int));
            if !expect_name {
                assert(parameter_names(toks, start as int, x + 1) =~= parameter_names(toks, start as int, x as int).push(toks[x as int]));
            } else {
                assert(parameter_names(toks, start as int, x + 1) =~= parameter_names(toks, start as int, x as int));
            }
        }
        x += 1;
        closing = x < tokens.len() && is_punct_token(&tokens[x], 41);
    }
    if x >= tokens.len() || (expect_name && params.len() > 0) {
        assert forall|c: int| #[trigger] parameter_list(toks, start as int, c) implies false by {
            lemma_punct_distinct();
            if c > x && x < tokens@.len() {
                assert(list_token_ok(toks, start as int, x as int));
            } else if start < c < x {
                assert(list_token_ok(toks, start as int, c));
            }
        }
        return Err(CompileError::Syntax);
    }
    assert(toks[x as int] == tokens@[x as int]@);
    assert(parameter_list(toks, start as int, x as int));
    Ok((params, x + 1))
}

/// `t` is the one-byte token `c`.
fn is_punct_token(t: &Vec<u8>, c: u8) -> (r: bool)
    ensures
        r == (t@ == seq![c]),
{
    let r = t.len() == 1 && t[0] == c;
    proof {
        if t@.len() == 1 && t@[0] == c {
            assert(t@ =~= seq![c]);
        }
    }
    r
}

/// A body token that stands for one word by itself: a mnemonic, or a
/// number token.
pub open spec fn is_plain(t: Seq<u8>) -> bool {
    is_mnemonic(t) || (t.len() > 0 && 48 <= t[0] <= 57 && number_value(t) is Some)
}

/// `w` is the word that the plain token `t` stands for.
pub open spec fn plain_word(t: Seq<u8>, w: int) -> bool {
    if is_mnemonic(t) {
        exists|c: IjvmCommand| #[trigger] c.mnemonic() == t && w == c.spec_opcode()
    } else {
        number_value(t) == Some(w)
    }
}

/// Tokens `start..e` are plain and token `e` closes the block with `end`.
pub open spec fn plain_block(toks: Seq<Seq<u8>>, start: int, e: int, end: Directive) -> bool {
    &&& 0 <= start <= e < toks.len()
    &&& toks[e] == end.text()
    &&& forall|i: int| start <= i < e ==> is_plain(#[trigger] toks[i])
}

proof fn lemma_plain_not_directive(t: Seq<u8>, d: Directive)
    requires
        is_plain(t),
    ensures
        t != d.text(),
{
    if is_mnemonic(t) {
        let c = choose|c: IjvmCommand| #[trigger] c.mnemonic() == t;
        assert(c.mnemonic()[0] != 46) by {
            match c {
                _ => {},
            }
        }
        assert(d.text()[0] == 46);
    } else {
        assert(d.text()[0] == 46);
    }
}

/// A number token does not end in `:`.
proof fn lemma_number_not_label(t: Seq<u8>)
    requires
        number_value(t) is Some,
    ensures
        !(t.len() >= 2 && t.last() == 58),
{
    let (radix, start) = number_format(t);
    let d = t.subrange(start, t.len() as int);
    if t.len() >= 2 && t.last() == 58 {
        assert(d[d.len() - 1] == t.last());
        assert(digit_value(d[d.len() - 1]) < radix);
    }
}

proof fn lemma_plain_block_unique(toks: Seq<Seq<u8>>, start: int, e1: int, e2: int, end: Directive)
    requires
        plain_block(toks, start, e1, end),
        plain_block(toks, start, e2, end),
    ensures
        e1 == e2,
{
    if e1 < e2 {
        lemma_plain_not_directive(toks[e1], end);
    } else if e2 < e1 {
        lemma_plain_not_directive(toks[e2], end);
    }
}

/// What a block body has produced after some of its tokens: its words,
/// the labels it defined (name, position), its label references (slot,
/// name), its method references (slot, name), and the first error, if any.
pub struct BodyScan {
    pub words: Seq<i32>,
    pub labels: Seq<(Seq<u8>, int)>,
    pub refs: Seq<(int, Seq<u8>)>,
    pub calls: Seq<(int, Seq<u8>)>,
    pub error: Option<CompileError>,
}

/// What a body is read against: where its words start in the image, the
/// word before them, the constant pool, and the parameter and local names.
pub struct BodyContext {
    pub base: int,
    pub prev: Option<i32>,
    pub consts: Seq<(Seq<u8>, i32)>,
    pub params: Seq<Seq<u8>>,
    pub vars: Seq<Seq<u8>>,
}

/// Nothing read yet.
pub open spec fn empty_scan() -> BodyScan {
    BodyScan {
        words: Seq::empty(),
        labels: Seq::empty(),
        refs: Seq::empty(),
        calls: Seq::empty(),
        error: None,
    }
}

/// `st` with word `w` appended.
pub open spec fn with_word(st: BodyScan, w: i32) -> BodyScan {
    BodyScan { words: st.words.push(w), ..st }
}

/// `st` failed with `e`.
pub open spec fn with_error(st: BodyScan, e: CompileError) -> BodyScan {
    BodyScan { error: Some(e), ..st }
}

/// One body token read: a mnemonic gives its opcode; `name:` defines a label
/// at the current position; a token starting with a digit gives its value
/// (or fails as malformed); a directive or punctuation fails; any other
/// token is an identifier whose meaning the word before it decides: a
/// constant's value, a label reference (a placeholder, resolved at the end),
/// a variable's slot, or a method reference (a zero byte and a
/// placeholder, patched later).
pub open spec fn scan_step(st: BodyScan, t: Seq<u8>, cx: BodyContext) -> BodyScan {
    let pos = cx.base + st.words.len();
    if command_named(t) is Some {
        with_word(st, command_named(t).unwrap().spec_opcode() as i32)
    } else if t.len() >= 2 && t.last() == 58 {
        BodyScan { labels: st.labels.push((t.subrange(0, t.len() - 1), pos)), ..st }
    } else if t.len() > 0 && 48 <= t[0] <= 57 {
        match number_value(t) {
            Some(v) => with_word(st, v as i32),
            None => with_error(st, CompileError::MalformedNumber),
        }
    } else if t.len() == 0 || t[0] == 46 || t[0] == 40 || t[0] == 41 || t[0] == 44 {
        with_error(st, CompileError::Syntax)
    } else {
        let prev = if st.words.len() > 0 {
            Some(st.words.last())
        } else {
            cx.prev
        };
        match prev {
            None => with_error(st, CompileError::IdentifierNotAllowed),
            Some(p) => match role_of(p as int) {
                Some(IdentifierRole::CONSTANT) => match lookup(cx.consts, t) {
                    Some(v) => with_word(st, v),
                    None => with_error(st, CompileError::UndefinedConstant),
                },
                Some(IdentifierRole::LABEL) => BodyScan {
                    words: st.words.push(PLACEHOLDER),
                    refs: st.refs.push((pos, t)),
                    ..st
                },
                Some(IdentifierRole::VARIABLE) => match var_slot(cx.params, cx.vars, t) {
                    Some(v) => with_word(st, v as i32),
                    None => with_error(st, CompileError::UndefinedVariable),
                },
                Some(IdentifierRole::METHOD) => BodyScan {
                    words: st.words.push(0).push(PLACEHOLDER),
                    calls: st.calls.push((pos + 1, t)),
                    ..st
                },
                None => with_error(st, CompileError::IdentifierNotAllowed),
            },
        }
    }
}

/// The body read from token `start` up to token `x`, stopping at the first
/// error.
pub open spec fn body_scan(toks: Seq<Seq<u8>>, start: int, x: int, cx: BodyContext) -> BodyScan
    decreases x - start,
{
    if x <= start {
        empty_scan()
    } else {
        let st = body_scan(toks, start, x - 1, cx);
        if st.error is Some {
            st
        } else {
            scan_step(st, toks[x - 1], cx)
        }
    }
}

/// The first token at or after `i` equal to `w`.
pub open spec fn first_at(toks: Seq<Seq<u8>>, i: int, w: Seq<u8>) -> Option<int>
    decreases toks.len() - i,
{
    if i < 0 || i >= toks.len() {
        None
    } else if toks[i] == w {
        Some(i)
    } else {
        first_at(toks, i + 1, w)
    }
}

/// Where a body read from `start` stops: at its closing directive, or at the
/// end of the tokens.
pub open spec fn body_stop(toks: Seq<Seq<u8>>, start: int, end: Directive) -> int {
    match first_at(toks, start, end.text()) {
        Some(e) => e,
        None => toks.len() as int,
    }
}

/// The body that starts at `start` and is closed by `end`, read in full.
pub open spec fn scan_of(toks: Seq<Seq<u8>>, start: int, end: Directive, cx: BodyContext) -> BodyScan {
    body_scan(toks, start, body_stop(toks, start, end), cx)
}

/// Image word `w` at body index `i` after label resolution: the referenced
/// label's position plus `offset` where a label reference sits, the word
/// read otherwise.
pub open spec fn filled_word(st: BodyScan, base: int, offset: int, i: int, w: i32) -> bool {
    if exists|k: int| 0 <= k < st.refs.len() && (#[trigger] st.refs[k]).0 == base + i {
        exists|k: int|
            0 <= k < st.refs.len() && (#[trigger] st.refs[k]).0 == base + i && w == label_at(
                st.labels,
                st.refs[k].1,
            ).unwrap() + offset
    } else {
        w == st.words[i]
    }
}

/// The body's words after label resolution (see `filled_word`).
pub open spec fn filled_words(st: BodyScan, base: int, offset: int) -> Seq<i32> {
    Seq::new(
        st.words.len(),
        |i: int|
            if exists|k: int| 0 <= k < st.refs.len() && (#[trigger] st.refs[k]).0 == base + i {
                (label_at(
                    st.labels,
                    st.refs[choose|k: int|
                        0 <= k < st.refs.len() && (#[trigger] st.refs[k]).0 == base + i].1,
                ).unwrap() + offset) as i32
            } else {
                st.words[i]
            },
    )
}

/// What reading the body at `start` closed by `end` gives: the position
/// after `end`, the body's words, and its method references; or the error.
pub open spec fn body_outcome(
    toks: Seq<Seq<u8>>,
    start: int,
    end: Directive,
    cx: BodyContext,
    offset: int,
) -> Result<(int, Seq<i32>, Seq<(int, Seq<u8>)>), CompileError> {
    let st = scan_of(toks, start, end, cx);
    match st.error {
        Some(e) => Err(e),
        None => match first_at(toks, start, end.text()) {
            None => Err(CompileError::Syntax),
            Some(e) => match ref_failure(st.labels, st.refs, offset, 0) {
                Some(err) => Err(err),
                None => Ok((e + 1, filled_words(st, cx.base, offset), st.calls)),
            },
        },
    }
}

/// A body that reads ends after its start and within the tokens.
proof fn lemma_body_outcome_next(toks: Seq<Seq<u8>>, start: int, end: Directive, cx: BodyContext, offset: int)
    requires
        0 <= start,
    ensures
        body_outcome(toks, start, end, cx, offset) matches Ok((next, w, c)) ==> start < next <= toks.len(),
{
    lemma_first_at(toks, start, end.text());
}

/// Every label reference names a label whose position plus `offset` fits.
pub open spec fn refs_resolvable(st: BodyScan, offset: int) -> bool {
    forall|k: int| 0 <= k < st.refs.len() ==> #[trigger] resolvable(st.labels, st.refs[k].1, offset)
}

/// Slot-and-name pairs as positions and names.
pub open spec fn pair_view(v: Seq<(usize, Vec<u8>)>) -> Seq<(int, Seq<u8>)> {
    Seq::new(v.len(), |i: int| (v[i].0 as int, v[i].1@))
}

/// The context of a body read into `main` with these tables and names.
pub open spec fn body_context(
    main: Seq<i32>,
    constants: Table,
    parameters: Seq<Vec<u8>>,
    variables: Seq<Vec<u8>>,
) -> BodyContext {
    BodyContext {
        base: main.len() as int,
        prev: if main.len() > 0 {
            Some(main.last())
        } else {
            None
        },
        consts: table_entries(constants),
        params: views(parameters),
        vars: views(variables),
    }
}

proof fn lemma_first_at(toks: Seq<Seq<u8>>, i: int, w: Seq<u8>)
    requires
        0 <= i,
    ensures
        first_at(toks, i, w) matches Some(e) ==> i <= e < toks.len() && toks[e] == w && forall|
            j: int,
        | i <= j < e ==> toks[j] != w,
        first_at(toks, i, w) is None ==> forall|j: int| i <= j < toks.len() ==> toks[j] != w,
    decreases toks.len() - i,
{
    if 0 <= i < toks.len() && toks[i] != w {
        lemma_first_at(toks, i + 1, w);
        if first_at(toks, i, w) is Some {
            let e = first_at(toks, i, w).unwrap();
            assert forall|j: int| i <= j < e implies toks[j] != w by {
                if j > i {
                }
            }
        }
    }
}

proof fn lemma_error_sticks(toks: Seq<Seq<u8>>, start: int, x: int, y: int, cx: BodyContext)
    requires
        start <= x <= y,
        body_scan(toks, start, x, cx).error is Some,
    ensures
        body_scan(toks, start, y, cx) == body_scan(toks, start, x, cx),
    decreases y - x,
{
    if x < y {
        lemma_error_sticks(toks, start, x, y - 1, cx);
    }
}

/// A plain block closes at its `end`, and reads without error.
proof fn lemma_plain_block_scan(toks: Seq<Seq<u8>>, start: int, e: int, end: Directive, cx: BodyContext)
    requires
        plain_block(toks, start, e, end),
    ensures
        first_at(toks, start, end.text()) == Some(e),
        body_stop(toks, start, end) == e,
        scan_of(toks, start, end, cx).error is None,
{
    lemma_first_at(toks, start, end.text());
    if first_at(toks, start, end.text()) is Some {
        let f = first_at(toks, start, end.text()).unwrap();
        if f < e {
            lemma_plain_not_directive(toks[f], end);
        } else if e < f {
            assert(toks[e] == end.text());
        }
    } else {
        assert(toks[e] == end.text());
    }
    lemma_plain_scan(toks, start, e, cx);
}

/// A body that fails, or has no `end`, is no plain block.
proof fn lemma_no_plain_block(toks: Seq<Seq<u8>>, start: int, end: Directive, cx: BodyContext)
    requires
        0 <= start,
        scan_of(toks, start, end, cx).error is Some || first_at(toks, start, end.text()) is None,
    ensures
        forall|e: int| !#[trigger] plain_block(toks, start, e, end),
{
    assert forall|e: int| !#[trigger] plain_block(toks, start, e, end) by {
        if plain_block(toks, start, e, end) {
            lemma_plain_block_scan(toks, start, e, end, cx);
        }
    }
}

/// A plain body reads without error into its words.
proof fn lemma_plain_scan(toks: Seq<Seq<u8>>, start: int, x: int, cx: BodyContext)
    requires
        0 <= start <= x <= toks.len(),
        forall|j: int| start <= j < x ==> is_plain(#[trigger] toks[j]),
    ensures
        body_scan(toks, start, x, cx).error is None,
        body_scan(toks, start, x, cx).refs.len() == 0,
        body_scan(toks, start, x, cx).calls.len() == 0,
        body_scan(toks, start, x, cx).words.len() == x - start,
        forall|i: int|
            0 <= i < x - start ==> plain_word(toks[start + i], #[trigger] body_scan(toks, start, x, cx).words[i] as int),
    decreases x - start,
{
    if x > start {
        lemma_plain_scan(toks, start, x - 1, cx);
        let st = body_scan(toks, start, x - 1, cx);
        let t = toks[x - 1];
        assert(is_plain(t));
        lemma_command_named(t);
        if command_named(t) is None {
            lemma_number_not_label(t);
            let (radix, b) = number_format(t);
            let d = t.subrange(b, t.len() as int);
            crate::text::lemma_digits_value_nonneg(d, radix);
        } else {
            crate::ijvm::lemma_opcode_range(command_named(t).unwrap());
        }
        let st2 = body_scan(toks, start, x, cx);
        assert forall|i: int| 0 <= i < x - start implies plain_word(toks[start + i], #[trigger] st2.words[i] as int) by {
            if i < x - 1 - start {
                assert(st2.words[i] == st.words[i]);
            } else {
                if command_named(t) is Some {
                    let c = command_named(t).unwrap();
                    assert(c.mnemonic() == t);
                }
            }
        }
    }
}

/// The words of a block body that starts at `start` and ends at `end`, read
/// as `scan_of` says: each opcode, number, resolved constant and variable,
/// and a placeholder for each label or method reference. Labels are local
/// to the block and resolved at its end (`filled_word`); method references
/// are recorded for later. Fails with the first error of the body, with
/// `Syntax` when `end` is missing, and when a label reference does not
/// resolve. Returns the position after `end`.
#[verifier::rlimit(100)]
pub fn parse_method_body(
    tokens: &Vec<Vec<u8>>,
    start: usize,
    end: Directive,
    constants: &Table,
    method_placeholders: &mut Vec<(usize, Vec<u8>)>,
    parameters: &Vec<Vec<u8>>,
    variables: &Vec<Vec<u8>>,
    main_program: &mut Vec<i32>,
    program_start_offset: u32,
) -> (r: Result<usize, CompileError>)
    requires
        start <= tokens@.len(),
        parameters@.len() + variables@.len() <= i32::MAX,
        forall|k: int|
            0 <= k < old(method_placeholders)@.len() ==> #[trigger] old(method_placeholders)@[k].0 < old(main_program)@.len(),
        forall|k: int, l: int|
            0 <= k < l < old(method_placeholders)@.len() ==> #[trigger] old(method_placeholders)@[k].0
                < #[trigger] old(method_placeholders)@[l].0,
    ensures
        old(main_program)@.len() <= final(main_program)@.len(),
        forall|i: int|
            0 <= i < old(main_program)@.len() ==> final(main_program)@[i] == old(main_program)@[i],
        forall|k: int|
            0 <= k < final(method_placeholders)@.len() ==> #[trigger] final(method_placeholders)@[k].0 < final(main_program)@.len(),
        forall|k: int, l: int|
            0 <= k < l < final(method_placeholders)@.len() ==> #[trigger] final(method_placeholders)@[k].0
                < #[trigger] final(method_placeholders)@[l].0,
        r matches Ok(next) ==> start < next <= tokens@.len(),
        ({
            let cx = body_context(old(main_program)@, *constants, parameters@, variables@);
            let st = scan_of(views(tokens@), start as int, end, cx);
            &&& st.error matches Some(err) ==> r == Err::<usize, CompileError>(err)
            &&& st.error is None && first_at(views(tokens@), start as int, end.text()) is None
                ==> r == Err::<usize, CompileError>(CompileError::Syntax)
            &&& st.error is None && first_at(views(tokens@), start as int, end.text()) is Some
                ==> {
                &&& r is Ok <==> refs_resolvable(st, program_start_offset as int)
                &&& r is Err ==> r == Err::<usize, CompileError>(CompileError::UndefinedLabel)
                    || r == Err::<usize, CompileError>(CompileError::ImageTooLarge)
                &&& r matches Err(e) ==> ref_failure(st.labels, st.refs, program_start_offset as int, 0) == Some(e)
                &&& r is Ok ==> ref_failure(st.labels, st.refs, program_start_offset as int, 0) is None
                &&& r is Ok ==> {
                    &&& r == Ok::<usize, CompileError>(
                        (body_stop(views(tokens@), start as int, end) + 1) as usize,
                    )
                    &&& final(main_program)@.len() == old(main_program)@.len() + st.words.len()
                    &&& pair_view(final(method_placeholders)@) == pair_view(
                        old(method_placeholders)@,
                    ) + st.calls
                    &&& forall|i: int|
                        0 <= i < st.words.len() ==> filled_word(
                            st,
                            old(main_program)@.len() as int,
                            program_start_offset as int,
                            i,
                            #[trigger] final(main_program)@[old(main_program)@.len() + i],
                        )
                }
            }
        }),
        match body_outcome(
            views(tokens@),
            start as int,
            end,
            body_context(old(main_program)@, *constants, parameters@, variables@),
            program_start_offset as int,
        ) {
            Ok((next, words, calls)) => r == Ok::<usize, CompileError>(next as usize)
                && final(main_program)@ == old(main_program)@ + words && pair_view(
                final(method_placeholders)@,
            ) == pair_view(old(method_placeholders)@) + calls,
            Err(e) => r == Err::<usize, CompileError>(e),
        },
        forall|e: int|
            #[trigger] plain_block(views(tokens@), start as int, e, end) ==> {
                &&& r == Ok::<usize, CompileError>((e + 1) as usize)
                &&& final(method_placeholders)@ == old(method_placeholders)@
                &&& final(main_program)@.len() == old(main_program)@.len() + (e - start)
                &&& forall|i: int|
                    0 <= i < e - start ==> plain_word(
                        views(tokens@)[start + i],
                        #[trigger] final(main_program)@[old(main_program)@.len() + i] as int,
                    )
            },
{
    let ghost base = main_program@.len();
    let ghost before = main_program@;
    let ghost toks = views(tokens@);
    let ghost placeholders_before = method_placeholders@;
    let ghost cx = body_context(main_program@, *constants, parameters@, variables@);
    let ghost w = end.text();
    let mut labels: Vec<(Vec<u8>, usize)> = Vec::new();
    let mut label_positions: Vec<(usize, Vec<u8>)> = Vec::new();
    let mut x: usize = start;
    assert(label_view(labels@) =~= Seq::<(Seq<u8>, int)>::empty());
    assert(pair_view(label_positions@) =~= Seq::<(int, Seq<u8>)>::empty());
    assert(pair_view(method_placeholders@) =~= pair_view(placeholders_before) + Seq::<(int, Seq<u8>)>::empty());
    assert(main_program@ =~= before + Seq::<i32>::empty());
    while x < tokens.len() && !end.matches(&tokens[x])
        invariant
            start <= x <= tokens@.len(),
            parameters@.len() + variables@.len() <= i32::MAX,
            base == old(main_program)@.len(),
            before == old(main_program)@,
            toks == views(tokens@),
            w == end.text(),
            placeholders_before == old(method_placeholders)@,
            cx == body_context(before, *constants, parameters@, variables@),
            first_at(toks, start as int, w) == first_at(toks, x as int, w),
            body_scan(toks, start as int, x as int, cx).error is None,
            main_program@ == before + body_scan(toks, start as int, x as int, cx).words,
            label_view(labels@) == body_scan(toks, start as int, x as int, cx).labels,
            pair_view(label_positions@) == body_scan(toks, start as int, x as int, cx).refs,
            pair_view(method_placeholders@) == pair_view(placeholders_before) + body_scan(
                toks,
                start as int,
                x as int,
                cx,
            ).calls,
            method_placeholders@.len() == placeholders_before.len() + body_scan(
                toks,
                start as int,
                x as int,
                cx,
            ).calls.len(),
            forall|k: int| 0 <= k < placeholders_before.len() ==> method_placeholders@[k] == placeholders_before[k],
            forall|k: int|
                0 <= k < method_placeholders@.len() ==> #[trigger] method_placeholders@[k].0
                    < main_program@.len(),
            forall|k: int, l: int|
                0 <= k < l < method_placeholders@.len() ==> #[trigger] method_placeholders@[k].0
                    < #[trigger] method_placeholders@[l].0,
            forall|k: int|
                0 <= k < label_positions@.len() ==> base <= #[trigger] label_positions@[k].0
                    < main_program@.len(),
            forall|j: int, l: int|
                0 <= j < l < label_positions@.len() ==> #[trigger] label_positions@[j].0
                    < #[trigger] label_positions@[l].0,
        decreases tokens@.len() - x,
    {
        let command = &tokens[x];
        let ghost st = body_scan(toks, start as int, x as int, cx);
        let ghost t = toks[x as int];
        let ghost old_main = main_program@;
        let ghost old_labels = labels@;
        let ghost old_refs = label_positions@;
        let ghost old_calls = method_placeholders@;
        proof {
            assert(t == command@);
            assert(t != w);
            assert(first_at(toks, x as int, w) == first_at(toks, x + 1, w));
            assert(body_scan(toks, start as int, x + 1, cx) == scan_step(st, t, cx));
            assert(old_main.len() == cx.base + st.words.len());
            lemma_command_named(t);
            if command_named(t) is Some {
                crate::ijvm::lemma_opcode_range(command_named(t).unwrap());
            }
        }
        match IjvmCommand::parse_bytes(command.as_slice()) {
            Some(c) => {
                main_program.push(c.opcode());
            },
            None => {
                if command.len() >= 2 && command[command.len() - 1] == 58 {
                    labels.push((label_name(command), main_program.len()));
                    assert(label_view(labels@) =~= label_view(old_labels).push(
                        (t.subrange(0, t.len() - 1), old_main.len() as int),
                    ));
                } else if command.len() > 0 && 48 <= command[0] && command[0] <= 57 {
                    match parse_number(command) {
                        Some(v) => {
                            main_program.push(v);
                        },
                        None => {
                            proof {
                                lemma_first_at(toks, x as int, w);
                                lemma_error_sticks(toks, start as int, x + 1, body_stop(toks, start as int, end), cx);
                            lemma_no_plain_block(toks, start as int, end, cx);
                            }
                            return Err(CompileError::MalformedNumber);
                        },
                    }
                } else if command.len() == 0 || command[0] == 46 || command[0] == 40
                    || command[0] == 41 || command[0] == 44 {
                    proof {
                        lemma_first_at(toks, x as int, w);
                        lemma_error_sticks(toks, start as int, x + 1, body_stop(toks, start as int, end), cx);
                        lemma_no_plain_block(toks, start as int, end, cx);
                    }
                    return Err(CompileError::Syntax);
                } else {
                    if main_program.len() == 0 {
                        proof {
                            lemma_first_at(toks, x as int, w);
                            lemma_error_sticks(toks, start as int, x + 1, body_stop(toks, start as int, end), cx);
                            lemma_no_plain_block(toks, start as int, end, cx);
                        }
                        return Err(CompileError::IdentifierNotAllowed);
                    }
                    let previous = main_program[main_program.len() - 1];
                    proof {
                        if st.words.len() > 0 {
                            assert(previous == st.words.last());
                        } else {
                            assert(previous == before.last());
                        }
                    }
                    match identifier_role(previous) {
                        Some(IdentifierRole::CONSTANT) => {
                            match table_get(constants, command) {
                                Some(v) => {
                                    main_program.push(v);
                                },
                                None => {
                                    proof {
                                        lemma_first_at(toks, x as int, w);
                                        lemma_error_sticks(toks, start as int, x + 1, body_stop(toks, start as int, end), cx);
                                        lemma_no_plain_block(toks, start as int, end, cx);
                                    }
                                    return Err(CompileError::UndefinedConstant);
                                },
                            }
                        },
                        Some(IdentifierRole::LABEL) => {
                            label_positions.push((main_program.len(), copy_bytes(command)));
                            main_program.push(PLACEHOLDER);
                        },
                        Some(IdentifierRole::VARIABLE) => {
                            match variable_index(parameters, variables, command) {
                                Some(v) => {
                                    main_program.push(v);
                                },
                                None => {
                                    proof {
                                        lemma_first_at(toks, x as int, w);
                                        lemma_error_sticks(toks, start as int, x + 1, body_stop(toks, start as int, end), cx);
                                        lemma_no_plain_block(toks, start as int, end, cx);
                                    }
                                    return Err(CompileError::UndefinedVariable);
                                },
                            }
                        },
                        Some(IdentifierRole::METHOD) => {
                            // the pool index is 16 bits: a zero high byte, then the low byte
                            main_program.push(0x00);
                            method_placeholders.push((main_program.len(), copy_bytes(command)));
                            main_program.push(PLACEHOLDER);
                            assert(pair_view(method_placeholders@) =~= pair_view(old_calls).push(
                                ((old_main.len() + 1) as int, t),
                            ));
                        },
                        None => {
                            proof {
                                lemma_first_at(toks, x as int, w);
                                lemma_error_sticks(toks, start as int, x + 1, body_stop(toks, start as int, end), cx);
                            lemma_no_plain_block(toks, start as int, end, cx);
                            }
                            return Err(CompileError::IdentifierNotAllowed);
                        },
                    }
                }
            },
        }
        proof {
            let st2 = body_scan(toks, start as int, x + 1, cx);
            assert(main_program@ =~= before + st2.words);
            assert(label_view(labels@) =~= st2.labels);
            assert(pair_view(label_positions@) =~= st2.refs);
            assert(pair_view(method_placeholders@) =~= pair_view(placeholders_before) + st2.calls);
        }
        x += 1;
    }
    proof {
        lemma_first_at(toks, x as int, w);
        lemma_first_at(toks, start as int, w);
    }
    if x >= tokens.len() {
        proof {
            lemma_no_plain_block(toks, start as int, end, cx);
        }
        return Err(CompileError::Syntax);
    }
    proof {
        assert(toks[x as int] == w);
        assert(body_stop(toks, start as int, end) == x);
    }
    let ghost st = body_scan(toks, start as int, x as int, cx);
    let ghost patched = main_program@;
    let resolved = resolve_labels(main_program, &label_positions, &labels, program_start_offset);
    proof {
        assert forall|i: int| 0 <= i < base implies main_program@[i] == before[i] by {
            assert(forall|k: int| 0 <= k < label_positions@.len() ==> #[trigger] label_positions@[k].0 != i);
        }
        assert forall|k: int| 0 <= k < label_positions@.len() implies #[trigger] resolvable(
            label_view(labels@),
            label_positions@[k].1@,
            program_start_offset as int,
        ) == resolvable(st.labels, st.refs[k].1, program_start_offset as int) by {
            assert(st.refs[k] == pair_view(label_positions@)[k]);
        }
        if resolved is Ok {
            assert(refs_resolvable(st, program_start_offset as int)) by {
                assert forall|k: int| 0 <= k < st.refs.len() implies #[trigger] resolvable(st.labels, st.refs[k].1, program_start_offset as int) by {
                    assert(st.refs[k] == pair_view(label_positions@)[k]);
                }
            }
            assert forall|i: int| 0 <= i < st.words.len() implies filled_word(
                st,
                base as int,
                program_start_offset as int,
                i,
                #[trigger] main_program@[base + i],
            ) by {
                if exists|k: int| 0 <= k < st.refs.len() && (#[trigger] st.refs[k]).0 == base + i {
                    let k = choose|k: int| 0 <= k < st.refs.len() && (#[trigger] st.refs[k]).0 == base + i;
                    assert(st.refs[k] == pair_view(label_positions@)[k]);
                    assert(main_program@[label_positions@[k].0 as int] == label_at(label_view(labels@), label_positions@[k].1@).unwrap() + program_start_offset);
                } else {
                    assert forall|k: int| 0 <= k < label_positions@.len() implies #[trigger] label_positions@[k].0 != base + i by {
                        assert(st.refs[k] == pair_view(label_positions@)[k]);
                    }
                    assert(patched[base + i] == st.words[i]);
                }
            }
            assert forall|j: int, l: int| 0 <= j < l < st.refs.len() implies #[trigger] st.refs[j].0 < #[trigger] st.refs[l].0 by {
                assert(st.refs[j] == pair_view(label_positions@)[j]);
                assert(st.refs[l] == pair_view(label_positions@)[l]);
            }
            assert forall|i: int| 0 <= i < st.words.len() implies main_program@[base + i] == filled_words(st, base as int, program_start_offset as int)[i] by {
                if exists|k: int| 0 <= k < st.refs.len() && (#[trigger] st.refs[k]).0 == base + i {
                    let k1 = choose|k: int| 0 <= k < st.refs.len() && (#[trigger] st.refs[k]).0 == base + i;
                    assert(filled_word(st, base as int, program_start_offset as int, i, main_program@[base + i]));
                    let k2 = choose|k: int|
                        0 <= k < st.refs.len() && (#[trigger] st.refs[k]).0 == base + i && main_program@[base + i] == label_at(
                            st.labels,
                            st.refs[k].1,
                        ).unwrap() + program_start_offset;
                    if k1 < k2 {
                        assert(st.refs[k1].0 < st.refs[k2].0);
                    } else if k2 < k1 {
                        assert(st.refs[k2].0 < st.refs[k1].0);
                    }
                } else {
                    assert(filled_word(st, base as int, program_start_offset as int, i, main_program@[base + i]));
                }
            }
            assert(main_program@ =~= before + filled_words(st, base as int, program_start_offset as int));
        } else {
            assert(!refs_resolvable(st, program_start_offset as int)) by {
                let k = choose|k: int| 0 <= k < label_positions@.len() && !#[trigger] resolvable(
                    label_view(labels@),
                    label_positions@[k].1@,
                    program_start_offset as int,
                );
                assert(st.refs[k] == pair_view(label_positions@)[k]);
            }
        }
        assert forall|e: int| #[trigger] plain_block(toks, start as int, e, end) implies {
            &&& resolved is Ok
            &&& e == x
            &&& method_placeholders@ == placeholders_before
            &&& main_program@.len() == before.len() + (e - start)
            &&& forall|i: int|
                0 <= i < e - start ==> plain_word(toks[start + i], #[trigger] main_program@[before.len() + i] as int)
        } by {
            if x < e {
                lemma_plain_not_directive(toks[x as int], end);
            } else if e < x {
                lemma_plain_not_directive(toks[e], end);
            }
            lemma_plain_scan(toks, start as int, e, cx);
            assert(method_placeholders@ =~= placeholders_before);
            assert forall|i: int| 0 <= i < e - start implies plain_word(toks[start + i], #[trigger] main_program@[before.len() + i] as int) by {
                assert(forall|k: int| 0 <= k < label_positions@.len() ==> #[trigger] label_positions@[k].0 != before.len() + i);
                assert(main_program@[before.len() + i] == patched[before.len() + i]);
                assert(patched[before.len() + i] == st.words[i]);
            }
        }
    }
    match resolved {
        Ok(()) => Ok(x + 1),
        Err(e) => Err(e),
    }
}

/// The pool after inserting the first `k` methods at their entry plus
/// `offset`.
pub open spec fn pool_after(
    pool: Seq<(Seq<u8>, i32)>,
    methods: Seq<(Seq<u8>, i32)>,
    offset: int,
    k: nat,
) -> Seq<(Seq<u8>, i32)>
    decreases k,
{
    if k == 0 {
        pool
    } else {
        inserted(
            pool_after(pool, methods, offset, (k - 1) as nat),
            methods[k - 1].0,
            (methods[k - 1].1 + offset) as i32,
        )
    }
}

/// A method entry plus `offset` is a word (and the entry is no negative).
pub open spec fn entry_fits(e: (Seq<u8>, i32), offset: int) -> bool {
    0 <= e.1 && e.1 + offset <= i32::MAX
}

/// Appends every method to the constant pool, in declaration order, with
/// its entry address plus `program_start_offset`; returns each method's name
/// with the pool index it was given (the pool's length before its insert).
pub fn add_methods_to_constants(
    constants: &mut Table,
    methods: &Table,
    program_start_offset: u32,
) -> (r: Result<Vec<(Vec<u8>, usize)>, CompileError>)
    ensures
        r matches Ok(v) ==> {
            &&& v@.len() == table_entries(*methods).len()
            &&& table_entries(*final(constants)) == pool_after(
                table_entries(*old(constants)),
                table_entries(*methods),
                program_start_offset as int,
                v@.len() as nat,
            )
            &&& forall|i: int|
                0 <= i < v@.len() ==> (#[trigger] v@[i]).0@ == table_entries(*methods)[i].0
                    && v@[i].1 == pool_after(
                    table_entries(*old(constants)),
                    table_entries(*methods),
                    program_start_offset as int,
                    i as nat,
                ).len()
        },
        r is Err ==> r == Err::<Vec<(Vec<u8>, usize)>, CompileError>(CompileError::ImageTooLarge),
        r is Err <==> exists|i: int|
            0 <= i < table_entries(*methods).len() && !entry_fits(
                #[trigger] table_entries(*methods)[i],
                program_start_offset as int,
            ),
{
    let ghost pool = table_entries(*constants);
    let ghost ms = table_entries(*methods);
    let entries = table_entries_vec(methods);
    let mut method_constants: Vec<(Vec<u8>, usize)> = Vec::new();
    let mut i: usize = 0;
    while i < entries.len()
        invariant
            i <= entries@.len(),
            pool == table_entries(*old(constants)),
            ms == table_entries(*methods),
            entries@.len() == ms.len(),
            forall|j: int|
                0 <= j < entries@.len() ==> (#[trigger] entries@[j]).0@ == ms[j].0 && entries@[j].1
                    == ms[j].1,
            method_constants@.len() == i,
            table_entries(*constants) == pool_after(pool, ms, program_start_offset as int, i as nat),
            forall|j: int|
                0 <= j < i ==> (#[trigger] method_constants@[j]).0@ == ms[j].0
                    && method_constants@[j].1 == pool_after(
                    pool,
                    ms,
                    program_start_offset as int,
                    j as nat,
                ).len(),
            forall|j: int| 0 <= j < i ==> entry_fits(#[trigger] ms[j], program_start_offset as int),
        decreases entries@.len() - i,
    {
        let key = copy_bytes(&entries[i].0);
        let value = entries[i].1;
        if value < 0 || value as u64 + program_start_offset as u64 > 0x7fff_ffff {
            assert(!entry_fits(ms[i as int], program_start_offset as int));
            return Err(CompileError::ImageTooLarge);
        }
        let index = table_len(constants);
        method_constants.push((copy_bytes(&key), index));
        table_insert(constants, key, value + program_start_offset as i32);
        i += 1;
    }
    Ok(method_constants)
}

/// Some recorded method is named `name`.
pub open spec fn method_known(method_constants: Seq<(Vec<u8>, usize)>, name: Seq<u8>) -> bool {
    exists|i: int| 0 <= i < method_constants.len() && (#[trigger] method_constants[i]).0@ == name
}

/// `v` is the pool index of the first method recorded as `name`.
pub open spec fn is_method_index(method_constants: Seq<(Vec<u8>, usize)>, name: Seq<u8>, v: int) -> bool {
    exists|i: int|
        0 <= i < method_constants.len() && (#[trigger] method_constants[i]).0@ == name
            && method_constants[i].1 == v && forall|j: int|
            0 <= j < i ==> (#[trigger] method_constants[j]).0@ != name
}

/// The pool index recorded for `name`: its first entry.
fn find_method(method_constants: &Vec<(Vec<u8>, usize)>, name: &Vec<u8>) -> (r: Option<usize>)
    ensures
        r matches Some(v) ==> is_method_index(method_constants@, name@, v as int),
        r is None ==> forall|i: int|
            0 <= i < method_constants@.len() ==> (#[trigger] method_constants@[i]).0@ != name@,
{
    let mut i: usize = 0;
    while i < method_constants.len()
        invariant
            i <= method_constants@.len(),
            forall|j: int| 0 <= j < i ==> (#[trigger] method_constants@[j]).0@ != name@,
        decreases method_constants@.len() - i,
    {
        if bytes_equal(method_constants[i].0.as_slice(), name.as_slice()) {
            return Some(method_constants[i].1);
        }
        i += 1;
    }
    None
}

/// Every recorded pool index fits in a word.
fn indices_fit(method_constants: &Vec<(Vec<u8>, usize)>) -> (r: bool)
    ensures
        r == forall|j: int|
            0 <= j < method_constants@.len() ==> #[trigger] method_constants@[j].1 <= i32::MAX,
{
    let mut i: usize = 0;
    while i < method_constants.len()
        invariant
            i <= method_constants@.len(),
            forall|j: int| 0 <= j < i ==> #[trigger] method_constants@[j].1 <= i32::MAX,
        decreases method_constants@.len() - i,
    {
        if method_constants[i].1 > 0x7fff_ffff {
            return false;
        }
        i += 1;
    }
    true
}

/// Replaces each method placeholder by the pool index of the method it names.
pub fn patch_method_placeholders(
    main_program: &mut Vec<i32>,
    method_placeholders: &Vec<(usize, Vec<u8>)>,
    method_constants: &Vec<(Vec<u8>, usize)>,
) -> (r: Result<(), CompileError>)
    requires
        forall|k: int|
            0 <= k < method_placeholders@.len() ==> #[trigger] method_placeholders@[k].0 < old(main_program)@.len(),
        forall|k: int, l: int|
            0 <= k < l < method_placeholders@.len() ==> #[trigger] method_placeholders@[k].0
                < #[trigger] method_placeholders@[l].0,
        forall|i: int| 0 <= i < method_constants@.len() ==> #[trigger] method_constants@[i].1 <= i32::MAX,
    ensures
        final(main_program)@.len() == old(main_program)@.len(),
        r is Ok <==> forall|k: int|
            0 <= k < method_placeholders@.len() ==> method_known(
                method_constants@,
                (#[trigger] method_placeholders@[k]).1@,
            ),
        r is Err ==> r == Err::<(), CompileError>(CompileError::UndefinedMethod),
        r is Ok ==> forall|k: int|
            0 <= k < method_placeholders@.len() ==> is_method_index(
                method_constants@,
                (#[trigger] method_placeholders@[k]).1@,
                final(main_program)@[method_placeholders@[k].0 as int] as int,
            ),
        forall|i: int|
            0 <= i < old(main_program)@.len() && (forall|k: int|
                0 <= k < method_placeholders@.len() ==> #[trigger] method_placeholders@[k].0 != i)
                ==> final(main_program)@[i] == old(main_program)@[i],
{
    let mut k: usize = 0;
    while k < method_placeholders.len()
        invariant
            k <= method_placeholders@.len(),
            main_program@.len() == old(main_program)@.len(),
            forall|j: int|
                0 <= j < method_placeholders@.len() ==> #[trigger] method_placeholders@[j].0 < main_program@.len(),
            forall|i: int| 0 <= i < method_constants@.len() ==> #[trigger] method_constants@[i].1 <= i32::MAX,
            forall|j: int|
                0 <= j < k ==> method_known(
                    method_constants@,
                    (#[trigger] method_placeholders@[j]).1@,
                ),
            forall|j: int, l: int|
                0 <= j < l < method_placeholders@.len() ==> #[trigger] method_placeholders@[j].0
                    < #[trigger] method_placeholders@[l].0,
            forall|j: int|
                0 <= j < k ==> is_method_index(
                    method_constants@,
                    (#[trigger] method_placeholders@[j]).1@,
                    main_program@[method_placeholders@[j].0 as int] as int,
                ),
            forall|i: int|
                0 <= i < old(main_program)@.len() && (forall|j: int|
                    0 <= j < k ==> #[trigger] method_placeholders@[j].0 != i) ==> main_program@[i]
                    == old(main_program)@[i],
        decreases method_placeholders@.len() - k,
    {
        let slot = method_placeholders[k].0;
        match find_method(method_constants, &method_placeholders[k].1) {
            Some(index) => {
                main_program.set(slot, index as i32);
            },
            None => {
                assert(!method_known(method_constants@, method_placeholders@[k as int].1@));
                return Err(CompileError::UndefinedMethod);
            },
        }
        k += 1;
    }
    Ok(())
}

/// A `.method` block at `start` with a plain body: a name, a parameter list
/// closing at token `close`, an optional `.var` block closing at token `ve`
/// (`ve == close` when there is none), and a plain body closed by
/// `.end-method` at token `e`.
pub open spec fn plain_method(toks: Seq<Seq<u8>>, start: int, close: int, ve: int, e: int) -> bool {
    &&& toks.len() < 0x7fff_ffff
    &&& 0 <= start
    &&& start + 1 < toks.len()
    &&& toks[start + 1].len() > 0
    &&& toks[start + 1][0] != 40 && toks[start + 1][0] != 41 && toks[start + 1][0] != 44
        && toks[start + 1][0] != 46
    &&& parameter_list(toks, start + 2, close)
    &&& ve == close ==> (close + 1 >= toks.len() || toks[close + 1] != Directive::Var.text())
    &&& ve != close ==> {
        &&& close + 1 < ve < toks.len()
        &&& toks[close + 1] == Directive::Var.text()
        &&& toks[ve] == Directive::EndVar.text()
        &&& forall|j: int| close + 1 < j < ve ==> #[trigger] toks[j] != Directive::EndVar.text()
    }
    &&& plain_block(toks, ve + 1, e, Directive::EndMethod)
}

/// The prologue of a method with `count` parameters: the count as a
/// big-endian 16-bit value, then a zero 16-bit local count.
pub open spec fn prologue(count: int) -> Seq<i32> {
    seq![((count / 0x100) % 0x100) as i32, (count % 0x100) as i32, 0i32, 0i32]
}

proof fn lemma_parameter_list_unique(toks: Seq<Seq<u8>>, start: int, c1: int, c2: int)
    requires
        parameter_list(toks, start, c1),
        parameter_list(toks, start, c2),
    ensures
        c1 == c2,
{
    lemma_punct_distinct();
    if c1 < c2 {
        assert(list_token_ok(toks, start, c1));
    } else if c2 < c1 {
        assert(list_token_ok(toks, start, c2));
    }
}

/// What reading the `.method` block at `pos` gives, from the image `main`,
/// the method table `methods` and the constant pool `consts`: the position
/// after `.end-method`, the image with the prologue and the body appended,
/// the table with the method's entry (the image length before it) inserted,
/// and the body's method references; or the error.
pub open spec fn method_outcome(
    toks: Seq<Seq<u8>>,
    pos: int,
    main: Seq<i32>,
    methods: Seq<(Seq<u8>, i32)>,
    consts: Seq<(Seq<u8>, i32)>,
    offset: int,
    objref: bool,
) -> Result<(int, Seq<i32>, Seq<(Seq<u8>, i32)>, Seq<(int, Seq<u8>)>), CompileError> {
    if toks.len() - pos < 3 || main.len() > i32::MAX {
        Err(CompileError::Syntax)
    } else if toks[pos + 1].len() == 0 || toks[pos + 1][0] == 40 || toks[pos + 1][0] == 41
        || toks[pos + 1][0] == 44 || toks[pos + 1][0] == 46 {
        Err(CompileError::Syntax)
    } else if !(exists|c: int| #[trigger] parameter_list(toks, pos + 2, c)) {
        Err(CompileError::Syntax)
    } else {
        let close = choose|c: int| #[trigger] parameter_list(toks, pos + 2, c);
        let names = parameter_names(toks, pos + 2, close);
        let params = if objref {
            seq![Seq::<u8>::empty()] + names
        } else {
            names
        };
        let has_var = close + 1 < toks.len() && toks[close + 1] == Directive::Var.text();
        let ve_opt = if has_var {
            first_at(toks, close + 2, Directive::EndVar.text())
        } else {
            Some(close)
        };
        match ve_opt {
            None => Err(CompileError::Syntax),
            Some(ve) => {
                let vars = if has_var {
                    toks.subrange(close + 2, ve)
                } else {
                    Seq::empty()
                };
                if params.len() > i32::MAX || vars.len() > i32::MAX - params.len() {
                    Err(CompileError::Syntax)
                } else {
                    let main2 = main + prologue(params.len() as int);
                    let cx = BodyContext {
                        base: main2.len() as int,
                        prev: Some(main2.last()),
                        consts,
                        params,
                        vars,
                    };
                    match body_outcome(toks, ve + 1, Directive::EndMethod, cx, offset) {
                        Err(e) => Err(e),
                        Ok((next, words, calls)) => Ok(
                            (
                                next,
                                main2 + words,
                                inserted(methods, toks[pos + 1], main.len() as i32),
                                calls,
                            ),
                        ),
                    }
                }
            },
        }
    }
}

/// Assembles the `.method` block that starts at `start`: records the
/// method's entry (the current length of the image), emits its prologue
/// (parameter count as a big-endian 16-bit value, then a zero 16-bit local
/// count) and its body. With `objref_slot` the caller's object reference is
/// an unnamed parameter 0: it is counted, and the named parameters follow it.
/// Returns the position after `.end-method`.
#[verifier::rlimit(100)]
pub fn process_method(
    tokens: &Vec<Vec<u8>>,
    start: usize,
    program_start_offset: u32,
    objref_slot: bool,
    constants: &Table,
    methods: &mut Table,
    method_placeholders: &mut Vec<(usize, Vec<u8>)>,
    main_program: &mut Vec<i32>,
) -> (r: Result<usize, CompileError>)
    requires
        start < tokens@.len(),
        forall|k: int|
            0 <= k < old(method_placeholders)@.len() ==> #[trigger] old(method_placeholders)@[k].0 < old(main_program)@.len(),
        forall|k: int, l: int|
            0 <= k < l < old(method_placeholders)@.len() ==> #[trigger] old(method_placeholders)@[k].0
                < #[trigger] old(method_placeholders)@[l].0,
    ensures
        old(main_program)@.len() <= final(main_program)@.len(),
        forall|i: int|
            0 <= i < old(main_program)@.len() ==> final(main_program)@[i] == old(main_program)@[i],
        forall|k: int|
            0 <= k < final(method_placeholders)@.len() ==> #[trigger] final(method_placeholders)@[k].0 < final(main_program)@.len(),
        forall|k: int, l: int|
            0 <= k < l < final(method_placeholders)@.len() ==> #[trigger] final(method_placeholders)@[k].0
                < #[trigger] final(method_placeholders)@[l].0,
        r matches Ok(next) ==> start < next <= tokens@.len(),
        r is Ok ==> final(main_program)@.len() >= old(main_program)@.len() + 4,
        r is Ok ==> table_entries(*final(methods)) == inserted(
            table_entries(*old(methods)),
            tokens@[start + 1]@,
            old(main_program)@.len() as i32,
        ),
        match method_outcome(
            views(tokens@),
            start as int,
            old(main_program)@,
            table_entries(*old(methods)),
            table_entries(*constants),
            program_start_offset as int,
            objref_slot,
        ) {
            Ok((next, main2, methods2, calls)) => r == Ok::<usize, CompileError>(next as usize)
                && final(main_program)@ == main2 && table_entries(*final(methods)) == methods2
                && pair_view(final(method_placeholders)@) == pair_view(old(method_placeholders)@)
                + calls && start < next <= tokens@.len(),
            Err(e) => r == Err::<usize, CompileError>(e),
        },
        forall|close: int, ve: int, e: int|
            #[trigger] plain_method(views(tokens@), start as int, close, ve, e) && old(
                main_program,
            )@.len() <= i32::MAX ==> {
                &&& r == Ok::<usize, CompileError>((e + 1) as usize)
                &&& final(method_placeholders)@ == old(method_placeholders)@
                &&& final(main_program)@.len() == old(main_program)@.len() + 4 + (e - ve - 1)
                &&& final(main_program)@.subrange(
                    old(main_program)@.len() as int,
                    (old(main_program)@.len() + 4) as int,
                ) == prologue((close - start - 2) / 2 + if objref_slot {
                    1int
                } else {
                    0
                })
                &&& forall|i: int|
                    0 <= i < e - ve - 1 ==> plain_word(
                        views(tokens@)[ve + 1 + i],
                        #[trigger] final(main_program)@[old(main_program)@.len() + 4 + i] as int,
                    )
            },
{
    let ghost toks = views(tokens@);
    let ghost base = main_program@.len();
    let ghost placeholders_before = method_placeholders@;
    proof {
        assert forall|close: int, ve: int, e: int|
            #[trigger] plain_method(toks, start as int, close, ve, e) implies toks[start + 1]
            == tokens@[start + 1]@ && (close + 1 < toks.len() ==> toks[close + 1] == tokens@[close
            + 1]@) by {}
    }
    let n = tokens.len();
    if n - start < 3 || main_program.len() > 0x7fff_ffff {
        return Err(CompileError::Syntax);
    }
    let name = copy_bytes(&tokens[start + 1]);
    if name.len() == 0 || name[0] == 40 || name[0] == 41 || name[0] == 44 || name[0] == 46 {
        return Err(CompileError::Syntax);
    }
    let entry = main_program.len() as i32;
    assert(name@ == toks[start + 1]);
    let (named, mut next) = process_parameters(tokens, start + 2)?;
    let ghost close = next - 1;
    proof {
        lemma_parameter_list_unique(toks, start + 2, close, choose|c: int| #[trigger] parameter_list(toks, start + 2, c));
        assert forall|c: int, ve: int, e: int|
            #[trigger] plain_method(toks, start as int, c, ve, e) implies c == close by {
            lemma_parameter_list_unique(toks, start + 2, c, close);
        }
    }
    let parameters = with_objref_slot(named, objref_slot);
    let mut variables: Vec<Vec<u8>> = Vec::new();
    let ghost mut ve: int = close;
    let has_var = next < n && Directive::Var.matches(&tokens[next]);
    proof {
        if next < n {
            assert(toks[next as int] == tokens@[next as int]@);
        }
        lemma_first_at(toks, close + 2, Directive::EndVar.text());
    }
    if has_var {
        let (vars, after) = process_variables(tokens, next)?;
        variables = vars;
        next = after;
        proof {
            ve = next - 1;
            assert(toks[ve] == tokens@[ve]@);
            assert(first_at(toks, close + 2, Directive::EndVar.text()) == Some(ve)) by {
                if first_at(toks, close + 2, Directive::EndVar.text()) is None {
                    assert(toks[ve] == Directive::EndVar.text());
                }
                let f = first_at(toks, close + 2, Directive::EndVar.text()).unwrap();
                if f < ve {
                    assert(tokens@[f]@ == toks[f]);
                } else if ve < f {
                    assert(toks[ve] == tokens@[ve]@);
                }
            }
            assert(views(variables@) =~= toks.subrange(close + 2, ve)) by {
                assert(views(tokens@.subrange(close + 2, ve)) =~= toks.subrange(close + 2, ve));
            }
            assert forall|c: int, v: int, e: int|
                #[trigger] plain_method(toks, start as int, c, v, e) implies v == ve by {
                if v != c {
                    if v < ve {
                        assert(tokens@[v]@ == toks[v]);
                    } else if ve < v {
                        assert(toks[ve] == tokens@[ve]@);
                    }
                }
            }
        }
    } else {
        proof {
            assert forall|c: int, v: int, e: int|
                #[trigger] plain_method(toks, start as int, c, v, e) implies v == ve by {
                if v != c {
                    assert(toks[close + 1] == tokens@[close + 1]@);
                }
            }
            assert(views(variables@) =~= Seq::<Seq<u8>>::empty());
        }
    }
    proof {
        assert(views(parameters@).len() == parameters@.len());
        assert(views(named@).len() == named@.len());
        assert(views(variables@).len() == variables@.len());
    }
    if parameters.len() > 0x7fff_ffff || variables.len() > 0x7fff_ffff - parameters.len() {
        assert forall|c: int, v: int, e: int|
            #[trigger] plain_method(toks, start as int, c, v, e) implies false by {
            assert(named@.len() <= c);
            assert(variables@.len() <= toks.len());
            if v != c {
                assert(variables@.len() + c <= toks.len());
            } else {
                assert(variables@.len() == 0);
            }
        }
        return Err(CompileError::Syntax);
    }
    table_insert(methods, name, entry);

    let count = parameters.len();
    main_program.push(((count / 0x100) % 0x100) as i32);
    main_program.push((count % 0x100) as i32);
    main_program.push(0x00);
    main_program.push(0x00);
    let ghost mid = main_program@;
    proof {
        assert(mid.subrange(base as int, (base + 4) as int) =~= prologue(count as int));
        assert(mid =~= old(main_program)@ + prologue(count as int));
        assert(body_context(mid, *constants, parameters@, variables@) == BodyContext {
            base: mid.len() as int,
            prev: Some(mid.last()),
            consts: table_entries(*constants),
            params: if objref_slot { seq![Seq::<u8>::empty()] + views(named@) } else { views(named@) },
            vars: views(variables@),
        });
        lemma_body_outcome_next(
            toks,
            next as int,
            Directive::EndMethod,
            body_context(mid, *constants, parameters@, variables@),
            program_start_offset as int,
        );
        assert(count == named@.len() + if objref_slot { 1int } else { 0 });
    }

    let result = parse_method_body(
        tokens,
        next,
        Directive::EndMethod,
        constants,
        method_placeholders,
        &parameters,
        &variables,
        main_program,
        program_start_offset,
    );
    proof {
        assert forall|c: int, v: int, e: int|
            #[trigger] plain_method(toks, start as int, c, v, e) implies {
                &&& main_program@.subrange(base as int, (base + 4) as int) == prologue(
                    (c - start - 2) / 2 + if objref_slot {
                        1int
                    } else {
                        0
                    },
                )
                &&& forall|i: int|
                    0 <= i < e - v - 1 ==> plain_word(
                        toks[v + 1 + i],
                        #[trigger] main_program@[base + 4 + i] as int,
                    )
            } by {
            assert(plain_block(toks, next as int, e, Directive::EndMethod));
            assert(main_program@.subrange(base as int, (base + 4) as int) =~= mid.subrange(base as int, (base + 4) as int));
            assert(views(named@).len() == (c - start - 2) / 2);
            assert forall|i: int| 0 <= i < e - v - 1 implies plain_word(
                toks[v + 1 + i],
                #[trigger] main_program@[base + 4 + i] as int,
            ) by {
                assert(main_program@[mid.len() + i] == main_program@[base + 4 + i]);
            }
        }
    }
    result
}

/// The parameter list of a method body: the named parameters, after an
/// unnamed slot (an empty name, which no identifier matches) when
/// `objref_slot`.
fn with_objref_slot(named: Vec<Vec<u8>>, objref_slot: bool) -> (r: Vec<Vec<u8>>)
    ensures
        views(r@) == if objref_slot {
            seq![Seq::<u8>::empty()] + views(named@)
        } else {
            views(named@)
        },
{
    if !objref_slot {
        return named;
    }
    let mut r: Vec<Vec<u8>> = Vec::new();
    r.push(Vec::new());
    let mut i: usize = 0;
    while i < named.len()
        invariant
            i <= named@.len(),
            r@.len() == i + 1,
            r@[0]@ == Seq::<u8>::empty(),
            forall|j: int| 0 <= j < i ==> (#[trigger] r@[j + 1])@ == named@[j]@,
        decreases named@.len() - i,
    {
        r.push(copy_bytes(&named[i]));
        i += 1;
    }
    assert(views(r@) =~= seq![Seq::<u8>::empty()] + views(named@)) by {
        assert forall|j: int| 1 <= j < r@.len() implies views(r@)[j] == views(named@)[j - 1] by {
            assert(r@[(j - 1) + 1] == r@[j]);
        }
    }
    r
}

/// The values of a table's entries, in order.
fn table_values(m: &Table) -> (r: Vec<i32>)
    ensures
        r@ == table_entries(*m).map_values(|p: (Seq<u8>, i32)| p.1),
{
    let entries = table_entries_vec(m);
    let mut values: Vec<i32> = Vec::new();
    let mut i: usize = 0;
    while i < entries.len()
        invariant
            i <= entries@.len(),
            entries@.len() == table_entries(*m).len(),
            forall|j: int|
                0 <= j < entries@.len() ==> (#[trigger] entries@[j]).0@ == table_entries(*m)[j].0
                    && entries@[j].1 == table_entries(*m)[j].1,
            values@ == table_entries(*m).subrange(0, i as int).map_values(|p: (Seq<u8>, i32)| p.1),
        decreases entries@.len() - i,
    {
        values.push(entries[i].1);
        assert(values@ =~= table_entries(*m).subrange(0, i + 1).map_values(|p: (Seq<u8>, i32)| p.1));
        i += 1;
    }
    assert(table_entries(*m).subrange(0, entries@.len() as int) =~= table_entries(*m));
    values
}

/// The rest of a `.constant` block from token `pos` on, with the pool so
/// far: the position after `.end-constant` and the pool; or the error.
pub open spec fn const_scan(
    toks: Seq<Seq<u8>>,
    pos: int,
    pool: Seq<(Seq<u8>, i32)>,
) -> Result<(int, Seq<(Seq<u8>, i32)>), CompileError>
    decreases toks.len() - pos,
{
    if pos < 0 || pos >= toks.len() {
        Err(CompileError::Syntax)
    } else if toks[pos] == Directive::EndConstant.text() {
        Ok((pos + 1, pool))
    } else if toks.len() - pos < 2 {
        Err(CompileError::Syntax)
    } else {
        match declared_value(toks[pos + 1]) {
            None => Err(CompileError::MalformedNumber),
            Some(v) => const_scan(toks, pos + 2, inserted(pool, toks[pos], v as i32)),
        }
    }
}

/// The optional `.constant` block: where the blocks after it start, and
/// the declared pool.
pub open spec fn const_block(toks: Seq<Seq<u8>>) -> Result<(int, Seq<(Seq<u8>, i32)>), CompileError> {
    if toks.len() > 0 && toks[0] == Directive::Constant.text() {
        const_scan(toks, 1, Seq::empty())
    } else {
        Ok((0, Seq::empty()))
    }
}

/// What reading the `.main` block at `pos` gives: the position after
/// `.end-main`, the image with the body appended, and the body's method
/// references; or the error.
pub open spec fn main_outcome(
    toks: Seq<Seq<u8>>,
    pos: int,
    main: Seq<i32>,
    consts: Seq<(Seq<u8>, i32)>,
    offset: int,
) -> Result<(int, Seq<i32>, Seq<(int, Seq<u8>)>), CompileError> {
    let has_var = pos + 1 < toks.len() && toks[pos + 1] == Directive::Var.text();
    let ve_opt = if has_var {
        first_at(toks, pos + 2, Directive::EndVar.text())
    } else {
        Some(pos)
    };
    match ve_opt {
        None => Err(CompileError::Syntax),
        Some(ve) => {
            let vars = if has_var {
                toks.subrange(pos + 2, ve)
            } else {
                Seq::empty()
            };
            if vars.len() > i32::MAX {
                Err(CompileError::Syntax)
            } else {
                let cx = BodyContext {
                    base: main.len() as int,
                    prev: if main.len() > 0 {
                        Some(main.last())
                    } else {
                        None
                    },
                    consts,
                    params: Seq::empty(),
                    vars,
                };
                match body_outcome(toks, ve + 1, Directive::EndMain, cx, offset) {
                    Err(e) => Err(e),
                    Ok((next, words, calls)) => Ok((next, main + words, calls)),
                }
            }
        },
    }
}

/// The `.main` and `.method` blocks from token `pos` on, read into the image
/// `main`, the method table `methods` and the method references `calls`.
pub open spec fn blocks_from(
    toks: Seq<Seq<u8>>,
    pos: int,
    main: Seq<i32>,
    methods: Seq<(Seq<u8>, i32)>,
    calls: Seq<(int, Seq<u8>)>,
    consts: Seq<(Seq<u8>, i32)>,
    offset: int,
    objref: bool,
) -> Result<(Seq<i32>, Seq<(Seq<u8>, i32)>, Seq<(int, Seq<u8>)>), CompileError>
    decreases toks.len() - pos,
{
    if pos < 0 || pos >= toks.len() {
        Ok((main, methods, calls))
    } else if toks[pos] == Directive::Main.text() {
        match main_outcome(toks, pos, main, consts, offset) {
            Err(e) => Err(e),
            Ok((next, main2, cs)) => if next <= pos || next > toks.len() {
                Err(CompileError::Syntax)
            } else {
                blocks_from(toks, next, main2, methods, calls + cs, consts, offset, objref)
            },
        }
    } else if toks[pos] == Directive::Method.text() {
        match method_outcome(toks, pos, main, methods, consts, offset, objref) {
            Err(e) => Err(e),
            Ok((next, main2, methods2, cs)) => if next <= pos || next > toks.len() {
                Err(CompileError::Syntax)
            } else {
                blocks_from(toks, next, main2, methods2, calls + cs, consts, offset, objref)
            },
        }
    } else {
        Err(CompileError::Syntax)
    }
}

/// Each method with the pool index it is given.
pub open spec fn method_index_list(
    pool: Seq<(Seq<u8>, i32)>,
    methods: Seq<(Seq<u8>, i32)>,
    offset: int,
) -> Seq<(Seq<u8>, int)> {
    Seq::new(
        methods.len(),
        |i: int| (methods[i].0, pool_after(pool, methods, offset, i as nat).len() as int),
    )
}

/// Some method is named `name`.
pub open spec fn named_method(mc: Seq<(Seq<u8>, int)>, name: Seq<u8>) -> bool {
    exists|i: int| 0 <= i < mc.len() && (#[trigger] mc[i]).0 == name
}

/// Position `i` is the first method named `name`.
pub open spec fn first_method(mc: Seq<(Seq<u8>, int)>, name: Seq<u8>, i: int) -> bool {
    0 <= i < mc.len() && mc[i].0 == name && forall|j: int| 0 <= j < i ==> (#[trigger] mc[j]).0 != name
}

/// The name of the method reference at slot `i`.
pub open spec fn call_at(calls: Seq<(int, Seq<u8>)>, i: int) -> Seq<u8> {
    calls[choose|k: int| 0 <= k < calls.len() && (#[trigger] calls[k]).0 == i].1
}

/// The pool index of the first method named `name`.
pub open spec fn method_pool_index(mc: Seq<(Seq<u8>, int)>, name: Seq<u8>) -> int {
    mc[choose|j: int| #[trigger] first_method(mc, name, j)].1
}

/// The image with each method reference replaced by the pool index of the
/// first method it names.
pub open spec fn patched_image(main: Seq<i32>, calls: Seq<(int, Seq<u8>)>, mc: Seq<(Seq<u8>, int)>) -> Seq<i32> {
    Seq::new(
        main.len(),
        |i: int|
            if exists|k: int| 0 <= k < calls.len() && (#[trigger] calls[k]).0 == i {
                method_pool_index(mc, call_at(calls, i)) as i32
            } else {
                main[i]
            },
    )
}

/// The terminator word, if any.
pub open spec fn terminator_words(terminator: Option<i32>) -> Seq<i32> {
    match terminator {
        Some(t) => seq![t],
        None => Seq::empty(),
    }
}

/// What assembling the tokens gives: the constant pool (the declared
/// constants, then each method's entry plus `offset`, in declaration order)
/// and the image (every block's words, label references resolved, method
/// references patched to pool indices, then the terminator); or the first
/// error.
pub open spec fn assembled(
    toks: Seq<Seq<u8>>,
    offset: int,
    terminator: Option<i32>,
    objref: bool,
) -> Result<(Seq<i32>, Seq<i32>), CompileError> {
    match const_block(toks) {
        Err(e) => Err(e),
        Ok((pos, pool)) => match blocks_from(
            toks,
            pos,
            Seq::empty(),
            Seq::empty(),
            Seq::empty(),
            pool,
            offset,
            objref,
        ) {
            Err(e) => Err(e),
            Ok((main, methods, calls)) => if exists|i: int|
                0 <= i < methods.len() && !entry_fits(#[trigger] methods[i], offset) {
                Err(CompileError::ImageTooLarge)
            } else {
                let mc = method_index_list(pool, methods, offset);
                if exists|i: int| 0 <= i < mc.len() && (#[trigger] mc[i]).1 > i32::MAX {
                    Err(CompileError::ImageTooLarge)
                } else if exists|k: int|
                    0 <= k < calls.len() && !named_method(mc, (#[trigger] calls[k]).1) {
                    Err(CompileError::UndefinedMethod)
                } else {
                    Ok(
                        (
                            pool_after(pool, methods, offset, methods.len()).map_values(
                                |p: (Seq<u8>, i32)| p.1,
                            ),
                            patched_image(main, calls, mc) + terminator_words(terminator),
                        ),
                    )
                }
            },
        },
    }
}

/// Tokens after the `.main` at `pos` are a plain body, with no `.var`
/// block, closed by `.end-main` at `e`.
pub open spec fn main_plain(toks: Seq<Seq<u8>>, pos: int, e: int) -> bool {
    (pos + 1 >= toks.len() || toks[pos + 1] != Directive::Var.text()) && plain_block(
        toks,
        pos + 1,
        e,
        Directive::EndMain,
    )
}

/// Assembles the `.main` block at `pos` (see `main_outcome`); returns the
/// position after `.end-main`.
pub fn process_main(
    tokens: &Vec<Vec<u8>>,
    pos: usize,
    constants: &Table,
    method_placeholders: &mut Vec<(usize, Vec<u8>)>,
    main_program: &mut Vec<i32>,
    program_start_offset: u32,
) -> (r: Result<usize, CompileError>)
    requires
        pos < tokens@.len(),
        forall|k: int|
            0 <= k < old(method_placeholders)@.len() ==> #[trigger] old(method_placeholders)@[k].0 < old(main_program)@.len(),
        forall|k: int, l: int|
            0 <= k < l < old(method_placeholders)@.len() ==> #[trigger] old(method_placeholders)@[k].0
                < #[trigger] old(method_placeholders)@[l].0,
    ensures
        old(main_program)@.len() <= final(main_program)@.len(),
        forall|i: int|
            0 <= i < old(main_program)@.len() ==> final(main_program)@[i] == old(main_program)@[i],
        forall|k: int|
            0 <= k < final(method_placeholders)@.len() ==> #[trigger] final(method_placeholders)@[k].0 < final(main_program)@.len(),
        forall|k: int, l: int|
            0 <= k < l < final(method_placeholders)@.len() ==> #[trigger] final(method_placeholders)@[k].0
                < #[trigger] final(method_placeholders)@[l].0,
        r matches Ok(next) ==> pos < next <= tokens@.len(),
        match main_outcome(
            views(tokens@),
            pos as int,
            old(main_program)@,
            table_entries(*constants),
            program_start_offset as int,
        ) {
            Ok((next, main2, calls)) => r == Ok::<usize, CompileError>(next as usize)
                && final(main_program)@ == main2 && pair_view(final(method_placeholders)@)
                == pair_view(old(method_placeholders)@) + calls && pos < next <= tokens@.len(),
            Err(e) => r == Err::<usize, CompileError>(e),
        },
        forall|e: int|
            #[trigger] main_plain(views(tokens@), pos as int, e) ==> {
                &&& r == Ok::<usize, CompileError>((e + 1) as usize)
                &&& final(method_placeholders)@ == old(method_placeholders)@
                &&& final(main_program)@.len() == old(main_program)@.len() + (e - pos - 1)
                &&& forall|i: int|
                    0 <= i < e - pos - 1 ==> plain_word(
                        views(tokens@)[pos + 1 + i],
                        #[trigger] final(main_program)@[old(main_program)@.len() + i] as int,
                    )
            },
{
    let ghost toks = views(tokens@);
    let n = tokens.len();
    let mut next = pos + 1;
    let mut variables: Vec<Vec<u8>> = Vec::new();
    let ghost mut ve: int = pos as int;
    proof {
        if next < n {
            assert(toks[next as int] == tokens@[next as int]@);
        }
        lemma_first_at(toks, pos + 2, Directive::EndVar.text());
    }
    let has_var = next < n && Directive::Var.matches(&tokens[next]);
    if has_var {
        match process_variables(tokens, next) {
            Ok((vars, after)) => {
                variables = vars;
                next = after;
            },
            Err(e) => {
                return Err(e);
            },
        }
        proof {
            ve = next - 1;
            assert(toks[ve] == tokens@[ve]@);
            assert(first_at(toks, pos + 2, Directive::EndVar.text()) == Some(ve)) by {
                if first_at(toks, pos + 2, Directive::EndVar.text()) is None {
                    assert(toks[ve] == Directive::EndVar.text());
                }
                let fa = first_at(toks, pos + 2, Directive::EndVar.text()).unwrap();
                if fa < ve {
                    assert(tokens@[fa]@ == toks[fa]);
                } else if ve < fa {
                    assert(toks[ve] == tokens@[ve]@);
                }
            }
            assert(views(variables@) =~= toks.subrange(pos + 2, ve)) by {
                assert(views(tokens@.subrange(pos + 2, ve)) =~= toks.subrange(pos + 2, ve));
            }
        }
    } else {
        proof {
            assert(views(variables@) =~= Seq::<Seq<u8>>::empty());
        }
    }
    assert(views(variables@).len() == variables@.len());
    if variables.len() > 0x7fff_ffff {
        return Err(CompileError::Syntax);
    }
    let empty: Vec<Vec<u8>> = Vec::new();
    proof {
        assert(views(empty@) =~= Seq::<Seq<u8>>::empty());
        assert(next == ve + 1);
        lemma_body_outcome_next(
            toks,
            next as int,
            Directive::EndMain,
            body_context(main_program@, *constants, empty@, variables@),
            program_start_offset as int,
        );
    }
    parse_method_body(
        tokens,
        next,
        Directive::EndMain,
        constants,
        method_placeholders,
        &empty,
        &variables,
        main_program,
        program_start_offset,
    )
}

/// Assembles JAS source into an image whose labels resolve against
/// `program_start_offset`. Method parameters are numbered from 0 and counted
/// as declared.
pub fn compile(source: &str, program_start_offset: u32) -> (r: Result<ProcessorInfo, CompileError>)
    ensures
        r matches Ok(info) ==> (split_tokens_of(source).len() == 0 ==> info.main_program@.len()
            == 0 && info.constants@.len() == 0),
        match assembled(split_tokens_of(source), program_start_offset as int, None, false) {
            Ok((c, m)) => (r matches Ok(info) && info.constants@ == c && info.main_program@ == m),
            Err(e) => r == Err::<ProcessorInfo, CompileError>(e),
        },
{
    assemble(source, program_start_offset, None, false)
}

/// Assembles JAS source into an image to run: the caller's object reference
/// is each method's parameter 0 (counted in its prologue, the named
/// parameters numbered from 1), and `terminator`, if given, is appended to
/// the image for a driver to stop on.
pub fn compile_with_terminator(source: &str, program_start_offset: u32, terminator: Option<i32>) -> (r: Result<ProcessorInfo, CompileError>)
    ensures
        r matches Ok(info) ==> (terminator matches Some(t) ==> info.main_program@.len() > 0
            && info.main_program@.last() == t),
        r matches Ok(info) ==> (split_tokens_of(source).len() == 0 ==> info.constants@.len() == 0
            && info.main_program@.len() == (if terminator is Some {
            1int
        } else {
            0
        })),
        match assembled(split_tokens_of(source), program_start_offset as int, terminator, true) {
            Ok((c, m)) => (r matches Ok(info) && info.constants@ == c && info.main_program@ == m),
            Err(e) => r == Err::<ProcessorInfo, CompileError>(e),
        },
{
    assemble(source, program_start_offset, terminator, true)
}

/// Assembles JAS source: an optional `.constant` block of `name value`
/// pairs, then `.main` and `.method` blocks, as `assembled` says: the pool
/// holds the declared constants in order, then each method's entry address;
/// `terminator`, if given, is appended to the image.
#[verifier::rlimit(100)]
pub fn assemble(source: &str, program_start_offset: u32, terminator: Option<i32>, objref_slot: bool) -> (r: Result<ProcessorInfo, CompileError>)
    ensures
        match assembled(split_tokens_of(source), program_start_offset as int, terminator, objref_slot) {
            Ok((c, m)) => (r matches Ok(info) && info.constants@ == c && info.main_program@ == m),
            Err(e) => r == Err::<ProcessorInfo, CompileError>(e),
        },
{
    let tokens = split(source.as_bytes(), false);
    let ghost toks = views(tokens@);
    assert(toks == split_tokens_of(source));
    let n = tokens.len();
    let mut pos: usize = 0;
    let mut constants = table_new();
    let mut methods = table_new();
    let mut method_placeholders: Vec<(usize, Vec<u8>)> = Vec::new();
    let mut main_program: Vec<i32> = Vec::new();

    if pos < n && Directive::Constant.matches(&tokens[pos]) {
        pos += 1;
        assert(toks[0] == tokens@[0]@);
        assert(table_entries(constants) =~= Seq::<(Seq<u8>, i32)>::empty());
        while pos < n && !Directive::EndConstant.matches(&tokens[pos])
            invariant
                n == tokens@.len(),
                1 <= pos <= n,
                toks == split_tokens_of(source),
                toks == views(tokens@),
                toks[0] == Directive::Constant.text(),
                const_block(toks) == const_scan(toks, pos as int, table_entries(constants)),
            decreases n - pos,
        {
            assert(toks[pos as int] == tokens@[pos as int]@);
            if n - pos < 2 {
                return Err(CompileError::Syntax);
            }
            let name = copy_bytes(&tokens[pos]);
            assert(toks[pos + 1] == tokens@[pos + 1]@);
            match parse_declared_value(&tokens[pos + 1]) {
                Some(value) => {
                    table_insert(&mut constants, name, value);
                },
                None => {
                    return Err(CompileError::MalformedNumber);
                },
            }
            pos += 2;
        }
        if pos >= n {
            return Err(CompileError::Syntax);
        }
        assert(toks[pos as int] == tokens@[pos as int]@);
        pos += 1;
    } else {
        proof {
            if n > 0 {
                assert(toks[0] == tokens@[0]@);
            }
            assert(table_entries(constants) =~= Seq::<(Seq<u8>, i32)>::empty());
        }
    }
    let ghost pos0 = pos as int;
    let ghost pool = table_entries(constants);
    let ghost off = program_start_offset as int;
    assert(const_block(toks) == Ok::<(int, Seq<(Seq<u8>, i32)>), CompileError>((pos0, pool)));
    assert(main_program@ =~= Seq::<i32>::empty());
    assert(table_entries(methods) =~= Seq::<(Seq<u8>, i32)>::empty());
    assert(pair_view(method_placeholders@) =~= Seq::<(int, Seq<u8>)>::empty());

    while pos < n
        invariant
            n == tokens@.len(),
            pos <= n,
            forall|k: int|
                0 <= k < method_placeholders@.len() ==> #[trigger] method_placeholders@[k].0 < main_program@.len(),
            forall|k: int, l: int|
                0 <= k < l < method_placeholders@.len() ==> #[trigger] method_placeholders@[k].0
                    < #[trigger] method_placeholders@[l].0,
            toks == views(tokens@),
            toks == split_tokens_of(source),
            const_block(toks) == Ok::<(int, Seq<(Seq<u8>, i32)>), CompileError>((pos0, pool)),
            table_entries(constants) == pool,
            off == program_start_offset as int,
            blocks_from(toks, pos0, Seq::empty(), Seq::empty(), Seq::empty(), pool, off, objref_slot)
                == blocks_from(
                toks,
                pos as int,
                main_program@,
                table_entries(methods),
                pair_view(method_placeholders@),
                pool,
                off,
                objref_slot,
            ),
        decreases n - pos,
    {
        let ghost p0 = pos as int;
        let ghost m0 = main_program@;
        let ghost c0 = pair_view(method_placeholders@);
        let ghost ms0 = table_entries(methods);
        assert(toks[p0] == tokens@[p0]@);
        if Directive::Main.matches(&tokens[pos]) {
            let block = process_main(
                &tokens,
                pos,
                &constants,
                &mut method_placeholders,
                &mut main_program,
                program_start_offset,
            );
            match block {
                Ok(p) => {
                    pos = p;
                },
                Err(e) => {
                    return Err(e);
                },
            }
        } else if Directive::Method.matches(&tokens[pos]) {
            let block = process_method(
                &tokens,
                pos,
                program_start_offset,
                objref_slot,
                &constants,
                &mut methods,
                &mut method_placeholders,
                &mut main_program,
            );
            match block {
                Ok(p) => {
                    pos = p;
                },
                Err(e) => {
                    return Err(e);
                },
            }
        } else {
            return Err(CompileError::Syntax);
        }
    }
    let ghost main1 = main_program@;
    let ghost methods1 = table_entries(methods);
    let ghost calls1 = pair_view(method_placeholders@);
    assert(blocks_from(toks, pos0, Seq::empty(), Seq::empty(), Seq::empty(), pool, off, objref_slot)
        == Ok::<(Seq<i32>, Seq<(Seq<u8>, i32)>, Seq<(int, Seq<u8>)>), CompileError>((main1, methods1, calls1)));

    // Add methods to constants
    let method_constants = match add_methods_to_constants(&mut constants, &methods, program_start_offset) {
        Ok(v) => v,
        Err(e) => {
            return Err(e);
        },
    };
    let ghost mc = method_index_list(pool, methods1, off);
    proof {
        assert forall|i: int| 0 <= i < mc.len() implies #[trigger] mc[i] == (method_constants@[i].0@, method_constants@[i].1 as int) by {}
    }
    if !indices_fit(&method_constants) {
        proof {
            let i = choose|i: int| 0 <= i < method_constants@.len() && !(#[trigger] method_constants@[i].1 <= i32::MAX);
            assert(mc[i].1 > i32::MAX);
        }
        return Err(CompileError::ImageTooLarge);
    }
    proof {
        assert forall|name: Seq<u8>| #[trigger] named_method(mc, name) == method_known(method_constants@, name) by {
            if named_method(mc, name) {
                let i = choose|i: int| 0 <= i < mc.len() && (#[trigger] mc[i]).0 == name;
                assert(method_constants@[i].0@ == name);
            }
            if method_known(method_constants@, name) {
                let i = choose|i: int| 0 <= i < method_constants@.len() && (#[trigger] method_constants@[i]).0@ == name;
                assert(mc[i].0 == name);
            }
        }
        assert forall|k: int| 0 <= k < calls1.len() implies (#[trigger] calls1[k]).1 == method_placeholders@[k].1@ by {}
    }

    // Replace method placeholders
    let ghost unpatched = main_program@;
    let patched = patch_method_placeholders(&mut main_program, &method_placeholders, &method_constants);
    if patched.is_err() {
        proof {
            let k = choose|k: int| 0 <= k < method_placeholders@.len() && !method_known(
                method_constants@,
                (#[trigger] method_placeholders@[k]).1@,
            );
            assert(!named_method(mc, calls1[k].1));
        }
        return Err(CompileError::UndefinedMethod);
    }
    proof {
        assert forall|k: int| 0 <= k < calls1.len() implies named_method(mc, (#[trigger] calls1[k]).1) by {
            assert(method_known(method_constants@, method_placeholders@[k].1@));
        }
        assert forall|i: int| 0 <= i < main_program@.len() implies main_program@[i] == patched_image(main1, calls1, mc)[i] by {
            if exists|k: int| 0 <= k < calls1.len() && (#[trigger] calls1[k]).0 == i {
                let k1 = choose|k: int| 0 <= k < calls1.len() && (#[trigger] calls1[k]).0 == i;
                assert(calls1[k1] == (method_placeholders@[k1].0 as int, method_placeholders@[k1].1@));
                let name = calls1[k1].1;
                assert(call_at(calls1, i) == name);
                assert(is_method_index(method_constants@, name, main_program@[i] as int));
                let j0 = choose|j: int|
                    0 <= j < method_constants@.len() && (#[trigger] method_constants@[j]).0@ == name
                        && method_constants@[j].1 == main_program@[i] && forall|l: int|
                        0 <= l < j ==> (#[trigger] method_constants@[l]).0@ != name;
                assert(first_method(mc, name, j0));
                let j1 = choose|j: int| #[trigger] first_method(mc, name, j);
                if j1 < j0 {
                    assert(mc[j1].0 == name);
                } else if j0 < j1 {
                    assert(mc[j0].0 == name);
                }
            } else {
                assert forall|k: int| 0 <= k < method_placeholders@.len() implies #[trigger] method_placeholders@[k].0 != i by {
                    assert(calls1[k] == (method_placeholders@[k].0 as int, method_placeholders@[k].1@));
                }
            }
        }
        assert(main_program@ =~= patched_image(main1, calls1, mc));
    }

    match terminator {
        Some(t) => {
            main_program.push(t);
        },
        None => {},
    }

    let info = ProcessorInfo { constants: table_values(&constants), main_program };
    proof {
        assert(info.main_program@ =~= patched_image(main1, calls1, mc) + terminator_words(terminator));
    }
    Ok(info)
}

/// The tokens of JAS source.
pub open spec fn split_tokens_of(source: &str) -> Seq<Seq<u8>> {
    crate::text::split_tokens(source.spec_bytes(), false)
}

} // verus!

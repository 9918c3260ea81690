//! The IJVM instruction set.
use vstd::prelude::*;
use vstd::string::StringSliceAdditionalSpecFns;

verus! {

/// An IJVM opcode.
#[allow(non_camel_case_types)]
#[derive(Clone, Copy, Debug, PartialEq, Eq, Structural)]
pub enum IjvmCommand {
    BIPUSH,
    DUP,
    GOTO,
    IADD,
    IAND,
    IFEQ,
    IFLT,
    IF_ICMPEQ,
    IINC,
    ILOAD,
    INVOKEVIRTUAL,
    IOR,
    IRETURN,
    ISTORE,
    ISUB,
    LDC_W,
    NOP,
    POP,
    SWAP,
    WIDE,
}

/// Every opcode, in the order of their names.
pub open spec fn all_commands() -> Seq<IjvmCommand> {
    seq![IjvmCommand::BIPUSH, IjvmCommand::DUP, IjvmCommand::GOTO, IjvmCommand::IADD, IjvmCommand::IAND, IjvmCommand::IFEQ, IjvmCommand::IFLT, IjvmCommand::IF_ICMPEQ, IjvmCommand::IINC, IjvmCommand::ILOAD, IjvmCommand::INVOKEVIRTUAL, IjvmCommand::IOR, IjvmCommand::IRETURN, IjvmCommand::ISTORE, IjvmCommand::ISUB, IjvmCommand::LDC_W, IjvmCommand::NOP, IjvmCommand::POP, IjvmCommand::SWAP, IjvmCommand::WIDE]
}

/// The first of `cs` whose mnemonic is `t`.
pub open spec fn command_named_in(cs: Seq<IjvmCommand>, t: Seq<u8>) -> Option<IjvmCommand>
    decreases cs.len(),
{
    if cs.len() == 0 {
        None
    } else if cs[0].mnemonic() == t {
        Some(cs[0])
    } else {
        command_named_in(cs.drop_first(), t)
    }
}

/// The opcode whose mnemonic is `t`.
pub open spec fn command_named(t: Seq<u8>) -> Option<IjvmCommand> {
    command_named_in(all_commands(), t)
}

impl IjvmCommand {
    /// The byte that encodes this opcode.
    pub open spec fn spec_opcode(self) -> int {
        match self {
            IjvmCommand::BIPUSH => 0x10,
            IjvmCommand::DUP => 0x59,
            IjvmCommand::GOTO => 0xA7,
            IjvmCommand::IADD => 0x60,
            IjvmCommand::IAND => 0x7E,
            IjvmCommand::IFEQ => 0x99,
            IjvmCommand::IFLT => 0x9B,
            IjvmCommand::IF_ICMPEQ => 0x9F,
            IjvmCommand::IINC => 0x84,
            IjvmCommand::ILOAD => 0x15,
            IjvmCommand::INVOKEVIRTUAL => 0xB6,
            IjvmCommand::IOR => 0x80,
            IjvmCommand::IRETURN => 0xAC,
            IjvmCommand::ISTORE => 0x36,
            IjvmCommand::ISUB => 0x64,
            IjvmCommand::LDC_W => 0x13,
            IjvmCommand::NOP => 0x00,
            IjvmCommand::POP => 0x57,
            IjvmCommand::SWAP => 0x5F,
            IjvmCommand::WIDE => 0xC4,
        }
    }

    /// The mnemonic, as ASCII bytes.
    pub open spec fn mnemonic(self) -> Seq<u8> {
        match self {
            // BIPUSH
            IjvmCommand::BIPUSH => seq![66, 73, 80, 85, 83, 72],
            // DUP
            IjvmCommand::DUP => seq![68, 85, 80],
            // GOTO
            IjvmCommand::GOTO => seq![71, 79, 84, 79],
            // IADD
            IjvmCommand::IADD => seq![73, 65, 68, 68],
            // IAND
            IjvmCommand::IAND => seq![73, 65, 78, 68],
            // IFEQ
            IjvmCommand::IFEQ => seq![73, 70, 69, 81],
            // IFLT
            IjvmCommand::IFLT => seq![73, 70, 76, 84],
            // IF_ICMPEQ
            IjvmCommand::IF_ICMPEQ => seq![73, 70, 95, 73, 67, 77, 80, 69, 81],
            // IINC
            IjvmCommand::IINC => seq![73, 73, 78, 67],
            // ILOAD
            IjvmCommand::ILOAD => seq![73, 76, 79, 65, 68],
            // INVOKEVIRTUAL
            IjvmCommand::INVOKEVIRTUAL => seq![73, 78, 86, 79, 75, 69, 86, 73, 82, 84, 85, 65, 76],
            // IOR
            IjvmCommand::IOR => seq![73, 79, 82],
            // IRETURN
            IjvmCommand::IRETURN => seq![73, 82, 69, 84, 85, 82, 78],
            // ISTORE
            IjvmCommand::ISTORE => seq![73, 83, 84, 79, 82, 69],
            // ISUB
            IjvmCommand::ISUB => seq![73, 83, 85, 66],
            // LDC_W
            IjvmCommand::LDC_W => seq![76, 68, 67, 95, 87],
            // NOP
            IjvmCommand::NOP => seq![78, 79, 80],
            // POP
            IjvmCommand::POP => seq![80, 79, 80],
            // SWAP
            IjvmCommand::SWAP => seq![83, 87, 65, 80],
            // WIDE
            IjvmCommand::WIDE => seq![87, 73, 68, 69],
        }
    }

    pub fn opcode(&self) -> (r: i32)
        ensures
            r == self.spec_opcode(),
    {
        match self {
            IjvmCommand::BIPUSH => 0x10,
            IjvmCommand::DUP => 0x59,
            IjvmCommand::GOTO => 0xA7,
            IjvmCommand::IADD => 0x60,
            IjvmCommand::IAND => 0x7E,
            IjvmCommand::IFEQ => 0x99,
            IjvmCommand::IFLT => 0x9B,
            IjvmCommand::IF_ICMPEQ => 0x9F,
            IjvmCommand::IINC => 0x84,
            IjvmCommand::ILOAD => 0x15,
            IjvmCommand::INVOKEVIRTUAL => 0xB6,
            IjvmCommand::IOR => 0x80,
            IjvmCommand::IRETURN => 0xAC,
            IjvmCommand::ISTORE => 0x36,
            IjvmCommand::ISUB => 0x64,
            IjvmCommand::LDC_W => 0x13,
            IjvmCommand::NOP => 0x00,
            IjvmCommand::POP => 0x57,
            IjvmCommand::SWAP => 0x5F,
            IjvmCommand::WIDE => 0xC4,
        }
    }

    /// The mnemonic's bytes.
    pub fn mnemonic_bytes(&self) -> (r: Vec<u8>)
        ensures
            r@ == self.mnemonic(),
    {
        let r: Vec<u8> = match self {
            IjvmCommand::BIPUSH => vec![66, 73, 80, 85, 83, 72],
            IjvmCommand::DUP => vec![68, 85, 80],
            IjvmCommand::GOTO => vec![71, 79, 84, 79],
            IjvmCommand::IADD => vec![73, 65, 68, 68],
            IjvmCommand::IAND => vec![73, 65, 78, 68],
            IjvmCommand::IFEQ => vec![73, 70, 69, 81],
            IjvmCommand::IFLT => vec![73, 70, 76, 84],
            IjvmCommand::IF_ICMPEQ => vec![73, 70, 95, 73, 67, 77, 80, 69, 81],
            IjvmCommand::IINC => vec![73, 73, 78, 67],
            IjvmCommand::ILOAD => vec![73, 76, 79, 65, 68],
            IjvmCommand::INVOKEVIRTUAL => vec![73, 78, 86, 79, 75, 69, 86, 73, 82, 84, 85, 65, 76],
            IjvmCommand::IOR => vec![73, 79, 82],
            IjvmCommand::IRETURN => vec![73, 82, 69, 84, 85, 82, 78],
            IjvmCommand::ISTORE => vec![73, 83, 84, 79, 82, 69],
            IjvmCommand::ISUB => vec![73, 83, 85, 66],
            IjvmCommand::LDC_W => vec![76, 68, 67, 95, 87],
            IjvmCommand::NOP => vec![78, 79, 80],
            IjvmCommand::POP => vec![80, 79, 80],
            IjvmCommand::SWAP => vec![83, 87, 65, 80],
            IjvmCommand::WIDE => vec![87, 73, 68, 69],
        };
        assert(r@ =~= self.mnemonic());
        r
    }

    /// Every opcode, in the order of their names.
    pub fn all() -> (r: Vec<IjvmCommand>)
        ensures
            r@ == all_commands(),
    {
        let r = vec![IjvmCommand::BIPUSH, IjvmCommand::DUP, IjvmCommand::GOTO, IjvmCommand::IADD, IjvmCommand::IAND, IjvmCommand::IFEQ, IjvmCommand::IFLT, IjvmCommand::IF_ICMPEQ, IjvmCommand::IINC, IjvmCommand::ILOAD, IjvmCommand::INVOKEVIRTUAL, IjvmCommand::IOR, IjvmCommand::IRETURN, IjvmCommand::ISTORE, IjvmCommand::ISUB, IjvmCommand::LDC_W, IjvmCommand::NOP, IjvmCommand::POP, IjvmCommand::SWAP, IjvmCommand::WIDE];
        assert(r@ =~= all_commands());
        r
    }

    /// The opcode whose mnemonic is `name`, if any.
    pub fn parse(name: &str) -> (r: Option<IjvmCommand>)
        ensures
            r matches Some(c) ==> c.mnemonic() == name.spec_bytes(),
            r is None ==> forall|c: IjvmCommand| c.mnemonic() != name.spec_bytes(),
    {
        IjvmCommand::parse_bytes(name.as_bytes())
    }

    /// The opcode whose mnemonic is `name`, if any.
    pub fn parse_bytes(name: &[u8]) -> (r: Option<IjvmCommand>)
        ensures
            r == command_named(name@),
            r matches Some(c) ==> c.mnemonic() == name@,
            r is None ==> forall|c: IjvmCommand| c.mnemonic() != name@,
    {
        let commands = IjvmCommand::all();
        let mut i: usize = 0;
        assert(all_commands().subrange(0, 20) =~= all_commands());
        while i < commands.len()
            invariant
                i <= commands@.len(),
                commands@ == all_commands(),
                forall|j: int| 0 <= j < i ==> (#[trigger] commands@[j]).mnemonic() != name@,
                command_named(name@) == command_named_in(all_commands().subrange(i as int, 20), name@),
            decreases commands@.len() - i,
        {
            let ghost rest = all_commands().subrange(i as int, 20);
            assert(rest.drop_first() =~= all_commands().subrange(i + 1, 20));
            assert(rest[0] == commands@[i as int]);
            let candidate = commands[i].mnemonic_bytes();
            if bytes_equal(candidate.as_slice(), name) {
                return Some(commands[i]);
            }
            i += 1;
        }
        assert(all_commands().subrange(20, 20).len() == 0);
        proof {
            assert forall|c: IjvmCommand| c.mnemonic() != name@ by {
                assert(all_commands().contains(c)) by {
                    match c {
                        IjvmCommand::BIPUSH => assert(all_commands()[0] == c),
                        IjvmCommand::DUP => assert(all_commands()[1] == c),
                        IjvmCommand::GOTO => assert(all_commands()[2] == c),
                        IjvmCommand::IADD => assert(all_commands()[3] == c),
                        IjvmCommand::IAND => assert(all_commands()[4] == c),
                        IjvmCommand::IFEQ => assert(all_commands()[5] == c),
                        IjvmCommand::IFLT => assert(all_commands()[6] == c),
                        IjvmCommand::IF_ICMPEQ => assert(all_commands()[7] == c),
                        IjvmCommand::IINC => assert(all_commands()[8] == c),
                        IjvmCommand::ILOAD => assert(all_commands()[9] == c),
                        IjvmCommand::INVOKEVIRTUAL => assert(all_commands()[10] == c),
                        IjvmCommand::IOR => assert(all_commands()[11] == c),
                        IjvmCommand::IRETURN => assert(all_commands()[12] == c),
                        IjvmCommand::ISTORE => assert(all_commands()[13] == c),
                        IjvmCommand::ISUB => assert(all_commands()[14] == c),
                        IjvmCommand::LDC_W => assert(all_commands()[15] == c),
                        IjvmCommand::NOP => assert(all_commands()[16] == c),
                        IjvmCommand::POP => assert(all_commands()[17] == c),
                        IjvmCommand::SWAP => assert(all_commands()[18] == c),
                        IjvmCommand::WIDE => assert(all_commands()[19] == c),
                    }
                }
            }
        }
        None
    }
}

/// The first match among `cs` has mnemonic `t`; no match means none has.
pub proof fn lemma_command_named_in(cs: Seq<IjvmCommand>, t: Seq<u8>)
    ensures
        command_named_in(cs, t) matches Some(c) ==> c.mnemonic() == t,
        command_named_in(cs, t) is None ==> forall|i: int| 0 <= i < cs.len() ==> (#[trigger] cs[i]).mnemonic() != t,
    decreases cs.len(),
{
    if cs.len() > 0 && cs[0].mnemonic() != t {
        lemma_command_named_in(cs.drop_first(), t);
        if command_named_in(cs, t) is None {
            assert forall|i: int| 0 <= i < cs.len() implies (#[trigger] cs[i]).mnemonic() != t by {
                if i > 0 {
                    assert(cs[i] == cs.drop_first()[i - 1]);
                }
            }
        }
    }
}

/// Every opcode is listed.
pub proof fn lemma_all_commands(c: IjvmCommand)
    ensures
        all_commands().contains(c),
{
    match c {
        IjvmCommand::BIPUSH => assert(all_commands()[0] == c),
        IjvmCommand::DUP => assert(all_commands()[1] == c),
        IjvmCommand::GOTO => assert(all_commands()[2] == c),
        IjvmCommand::IADD => assert(all_commands()[3] == c),
        IjvmCommand::IAND => assert(all_commands()[4] == c),
        IjvmCommand::IFEQ => assert(all_commands()[5] == c),
        IjvmCommand::IFLT => assert(all_commands()[6] == c),
        IjvmCommand::IF_ICMPEQ => assert(all_commands()[7] == c),
        IjvmCommand::IINC => assert(all_commands()[8] == c),
        IjvmCommand::ILOAD => assert(all_commands()[9] == c),
        IjvmCommand::INVOKEVIRTUAL => assert(all_commands()[10] == c),
        IjvmCommand::IOR => assert(all_commands()[11] == c),
        IjvmCommand::IRETURN => assert(all_commands()[12] == c),
        IjvmCommand::ISTORE => assert(all_commands()[13] == c),
        IjvmCommand::ISUB => assert(all_commands()[14] == c),
        IjvmCommand::LDC_W => assert(all_commands()[15] == c),
        IjvmCommand::NOP => assert(all_commands()[16] == c),
        IjvmCommand::POP => assert(all_commands()[17] == c),
        IjvmCommand::SWAP => assert(all_commands()[18] == c),
        IjvmCommand::WIDE => assert(all_commands()[19] == c),
    }
}

/// An opcode is a byte.
pub proof fn lemma_opcode_range(c: IjvmCommand)
    ensures
        0 <= c.spec_opcode() < 256,
{
    match c {
        _ => {},
    }
}

/// The opcode named `t` has mnemonic `t`, and there is one exactly when some
/// opcode has that mnemonic.
pub proof fn lemma_command_named(t: Seq<u8>)
    ensures
        command_named(t) matches Some(c) ==> c.mnemonic() == t,
        command_named(t) is Some <==> exists|c: IjvmCommand| #[trigger] c.mnemonic() == t,
{
    lemma_command_named_in(all_commands(), t);
    if command_named(t) is None {
        assert forall|c: IjvmCommand| #[trigger] c.mnemonic() != t by {
            lemma_all_commands(c);
        }
    }
}

/// Byte-wise equality.
pub fn bytes_equal(a: &[u8], b: &[u8]) -> (r: bool)
    ensures
        r == (a@ == b@),
{
    if a.len() != b.len() {
        return false;
    }
    let mut i: usize = 0;
    while i < a.len()
        invariant
            a@.len() == b@.len(),
            i <= a@.len(),
            forall|j: int| 0 <= j < i ==> a@[j] == b@[j],
        decreases a@.len() - i,
    {
        if a[i] != b[i] {
            return false;
        }
        i += 1;
    }
    assert(a@ =~= b@);
    true
}

} // verus!

//! The instruction table: the closed set of opcodes, their byte encoding,
//! their assembler mnemonics, and their operand and stack metadata.
//!
//! The opcode byte values are a stable wire format: existing values are
//! never reassigned, new opcodes append at the next free value.

use vstd::prelude::*;

verus! {

/// One instruction kind of the machine.
#[derive(Clone, Copy, Debug, PartialEq, Eq, Structural)]
pub enum Inst {
    Nop,
    Print,
    Halt,
    Push,
    Dup,
    Pop,
    Swap,
    Add,
    Sub,
    Mul,
    Div,
    Mod,
    Eq,
    Lt,
    Lte,
    Gt,
    Gte,
    Jz,
    Jnz,
    Jump,
    Call,
    Ret,
    CPush,
    CPop,
    CDup,
}

impl Inst {
    /// The opcode byte of this instruction on the wire.
    pub open spec fn spec_opcode(self) -> u8 {
        match self {
            Inst::Nop => 0,
            Inst::Print => 1,
            Inst::Halt => 2,
            Inst::Push => 3,
            Inst::Dup => 4,
            Inst::Pop => 5,
            Inst::Swap => 6,
            Inst::Add => 7,
            Inst::Sub => 8,
            Inst::Mul => 9,
            Inst::Div => 10,
            Inst::Mod => 11,
            Inst::Eq => 12,
            Inst::Lt => 13,
            Inst::Lte => 14,
            Inst::Gt => 15,
            Inst::Gte => 16,
            Inst::Jz => 17,
            Inst::Jnz => 18,
            Inst::Jump => 19,
            Inst::Call => 20,
            Inst::Ret => 21,
            Inst::CPush => 22,
            Inst::CPop => 23,
            Inst::CDup => 24,
        }
    }

    /// The instruction a byte decodes to, if any: the inverse of
    /// [`Self::spec_opcode`], `None` outside the assigned range.
    pub open spec fn spec_decode(b: u8) -> Option<Inst> {
        match b {
            0 => Some(Inst::Nop),
            1 => Some(Inst::Print),
            2 => Some(Inst::Halt),
            3 => Some(Inst::Push),
            4 => Some(Inst::Dup),
            5 => Some(Inst::Pop),
            6 => Some(Inst::Swap),
            7 => Some(Inst::Add),
            8 => Some(Inst::Sub),
            9 => Some(Inst::Mul),
            10 => Some(Inst::Div),
            11 => Some(Inst::Mod),
            12 => Some(Inst::Eq),
            13 => Some(Inst::Lt),
            14 => Some(Inst::Lte),
            15 => Some(Inst::Gt),
            16 => Some(Inst::Gte),
            17 => Some(Inst::Jz),
            18 => Some(Inst::Jnz),
            19 => Some(Inst::Jump),
            20 => Some(Inst::Call),
            21 => Some(Inst::Ret),
            22 => Some(Inst::CPush),
            23 => Some(Inst::CPop),
            24 => Some(Inst::CDup),
            _ => None,
        }
    }

    /// The assembler mnemonic of this instruction, as its ASCII bytes.
    pub open spec fn spec_mnemonic(self) -> Seq<u8> {
        match self {
            Inst::Nop => seq![110, 111, 112],
            Inst::Print => seq![112, 114, 105, 110, 116],
            Inst::Halt => seq![104, 97, 108, 116],
            Inst::Push => seq![112, 117, 115, 104],
            Inst::Dup => seq![100, 117, 112],
            Inst::Pop => seq![112, 111, 112],
            Inst::Swap => seq![115, 119, 97, 112],
            Inst::Add => seq![97, 100, 100],
            Inst::Sub => seq![115, 117, 98],
            Inst::Mul => seq![109, 117, 108],
            Inst::Div => seq![100, 105, 118],
            Inst::Mod => seq![109, 111, 100],
            Inst::Eq => seq![101, 113],
            Inst::Lt => seq![108, 116],
            Inst::Lte => seq![108, 116, 101],
            Inst::Gt => seq![103, 116],
            Inst::Gte => seq![103, 116, 101],
            Inst::Jz => seq![106, 122],
            Inst::Jnz => seq![106, 110, 122],
            Inst::Jump => seq![106, 117, 109, 112],
            Inst::Call => seq![99, 97, 108, 108],
            Inst::Ret => seq![114, 101, 116],
            Inst::CPush => seq![99, 112, 117, 115, 104],
            Inst::CPop => seq![99, 112, 111, 112],
            Inst::CDup => seq![99, 100, 117, 112],
        }
    }

    /// The instruction whose mnemonic is exactly `t`, if any: a
    /// case-sensitive exact-match lookup.
    pub open spec fn spec_lookup(t: Seq<u8>) -> Option<Inst> {
        if t == Inst::Nop.spec_mnemonic() {
            Some(Inst::Nop)
        } else if t == Inst::Print.spec_mnemonic() {
            Some(Inst::Print)
        } else if t == Inst::Halt.spec_mnemonic() {
            Some(Inst::Halt)
        } else if t == Inst::Push.spec_mnemonic() {
            Some(Inst::Push)
        } else if t == Inst::Dup.spec_mnemonic() {
            Some(Inst::Dup)
        } else if t == Inst::Pop.spec_mnemonic() {
            Some(Inst::Pop)
        } else if t == Inst::Swap.spec_mnemonic() {
            Some(Inst::Swap)
        } else if t == Inst::Add.spec_mnemonic() {
            Some(Inst::Add)
        } else if t == Inst::Sub.spec_mnemonic() {
            Some(Inst::Sub)
        } else if t == Inst::Mul.spec_mnemonic() {
            Some(Inst::Mul)
        } else if t == Inst::Div.spec_mnemonic() {
            Some(Inst::Div)
        } else if t == Inst::Mod.spec_mnemonic() {
            Some(Inst::Mod)
        } else if t == Inst::Eq.spec_mnemonic() {
            Some(Inst::Eq)
        } else if t == Inst::Lt.spec_mnemonic() {
            Some(Inst::Lt)
        } else if t == Inst::Lte.spec_mnemonic() {
            Some(Inst::Lte)
        } else if t == Inst::Gt.spec_mnemonic() {
            Some(Inst::Gt)
        } else if t == Inst::Gte.spec_mnemonic() {
            Some(Inst::Gte)
        } else if t == Inst::Jz.spec_mnemonic() {
            Some(Inst::Jz)
        } else if t == Inst::Jnz.spec_mnemonic() {
            Some(Inst::Jnz)
        } else if t == Inst::Jump.spec_mnemonic() {
            Some(Inst::Jump)
        } else if t == Inst::Call.spec_mnemonic() {
            Some(Inst::Call)
        } else if t == Inst::Ret.spec_mnemonic() {
            Some(Inst::Ret)
        } else if t == Inst::CPush.spec_mnemonic() {
            Some(Inst::CPush)
        } else if t == Inst::CPop.spec_mnemonic() {
            Some(Inst::CPop)
        } else if t == Inst::CDup.spec_mnemonic() {
            Some(Inst::CDup)
        } else {
            None
        }
    }

    /// How many inline 4-byte operands follow the opcode byte: 0 or 1.
    pub open spec fn spec_operands(self) -> u8 {
        match self {
            Inst::Push | Inst::Jz | Inst::Jnz | Inst::Jump | Inst::Call => 1,
            _ => 0,
        }
    }

    /// How many operand-stack values the instruction pops.
    pub open spec fn spec_stack_args(self) -> u8 {
        match self {
            Inst::Print | Inst::Dup | Inst::Pop | Inst::Jz | Inst::Jnz | Inst::CPush => 1,
            Inst::Swap | Inst::Add | Inst::Sub | Inst::Mul | Inst::Div | Inst::Mod | Inst::Eq
                | Inst::Lt | Inst::Lte | Inst::Gt | Inst::Gte => 2,
            _ => 0,
        }
    }

    /// The net change of operand-stack depth: pushes minus pops.
    pub open spec fn spec_effect(self) -> i8 {
        match self {
            Inst::Push | Inst::Dup | Inst::CPop | Inst::CDup => 1i8,
            Inst::Print | Inst::Pop | Inst::Add | Inst::Sub | Inst::Mul | Inst::Div | Inst::Mod
                | Inst::Eq | Inst::Lt | Inst::Lte | Inst::Gt | Inst::Gte | Inst::Jz | Inst::Jnz
                | Inst::CPush => -1i8,
            _ => 0i8,
        }
    }

    /// The opcode byte of this instruction.
    pub fn to_u8(self) -> (b: u8)
        ensures
            b == self.spec_opcode(),
    {
        match self {
            Inst::Nop => 0,
            Inst::Print => 1,
            Inst::Halt => 2,
            Inst::Push => 3,
            Inst::Dup => 4,
            Inst::Pop => 5,
            Inst::Swap => 6,
            Inst::Add => 7,
            Inst::Sub => 8,
            Inst::Mul => 9,
            Inst::Div => 10,
            Inst::Mod => 11,
            Inst::Eq => 12,
            Inst::Lt => 13,
            Inst::Lte => 14,
            Inst::Gt => 15,
            Inst::Gte => 16,
            Inst::Jz => 17,
            Inst::Jnz => 18,
            Inst::Jump => 19,
            Inst::Call => 20,
            Inst::Ret => 21,
            Inst::CPush => 22,
            Inst::CPop => 23,
            Inst::CDup => 24,
        }
    }

    /// Decode an opcode byte; `None` for any byte outside the assigned range.
    pub fn from_u8(b: u8) -> (r: Option<Inst>)
        ensures
            r == Inst::spec_decode(b),
    {
        match b {
            0 => Some(Inst::Nop),
            1 => Some(Inst::Print),
            2 => Some(Inst::Halt),
            3 => Some(Inst::Push),
            4 => Some(Inst::Dup),
            5 => Some(Inst::Pop),
            6 => Some(Inst::Swap),
            7 => Some(Inst::Add),
            8 => Some(Inst::Sub),
            9 => Some(Inst::Mul),
            10 => Some(Inst::Div),
            11 => Some(Inst::Mod),
            12 => Some(Inst::Eq),
            13 => Some(Inst::Lt),
            14 => Some(Inst::Lte),
            15 => Some(Inst::Gt),
            16 => Some(Inst::Gte),
            17 => Some(Inst::Jz),
            18 => Some(Inst::Jnz),
            19 => Some(Inst::Jump),
            20 => Some(Inst::Call),
            21 => Some(Inst::Ret),
            22 => Some(Inst::CPush),
            23 => Some(Inst::CPop),
            24 => Some(Inst::CDup),
            _ => None,
        }
    }

    /// The mnemonic of this instruction as a fresh byte vector.
    pub fn mnemonic_bytes(self) -> (v: Vec<u8>)
        ensures
            v@ == self.spec_mnemonic(),
    {
        let mut v: Vec<u8> = Vec::new();
        match self {
            Inst::Nop => {
                v.push(110);
                v.push(111);
                v.push(112);
            },
            Inst::Print => {
                v.push(112);
                v.push(114);
                v.push(105);
                v.push(110);
                v.push(116);
            },
            Inst::Halt => {
                v.push(104);
                v.push(97);
                v.push(108);
                v.push(116);
            },
            Inst::Push => {
                v.push(112);
                v.push(117);
                v.push(115);
                v.push(104);
            },
            Inst::Dup => {
                v.push(100);
                v.push(117);
                v.push(112);
            },
            Inst::Pop => {
                v.push(112);
                v.push(111);
                v.push(112);
            },
            Inst::Swap => {
                v.push(115);
                v.push(119);
                v.push(97);
                v.push(112);
            },
            Inst::Add => {
                v.push(97);
                v.push(100);
                v.push(100);
            },
            Inst::Sub => {
                v.push(115);
                v.push(117);
                v.push(98);
            },
            Inst::Mul => {
                v.push(109);
                v.push(117);
                v.push(108);
            },
            Inst::Div => {
                v.push(100);
                v.push(105);
                v.push(118);
            },
            Inst::Mod => {
                v.push(109);
                v.push(111);
                v.push(100);
            },
            Inst::Eq => {
                v.push(101);
                v.push(113);
            },
            Inst::Lt => {
                v.push(108);
                v.push(116);
            },
            Inst::Lte => {
                v.push(108);
                v.push(116);
                v.push(101);
            },
            Inst::Gt => {
                v.push(103);
                v.push(116);
            },
            Inst::Gte => {
                v.push(103);
                v.push(116);
                v.push(101);
            },
            Inst::Jz => {
                v.push(106);
                v.push(122);
            },
            Inst::Jnz => {
                v.push(106);
                v.push(110);
                v.push(122);
            },
            Inst::Jump => {
                v.push(106);
                v.push(117);
                v.push(109);
                v.push(112);
            },
            Inst::Call => {
                v.push(99);
                v.push(97);
                v.push(108);
                v.push(108);
            },
            Inst::Ret => {
                v.push(114);
                v.push(101);
                v.push(116);
            },
            Inst::CPush => {
                v.push(99);
                v.push(112);
                v.push(117);
                v.push(115);
                v.push(104);
            },
            Inst::CPop => {
                v.push(99);
                v.push(112);
                v.push(111);
                v.push(112);
            },
            Inst::CDup => {
                v.push(99);
                v.push(100);
                v.push(117);
                v.push(112);
            },
        }
        proof {
            assert(v@ =~= self.spec_mnemonic());
        }
        v
    }

    /// Look a mnemonic up, given as its bytes; `None` when no instruction
    /// has that mnemonic.
    pub fn from_bytes(t: &[u8]) -> (r: Option<Inst>)
        ensures
            r == Inst::spec_lookup(t@),
    {
        if bytes_eq(t, &Inst::Nop.mnemonic_bytes()) {
            Some(Inst::Nop)
        } else if bytes_eq(t, &Inst::Print.mnemonic_bytes()) {
            Some(Inst::Print)
        } else if bytes_eq(t, &Inst::Halt.mnemonic_bytes()) {
            Some(Inst::Halt)
        } else if bytes_eq(t, &Inst::Push.mnemonic_bytes()) {
            Some(Inst::Push)
        } else if bytes_eq(t, &Inst::Dup.mnemonic_bytes()) {
            Some(Inst::Dup)
        } else if bytes_eq(t, &Inst::Pop.mnemonic_bytes()) {
            Some(Inst::Pop)
        } else if bytes_eq(t, &Inst::Swap.mnemonic_bytes()) {
            Some(Inst::Swap)
        } else if bytes_eq(t, &Inst::Add.mnemonic_bytes()) {
            Some(Inst::Add)
        } else if bytes_eq(t, &Inst::Sub.mnemonic_bytes()) {
            Some(Inst::Sub)
        } else if bytes_eq(t, &Inst::Mul.mnemonic_bytes()) {
            Some(Inst::Mul)
        } else if bytes_eq(t, &Inst::Div.mnemonic_bytes()) {
            Some(Inst::Div)
        } else if bytes_eq(t, &Inst::Mod.mnemonic_bytes()) {
            Some(Inst::Mod)
        } else if bytes_eq(t, &Inst::Eq.mnemonic_bytes()) {
            Some(Inst::Eq)
        } else if bytes_eq(t, &Inst::Lt.mnemonic_bytes()) {
            Some(Inst::Lt)
        } else if bytes_eq(t, &Inst::Lte.mnemonic_bytes()) {
            Some(Inst::Lte)
        } else if bytes_eq(t, &Inst::Gt.mnemonic_bytes()) {
            Some(Inst::Gt)
        } else if bytes_eq(t, &Inst::Gte.mnemonic_bytes()) {
            Some(Inst::Gte)
        } else if bytes_eq(t, &Inst::Jz.mnemonic_bytes()) {
            Some(Inst::Jz)
        } else if bytes_eq(t, &Inst::Jnz.mnemonic_bytes()) {
            Some(Inst::Jnz)
        } else if bytes_eq(t, &Inst::Jump.mnemonic_bytes()) {
            Some(Inst::Jump)
        } else if bytes_eq(t, &Inst::Call.mnemonic_bytes()) {
            Some(Inst::Call)
        } else if bytes_eq(t, &Inst::Ret.mnemonic_bytes()) {
            Some(Inst::Ret)
        } else if bytes_eq(t, &Inst::CPush.mnemonic_bytes()) {
            Some(Inst::CPush)
        } else if bytes_eq(t, &Inst::CPop.mnemonic_bytes()) {
            Some(Inst::CPop)
        } else if bytes_eq(t, &Inst::CDup.mnemonic_bytes()) {
            Some(Inst::CDup)
        } else {
            None
        }
    }

    /// How many inline operands follow the opcode byte.
    pub fn num_operands(self) -> (n: u8)
        ensures
            n == self.spec_operands(),
    {
        match self {
            Inst::Push | Inst::Jz | Inst::Jnz | Inst::Jump | Inst::Call => 1,
            _ => 0,
        }
    }

    /// How many operand-stack values the instruction pops.
    pub fn num_stack_args(self) -> (n: u8)
        ensures
            n == self.spec_stack_args(),
    {
        match self {
            Inst::Print | Inst::Dup | Inst::Pop | Inst::Jz | Inst::Jnz | Inst::CPush => 1,
            Inst::Swap | Inst::Add | Inst::Sub | Inst::Mul | Inst::Div | Inst::Mod | Inst::Eq
                | Inst::Lt | Inst::Lte | Inst::Gt | Inst::Gte => 2,
            _ => 0,
        }
    }

    /// The net change of operand-stack depth.
    pub fn stack_effect(self) -> (e: i8)
        ensures
            e == self.spec_effect(),
    {
        match self {
            Inst::Push | Inst::Dup | Inst::CPop | Inst::CDup => 1,
            Inst::Print | Inst::Pop | Inst::Add | Inst::Sub | Inst::Mul | Inst::Div | Inst::Mod
                | Inst::Eq | Inst::Lt | Inst::Lte | Inst::Gt | Inst::Gte | Inst::Jz | Inst::Jnz
                | Inst::CPush => -1,
            _ => 0,
        }
    }
}

/// Whether two byte slices hold the same bytes.
pub fn bytes_eq(a: &[u8], b: &[u8]) -> (r: bool)
    ensures
        r == (a@ == b@),
{
    let n = a.len();
    if n != b.len() {
        return false;
    }
    let mut i: usize = 0;
    while i < n
        invariant
            n == a@.len() == b@.len(),
            i <= n,
            forall|j: int| 0 <= j < i ==> a@[j] == b@[j],
        decreases n - i,
    {
        if a[i] != b[i] {
            return false;
        }
        i = i + 1;
    }
    proof {
        assert(a@ =~= b@);
    }
    true
}

/// The instruction table is consistent: every mnemonic looks up to the
/// instruction it names, and every opcode byte decodes back to the
/// instruction it encodes.
pub proof fn lemma_table_roundtrip(i: Inst)
    ensures
        Inst::spec_lookup(i.spec_mnemonic()) == Some(i),
        Inst::spec_decode(i.spec_opcode()) == Some(i),
        i.spec_effect() <= 1,
        i.spec_stack_args() <= 2,
{
    let t = i.spec_mnemonic();
    match i {
        Inst::Nop => {
            assert(t.len() == 3 && t[0] == 110 && t[1] == 111);
        },
        Inst::Print => {
            assert(t.len() == 5 && t[0] == 112 && t[1] == 114);
        },
        Inst::Halt => {
            assert(t.len() == 4 && t[0] == 104 && t[1] == 97);
        },
        Inst::Push => {
            assert(t.len() == 4 && t[0] == 112 && t[1] == 117);
        },
        Inst::Dup => {
            assert(t.len() == 3 && t[0] == 100 && t[1] == 117);
        },
        Inst::Pop => {
            assert(t.len() == 3 && t[0] == 112 && t[1] == 111);
        },
        Inst::Swap => {
            assert(t.len() == 4 && t[0] == 115 && t[1] == 119);
        },
        Inst::Add => {
            assert(t.len() == 3 && t[0] == 97 && t[1] == 100);
        },
        Inst::Sub => {
            assert(t.len() == 3 && t[0] == 115 && t[1] == 117);
        },
        Inst::Mul => {
            assert(t.len() == 3 && t[0] == 109 && t[1] == 117);
        },
        Inst::Div => {
            assert(t.len() == 3 && t[0] == 100 && t[1] == 105);
        },
        Inst::Mod => {
            assert(t.len() == 3 && t[0] == 109 && t[1] == 111);
        },
        Inst::Eq => {
            assert(t.len() == 2 && t[0] == 101 && t[1] == 113);
        },
        Inst::Lt => {
            assert(t.len() == 2 && t[0] == 108 && t[1] == 116);
        },
        Inst::Lte => {
            assert(t.len() == 3 && t[0] == 108 && t[1] == 116);
        },
        Inst::Gt => {
            assert(t.len() == 2 && t[0] == 103 && t[1] == 116);
        },
        Inst::Gte => {
            assert(t.len() == 3 && t[0] == 103 && t[1] == 116);
        },
        Inst::Jz => {
            assert(t.len() == 2 && t[0] == 106 && t[1] == 122);
        },
        Inst::Jnz => {
            assert(t.len() == 3 && t[0] == 106 && t[1] == 110);
        },
        Inst::Jump => {
            assert(t.len() == 4 && t[0] == 106 && t[1] == 117);
        },
        Inst::Call => {
            assert(t.len() == 4 && t[0] == 99 && t[1] == 97);
        },
        Inst::Ret => {
            assert(t.len() == 3 && t[0] == 114 && t[1] == 101);
        },
        Inst::CPush => {
            assert(t.len() == 5 && t[0] == 99 && t[1] == 112);
        },
        Inst::CPop => {
            assert(t.len() == 4 && t[0] == 99 && t[1] == 112);
        },
        Inst::CDup => {
            assert(t.len() == 4 && t[0] == 99 && t[1] == 100);
        },
    }
}

} // verus!

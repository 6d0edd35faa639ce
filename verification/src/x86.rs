use vstd::prelude::*;

use std::collections::HashMap;

use crate::binary::{as_signed, signed};
use crate::node::{text_is, Size, Span};

verus! {

/// A general purpose register of the x86 family, by the name the
/// assembler gives it.
#[derive(Debug, Clone, Copy, PartialEq, Eq, Structural)]
pub enum Register {
    AL,
    AX,
    EAX,
    RAX,
    AH,
    BL,
    BX,
    EBX,
    RBX,
    BH,
    CL,
    CX,
    ECX,
    RCX,
    CH,
    DL,
    DX,
    EDX,
    RDX,
    DH,
    SIL,
    SI,
    ESI,
    RSI,
    DIL,
    DI,
    EDI,
    RDI,
    BPL,
    BP,
    EBP,
    RBP,
    SPL,
    SP,
    ESP,
    RSP,
    R8L,
    R8W,
    R8D,
    R8,
    R9L,
    R9W,
    R9D,
    R9,
    R10L,
    R10W,
    R10D,
    R10,
    R11L,
    R11W,
    R11D,
    R11,
    R12L,
    R12W,
    R12D,
    R12,
    R13L,
    R13W,
    R13D,
    R13,
    R14L,
    R14W,
    R14D,
    R14,
    R15L,
    R15W,
    R15D,
    R15,
}

/// Which of the three register tables a register belongs to: the
/// accumulator, base, counter, data and index registers; the frame and
/// stack registers; or the registers that only long mode has.
#[derive(Debug, Clone, Copy, PartialEq, Eq, Structural)]
pub enum Family {
    General,
    Stack,
    Long,
}

/// The name of a register, in lower case.
pub open spec fn named(register: Register) -> Seq<char> {
    match register {
        Register::AL => "al"@,
        Register::AX => "ax"@,
        Register::EAX => "eax"@,
        Register::RAX => "rax"@,
        Register::AH => "ah"@,
        Register::BL => "bl"@,
        Register::BX => "bx"@,
        Register::EBX => "ebx"@,
        Register::RBX => "rbx"@,
        Register::BH => "bh"@,
        Register::CL => "cl"@,
        Register::CX => "cx"@,
        Register::ECX => "ecx"@,
        Register::RCX => "rcx"@,
        Register::CH => "ch"@,
        Register::DL => "dl"@,
        Register::DX => "dx"@,
        Register::EDX => "edx"@,
        Register::RDX => "rdx"@,
        Register::DH => "dh"@,
        Register::SIL => "sil"@,
        Register::SI => "si"@,
        Register::ESI => "esi"@,
        Register::RSI => "rsi"@,
        Register::DIL => "dil"@,
        Register::DI => "di"@,
        Register::EDI => "edi"@,
        Register::RDI => "rdi"@,
        Register::BPL => "bpl"@,
        Register::BP => "bp"@,
        Register::EBP => "ebp"@,
        Register::RBP => "rbp"@,
        Register::SPL => "spl"@,
        Register::SP => "sp"@,
        Register::ESP => "esp"@,
        Register::RSP => "rsp"@,
        Register::R8L => "r8l"@,
        Register::R8W => "r8w"@,
        Register::R8D => "r8d"@,
        Register::R8 => "r8"@,
        Register::R9L => "r9l"@,
        Register::R9W => "r9w"@,
        Register::R9D => "r9d"@,
        Register::R9 => "r9"@,
        Register::R10L => "r10l"@,
        Register::R10W => "r10w"@,
        Register::R10D => "r10d"@,
        Register::R10 => "r10"@,
        Register::R11L => "r11l"@,
        Register::R11W => "r11w"@,
        Register::R11D => "r11d"@,
        Register::R11 => "r11"@,
        Register::R12L => "r12l"@,
        Register::R12W => "r12w"@,
        Register::R12D => "r12d"@,
        Register::R12 => "r12"@,
        Register::R13L => "r13l"@,
        Register::R13W => "r13w"@,
        Register::R13D => "r13d"@,
        Register::R13 => "r13"@,
        Register::R14L => "r14l"@,
        Register::R14W => "r14w"@,
        Register::R14D => "r14d"@,
        Register::R14 => "r14"@,
        Register::R15L => "r15l"@,
        Register::R15W => "r15w"@,
        Register::R15D => "r15d"@,
        Register::R15 => "r15"@,
    }
}

/// The table that a register belongs to.
pub open spec fn family(register: Register) -> Family {
    match register {
        Register::AL | Register::AX | Register::EAX | Register::RAX | Register::AH
        | Register::BL | Register::BX | Register::EBX | Register::RBX | Register::BH
        | Register::CL | Register::CX | Register::ECX | Register::RCX | Register::CH
        | Register::DL | Register::DX | Register::EDX | Register::RDX | Register::DH
        | Register::SIL | Register::SI | Register::ESI | Register::RSI | Register::DIL
        | Register::DI | Register::EDI | Register::RDI => Family::General,
        Register::BPL | Register::BP | Register::EBP | Register::RBP | Register::SPL
        | Register::SP | Register::ESP | Register::RSP => Family::Stack,
        _ => Family::Long,
    }
}

/// The register sets of the general table, in allocation order.
pub open spec fn general_sets() -> Seq<Registers> {
    seq![
        Registers {
            byte: Register::AL,
            word: Register::AX,
            double: Register::EAX,
            quad: Register::RAX,
        },
        Registers {
            byte: Register::BL,
            word: Register::BX,
            double: Register::EBX,
            quad: Register::RBX,
        },
        Registers {
            byte: Register::CL,
            word: Register::CX,
            double: Register::ECX,
            quad: Register::RCX,
        },
        Registers {
            byte: Register::DL,
            word: Register::DX,
            double: Register::EDX,
            quad: Register::RDX,
        },
        Registers {
            byte: Register::SIL,
            word: Register::SI,
            double: Register::ESI,
            quad: Register::RSI,
        },
        Registers {
            byte: Register::DIL,
            word: Register::DI,
            double: Register::EDI,
            quad: Register::RDI,
        },
    ]
}

/// The register sets of the frame and stack registers.
pub open spec fn stack_sets() -> Seq<Registers> {
    seq![
        Registers {
            byte: Register::BPL,
            word: Register::BP,
            double: Register::EBP,
            quad: Register::RBP,
        },
        Registers {
            byte: Register::SPL,
            word: Register::SP,
            double: Register::ESP,
            quad: Register::RSP,
        },
    ]
}

/// The register sets that only long mode has, in allocation order.
pub open spec fn long_sets() -> Seq<Registers> {
    seq![
        Registers {
            byte: Register::R8L,
            word: Register::R8W,
            double: Register::R8D,
            quad: Register::R8,
        },
        Registers {
            byte: Register::R9L,
            word: Register::R9W,
            double: Register::R9D,
            quad: Register::R9,
        },
        Registers {
            byte: Register::R10L,
            word: Register::R10W,
            double: Register::R10D,
            quad: Register::R10,
        },
        Registers {
            byte: Register::R11L,
            word: Register::R11W,
            double: Register::R11D,
            quad: Register::R11,
        },
        Registers {
            byte: Register::R12L,
            word: Register::R12W,
            double: Register::R12D,
            quad: Register::R12,
        },
        Registers {
            byte: Register::R13L,
            word: Register::R13W,
            double: Register::R13D,
            quad: Register::R13,
        },
        Registers {
            byte: Register::R14L,
            word: Register::R14W,
            double: Register::R14D,
            quad: Register::R14,
        },
        Registers {
            byte: Register::R15L,
            word: Register::R15W,
            double: Register::R15D,
            quad: Register::R15,
        },
    ]
}

/// The set that a register is part of: the set that holds it at one of
/// its sizes, or, for the high byte registers, the set of the low byte
/// register of the same name.
pub open spec fn set_of(register: Register) -> Registers {
    match register {
        Register::AL | Register::AX | Register::EAX | Register::RAX | Register::AH => Registers {
            byte: Register::AL,
            word: Register::AX,
            double: Register::EAX,
            quad: Register::RAX,
        },
        Register::BL | Register::BX | Register::EBX | Register::RBX | Register::BH => Registers {
            byte: Register::BL,
            word: Register::BX,
            double: Register::EBX,
            quad: Register::RBX,
        },
        Register::CL | Register::CX | Register::ECX | Register::RCX | Register::CH => Registers {
            byte: Register::CL,
            word: Register::CX,
            double: Register::ECX,
            quad: Register::RCX,
        },
        Register::DL | Register::DX | Register::EDX | Register::RDX | Register::DH => Registers {
            byte: Register::DL,
            word: Register::DX,
            double: Register::EDX,
            quad: Register::RDX,
        },
        Register::SIL | Register::SI | Register::ESI | Register::RSI => Registers {
            byte: Register::SIL,
            word: Register::SI,
            double: Register::ESI,
            quad: Register::RSI,
        },
        Register::DIL | Register::DI | Register::EDI | Register::RDI => Registers {
            byte: Register::DIL,
            word: Register::DI,
            double: Register::EDI,
            quad: Register::RDI,
        },
        Register::BPL | Register::BP | Register::EBP | Register::RBP => Registers {
            byte: Register::BPL,
            word: Register::BP,
            double: Register::EBP,
            quad: Register::RBP,
        },
        Register::SPL | Register::SP | Register::ESP | Register::RSP => Registers {
            byte: Register::SPL,
            word: Register::SP,
            double: Register::ESP,
            quad: Register::RSP,
        },
        Register::R8L | Register::R8W | Register::R8D | Register::R8 => Registers {
            byte: Register::R8L,
            word: Register::R8W,
            double: Register::R8D,
            quad: Register::R8,
        },
        Register::R9L | Register::R9W | Register::R9D | Register::R9 => Registers {
            byte: Register::R9L,
            word: Register::R9W,
            double: Register::R9D,
            quad: Register::R9,
        },
        Register::R10L | Register::R10W | Register::R10D | Register::R10 => Registers {
            byte: Register::R10L,
            word: Register::R10W,
            double: Register::R10D,
            quad: Register::R10,
        },
        Register::R11L | Register::R11W | Register::R11D | Register::R11 => Registers {
            byte: Register::R11L,
            word: Register::R11W,
            double: Register::R11D,
            quad: Register::R11,
        },
        Register::R12L | Register::R12W | Register::R12D | Register::R12 => Registers {
            byte: Register::R12L,
            word: Register::R12W,
            double: Register::R12D,
            quad: Register::R12,
        },
        Register::R13L | Register::R13W | Register::R13D | Register::R13 => Registers {
            byte: Register::R13L,
            word: Register::R13W,
            double: Register::R13D,
            quad: Register::R13,
        },
        Register::R14L | Register::R14W | Register::R14D | Register::R14 => Registers {
            byte: Register::R14L,
            word: Register::R14W,
            double: Register::R14D,
            quad: Register::R14,
        },
        Register::R15L | Register::R15W | Register::R15D | Register::R15 => Registers {
            byte: Register::R15L,
            word: Register::R15W,
            double: Register::R15D,
            quad: Register::R15,
        },
    }
}

/// The register of the general table with the given name.
fn general_named(text: &str) -> (r: Option<Register>)
    ensures
        r matches Some(register) ==> named(register) == text@ && family(register) == Family::General,
        r is None ==> forall|register: Register| family(register) == Family::General ==> #[trigger] named(register) != text@,
{
    if text_is(text, "al") {
        return Some(Register::AL);
    }
    if text_is(text, "ax") {
        return Some(Register::AX);
    }
    if text_is(text, "eax") {
        return Some(Register::EAX);
    }
    if text_is(text, "rax") {
        return Some(Register::RAX);
    }
    if text_is(text, "ah") {
        return Some(Register::AH);
    }
    if text_is(text, "bl") {
        return Some(Register::BL);
    }
    if text_is(text, "bx") {
        return Some(Register::BX);
    }
    if text_is(text, "ebx") {
        return Some(Register::EBX);
    }
    if text_is(text, "rbx") {
        return Some(Register::RBX);
    }
    if text_is(text, "bh") {
        return Some(Register::BH);
    }
    if text_is(text, "cl") {
        return Some(Register::CL);
    }
    if text_is(text, "cx") {
        return Some(Register::CX);
    }
    if text_is(text, "ecx") {
        return Some(Register::ECX);
    }
    if text_is(text, "rcx") {
        return Some(Register::RCX);
    }
    if text_is(text, "ch") {
        return Some(Register::CH);
    }
    if text_is(text, "dl") {
        return Some(Register::DL);
    }
    if text_is(text, "dx") {
        return Some(Register::DX);
    }
    if text_is(text, "edx") {
        return Some(Register::EDX);
    }
    if text_is(text, "rdx") {
        return Some(Register::RDX);
    }
    if text_is(text, "dh") {
        return Some(Register::DH);
    }
    if text_is(text, "sil") {
        return Some(Register::SIL);
    }
    if text_is(text, "si") {
        return Some(Register::SI);
    }
    if text_is(text, "esi") {
        return Some(Register::ESI);
    }
    if text_is(text, "rsi") {
        return Some(Register::RSI);
    }
    if text_is(text, "dil") {
        return Some(Register::DIL);
    }
    if text_is(text, "di") {
        return Some(Register::DI);
    }
    if text_is(text, "edi") {
        return Some(Register::EDI);
    }
    if text_is(text, "rdi") {
        return Some(Register::RDI);
    }
    None
}

/// The frame or stack register with the given name.
fn stack_named(text: &str) -> (r: Option<Register>)
    ensures
        r matches Some(register) ==> named(register) == text@ && family(register) == Family::Stack,
        r is None ==> forall|register: Register| family(register) == Family::Stack ==> #[trigger] named(register) != text@,
{
    if text_is(text, "bpl") {
        return Some(Register::BPL);
    }
    if text_is(text, "bp") {
        return Some(Register::BP);
    }
    if text_is(text, "ebp") {
        return Some(Register::EBP);
    }
    if text_is(text, "rbp") {
        return Some(Register::RBP);
    }
    if text_is(text, "spl") {
        return Some(Register::SPL);
    }
    if text_is(text, "sp") {
        return Some(Register::SP);
    }
    if text_is(text, "esp") {
        return Some(Register::ESP);
    }
    if text_is(text, "rsp") {
        return Some(Register::RSP);
    }
    None
}

/// The long mode register with the given name.
fn long_named(text: &str) -> (r: Option<Register>)
    ensures
        r matches Some(register) ==> named(register) == text@ && family(register) == Family::Long,
        r is None ==> forall|register: Register| family(register) == Family::Long ==> #[trigger] named(register) != text@,
{
    if text_is(text, "r8l") {
        return Some(Register::R8L);
    }
    if text_is(text, "r8w") {
        return Some(Register::R8W);
    }
    if text_is(text, "r8d") {
        return Some(Register::R8D);
    }
    if text_is(text, "r8") {
        return Some(Register::R8);
    }
    if text_is(text, "r9l") {
        return Some(Register::R9L);
    }
    if text_is(text, "r9w") {
        return Some(Register::R9W);
    }
    if text_is(text, "r9d") {
        return Some(Register::R9D);
    }
    if text_is(text, "r9") {
        return Some(Register::R9);
    }
    if text_is(text, "r10l") {
        return Some(Register::R10L);
    }
    if text_is(text, "r10w") {
        return Some(Register::R10W);
    }
    if text_is(text, "r10d") {
        return Some(Register::R10D);
    }
    if text_is(text, "r10") {
        return Some(Register::R10);
    }
    if text_is(text, "r11l") {
        return Some(Register::R11L);
    }
    if text_is(text, "r11w") {
        return Some(Register::R11W);
    }
    if text_is(text, "r11d") {
        return Some(Register::R11D);
    }
    if text_is(text, "r11") {
        return Some(Register::R11);
    }
    if text_is(text, "r12l") {
        return Some(Register::R12L);
    }
    if text_is(text, "r12w") {
        return Some(Register::R12W);
    }
    if text_is(text, "r12d") {
        return Some(Register::R12D);
    }
    if text_is(text, "r12") {
        return Some(Register::R12);
    }
    if text_is(text, "r13l") {
        return Some(Register::R13L);
    }
    if text_is(text, "r13w") {
        return Some(Register::R13W);
    }
    if text_is(text, "r13d") {
        return Some(Register::R13D);
    }
    if text_is(text, "r13") {
        return Some(Register::R13);
    }
    if text_is(text, "r14l") {
        return Some(Register::R14L);
    }
    if text_is(text, "r14w") {
        return Some(Register::R14W);
    }
    if text_is(text, "r14d") {
        return Some(Register::R14D);
    }
    if text_is(text, "r14") {
        return Some(Register::R14);
    }
    if text_is(text, "r15l") {
        return Some(Register::R15L);
    }
    if text_is(text, "r15w") {
        return Some(Register::R15W);
    }
    if text_is(text, "r15d") {
        return Some(Register::R15D);
    }
    if text_is(text, "r15") {
        return Some(Register::R15);
    }
    None
}

/// The set that a register is part of. The set holds the register at one
/// of its sizes, except for the high byte registers, which belong to the
/// set of the low byte register of the same name.
pub fn register_set(register: Register) -> (r: Registers)
    ensures
        r == set_of(register),
{
    match register {
        Register::AL | Register::AX | Register::EAX | Register::RAX | Register::AH => Registers {
            byte: Register::AL,
            word: Register::AX,
            double: Register::EAX,
            quad: Register::RAX,
        },
        Register::BL | Register::BX | Register::EBX | Register::RBX | Register::BH => Registers {
            byte: Register::BL,
            word: Register::BX,
            double: Register::EBX,
            quad: Register::RBX,
        },
        Register::CL | Register::CX | Register::ECX | Register::RCX | Register::CH => Registers {
            byte: Register::CL,
            word: Register::CX,
            double: Register::ECX,
            quad: Register::RCX,
        },
        Register::DL | Register::DX | Register::EDX | Register::RDX | Register::DH => Registers {
            byte: Register::DL,
            word: Register::DX,
            double: Register::EDX,
            quad: Register::RDX,
        },
        Register::SIL | Register::SI | Register::ESI | Register::RSI => Registers {
            byte: Register::SIL,
            word: Register::SI,
            double: Register::ESI,
            quad: Register::RSI,
        },
        Register::DIL | Register::DI | Register::EDI | Register::RDI => Registers {
            byte: Register::DIL,
            word: Register::DI,
            double: Register::EDI,
            quad: Register::RDI,
        },
        Register::BPL | Register::BP | Register::EBP | Register::RBP => Registers {
            byte: Register::BPL,
            word: Register::BP,
            double: Register::EBP,
            quad: Register::RBP,
        },
        Register::SPL | Register::SP | Register::ESP | Register::RSP => Registers {
            byte: Register::SPL,
            word: Register::SP,
            double: Register::ESP,
            quad: Register::RSP,
        },
        Register::R8L | Register::R8W | Register::R8D | Register::R8 => Registers {
            byte: Register::R8L,
            word: Register::R8W,
            double: Register::R8D,
            quad: Register::R8,
        },
        Register::R9L | Register::R9W | Register::R9D | Register::R9 => Registers {
            byte: Register::R9L,
            word: Register::R9W,
            double: Register::R9D,
            quad: Register::R9,
        },
        Register::R10L | Register::R10W | Register::R10D | Register::R10 => Registers {
            byte: Register::R10L,
            word: Register::R10W,
            double: Register::R10D,
            quad: Register::R10,
        },
        Register::R11L | Register::R11W | Register::R11D | Register::R11 => Registers {
            byte: Register::R11L,
            word: Register::R11W,
            double: Register::R11D,
            quad: Register::R11,
        },
        Register::R12L | Register::R12W | Register::R12D | Register::R12 => Registers {
            byte: Register::R12L,
            word: Register::R12W,
            double: Register::R12D,
            quad: Register::R12,
        },
        Register::R13L | Register::R13W | Register::R13D | Register::R13 => Registers {
            byte: Register::R13L,
            word: Register::R13W,
            double: Register::R13D,
            quad: Register::R13,
        },
        Register::R14L | Register::R14W | Register::R14D | Register::R14 => Registers {
            byte: Register::R14L,
            word: Register::R14W,
            double: Register::R14D,
            quad: Register::R14,
        },
        Register::R15L | Register::R15W | Register::R15D | Register::R15 => Registers {
            byte: Register::R15L,
            word: Register::R15W,
            double: Register::R15D,
            quad: Register::R15,
        },
    }
}

/// The register sets of the general table, in allocation order.
fn general_table() -> (r: Vec<Registers>)
    ensures
        r@ == general_sets(),
{
    let mut sets: Vec<Registers> = Vec::new();
    sets.push(
        Registers {
            byte: Register::AL,
            word: Register::AX,
            double: Register::EAX,
            quad: Register::RAX,
        },
    );
    sets.push(
        Registers {
            byte: Register::BL,
            word: Register::BX,
            double: Register::EBX,
            quad: Register::RBX,
        },
    );
    sets.push(
        Registers {
            byte: Register::CL,
            word: Register::CX,
            double: Register::ECX,
            quad: Register::RCX,
        },
    );
    sets.push(
        Registers {
            byte: Register::DL,
            word: Register::DX,
            double: Register::EDX,
            quad: Register::RDX,
        },
    );
    sets.push(
        Registers {
            byte: Register::SIL,
            word: Register::SI,
            double: Register::ESI,
            quad: Register::RSI,
        },
    );
    sets.push(
        Registers {
            byte: Register::DIL,
            word: Register::DI,
            double: Register::EDI,
            quad: Register::RDI,
        },
    );
    assert(sets@ =~= general_sets());
    sets
}

/// The register sets that only long mode has, in allocation order.
fn long_table() -> (r: Vec<Registers>)
    ensures
        r@ == long_sets(),
{
    let mut sets: Vec<Registers> = Vec::new();
    sets.push(
        Registers {
            byte: Register::R8L,
            word: Register::R8W,
            double: Register::R8D,
            quad: Register::R8,
        },
    );
    sets.push(
        Registers {
            byte: Register::R9L,
            word: Register::R9W,
            double: Register::R9D,
            quad: Register::R9,
        },
    );
    sets.push(
        Registers {
            byte: Register::R10L,
            word: Register::R10W,
            double: Register::R10D,
            quad: Register::R10,
        },
    );
    sets.push(
        Registers {
            byte: Register::R11L,
            word: Register::R11W,
            double: Register::R11D,
            quad: Register::R11,
        },
    );
    sets.push(
        Registers {
            byte: Register::R12L,
            word: Register::R12W,
            double: Register::R12D,
            quad: Register::R12,
        },
    );
    sets.push(
        Registers {
            byte: Register::R13L,
            word: Register::R13W,
            double: Register::R13D,
            quad: Register::R13,
        },
    );
    sets.push(
        Registers {
            byte: Register::R14L,
            word: Register::R14W,
            double: Register::R14D,
            quad: Register::R14,
        },
    );
    sets.push(
        Registers {
            byte: Register::R15L,
            word: Register::R15W,
            double: Register::R15D,
            quad: Register::R15,
        },
    );
    assert(sets@ =~= long_sets());
    sets
}


/// The four sizes of one register: its low byte, word, double word and
/// quad word forms.
#[derive(Debug, Clone, Copy, PartialEq, Eq, Structural)]
pub struct Registers {
    pub byte: Register,
    pub word: Register,
    pub double: Register,
    pub quad: Register,
}

impl Registers {
    /// The form of the register of the given size.
    pub open spec fn spec_at(self, size: Size) -> Register {
        match size {
            Size::Byte => self.byte,
            Size::Word => self.word,
            Size::Double => self.double,
            Size::Quad => self.quad,
        }
    }

    /// The form of the register of the given size.
    pub fn at(&self, size: Size) -> (r: Register)
        ensures
            r == self.spec_at(size),
    {
        match size {
            Size::Byte => self.byte,
            Size::Word => self.word,
            Size::Double => self.double,
            Size::Quad => self.quad,
        }
    }

    /// Whether one of the four forms is the given register.
    pub open spec fn holds(self, register: Register) -> bool {
        ||| self.byte == register
        ||| self.word == register
        ||| self.double == register
        ||| self.quad == register
    }
}

/// No two registers have the same name.
pub proof fn lemma_names_distinct(a: Register, b: Register)
    requires
        named(a) == named(b),
    ensures
        a == b,
{
    reveal_strlit("al");
    reveal_strlit("ax");
    reveal_strlit("eax");
    reveal_strlit("rax");
    reveal_strlit("ah");
    reveal_strlit("bl");
    reveal_strlit("bx");
    reveal_strlit("ebx");
    reveal_strlit("rbx");
    reveal_strlit("bh");
    reveal_strlit("cl");
    reveal_strlit("cx");
    reveal_strlit("ecx");
    reveal_strlit("rcx");
    reveal_strlit("ch");
    reveal_strlit("dl");
    reveal_strlit("dx");
    reveal_strlit("edx");
    reveal_strlit("rdx");
    reveal_strlit("dh");
    reveal_strlit("sil");
    reveal_strlit("si");
    reveal_strlit("esi");
    reveal_strlit("rsi");
    reveal_strlit("dil");
    reveal_strlit("di");
    reveal_strlit("edi");
    reveal_strlit("rdi");
    reveal_strlit("bpl");
    reveal_strlit("bp");
    reveal_strlit("ebp");
    reveal_strlit("rbp");
    reveal_strlit("spl");
    reveal_strlit("sp");
    reveal_strlit("esp");
    reveal_strlit("rsp");
    reveal_strlit("r8l");
    reveal_strlit("r8w");
    reveal_strlit("r8d");
    reveal_strlit("r8");
    reveal_strlit("r9l");
    reveal_strlit("r9w");
    reveal_strlit("r9d");
    reveal_strlit("r9");
    reveal_strlit("r10l");
    reveal_strlit("r10w");
    reveal_strlit("r10d");
    reveal_strlit("r10");
    reveal_strlit("r11l");
    reveal_strlit("r11w");
    reveal_strlit("r11d");
    reveal_strlit("r11");
    reveal_strlit("r12l");
    reveal_strlit("r12w");
    reveal_strlit("r12d");
    reveal_strlit("r12");
    reveal_strlit("r13l");
    reveal_strlit("r13w");
    reveal_strlit("r13d");
    reveal_strlit("r13");
    reveal_strlit("r14l");
    reveal_strlit("r14w");
    reveal_strlit("r14d");
    reveal_strlit("r14");
    reveal_strlit("r15l");
    reveal_strlit("r15w");
    reveal_strlit("r15d");
    reveal_strlit("r15");
    let (x, y) = (named(a), named(b));
    assert(x.len() == y.len());
    assert(x[0] == y[0]);
    assert(x[1] == y[1]);
    if x.len() > 2 {
        assert(x[2] == y[2]);
    }
    if x.len() > 3 {
        assert(x[3] == y[3]);
    }
}

/// The operating mode of an x86 processor, which fixes the size of
/// addresses and of the machine word.
#[derive(Debug, Clone, Copy, PartialEq, Eq, Structural)]
pub enum Mode {
    Protected,
    Long,
    Real,
}

impl Mode {
    /// The number of bits of the machine word.
    pub open spec fn spec_bits(self) -> nat {
        match self {
            Mode::Protected => 32,
            Mode::Long => 64,
            Mode::Real => 16,
        }
    }

    /// The number of bits of the machine word.
    pub fn bits(&self) -> (r: u8)
        ensures
            r == self.spec_bits(),
    {
        match self {
            Mode::Protected => 32,
            Mode::Long => 64,
            Mode::Real => 16,
        }
    }

    /// The operand size of the machine word.
    pub open spec fn spec_size(self) -> Size {
        match self {
            Mode::Protected => Size::Double,
            Mode::Long => Size::Quad,
            Mode::Real => Size::Word,
        }
    }

    /// The operand size of the machine word: the size whose bits are the
    /// mode's.
    pub fn size(&self) -> (r: Size)
        ensures
            r == self.spec_size(),
            8 * r.spec_bytes() == self.spec_bits(),
    {
        match self {
            Mode::Protected => Size::Double,
            Mode::Long => Size::Quad,
            Mode::Real => Size::Word,
        }
    }

    /// The frame base register of the mode's word size.
    pub fn base(&self) -> (r: Register)
        ensures
            r == stack_sets()[0].spec_at(self.spec_size()),
    {
        match self {
            Mode::Protected => Register::EBP,
            Mode::Long => Register::RBP,
            Mode::Real => Register::BP,
        }
    }

    /// The stack pointer register of the mode's word size.
    pub fn stack(&self) -> (r: Register)
        ensures
            r == stack_sets()[1].spec_at(self.spec_size()),
    {
        match self {
            Mode::Protected => Register::ESP,
            Mode::Long => Register::RSP,
            Mode::Real => Register::SP,
        }
    }

    /// The string destination index register of the mode's word size.
    pub fn destination(&self) -> (r: Register)
        ensures
            r == general_sets()[5].spec_at(self.spec_size()),
    {
        match self {
            Mode::Protected => Register::EDI,
            Mode::Long => Register::RDI,
            Mode::Real => Register::DI,
        }
    }
}

/// The size at which a value of the given size is pushed on the stack:
/// bytes are pushed as words, other sizes as they are.
pub fn stack(size: Size) -> (r: Size)
    ensures
        r == (if size == Size::Byte {
            Size::Word
        } else {
            size
        }),
{
    match size {
        Size::Byte => Size::Word,
        other => other,
    }
}

/// Why a register cannot be named or allocated.
#[derive(Debug, Clone, Copy, PartialEq, Eq, Structural)]
pub enum RegisterError {
    /// No register that the mode has bears the name.
    InvalidRegister,
    /// Fewer than two register sets are free for a function.
    Exhausted,
}

/// Whether a processor in the mode has the register: the long mode
/// registers exist only in long mode.
pub open spec fn available(mode: Mode, register: Register) -> bool {
    family(register) != Family::Long || mode == Mode::Long
}

/// Whether a register that the mode has bears the name.
pub open spec fn names_register(mode: Mode, text: Seq<char>) -> bool {
    exists|register: Register| available(mode, register) && #[trigger] named(register) == text
}

/// The register that the mode has with the given name, where there is one.
pub open spec fn register_named(mode: Mode, text: Seq<char>) -> Register {
    choose|register: Register| available(mode, register) && #[trigger] named(register) == text
}

/// The register that a name denotes in the mode.
pub fn register(mode: Mode, text: &str) -> (r: Result<Register, RegisterError>)
    ensures
        r is Ok <==> names_register(mode, text@),
        r matches Ok(register) ==> {
            &&& available(mode, register)
            &&& named(register) == text@
            &&& register == register_named(mode, text@)
        },
        r matches Err(e) ==> e == RegisterError::InvalidRegister,
{
    let found = match general_named(text) {
        Some(register) => Some(register),
        None => match stack_named(text) {
            Some(register) => Some(register),
            None => match mode {
                Mode::Long => long_named(text),
                _ => None,
            },
        },
    };
    match found {
        Some(register) => {
            proof {
                let other = register_named(mode, text@);
                lemma_names_distinct(register, other);
            }
            Ok(register)
        },
        None => {
            proof {
                assert forall|register: Register| available(mode, register) implies #[trigger] named(
                    register,
                ) != text@ by {
                    match family(register) {
                        Family::General => {},
                        Family::Stack => {},
                        Family::Long => {},
                    }
                }
            }
            Err(RegisterError::InvalidRegister)
        },
    }
}

/// The register set that a name denotes in the mode.
pub open spec fn set_named(mode: Mode, text: Seq<char>) -> Registers {
    set_of(register_named(mode, text))
}

/// Whether a register set is denoted by one of the names.
pub open spec fn denoted(mode: Mode, names: Seq<String>, set: Registers) -> bool {
    exists|j: int| 0 <= j < names.len() && set == #[trigger] set_named(mode, names[j]@)
}

/// Whether a list of register sets holds the given set.
fn holds_set(sets: &Vec<Registers>, set: Registers) -> (r: bool)
    ensures
        r == sets@.contains(set),
{
    let mut i: usize = 0;
    while i < sets.len()
        invariant
            i <= sets.len(),
            forall|j: int| 0 <= j < i ==> sets@[j] != set,
        decreases sets.len() - i,
    {
        if sets[i] == set {
            return true;
        }
        i = i + 1;
    }
    false
}

/// The sets named, each once, in the order they are first named.
pub open spec fn first_named(mode: Mode, names: Seq<String>) -> Seq<Registers>
    decreases names.len(),
{
    if names.len() == 0 {
        Seq::empty()
    } else {
        let prior = first_named(mode, names.drop_last());
        let set = set_named(mode, names.last()@);
        if prior.contains(set) {
            prior
        } else {
            prior.push(set)
        }
    }
}

/// The register sets that a function reserves by naming registers, each
/// once: the sets of the registers named, in the order they are first
/// named. Fails if a name denotes no register of the mode.
pub fn reserved(names: &Vec<String>, mode: Mode) -> (r: Result<Vec<Registers>, RegisterError>)
    ensures
        r is Ok <==> forall|i: int| 0 <= i < names.len() ==> names_register(mode, #[trigger] names@[i]@),
        r matches Ok(sets) ==> {
            &&& sets@ == first_named(mode, names@)
            &&& sets@.no_duplicates()
            &&& forall|set: Registers| #[trigger] sets@.contains(set) <==> denoted(mode, names@, set)
        },
        r matches Err(e) ==> e == RegisterError::InvalidRegister,
{
    let mut sets: Vec<Registers> = Vec::new();
    let mut i: usize = 0;
    while i < names.len()
        invariant
            i <= names.len(),
            forall|j: int| 0 <= j < i ==> names_register(mode, #[trigger] names@[j]@),
            sets@.no_duplicates(),
            sets@ == first_named(mode, names@.take(i as int)),
            forall|set: Registers| #[trigger] sets@.contains(set) <==> denoted(mode, names@.take(i as int), set),
        decreases names.len() - i,
    {
        let register = match self::register(mode, names[i].as_str()) {
            Ok(register) => register,
            Err(e) => return Err(e),
        };
        let set = register_set(register);
        let ghost prior = sets@;
        let present = holds_set(&sets, set);
        if !present {
            sets.push(set);
        }
        proof {
            if !present {
                assert(sets@[prior.len() as int] == set);
            }
            let before = names@.take(i as int);
            let after = names@.take(i + 1);
            assert(set == set_named(mode, after[i as int]@));
            assert(after.drop_last() =~= before);
            assert(after.last() == names@[i as int]);
            assert(sets@ =~= first_named(mode, after));
            assert(sets@.contains(set));
            assert forall|s: Registers| #[trigger] sets@.contains(s) <==> denoted(mode, after, s) by {
                if sets@.contains(s) {
                    if prior.contains(s) {
                        assert(denoted(mode, before, s));
                        let j = choose|j: int| 0 <= j < before.len() && s == #[trigger] set_named(mode, before[j]@);
                        assert(after[j] == before[j]);
                        assert(s == set_named(mode, after[j]@));
                    } else {
                        assert(s == set);
                    }
                }
                if denoted(mode, after, s) {
                    let j = choose|j: int| 0 <= j < after.len() && s == #[trigger] set_named(mode, after[j]@);
                    if j < i {
                        assert(before[j] == after[j]);
                        assert(s == set_named(mode, before[j]@));
                        assert(prior.contains(s));
                        let k = choose|k: int| 0 <= k < prior.len() && prior[k] == s;
                        assert(sets@[k] == s);
                    } else {
                        assert(s == set);
                    }
                }
            }
            assert forall|j: int| 0 <= j < i + 1 implies names_register(mode, #[trigger] names@[j]@) by {
                if j == i {
                    assert(available(mode, register) && named(register) == names@[j]@);
                }
            }
        }
        i = i + 1;
    }
    assert(names@.take(names.len() as int) =~= names@);
    Ok(sets)
}

/// The register sets that a function may use as scratch registers, in the
/// order they are tried: the general sets, then, in long mode, the long
/// mode sets.
pub open spec fn candidates(mode: Mode) -> Seq<Registers> {
    if mode == Mode::Long {
        general_sets() + long_sets()
    } else {
        general_sets()
    }
}

/// The candidate sets that are not reserved, in order.
pub open spec fn free_sets(mode: Mode, reserved: Seq<Registers>) -> Seq<Registers> {
    candidates(mode).filter(|set: Registers| !reserved.contains(set))
}

/// The primary and alternate scratch register sets of a function: the
/// first two candidate sets that it does not reserve.
pub fn registers(reserved: &Vec<Registers>, mode: Mode) -> (r: Result<(Registers, Registers), RegisterError>)
    ensures
        r is Ok <==> free_sets(mode, reserved@).len() >= 2,
        r matches Ok((primary, alternate)) ==> {
            &&& primary == free_sets(mode, reserved@)[0]
            &&& alternate == free_sets(mode, reserved@)[1]
        },
        r matches Err(e) ==> e == RegisterError::Exhausted,
{
    let mut candidates = general_table();
    match mode {
        Mode::Long => {
            let mut long = long_table();
            candidates.append(&mut long);
        },
        _ => {},
    }
    assert(candidates@ == self::candidates(mode));
    let ghost keep = |set: Registers| !reserved@.contains(set);
    let mut free: Vec<Registers> = Vec::new();
    let mut i: usize = 0;
    while i < candidates.len()
        invariant
            i <= candidates.len(),
            free@ == candidates@.take(i as int).filter(keep),
            keep == (|set: Registers| !reserved@.contains(set)),
        decreases candidates.len() - i,
    {
        let set = candidates[i];
        proof {
            assert(candidates@.take(i + 1) =~= candidates@.take(i as int).push(set));
            candidates@.take(i as int).lemma_filter_push(set, keep);
        }
        if !holds_set(reserved, set) {
            free.push(set);
        }
        i = i + 1;
    }
    assert(candidates@.take(candidates.len() as int) =~= candidates@);
    if free.len() >= 2 {
        Ok((free[0], free[1]))
    } else {
        Err(RegisterError::Exhausted)
    }
}

/// The register sets of all three tables.
pub open spec fn all_sets() -> Seq<Registers> {
    general_sets() + stack_sets() + long_sets()
}

/// Every register belongs to a set of the tables, and a set of the tables
/// is the set of each of its four forms.
pub proof fn lemma_register_sets(register: Register, i: int, size: Size)
    requires
        0 <= i < all_sets().len(),
    ensures
        all_sets().contains(set_of(register)),
        set_of(all_sets()[i].spec_at(size)) == all_sets()[i],
{
    let sets = all_sets();
    assert(sets =~= seq![
        sets[0], sets[1], sets[2], sets[3], sets[4], sets[5], sets[6], sets[7],
        sets[8], sets[9], sets[10], sets[11], sets[12], sets[13], sets[14], sets[15],
    ]);
    let set = set_of(register);
    assert(set == sets[0] || set == sets[1] || set == sets[2] || set == sets[3] || set == sets[4]
        || set == sets[5] || set == sets[6] || set == sets[7] || set == sets[8] || set == sets[9]
        || set == sets[10] || set == sets[11] || set == sets[12] || set == sets[13] || set == sets[14]
        || set == sets[15]);
}

/// The elements that a filter keeps come from the filtered sequence, and a
/// sequence without duplicates keeps none.
proof fn lemma_filter_within(items: Seq<Registers>, keep: spec_fn(Registers) -> bool)
    ensures
        forall|i: int| 0 <= i < items.filter(keep).len() ==> items.contains(#[trigger] items.filter(keep)[i]),
        items.no_duplicates() ==> items.filter(keep).no_duplicates(),
    decreases items.len(),
{
    reveal(Seq::filter);
    if items.len() > 0 {
        let rest = items.drop_last();
        lemma_filter_within(rest, keep);
        let kept = rest.filter(keep);
        assert forall|i: int| 0 <= i < items.filter(keep).len() implies items.contains(
            #[trigger] items.filter(keep)[i],
        ) by {
            if i < kept.len() {
                let k = choose|k: int| 0 <= k < rest.len() && rest[k] == kept[i];
                assert(items[k] == rest[k]);
            } else {
                assert(items[items.len() - 1] == items.filter(keep)[i]);
            }
        }
        if items.no_duplicates() && keep(items.last()) {
            assert(rest.no_duplicates());
            assert forall|i: int| 0 <= i < kept.len() implies kept[i] != items.last() by {
                let k = choose|k: int| 0 <= k < rest.len() && rest[k] == kept[i];
                assert(items[k] == rest[k]);
            }
        }
    }
}

/// The scratch register sets of a function are two different sets, both
/// candidates of the mode and neither reserved by the function.
pub proof fn lemma_scratch_sets(mode: Mode, reserved: Seq<Registers>)
    requires
        free_sets(mode, reserved).len() >= 2,
    ensures
        free_sets(mode, reserved)[0] != free_sets(mode, reserved)[1],
        !reserved.contains(free_sets(mode, reserved)[0]),
        !reserved.contains(free_sets(mode, reserved)[1]),
        candidates(mode).contains(free_sets(mode, reserved)[0]),
        candidates(mode).contains(free_sets(mode, reserved)[1]),
{
    let keep = |set: Registers| !reserved.contains(set);
    let items = candidates(mode);
    assert(items.no_duplicates());
    lemma_filter_within(items, keep);
    items.lemma_filter_pred(keep, 0);
    items.lemma_filter_pred(keep, 1);
}


/// A register's name denotes that register in every mode that has it.
pub proof fn lemma_name_denotes_register(mode: Mode, register: Register)
    requires
        available(mode, register),
    ensures
        names_register(mode, named(register)),
        register_named(mode, named(register)) == register,
{
    assert(available(mode, register) && named(register) == named(register));
    let other = register_named(mode, named(register));
    lemma_names_distinct(register, other);
}

} // verus!

verus! {

/// An x86 instruction encoding, by its mnemonic and the kinds and sizes of
/// its operands: `R` a register, `Rm` a register or memory, `M` memory.
#[derive(Debug, Clone, Copy, PartialEq, Eq, Structural)]
pub enum Code {
    PushR16,
    PushR32,
    PushR64,
    PopR16,
    PopR32,
    PopR64,
    Cbw,
    Cwd,
    Cdq,
    Cqo,
    MovzxR16Rm8,
    MovzxR32Rm8,
    MovzxR64Rm8,
    MovzxR32Rm16,
    MovzxR64Rm16,
    MovsxR16Rm8,
    MovsxR32Rm8,
    MovsxR64Rm8,
    MovsxR32Rm16,
    MovsxR64Rm16,
    MovsxdR64Rm32,
    LeaR16M,
    LeaR32M,
    LeaR64M,
    MovR8Rm8,
    MovR16Rm16,
    MovR32Rm32,
    MovR64Rm64,
    Nopw,
    SubRm16Imm16,
    SubRm32Imm32,
    SubRm64Imm32,
    MovRm8R8,
    MovRm16R16,
    MovRm32R32,
    MovRm64R64,
    MovR8Imm8,
    MovR16Imm16,
    MovR32Imm32,
    MovR64Imm64,
    TestRm8R8,
    JeRel32A32,
    JeRel32A64,
    JneRel32A32,
    JneRel32A64,
    JmpRel32A32,
    JmpRel32A64,
    CallRel32A32,
    CallRel32A64,
    AddRm16Imm16,
    AddRm32Imm32,
    AddRm64Imm32,
    ImulRm8,
    ImulR16Rm16,
    ImulR32Rm32,
    ImulR64Rm64,
    ImulR16Rm16Imm16,
    ImulR32Rm32Imm32,
    ImulR64Rm64Imm32,
    CmpR8Rm8,
    CmpR16Rm16,
    CmpR32Rm32,
    CmpR64Rm64,
    XorR8Rm8,
    XorR16Rm16,
    XorR32Rm32,
    XorR64Rm64,
    OrR8Rm8,
    OrR16Rm16,
    OrR32Rm32,
    OrR64Rm64,
    AndR8Rm8,
    AndR16Rm16,
    AndR32Rm32,
    AndR64Rm64,
    AddR8Rm8,
    AddR16Rm16,
    AddR32Rm32,
    AddR64Rm64,
    SubR8Rm8,
    SubR16Rm16,
    SubR32Rm32,
    SubR64Rm64,
    SetlRm8,
    SetgRm8,
    SetleRm8,
    SetgeRm8,
    SetneRm8,
    SeteRm8,
    IdivRm8,
    IdivRm16,
    IdivRm32,
    IdivRm64,
    DivRm8,
    DivRm16,
    DivRm32,
    DivRm64,
    SalRm8Cl,
    SalRm16Cl,
    SalRm32Cl,
    SalRm64Cl,
    ShlRm8Cl,
    ShlRm16Cl,
    ShlRm32Cl,
    ShlRm64Cl,
    SarRm8Cl,
    SarRm16Cl,
    SarRm32Cl,
    SarRm64Cl,
    ShrRm8Cl,
    ShrRm16Cl,
    ShrRm32Cl,
    ShrRm64Cl,
    Leavew,
    Leaved,
    Leaveq,
    Retnw,
    Retnd,
    Retnq,
    Syscall,
    RepMovsb,
    RepStosb,
}

/// An x86 instruction whose operands are registers.
#[derive(Debug, Clone, Copy, PartialEq, Eq, Structural)]
pub enum Instruction {
    /// An instruction without operands.
    Plain(Code),
    /// An instruction on one register.
    Register(Code, Register),
    /// An instruction from the second register into the first.
    Registers(Code, Register, Register),
    /// An instruction on a register and a 32-bit immediate.
    Immediate(Code, Register, i32),
    /// An instruction on a register and a 64-bit immediate.
    Wide(Code, Register, i64),
    /// An instruction from the second register and an immediate into the
    /// first.
    Scaled(Code, Register, Register, i32),
    /// An instruction from memory into a register.
    Load(Code, Register, Memory),
    /// An instruction from a register into memory.
    Store(Code, Memory, Register),
    /// An instruction on memory.
    Memory(Code, Memory),
    /// A branch to a label; a call's target is filled in later.
    Branch(Code, u64),
    /// A repeated string instruction with an address size in bits.
    Repeat(Code, u32),
}

/// A memory operand: a base register, an optional index register, and a
/// displacement.
#[derive(Debug, Clone, Copy, PartialEq, Eq, Structural)]
pub struct Memory {
    pub base: Register,
    pub index: Option<Register>,
    pub displacement: i32,
}

/// The number of bytes that a push or pop of a value of the given size
/// moves: bytes move as words.
pub open spec fn stack_bytes(size: Size) -> nat {
    if size == Size::Byte {
        2
    } else {
        size.spec_bytes()
    }
}

/// The push of a register holding a value of the given size; bytes are
/// pushed as words.
pub fn code_push(size: Size) -> (r: Code)
    ensures
        r == code_push_spec(size),
{
    match size {
        Size::Byte => Code::PushR16,
        Size::Word => Code::PushR16,
        Size::Double => Code::PushR32,
        Size::Quad => Code::PushR64,
    }
}

/// The pop into a register of a value of the given size; bytes are
/// popped as words.
pub fn code_pop(size: Size) -> (r: Code)
    ensures
        r == code_pop_spec(size),
{
    match size {
        Size::Byte => Code::PopR16,
        Size::Word => Code::PopR16,
        Size::Double => Code::PopR32,
        Size::Quad => Code::PopR64,
    }
}

/// The instruction that sign-extends the accumulator of the given size
/// into the register of twice that size.
pub fn code_sign_extend(size: Size) -> (r: Code)
    ensures
        r == (match size {
            Size::Byte => Code::Cbw,
            Size::Word => Code::Cwd,
            Size::Double => Code::Cdq,
            Size::Quad => Code::Cqo,
        }),
{
    match size {
        Size::Byte => Code::Cbw,
        Size::Word => Code::Cwd,
        Size::Double => Code::Cdq,
        Size::Quad => Code::Cqo,
    }
}

/// The instruction that loads an effective address into a register of the
/// mode's word size.
pub fn load(mode: Mode) -> (r: Code)
    ensures
        r == (match mode {
            Mode::Protected => Code::LeaR32M,
            Mode::Long => Code::LeaR64M,
            Mode::Real => Code::LeaR16M,
        }),
{
    match mode {
        Mode::Protected => Code::LeaR32M,
        Mode::Long => Code::LeaR64M,
        Mode::Real => Code::LeaR16M,
    }
}

/// The move between registers of the given size.
pub open spec fn move_code(size: Size) -> Code {
    match size {
        Size::Byte => Code::MovR8Rm8,
        Size::Word => Code::MovR16Rm16,
        Size::Double => Code::MovR32Rm32,
        Size::Quad => Code::MovR64Rm64,
    }
}

/// The encoding that zero-extends a value of size `size` into one of size
/// `target`, where an instruction is needed: a smaller byte or word is
/// widened; a double word widens to a quad word by itself.
pub open spec fn zero_extension(size: Size, target: Size) -> Option<Code> {
    match (size, target) {
        (Size::Byte, Size::Word) => Some(Code::MovzxR16Rm8),
        (Size::Byte, Size::Double) => Some(Code::MovzxR32Rm8),
        (Size::Byte, Size::Quad) => Some(Code::MovzxR64Rm8),
        (Size::Word, Size::Double) => Some(Code::MovzxR32Rm16),
        (Size::Word, Size::Quad) => Some(Code::MovzxR64Rm16),
        _ => None,
    }
}

/// The encoding that sign-extends a value of size `size` into one of size
/// `target`, where the target is larger.
pub open spec fn sign_extension(size: Size, target: Size) -> Option<Code> {
    match (size, target) {
        (Size::Byte, Size::Word) => Some(Code::MovsxR16Rm8),
        (Size::Byte, Size::Double) => Some(Code::MovsxR32Rm8),
        (Size::Byte, Size::Quad) => Some(Code::MovsxR64Rm8),
        (Size::Word, Size::Double) => Some(Code::MovsxR32Rm16),
        (Size::Word, Size::Quad) => Some(Code::MovsxR64Rm16),
        (Size::Double, Size::Quad) => Some(Code::MovsxdR64Rm32),
        _ => None,
    }
}

/// The instruction that zero-extends the value of size `size` in the
/// primary register to size `target`, if one is needed.
pub fn zero_extend(primary: Registers, size: Size, target: Size) -> (r: Option<Instruction>)
    ensures
        r == (match zero_extension(size, target) {
            Some(code) => Some(Instruction::Registers(code, primary.spec_at(target), primary.spec_at(size))),
            None => None::<Instruction>,
        }),
{
    let code = match (size, target) {
        (Size::Byte, Size::Word) => Code::MovzxR16Rm8,
        (Size::Byte, Size::Double) => Code::MovzxR32Rm8,
        (Size::Byte, Size::Quad) => Code::MovzxR64Rm8,
        (Size::Word, Size::Double) => Code::MovzxR32Rm16,
        (Size::Word, Size::Quad) => Code::MovzxR64Rm16,
        _ => return None,
    };
    Some(Instruction::Registers(code, primary.at(target), primary.at(size)))
}

/// The instruction that sign-extends the value of size `size` in the
/// primary register to size `target`, if one is needed.
pub fn sign_extend(primary: Registers, size: Size, target: Size) -> (r: Option<Instruction>)
    ensures
        r == (match sign_extension(size, target) {
            Some(code) => Some(Instruction::Registers(code, primary.spec_at(target), primary.spec_at(size))),
            None => None::<Instruction>,
        }),
{
    let code = match (size, target) {
        (Size::Byte, Size::Word) => Code::MovsxR16Rm8,
        (Size::Byte, Size::Double) => Code::MovsxR32Rm8,
        (Size::Byte, Size::Quad) => Code::MovsxR64Rm8,
        (Size::Word, Size::Double) => Code::MovsxR32Rm16,
        (Size::Word, Size::Quad) => Code::MovsxR64Rm16,
        (Size::Double, Size::Quad) => Code::MovsxdR64Rm32,
        _ => return None,
    };
    Some(Instruction::Registers(code, primary.at(target), primary.at(size)))
}

/// An extension is needed exactly when the target is larger, except that a
/// double word zero-extends to a quad word without an instruction.
pub proof fn lemma_extensions(size: Size, target: Size)
    ensures
        sign_extension(size, target) is Some <==> size.spec_bytes() < target.spec_bytes(),
        zero_extension(size, target) is Some <==> size.spec_bytes() < target.spec_bytes() && !(
        size == Size::Double && target == Size::Quad),
{
}

/// A push and a pop of the same size move the same number of bytes, so a
/// value pushed is popped whole.
pub proof fn lemma_push_pop_balanced(size: Size)
    ensures
        (code_push_spec(size) == Code::PushR16) == (code_pop_spec(size) == Code::PopR16),
        (code_push_spec(size) == Code::PushR32) == (code_pop_spec(size) == Code::PopR32),
        (code_push_spec(size) == Code::PushR64) == (code_pop_spec(size) == Code::PopR64),
{
}

/// The push of a value of the given size.
pub open spec fn code_push_spec(size: Size) -> Code {
    if stack_bytes(size) == 2 {
        Code::PushR16
    } else if stack_bytes(size) == 4 {
        Code::PushR32
    } else {
        Code::PushR64
    }
}

/// The pop of a value of the given size.
pub open spec fn code_pop_spec(size: Size) -> Code {
    if stack_bytes(size) == 2 {
        Code::PopR16
    } else if stack_bytes(size) == 4 {
        Code::PopR32
    } else {
        Code::PopR64
    }
}

} // verus!

verus! {

/// The state of translating a function to x86: the processor mode, the
/// primary and alternate scratch register sets, the reserved register
/// sets, the frame offset of each variable, and the counters of frame
/// space and labels.
#[derive(Debug)]
pub struct Scene {
    pub mode: Mode,
    pub primary: Registers,
    pub alternate: Registers,
    pub reserved: Vec<Registers>,
    pub variables: HashMap<u64, isize>,
    pub next_offset: isize,
    pub next_label: u64,
}

impl Scene {
    /// Gives a variable the next `size` bytes of the frame, which grows
    /// downwards, and returns its offset; the size is read as a signed
    /// machine word.
    pub fn variable(&mut self, variable: u64, size: usize) -> (r: isize)
        requires
            !old(self).variables@.contains_key(variable),
            isize::MIN <= old(self).next_offset - signed(size as int) <= isize::MAX,
        ensures
            r == old(self).next_offset - signed(size as int),
            final(self).next_offset == r,
            final(self).variables@ == old(self).variables@.insert(variable, r),
            final(self).mode == old(self).mode,
            final(self).primary == old(self).primary,
            final(self).alternate == old(self).alternate,
            final(self).reserved@ == old(self).reserved@,
            final(self).next_label == old(self).next_label,
    {
        broadcast use vstd::std_specs::hash::group_hash_axioms;

        let offset = self.next_offset - as_signed(size);
        self.next_offset = offset;
        self.variables.insert(variable, offset);
        offset
    }

    /// A new label, distinct from every label given before.
    pub fn label(&mut self) -> (r: u64)
        requires
            old(self).next_label < u64::MAX,
        ensures
            r == old(self).next_label + 1,
            final(self).next_label == r,
            final(self).mode == old(self).mode,
            final(self).primary == old(self).primary,
            final(self).alternate == old(self).alternate,
            final(self).reserved@ == old(self).reserved@,
            final(self).variables@ == old(self).variables@,
            final(self).next_offset == old(self).next_offset,
    {
        self.next_label = self.next_label + 1;
        self.next_label
    }
}

/// The instructions of a function as they are produced: each with the
/// label it bears, if any; the label waiting for the next instruction;
/// the calls, by the position of their instruction and the function they
/// call; and the source span of each instruction.
#[derive(Debug)]
pub struct Translation {
    pub pending_label: Option<u64>,
    pub instructions: Vec<(Instruction, Option<u64>)>,
    pub calls: Vec<(usize, (usize, usize))>,
    pub spans: Vec<Span>,
}

impl Translation {
    /// Appends an instruction, which bears the waiting label, if there is
    /// one; no label waits afterwards.
    pub fn push(&mut self, instruction: Instruction, span: Span)
        ensures
            final(self).instructions@ == old(self).instructions@.push((instruction, old(self).pending_label)),
            final(self).spans@ == old(self).spans@.push(span),
            final(self).pending_label is None,
            final(self).calls@ == old(self).calls@,
    {
        let label = self.pending_label;
        self.pending_label = None;
        self.instructions.push((instruction, label));
        self.spans.push(span);
    }

    /// Makes `label` the label of the next instruction. A label already
    /// waiting goes to an empty instruction first, so that no label is lost.
    pub fn set_pending_label(&mut self, label: u64, span: Span)
        ensures
            final(self).instructions@ == (match old(self).pending_label {
                Some(waiting) => old(self).instructions@.push((Instruction::Plain(Code::Nopw), Some(waiting))),
                None => old(self).instructions@,
            }),
            final(self).spans@ == (match old(self).pending_label {
                Some(_) => old(self).spans@.push(span),
                None => old(self).spans@,
            }),
            final(self).pending_label == Some(label),
            final(self).calls@ == old(self).calls@,
    {
        if self.pending_label.is_some() {
            self.push(Instruction::Plain(Code::Nopw), span);
        }
        self.pending_label = Some(label);
    }
}

} // verus!

verus! {

impl Mode {
    /// The frame base register of the mode's word size.
    pub open spec fn spec_base(self) -> Register {
        stack_sets()[0].spec_at(self.spec_size())
    }

    /// The stack pointer register of the mode's word size.
    pub open spec fn spec_stack(self) -> Register {
        stack_sets()[1].spec_at(self.spec_size())
    }
}

/// Whether `after` is `before` with one instruction appended, which bears
/// the label that was waiting.
pub open spec fn appended(before: &Translation, after: &Translation, instruction: Instruction, span: Span) -> bool {
    &&& after.instructions@ == before.instructions@.push((instruction, before.pending_label))
    &&& after.spans@ == before.spans@.push(span)
    &&& after.pending_label is None
    &&& after.calls@ == before.calls@
}

/// Whether `after` holds the same instructions, spans, calls and waiting
/// label as `before`.
pub open spec fn unchanged(before: &Translation, after: &Translation) -> bool {
    &&& after.instructions@ == before.instructions@
    &&& after.spans@ == before.spans@
    &&& after.pending_label == before.pending_label
    &&& after.calls@ == before.calls@
}

/// Appends the move of a value of the given size from `register` into
/// `target`, unless they are the same register.
pub fn transfer(prime: &mut Translation, register: Register, target: Register, size: Size, span: Span)
    ensures
        register == target ==> unchanged(old(prime), final(prime)),
        register != target ==> appended(
            old(prime),
            final(prime),
            Instruction::Registers(move_code(size), target, register),
            span,
        ),
{
    if register != target {
        let code = match size {
            Size::Byte => Code::MovR8Rm8,
            Size::Word => Code::MovR16Rm16,
            Size::Double => Code::MovR32Rm32,
            Size::Quad => Code::MovR64Rm64,
        };
        prime.push(Instruction::Registers(code, target, register), span);
    }
}

/// The subtraction of an immediate from a register of the mode's word size.
pub open spec fn subtract_code(mode: Mode) -> Code {
    match mode {
        Mode::Protected => Code::SubRm32Imm32,
        Mode::Long => Code::SubRm64Imm32,
        Mode::Real => Code::SubRm16Imm16,
    }
}

/// Appends the reservation of `size` bytes of stack: the stack pointer
/// moves down by the size, taken as a 32-bit immediate.
pub fn stack_reserve(scene: &Scene, prime: &mut Translation, size: usize, span: Span)
    ensures
        appended(
            old(prime),
            final(prime),
            Instruction::Immediate(subtract_code(scene.mode), scene.mode.spec_stack(), size as i32),
            span,
        ),
{
    let code = match scene.mode {
        Mode::Protected => Code::SubRm32Imm32,
        Mode::Long => Code::SubRm64Imm32,
        Mode::Real => Code::SubRm16Imm16,
    };
    #[verifier::truncate]
    let immediate = size as i32;
    prime.push(Instruction::Immediate(code, scene.mode.stack(), immediate), span);
}

/// The three instructions that open a function's frame: save the frame
/// base, make the stack pointer the frame base, and reserve stack for the
/// frame, as yet none.
pub open spec fn entry_code(mode: Mode) -> Seq<Instruction> {
    seq![
        Instruction::Register(code_push_spec(mode.spec_size()), mode.spec_base()),
        Instruction::Registers(move_code(mode.spec_size()), mode.spec_base(), mode.spec_stack()),
        Instruction::Immediate(subtract_code(mode), mode.spec_stack(), 0),
    ]
}

/// Appends the opening of a function's frame; the first instruction bears
/// the label that was waiting.
pub fn entry(scene: &Scene, prime: &mut Translation, internal: Span)
    ensures
        final(prime).instructions@ == old(prime).instructions@ + seq![
            (entry_code(scene.mode)[0], old(prime).pending_label),
            (entry_code(scene.mode)[1], None),
            (entry_code(scene.mode)[2], None),
        ],
        final(prime).spans@ == old(prime).spans@ + seq![internal, internal, internal],
        final(prime).pending_label is None,
        final(prime).calls@ == old(prime).calls@,
{
    let size = scene.mode.size();
    let base = scene.mode.base();
    prime.push(Instruction::Register(code_push(size), base), internal);
    transfer(prime, scene.mode.stack(), base, size, internal);
    stack_reserve(scene, prime, 0, internal);
    proof {
        assert(final(prime).instructions@ =~= old(prime).instructions@ + seq![
            (entry_code(scene.mode)[0], old(prime).pending_label),
            (entry_code(scene.mode)[1], None),
            (entry_code(scene.mode)[2], None),
        ]);
        assert(final(prime).spans@ =~= old(prime).spans@ + seq![internal, internal, internal]);
    }
}

/// Settles the frame of a translated function whose code opens with
/// `entry`: the stack reservation, the third instruction, reserves the
/// frame's size, taken as a 32-bit immediate; a function without frame
/// loses the reservation, and its calls move one instruction up.
pub fn settle_frame(scene: &Scene, prime: &mut Translation)
    requires
        scene.next_offset > isize::MIN,
        old(prime).instructions@.len() > 2,
        old(prime).instructions@[2].0 is Immediate,
        forall|i: int| 0 <= i < old(prime).calls@.len() ==> #[trigger] old(prime).calls@[i].0 >= 1,
    ensures
        ({
            let size = (-scene.next_offset) as i32;
            let reservation = old(prime).instructions@[2];
            if size != 0 {
                &&& final(prime).instructions@ == old(prime).instructions@.update(
                    2,
                    (
                        Instruction::Immediate(reservation.0->Immediate_0, reservation.0->Immediate_1, size),
                        reservation.1,
                    ),
                )
                &&& final(prime).calls@ == old(prime).calls@
            } else {
                &&& final(prime).instructions@ == old(prime).instructions@.remove(2)
                &&& final(prime).calls@.len() == old(prime).calls@.len()
                &&& forall|i: int|
                    0 <= i < old(prime).calls@.len() ==> #[trigger] final(prime).calls@[i] == (
                        (old(prime).calls@[i].0 - 1) as usize,
                        old(prime).calls@[i].1,
                    )
            }
        }),
        final(prime).spans@ == old(prime).spans@,
        final(prime).pending_label == old(prime).pending_label,
{
    #[verifier::truncate]
    let size = (-scene.next_offset) as i32;
    if size != 0 {
        let (instruction, label) = prime.instructions[2];
        let settled = match instruction {
            Instruction::Immediate(code, register, _) => Instruction::Immediate(code, register, size),
            other => other,
        };
        prime.instructions.set(2, (settled, label));
    } else {
        prime.instructions.remove(2);
        let ghost calls = prime.calls@;
        let ghost instructions = prime.instructions@;
        let ghost spans = prime.spans@;
        let ghost pending = prime.pending_label;
        let mut k: usize = 0;
        while k < prime.calls.len()
            invariant
                prime.instructions@ == instructions,
                prime.spans@ == spans,
                prime.pending_label == pending,
                k <= prime.calls@.len(),
                prime.calls@.len() == calls.len(),
                forall|i: int| 0 <= i < calls.len() ==> #[trigger] calls[i].0 >= 1,
                forall|i: int|
                    0 <= i < calls.len() ==> #[trigger] prime.calls@[i] == if i < k {
                        ((calls[i].0 - 1) as usize, calls[i].1)
                    } else {
                        calls[i]
                    },
            decreases prime.calls@.len() - k,
        {
            let (index, path) = prime.calls[k];
            prime.calls.set(k, (index - 1, path));
            k = k + 1;
        }
    }
}

} // verus!

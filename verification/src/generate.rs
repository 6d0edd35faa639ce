use vstd::prelude::*;

use std::collections::HashMap;

use crate::lower::{HDual, HUnary};
use crate::node::{Size, Span};
use crate::x86::{
    code_pop, code_push, code_sign_extend, entry, load, register_set, registers, reserved,
    settle_frame, sign_extend, stack, transfer, zero_extend, Code, Instruction, Memory, Mode,
    RegisterError, Register, Registers, Scene, Translation,
};

verus! {

/// The type of a value as code generation sees it.
#[derive(Debug)]
pub enum Type {
    Void,
    Never,
    Truth,
    Rune,
    Signed(Size),
    Unsigned(Size),
    Structure(u64),
    Array(Box<Type>, usize),
    Slice(Box<Type>),
    Pointer(Box<Type>),
}

impl Type {
    /// Whether values of the type live in memory rather than a register.
    pub open spec fn spec_composite(&self) -> bool {
        self is Structure || self is Array || self is Slice
    }

    /// Whether values of the type live in memory rather than a register.
    pub fn composite(&self) -> (r: bool)
        ensures
            r == self.spec_composite(),
    {
        match self {
            Type::Structure(_) | Type::Array(_, _) | Type::Slice(_) => true,
            _ => false,
        }
    }
}

/// A comparison.
#[derive(Debug, Clone, Copy, PartialEq, Eq, Structural)]
pub enum Compare {
    Less,
    Greater,
    LessEqual,
    GreaterEqual,
    NotEqual,
    Equal,
}

/// A binary operator.
#[derive(Debug, Clone, Copy, PartialEq, Eq, Structural)]
pub enum Binary {
    Or,
    And,
    Compare(Compare),
    Dual(HDual),
}

/// A node of a function body; nodes name their parts by position.
#[derive(Debug)]
pub enum Node {
    Block(Vec<usize>),
    Let(u64, Option<usize>),
    Assign(usize, usize),
    While(usize, usize),
    When(Vec<(usize, usize)>),
    Cast(usize, Type),
    Return(Option<usize>),
    Compile(usize),
    Inline(usize),
    Call(u64, Vec<usize>),
    Field(usize, u64),
    Create(u64, Vec<(u64, usize)>),
    Slice(usize, Option<usize>, Option<usize>),
    Index(usize, usize),
    Compound(HDual, usize, usize),
    Binary(Binary, usize, usize),
    Unary(HUnary, usize),
    Variable(u64),
    Path(u64),
    String(String),
    Register(String),
    Array(Vec<usize>),
    Integral(i128),
    Truth(bool),
    Rune(char),
    Break,
}

/// A function body.
#[derive(Debug)]
pub struct Body {
    pub nodes: Vec<Node>,
    pub root: usize,
}

/// The types of a function body's nodes and variables, the overload of
/// each call, the size of each structure, and the offset of each field of
/// each structure.
#[derive(Debug)]
pub struct Typed {
    pub nodes: HashMap<usize, Type>,
    pub variables: HashMap<u64, Type>,
    pub functions: HashMap<usize, usize>,
    pub structures: HashMap<u64, usize>,
    pub fields: Vec<(u64, u64, usize)>,
}

/// Why code cannot be generated.
#[derive(Debug, Clone, Copy, PartialEq, Eq, Structural)]
pub enum GenerateError {
    /// The construct has no translation yet.
    Unsupported,
    /// A node, variable or call lacks its type or overload, or a structure
    /// or field is unknown.
    Missing,
    /// A value of the type cannot be held in a register of the mode.
    Unrepresentable,
    /// A size, offset or label exceeds its range.
    Overflow,
    /// The value has no address.
    NotAddressable,
    /// The value cannot be converted to the type.
    InvalidCast,
    /// A rune in a mode without 32-bit registers.
    Rune,
    /// The reserved registers are not valid.
    Register(RegisterError),
}

/// The parts of a node.
pub open spec fn parts(node: Node) -> Seq<usize> {
    match node {
        Node::Block(nodes) => nodes@,
        Node::Let(_, Some(value)) => seq![value],
        Node::Assign(a, b) => seq![a, b],
        Node::While(a, b) => seq![a, b],
        Node::When(branches) => crate::lowering::conditions(branches@) + crate::lowering::bodies(
            branches@,
        ),
        Node::Cast(value, _) => seq![value],
        Node::Return(Some(value)) => seq![value],
        Node::Call(_, arguments) => arguments@,
        Node::Field(base, _) => seq![base],
        Node::Create(_, fields) => crate::lowering::field_values(fields@),
        Node::Slice(base, _, _) => seq![base],
        Node::Index(a, b) => seq![a, b],
        Node::Compound(_, a, b) => seq![a, b],
        Node::Binary(_, a, b) => seq![a, b],
        Node::Unary(_, value) => seq![value],
        Node::Array(nodes) => nodes@,
        _ => seq![],
    }
}

/// Whether `rank` places every part of every node and ranks it below the
/// node.
pub open spec fn ranked(nodes: Seq<Node>, rank: spec_fn(int) -> nat) -> bool {
    forall|i: int, k: int|
        0 <= i < nodes.len() && 0 <= k < parts(nodes[i]).len() ==> {
            &&& #[trigger] parts(nodes[i])[k] < nodes.len()
            &&& rank(parts(nodes[i])[k] as int) < rank(i)
        }
}

impl Body {
    /// No node of the body is a part of itself.
    pub open spec fn well_formed(&self) -> bool {
        exists|rank: spec_fn(int) -> nat| ranked(self.nodes@, rank)
    }

    /// The rank of a node, below the ranks of the nodes it is part of.
    pub open spec fn rank(&self, index: int) -> nat {
        (choose|rank: spec_fn(int) -> nat| ranked(self.nodes@, rank))(index)
    }
}

/// The part at position `k` of a node is a node of lower rank.
proof fn lemma_part(body: &Body, index: int, k: int)
    requires
        body.well_formed(),
        0 <= index < body.nodes@.len(),
        0 <= k < parts(body.nodes@[index]).len(),
    ensures
        parts(body.nodes@[index])[k] < body.nodes@.len(),
        body.rank(parts(body.nodes@[index])[k] as int) < body.rank(index),
{
    let rank = choose|rank: spec_fn(int) -> nat| ranked(body.nodes@, rank);
    assert(ranked(body.nodes@, rank));
    assert(parts(body.nodes@[index])[k] < body.nodes@.len());
}

/// Whether an instruction calls a function.
pub open spec fn is_call(instruction: Instruction) -> bool {
    instruction matches Instruction::Branch(code, _) && (code == Code::CallRel32A32 || code
        == Code::CallRel32A64)
}

/// Every recorded call is at a call instruction.
pub open spec fn calls_marked(prime: Translation) -> bool {
    forall|i: int|
        0 <= i < prime.calls@.len() ==> #[trigger] prime.calls@[i].0 < prime.instructions@.len()
            && is_call(prime.instructions@[prime.calls@[i].0 as int].0)
}

/// Every recorded call is at a call instruction past the frame's opening.
pub open spec fn sound(prime: Translation) -> bool {
    &&& calls_marked(prime)
    &&& forall|i: int| 0 <= i < prime.calls@.len() ==> #[trigger] prime.calls@[i].0 >= 3
    &&& prime.instructions@.len() >= 3
}

/// Code is only appended: earlier instructions and calls stay.
pub open spec fn extends(before: Translation, after: Translation) -> bool {
    &&& before.instructions@.len() <= after.instructions@.len()
    &&& forall|i: int|
        0 <= i < before.instructions@.len() ==> #[trigger] after.instructions@[i]
            == before.instructions@[i]
    &&& before.calls@.len() <= after.calls@.len()
    &&& forall|i: int| 0 <= i < before.calls@.len() ==> #[trigger] after.calls@[i] == before.calls@[i]
}

/// The mode, the scratch registers and the reserved registers are as they
/// were.
pub open spec fn steady(before: Scene, after: Scene) -> bool {
    &&& after.mode == before.mode
    &&& after.primary == before.primary
    &&& after.alternate == before.alternate
    &&& after.reserved@ == before.reserved@
}

/// Appends an instruction.
fn emit(prime: &mut Translation, instruction: Instruction, span: Span)
    requires
        sound(*old(prime)),
    ensures
        sound(*final(prime)),
        extends(*old(prime), *final(prime)),
        final(prime).instructions@.len() == old(prime).instructions@.len() + 1,
        final(prime).instructions@.last().0 == instruction,
        final(prime).instructions@ == old(prime).instructions@.push((instruction, old(prime).pending_label)),
{
    prime.push(instruction, span);
}

/// Makes `label` the label of the next instruction.
fn mark(prime: &mut Translation, label: u64, span: Span)
    requires
        sound(*old(prime)),
    ensures
        sound(*final(prime)),
        extends(*old(prime), *final(prime)),
{
    prime.set_pending_label(label, span);
}

/// Appends a call of the overload `overload` of the function at `path`,
/// recorded for linking.
fn emit_call(prime: &mut Translation, mode: Mode, path: usize, overload: usize, span: Span)
    requires
        sound(*old(prime)),
    ensures
        sound(*final(prime)),
        extends(*old(prime), *final(prime)),
{
    let index = prime.instructions.len();
    let code = match mode {
        Mode::Real => Code::CallRel32A32,
        _ => Code::CallRel32A64,
    };
    prime.push(Instruction::Branch(code, 0), span);
    prime.calls.push((index, (path, overload)));
}

/// A new label.
fn fresh(scene: &mut Scene) -> (r: Result<u64, GenerateError>)
    ensures
        steady(*old(scene), *final(scene)),
        final(scene).variables@ == old(scene).variables@,
        final(scene).next_offset == old(scene).next_offset,
{
    if scene.next_label == u64::MAX {
        return Err(GenerateError::Overflow);
    }
    Ok(scene.label())
}

/// The type of a node.
fn type_of(typed: &Typed, index: usize) -> (r: Result<&Type, GenerateError>)
    ensures
        r matches Ok(kind) ==> typed.nodes@.contains_key(index) && *kind == typed.nodes@[index],
        typed.nodes@.contains_key(index) ==> r is Ok,
{
    match typed.nodes.get(&index) {
        Some(kind) => Ok(kind),
        None => Err(GenerateError::Missing),
    }
}

/// The register size that holds values of a type: bytes for truth
/// values, double words for runes, the integer's own size, and the mode's
/// word for addresses; none for `Void` and `Never` or a size beyond the
/// mode's word.
pub open spec fn held_in(mode: Mode, kind: Type) -> Result<Size, GenerateError> {
    let size = match kind {
        Type::Truth => Some(Size::Byte),
        Type::Rune => Some(Size::Double),
        Type::Signed(size) => Some(size),
        Type::Unsigned(size) => Some(size),
        Type::Void | Type::Never => None,
        _ => Some(mode.spec_size()),
    };
    match size {
        Some(size) => if size.spec_bytes() * 8 > mode.spec_bits() {
            Err(GenerateError::Unrepresentable)
        } else {
            Ok(size)
        },
        None => Err(GenerateError::Unrepresentable),
    }
}

/// The register size that holds values of a type in the scene's mode.
pub fn register_size(scene: &Scene, kind: &Type) -> (r: Result<Size, GenerateError>)
    ensures
        r == held_in(scene.mode, *kind),
{
    let size = match kind {
        Type::Truth => Size::Byte,
        Type::Rune => Size::Double,
        Type::Signed(size) | Type::Unsigned(size) => *size,
        Type::Void | Type::Never => return Err(GenerateError::Unrepresentable),
        Type::Structure(_) | Type::Array(_, _) | Type::Slice(_) | Type::Pointer(_) => scene.mode.size(),
    };
    let bits: u8 = match size {
        Size::Byte => 8,
        Size::Word => 16,
        Size::Double => 32,
        Size::Quad => 64,
    };
    if bits > scene.mode.bits() {
        Err(GenerateError::Unrepresentable)
    } else {
        Ok(size)
    }
}

/// The size in bytes of a value of a type; a structure has the size that
/// `typed` gives it.
pub open spec fn bytes_of(typed: Typed, kind: Type) -> Result<int, GenerateError>
    decreases kind,
{
    match kind {
        Type::Void | Type::Never => Ok(0),
        Type::Truth => Ok(1),
        Type::Rune => Ok(4),
        Type::Signed(size) => Ok(size.spec_bytes() as int),
        Type::Unsigned(size) => Ok(size.spec_bytes() as int),
        Type::Pointer(_) => Ok(8),
        Type::Slice(_) => Ok(16),
        Type::Structure(path) => if typed.structures@.contains_key(path) {
            Ok(typed.structures@[path] as int)
        } else {
            Err(GenerateError::Missing)
        },
        Type::Array(element, length) => match bytes_of(typed, *element) {
            Ok(size) => if size * length <= usize::MAX {
                Ok(size * length)
            } else {
                Err(GenerateError::Overflow)
            },
            Err(e) => Err(e),
        },
    }
}

/// The size in bytes of a value of a type.
pub fn byte_size(typed: &Typed, kind: &Type) -> (r: Result<usize, GenerateError>)
    ensures
        match r {
            Ok(size) => bytes_of(*typed, *kind) == Ok::<int, GenerateError>(size as int),
            Err(e) => bytes_of(*typed, *kind) == Err::<int, GenerateError>(e),
        },
    decreases kind,
{
    match kind {
        Type::Void | Type::Never => Ok(0),
        Type::Truth => Ok(1),
        Type::Rune => Ok(4),
        Type::Signed(size) | Type::Unsigned(size) => Ok(size.bytes()),
        Type::Pointer(_) => Ok(8),
        Type::Slice(_) => Ok(16),
        Type::Structure(path) => match typed.structures.get(path) {
            Some(size) => Ok(*size),
            None => Err(GenerateError::Missing),
        },
        Type::Array(element, length) => {
            let element = byte_size(typed, element)?;
            match element.checked_mul(*length) {
                Some(size) => Ok(size),
                None => Err(GenerateError::Overflow),
            }
        },
    }
}

/// The offset of a field of a structure.
fn field_offset(typed: &Typed, structure: u64, field: u64) -> (r: Result<usize, GenerateError>)
{
    let mut k: usize = 0;
    while k < typed.fields.len()
        decreases typed.fields.len() - k,
    {
        let (path, name, offset) = typed.fields[k];
        if path == structure && name == field {
            return Ok(offset);
        }
        k = k + 1;
    }
    Err(GenerateError::Missing)
}

/// The register of the family of `family` with the given size.
fn sized(family: Register, size: Size) -> (r: Register)
{
    register_set(family).at(size)
}

/// The encoding of an operation from a register or memory into a register
/// of the given size, for each operation family.
fn reg_rm(family: u8, size: Size) -> (r: Code)
    ensures
        r == family_code(family, size),
{
    match (family, size) {
        (0, Size::Byte) => Code::MovR8Rm8,
        (0, Size::Word) => Code::MovR16Rm16,
        (0, Size::Double) => Code::MovR32Rm32,
        (0, Size::Quad) => Code::MovR64Rm64,
        (1, Size::Byte) => Code::CmpR8Rm8,
        (1, Size::Word) => Code::CmpR16Rm16,
        (1, Size::Double) => Code::CmpR32Rm32,
        (1, Size::Quad) => Code::CmpR64Rm64,
        (2, Size::Byte) => Code::XorR8Rm8,
        (2, Size::Word) => Code::XorR16Rm16,
        (2, Size::Double) => Code::XorR32Rm32,
        (2, Size::Quad) => Code::XorR64Rm64,
        (3, Size::Byte) => Code::OrR8Rm8,
        (3, Size::Word) => Code::OrR16Rm16,
        (3, Size::Double) => Code::OrR32Rm32,
        (3, Size::Quad) => Code::OrR64Rm64,
        (4, Size::Byte) => Code::AndR8Rm8,
        (4, Size::Word) => Code::AndR16Rm16,
        (4, Size::Double) => Code::AndR32Rm32,
        (4, Size::Quad) => Code::AndR64Rm64,
        (5, Size::Byte) => Code::AddR8Rm8,
        (5, Size::Word) => Code::AddR16Rm16,
        (5, Size::Double) => Code::AddR32Rm32,
        (5, Size::Quad) => Code::AddR64Rm64,
        (_, Size::Byte) => Code::SubR8Rm8,
        (_, Size::Word) => Code::SubR16Rm16,
        (_, Size::Double) => Code::SubR32Rm32,
        (_, Size::Quad) => Code::SubR64Rm64,
    }
}

/// The encoding chosen for each operation family and size.
spec fn family_code(family: u8, size: Size) -> Code {
    match (family, size) {
        (0, Size::Byte) => Code::MovR8Rm8,
        (0, Size::Word) => Code::MovR16Rm16,
        (0, Size::Double) => Code::MovR32Rm32,
        (0, Size::Quad) => Code::MovR64Rm64,
        (1, Size::Byte) => Code::CmpR8Rm8,
        (1, Size::Word) => Code::CmpR16Rm16,
        (1, Size::Double) => Code::CmpR32Rm32,
        (1, Size::Quad) => Code::CmpR64Rm64,
        (2, Size::Byte) => Code::XorR8Rm8,
        (2, Size::Word) => Code::XorR16Rm16,
        (2, Size::Double) => Code::XorR32Rm32,
        (2, Size::Quad) => Code::XorR64Rm64,
        (3, Size::Byte) => Code::OrR8Rm8,
        (3, Size::Word) => Code::OrR16Rm16,
        (3, Size::Double) => Code::OrR32Rm32,
        (3, Size::Quad) => Code::OrR64Rm64,
        (4, Size::Byte) => Code::AndR8Rm8,
        (4, Size::Word) => Code::AndR16Rm16,
        (4, Size::Double) => Code::AndR32Rm32,
        (4, Size::Quad) => Code::AndR64Rm64,
        (5, Size::Byte) => Code::AddR8Rm8,
        (5, Size::Word) => Code::AddR16Rm16,
        (5, Size::Double) => Code::AddR32Rm32,
        (5, Size::Quad) => Code::AddR64Rm64,
        (_, Size::Byte) => Code::SubR8Rm8,
        (_, Size::Word) => Code::SubR16Rm16,
        (_, Size::Double) => Code::SubR32Rm32,
        (_, Size::Quad) => Code::SubR64Rm64,
    }
}


/// The move of an immediate into a register of the given size.
fn move_immediate(size: Size) -> (r: Code)
    ensures
        r == (match size {
            Size::Byte => Code::MovR8Imm8,
            Size::Word => Code::MovR16Imm16,
            Size::Double => Code::MovR32Imm32,
            Size::Quad => Code::MovR64Imm64,
        }),
{
    match size {
        Size::Byte => Code::MovR8Imm8,
        Size::Word => Code::MovR16Imm16,
        Size::Double => Code::MovR32Imm32,
        Size::Quad => Code::MovR64Imm64,
    }
}

/// The store of a register of the given size into memory.
fn store(size: Size) -> (r: Code)
{
    match size {
        Size::Byte => Code::MovRm8R8,
        Size::Word => Code::MovRm16R16,
        Size::Double => Code::MovRm32R32,
        Size::Quad => Code::MovRm64R64,
    }
}

/// A branch encoding of the mode: the equal, not-equal or unconditional
/// jump.
fn branch(mode: Mode, kind: u8) -> (r: Code)
{
    match (mode, kind) {
        (Mode::Real, 0) => Code::JeRel32A32,
        (_, 0) => Code::JeRel32A64,
        (Mode::Real, 1) => Code::JneRel32A32,
        (_, 1) => Code::JneRel32A64,
        (Mode::Real, _) => Code::JmpRel32A32,
        (_, _) => Code::JmpRel32A64,
    }
}

/// The memory at a displacement from the frame base.
fn frame_memory(scene: &Scene, offset: isize) -> (r: Memory)
{
    #[verifier::truncate]
    let displacement = offset as i32;
    Memory { base: scene.mode.base(), index: None, displacement }
}

/// Whether a register set is reserved.
fn holds(reserved: &Vec<Registers>, set: Registers) -> (r: bool)
    ensures
        r == reserved@.contains(set),
{
    let mut k: usize = 0;
    while k < reserved.len()
        invariant
            forall|j: int| 0 <= j < k ==> reserved@[j] != set,
        decreases reserved.len() - k,
    {
        if reserved[k] == set {
            return true;
        }
        k = k + 1;
    }
    false
}

/// Claims the register `target` for the code that follows: a free register
/// is marked reserved; a reserved one is saved on the stack. Returns
/// whether it was free.
fn claim(scene: &mut Scene, prime: &mut Translation, target: Register, size: Size, span: Span) -> (free: bool)
    requires
        sound(*old(prime)),
    ensures
        sound(*final(prime)),
        extends(*old(prime), *final(prime)),
        final(scene).mode == old(scene).mode,
        final(scene).primary == old(scene).primary,
        final(scene).alternate == old(scene).alternate,
        final(scene).variables@ == old(scene).variables@,
        final(scene).next_offset == old(scene).next_offset,
        final(scene).next_label == old(scene).next_label,
        free ==> final(scene).reserved@ == old(scene).reserved@.push(register_set_spec(target)),
        !free ==> final(scene).reserved@ == old(scene).reserved@,
{
    let registers = register_set(target);
    let free = !holds(&scene.reserved, registers);
    if !free {
        emit(prime, Instruction::Register(code_push(size), target), span);
    }
    if free {
        scene.reserved.push(registers);
    }
    free
}

/// The register set of a register.
pub open spec fn register_set_spec(register: Register) -> Registers {
    crate::x86::set_of(register)
}

/// Releases a register claimed with `claim`.
fn release(scene: &mut Scene, prime: &mut Translation, target: Register, size: Size, free: bool, span: Span)
    requires
        sound(*old(prime)),
        free ==> old(scene).reserved@.len() > 0,
    ensures
        sound(*final(prime)),
        extends(*old(prime), *final(prime)),
        final(scene).mode == old(scene).mode,
        final(scene).primary == old(scene).primary,
        final(scene).alternate == old(scene).alternate,
        final(scene).variables@ == old(scene).variables@,
        final(scene).next_offset == old(scene).next_offset,
        final(scene).next_label == old(scene).next_label,
        free ==> final(scene).reserved@ == old(scene).reserved@.drop_last(),
        !free ==> final(scene).reserved@ == old(scene).reserved@,
{
    if free {
        scene.reserved.pop();
    }
    if !free {
        emit(prime, Instruction::Register(code_pop(size), target), span);
    }
}


/// The size of an integer type's values; truth values are bytes.
pub open spec fn integer_size(kind: Type) -> Size {
    match kind {
        Type::Signed(size) => size,
        Type::Unsigned(size) => size,
        _ => Size::Byte,
    }
}

/// The instruction that combines a register into another by an operator:
/// addition adds, subtraction subtracts, and the bitwise operators combine
/// by `or`, `and` and exclusive `or`, at the operands' size.
pub open spec fn combining(dual: HDual, size: Size) -> Code {
    match (dual, size) {
        (HDual::Add, Size::Byte) => Code::AddR8Rm8,
        (HDual::Add, Size::Word) => Code::AddR16Rm16,
        (HDual::Add, Size::Double) => Code::AddR32Rm32,
        (HDual::Add, Size::Quad) => Code::AddR64Rm64,
        (HDual::Minus, Size::Byte) => Code::SubR8Rm8,
        (HDual::Minus, Size::Word) => Code::SubR16Rm16,
        (HDual::Minus, Size::Double) => Code::SubR32Rm32,
        (HDual::Minus, Size::Quad) => Code::SubR64Rm64,
        (HDual::BinaryOr, Size::Byte) => Code::OrR8Rm8,
        (HDual::BinaryOr, Size::Word) => Code::OrR16Rm16,
        (HDual::BinaryOr, Size::Double) => Code::OrR32Rm32,
        (HDual::BinaryOr, Size::Quad) => Code::OrR64Rm64,
        (HDual::BinaryAnd, Size::Byte) => Code::AndR8Rm8,
        (HDual::BinaryAnd, Size::Word) => Code::AndR16Rm16,
        (HDual::BinaryAnd, Size::Double) => Code::AndR32Rm32,
        (HDual::BinaryAnd, Size::Quad) => Code::AndR64Rm64,
        (HDual::ExclusiveOr, Size::Byte) => Code::XorR8Rm8,
        (HDual::ExclusiveOr, Size::Word) => Code::XorR16Rm16,
        (HDual::ExclusiveOr, Size::Double) => Code::XorR32Rm32,
        (HDual::ExclusiveOr, Size::Quad) => Code::XorR64Rm64,
        (_, _) => Code::Nopw,
    }
}

/// Appends the move of a value of the given size from `register` into
/// `target`, unless they are the same register.
fn move_register(prime: &mut Translation, register: Register, target: Register, size: Size, span: Span)
    requires
        sound(*old(prime)),
    ensures
        sound(*final(prime)),
        extends(*old(prime), *final(prime)),
{
    transfer(prime, register, target, size, span);
}

/// Appends an instruction if there is one.
fn emit_some(prime: &mut Translation, instruction: Option<Instruction>, span: Span)
    requires
        sound(*old(prime)),
    ensures
        sound(*final(prime)),
        extends(*old(prime), *final(prime)),
{
    if let Some(instruction) = instruction {
        emit(prime, instruction, span);
    }
}

/// Makes `register` usable by the code that follows: a register that is
/// not reserved is used as it is; otherwise its value moves to `default`,
/// which is claimed. Returns the register to use, whether it moved, and
/// whether `default` was free.
fn convey(scene: &mut Scene, prime: &mut Translation, register: Register, default: Register, size: Size, span: Span) -> (r: (Register, bool, bool))
    requires
        sound(*old(prime)),
    ensures
        sound(*final(prime)),
        extends(*old(prime), *final(prime)),
        final(scene).mode == old(scene).mode,
        final(scene).primary == old(scene).primary,
        final(scene).alternate == old(scene).alternate,
        final(scene).variables@ == old(scene).variables@,
        final(scene).next_offset == old(scene).next_offset,
        final(scene).next_label == old(scene).next_label,
        r.1 && r.2 ==> final(scene).reserved@ == old(scene).reserved@.push(register_set_spec(default)),
        !(r.1 && r.2) ==> final(scene).reserved@ == old(scene).reserved@,
{
    if !holds(&scene.reserved, register_set(register)) {
        return (register, false, false);
    }
    let free = claim(scene, prime, default, size, span);
    move_register(prime, register, default, size, span);
    (default, true, free)
}

/// Ends the use of a register made usable with `convey`.
fn unconvey(scene: &mut Scene, prime: &mut Translation, default: Register, size: Size, moved: bool, free: bool, span: Span)
    requires
        sound(*old(prime)),
        moved && free ==> old(scene).reserved@.len() > 0,
    ensures
        sound(*final(prime)),
        extends(*old(prime), *final(prime)),
        final(scene).mode == old(scene).mode,
        final(scene).primary == old(scene).primary,
        final(scene).alternate == old(scene).alternate,
        final(scene).variables@ == old(scene).variables@,
        final(scene).next_offset == old(scene).next_offset,
        final(scene).next_label == old(scene).next_label,
        moved && free ==> final(scene).reserved@ == old(scene).reserved@.drop_last(),
        !(moved && free) ==> final(scene).reserved@ == old(scene).reserved@,
{
    if moved {
        release(scene, prime, default, size, free, span);
    }
}

/// The source, counter and destination registers of a memory copy in the
/// scene's mode.
fn copy_registers(mode: Mode) -> (r: (Register, Register, Register))
{
    let source = match mode {
        Mode::Protected => Register::ESI,
        Mode::Long => Register::RSI,
        Mode::Real => Register::SI,
    };
    (source, sized(Register::CL, mode.size()), mode.destination())
}

/// Stores a value into memory: a value in a register is moved there; a
/// value in memory, whose address the register holds, is copied there
/// byte by byte.
pub fn set(scene: &mut Scene, prime: &mut Translation, kind: &Type, size: usize, memory: Memory, register: Register, span: Span) -> (r: Result<(), GenerateError>)
    requires
        sound(*old(prime)),
    ensures
        sound(*final(prime)),
        extends(*old(prime), *final(prime)),
        steady(*old(scene), *final(scene)),
        final(scene).variables@ == old(scene).variables@,
        final(scene).next_offset == old(scene).next_offset,
        final(scene).next_label == old(scene).next_label,
{
    if !kind.composite() {
        let code = match kind {
            Type::Truth => Code::MovRm8R8,
            Type::Rune => Code::MovRm32R32,
            Type::Pointer(_) => Code::MovRm64R64,
            Type::Signed(size) | Type::Unsigned(size) => store(*size),
            _ => return Err(GenerateError::Unrepresentable),
        };
        emit(prime, Instruction::Store(code, memory, register), span);
        return Ok(());
    }
    let word = scene.mode.size();
    let (source, counter, target) = copy_registers(scene.mode);
    let ghost start = *scene;
    let first = claim(scene, prime, source, word, span);
    let second = claim(scene, prime, counter, word, span);
    let third = claim(scene, prime, target, word, span);
    let (other, moved, free) = convey(scene, prime, register, sized(Register::AL, word), word, span);
    emit(prime, Instruction::Load(load(scene.mode), target, memory), span);
    move_register(prime, other, source, word, span);
    #[verifier::truncate]
    let count = size as i32;
    emit(prime, Instruction::Immediate(move_immediate(word), counter, count), span);
    emit(prime, Instruction::Repeat(Code::RepMovsb, scene.mode.bits() as u32), span);
    unconvey(scene, prime, sized(Register::AL, word), word, moved, free, span);
    release(scene, prime, target, word, third, span);
    release(scene, prime, counter, word, second, span);
    release(scene, prime, source, word, first, span);
    proof {
        assert(scene.reserved@ =~= start.reserved@);
    }
    Ok(())
}


/// The offset from the frame base of the first parameter: past the saved
/// frame base and the return address.
pub fn parameters_offset(mode: Mode) -> (r: usize)
    ensures
        r == 2 * mode.spec_size().spec_bytes(),
{
    2 * mode.size().bytes()
}

/// Appends the code that computes the value of a node into the primary
/// register of its size; a value that lives in memory is computed as its
/// address.
pub fn value(typed: &Typed, body: &Body, scene: &mut Scene, prime: &mut Translation, index: usize) -> (r: Result<(), GenerateError>)
    requires
        body.well_formed(),
        index < body.nodes.len(),
        sound(*old(prime)),
    ensures
        sound(*final(prime)),
        extends(*old(prime), *final(prime)),
        steady(*old(scene), *final(scene)),
        body.nodes@[index as int] matches Node::Truth(truth) ==> r is Ok && final(prime).instructions@
            == old(prime).instructions@.push(
            (
                Instruction::Wide(Code::MovR8Imm8, old(scene).primary.byte, if truth {
                    1
                } else {
                    0
                }),
                old(prime).pending_label,
            ),
        ),
        body.nodes@[index as int] matches Node::Rune(rune) ==> (old(scene).mode == Mode::Real <==> r
            == Err::<(), GenerateError>(GenerateError::Rune)) && (old(scene).mode != Mode::Real
            ==> final(prime).instructions@ == old(prime).instructions@.push(
            (
                Instruction::Wide(Code::MovR32Imm32, old(scene).primary.double, (rune as u32) as i64),
                old(prime).pending_label,
            ),
        )),
        body.nodes@[index as int] matches Node::Integral(integral) ==> (typed.nodes@.contains_key(
            index,
        ) && (typed.nodes@[index] is Signed || typed.nodes@[index] is Unsigned) ==> r is Ok
            && final(prime).instructions@ == old(prime).instructions@.push(
            (
                Instruction::Wide(
                    match integer_size(typed.nodes@[index]) {
                        Size::Byte => Code::MovR8Imm8,
                        Size::Word => Code::MovR16Imm16,
                        Size::Double => Code::MovR32Imm32,
                        Size::Quad => Code::MovR64Imm64,
                    },
                    old(scene).primary.spec_at(integer_size(typed.nodes@[index])),
                    integral as i64,
                ),
                old(prime).pending_label,
            ),
        )),
        body.nodes@[index as int] matches Node::Let(_, None) ==> r == Err::<(), GenerateError>(
            GenerateError::Unsupported,
        ),
    decreases body.rank(index as int), 3nat,
{
    let span = Span::internal();
    match &body.nodes[index] {
        Node::Block(nodes) => {
            let mut k: usize = 0;
            while k < nodes.len()
                invariant
            body.well_formed(),
            index < body.nodes.len(),
            sound(*prime),
            extends(*old(prime), *prime),
            steady(*old(scene), *scene),
                    parts(body.nodes@[index as int]) == nodes@,
                decreases nodes.len() - k,
            {
                proof {
                    lemma_part(body, index as int, k as int);
                }
                value(typed, body, scene, prime, nodes[k])?;
                k = k + 1;
            }
            Ok(())
        },
        Node::Let(_, None) => Err(GenerateError::Unsupported),
        Node::Let(_, Some(_)) => value_let(typed, body, scene, prime, index),
        Node::Assign(_, _) => value_assign(typed, body, scene, prime, index),
        Node::While(_, _) => value_while(typed, body, scene, prime, index),
        Node::When(_) => value_when(typed, body, scene, prime, index),
        Node::Cast(_, _) => cast(typed, body, scene, prime, index),
        Node::Return(Some(part)) => {
            proof {
                lemma_part(body, index as int, 0);
            }
            render(typed, body, scene, prime, *part)
        },
        Node::Return(None) => {
            finish(scene, prime);
            Ok(())
        },
        Node::Call(_, _) => value_call(typed, body, scene, prime, index),
        Node::Compound(_, _, _) => value_compound(typed, body, scene, prime, index),
        Node::Binary(operator, _, _) => binary(typed, body, scene, prime, index, *operator),
        Node::Variable(variable) => {
            let offset = match scene.variables.get(variable) {
                Some(offset) => *offset,
                None => return Err(GenerateError::Missing),
            };
            let memory = frame_memory(scene, offset);
            let kind = match typed.variables.get(variable) {
                Some(kind) => kind,
                None => return Err(GenerateError::Missing),
            };
            let size = register_size(scene, kind)?;
            let code = if kind.composite() {
                load(scene.mode)
            } else {
                reg_rm(0, size)
            };
            emit(prime, Instruction::Load(code, scene.primary.at(size), memory), span);
            Ok(())
        },
        Node::Integral(integral) => match type_of(typed, index)? {
            Type::Signed(size) | Type::Unsigned(size) => {
                #[verifier::truncate]
                let immediate = *integral as i64;
                let register = scene.primary.at(*size);
                emit(prime, Instruction::Wide(move_immediate(*size), register, immediate), span);
                Ok(())
            },
            _ => Err(GenerateError::Unrepresentable),
        },
        Node::Truth(truth) => {
            let immediate: i64 = if *truth {
                1
            } else {
                0
            };
            emit(prime, Instruction::Wide(Code::MovR8Imm8, scene.primary.byte, immediate), span);
            Ok(())
        },
        Node::Rune(rune) => match scene.mode {
            Mode::Real => Err(GenerateError::Rune),
            _ => {
                let immediate = (*rune as u32) as i64;
                emit(prime, Instruction::Wide(Code::MovR32Imm32, scene.primary.double, immediate), span);
                Ok(())
            },
        },
        _ => Err(GenerateError::Unsupported),
    }
}

/// A declaration computes its value and stores it in a new frame slot of
/// the size of the variable's type.
fn value_let(typed: &Typed, body: &Body, scene: &mut Scene, prime: &mut Translation, index: usize) -> (r: Result<(), GenerateError>)
    requires
        body.well_formed(),
        index < body.nodes.len(),
        sound(*old(prime)),
    ensures
        sound(*final(prime)),
        extends(*old(prime), *final(prime)),
        steady(*old(scene), *final(scene)),
    decreases body.rank(index as int), 2nat,
{
    let span = Span::internal();
    let (variable, part) = match &body.nodes[index] {
        Node::Let(variable, Some(part)) => (*variable, *part),
        _ => return Err(GenerateError::Unsupported),
    };
    proof {
        lemma_part(body, index as int, 0);
    }
    value(typed, body, scene, prime, part)?;
    let kind = match typed.variables.get(&variable) {
        Some(kind) => kind,
        None => return Err(GenerateError::Missing),
    };
    let size = byte_size(typed, kind)?;
    if scene.variables.contains_key(&variable) {
        return Err(GenerateError::Unsupported);
    }
    if size > isize::MAX as usize || scene.next_offset < isize::MIN + (size as isize) {
        return Err(GenerateError::Overflow);
    }
    proof {
        assert(crate::binary::signed(size as int) == size as int);
    }
    let offset = scene.variable(variable, size);
    let memory = frame_memory(scene, offset);
    let part_kind = type_of(typed, part)?;
    let register = register_size(scene, part_kind)?;
    set(scene, prime, part_kind, size, memory, scene.primary.at(register), span)
}

/// An assignment computes the value, saves it, computes the address of
/// the target, and stores the value there.
fn value_assign(typed: &Typed, body: &Body, scene: &mut Scene, prime: &mut Translation, index: usize) -> (r: Result<(), GenerateError>)
    requires
        body.well_formed(),
        index < body.nodes.len(),
        sound(*old(prime)),
    ensures
        sound(*final(prime)),
        extends(*old(prime), *final(prime)),
        steady(*old(scene), *final(scene)),
    decreases body.rank(index as int), 2nat,
{
    let (target, part) = match &body.nodes[index] {
        Node::Assign(target, part) => (*target, *part),
        _ => return Err(GenerateError::Unsupported),
    };
    proof {
        lemma_part(body, index as int, 0);
        lemma_part(body, index as int, 1);
    }
    value(typed, body, scene, prime, part)?;
    store_at(typed, body, scene, prime, index, target, part)
}

/// Saves the value just computed for `part`, computes the address of
/// `target` and stores the value there.
fn store_at(typed: &Typed, body: &Body, scene: &mut Scene, prime: &mut Translation, index: usize, target: usize, part: usize) -> (r: Result<(), GenerateError>)
    requires
        body.well_formed(),
        index < body.nodes.len(),
        target < body.nodes.len(),
        body.rank(target as int) < body.rank(index as int),
        sound(*old(prime)),
    ensures
        sound(*final(prime)),
        extends(*old(prime), *final(prime)),
        steady(*old(scene), *final(scene)),
    decreases body.rank(index as int), 1nat,
{
    let span = Span::internal();
    let kind = type_of(typed, part)?;
    let size = register_size(scene, kind)?;
    let slot = stack(size);
    emit(prime, Instruction::Register(code_push(slot), scene.primary.at(slot)), span);
    self::target(typed, body, scene, prime, target)?;
    let alternate = scene.alternate.at(size);
    emit(prime, Instruction::Register(code_pop(slot), scene.alternate.at(slot)), span);
    let bytes = byte_size(typed, kind)?;
    let memory = Memory {
        base: scene.mode.base(),
        index: Some(scene.primary.at(scene.mode.size())),
        displacement: 0,
    };
    set(scene, prime, kind, bytes, memory, alternate, span)
}

/// A loop tests its condition at its entry label and leaves to its exit
/// label when it fails; its body jumps back to the entry.
fn value_while(typed: &Typed, body: &Body, scene: &mut Scene, prime: &mut Translation, index: usize) -> (r: Result<(), GenerateError>)
    requires
        body.well_formed(),
        index < body.nodes.len(),
        sound(*old(prime)),
    ensures
        sound(*final(prime)),
        extends(*old(prime), *final(prime)),
        steady(*old(scene), *final(scene)),
    decreases body.rank(index as int), 2nat,
{
    let span = Span::internal();
    let (condition, part) = match &body.nodes[index] {
        Node::While(condition, part) => (*condition, *part),
        _ => return Err(GenerateError::Unsupported),
    };
    proof {
        lemma_part(body, index as int, 0);
        lemma_part(body, index as int, 1);
    }
    let entry = match prime.pending_label {
        Some(label) => label,
        None => {
            let label = fresh(scene)?;
            prime.pending_label = Some(label);
            label
        },
    };
    value(typed, body, scene, prime, condition)?;
    let exit = fresh(scene)?;
    let register = scene.primary.byte;
    emit(prime, Instruction::Registers(Code::TestRm8R8, register, register), span);
    emit(prime, Instruction::Branch(branch(scene.mode, 0), exit), span);
    value(typed, body, scene, prime, part)?;
    emit(prime, Instruction::Branch(branch(scene.mode, 2), entry), span);
    mark(prime, exit, span);
    Ok(())
}

/// A conditional tests each condition in turn and jumps to its branch's
/// label when it holds; without a branch that always applies it jumps to
/// the exit otherwise. Each branch but the last jumps to the exit.
fn value_when(typed: &Typed, body: &Body, scene: &mut Scene, prime: &mut Translation, index: usize) -> (r: Result<(), GenerateError>)
    requires
        body.well_formed(),
        index < body.nodes.len(),
        sound(*old(prime)),
    ensures
        sound(*final(prime)),
        extends(*old(prime), *final(prime)),
        steady(*old(scene), *final(scene)),
    decreases body.rank(index as int), 2nat,
{
    let span = Span::internal();
    let branches = match &body.nodes[index] {
        Node::When(branches) => branches,
        _ => return Err(GenerateError::Unsupported),
    };
    let mut complete = false;
    let mut labels: Vec<u64> = Vec::new();
    let mut k: usize = 0;
    while k < branches.len()
        invariant
            body.well_formed(),
            index < body.nodes.len(),
            sound(*prime),
            extends(*old(prime), *prime),
            steady(*old(scene), *scene),
            parts(body.nodes@[index as int]) == crate::lowering::conditions(branches@)
                + crate::lowering::bodies(branches@),
            labels.len() == k,
            k <= branches.len(),
        decreases branches.len() - k,
    {
        let (condition, _) = branches[k];
        proof {
            assert(parts(body.nodes@[index as int])[k as int] == condition);
            lemma_part(body, index as int, k as int);
        }
        value(typed, body, scene, prime, condition)?;
        if let Node::Truth(true) = &body.nodes[condition] {
            complete = true;
        }
        let label = fresh(scene)?;
        let register = scene.primary.byte;
        emit(prime, Instruction::Registers(Code::TestRm8R8, register, register), span);
        emit(prime, Instruction::Branch(branch(scene.mode, 1), label), span);
        labels.push(label);
        k = k + 1;
    }
    let exit = fresh(scene)?;
    if !complete {
        emit(prime, Instruction::Branch(branch(scene.mode, 2), exit), span);
    }
    let mut k: usize = 0;
    while k < branches.len()
        invariant
            body.well_formed(),
            index < body.nodes.len(),
            sound(*prime),
            extends(*old(prime), *prime),
            steady(*old(scene), *scene),
            parts(body.nodes@[index as int]) == crate::lowering::conditions(branches@)
                + crate::lowering::bodies(branches@),
            labels.len() == branches.len(),
        decreases branches.len() - k,
    {
        let (_, part) = branches[k];
        proof {
            assert(parts(body.nodes@[index as int])[branches.len() + k] == part);
            lemma_part(body, index as int, branches.len() + k);
        }
        mark(prime, labels[k], span);
        value(typed, body, scene, prime, part)?;
        if k + 1 != branches.len() {
            emit(prime, Instruction::Branch(branch(scene.mode, 2), exit), span);
        }
        k = k + 1;
    }
    mark(prime, exit, span);
    Ok(())
}

/// A call pushes its arguments, the last first, calls, releases the
/// arguments' stack space, and moves a returned value into the primary
/// register.
fn value_call(typed: &Typed, body: &Body, scene: &mut Scene, prime: &mut Translation, index: usize) -> (r: Result<(), GenerateError>)
    requires
        body.well_formed(),
        index < body.nodes.len(),
        sound(*old(prime)),
    ensures
        sound(*final(prime)),
        extends(*old(prime), *final(prime)),
        steady(*old(scene), *final(scene)),
    decreases body.rank(index as int), 2nat,
{
    let span = Span::internal();
    let (path, arguments) = match &body.nodes[index] {
        Node::Call(path, arguments) => (*path, arguments),
        _ => return Err(GenerateError::Unsupported),
    };
    let mut size: usize = 0;
    let mut k: usize = arguments.len();
    while k > 0
        invariant
            body.well_formed(),
            index < body.nodes.len(),
            sound(*prime),
            extends(*old(prime), *prime),
            steady(*old(scene), *scene),
            parts(body.nodes@[index as int]) == arguments@,
            k <= arguments.len(),
        decreases k,
    {
        k = k - 1;
        proof {
            lemma_part(body, index as int, k as int);
        }
        let argument = arguments[k];
        value(typed, body, scene, prime, argument)?;
        let kind = type_of(typed, argument)?;
        let slot = stack(register_size(scene, kind)?);
        emit(prime, Instruction::Register(code_push(slot), scene.primary.at(slot)), span);
        let bytes = byte_size(typed, kind)?;
        size = match size.checked_add(bytes) {
            Some(size) => size,
            None => return Err(GenerateError::Overflow),
        };
    }
    #[verifier::truncate]
    let size = size as i32;
    let overload = match typed.functions.get(&index) {
        Some(overload) => *overload,
        None => return Err(GenerateError::Missing),
    };
    emit_call(prime, scene.mode, path as usize, overload, span);
    let code = match scene.mode {
        Mode::Protected => Code::AddRm32Imm32,
        Mode::Long => Code::AddRm64Imm32,
        Mode::Real => Code::AddRm16Imm16,
    };
    emit(prime, Instruction::Immediate(code, scene.mode.stack(), size), span);
    let kind = type_of(typed, index)?;
    if !matches!(kind, Type::Void) {
        let size = register_size(scene, kind)?;
        move_register(prime, sized(Register::AL, size), scene.primary.at(size), size, span);
    }
    Ok(())
}

/// A compound assignment computes the operation, then stores its result at
/// the target as an assignment does.
fn value_compound(typed: &Typed, body: &Body, scene: &mut Scene, prime: &mut Translation, index: usize) -> (r: Result<(), GenerateError>)
    requires
        body.well_formed(),
        index < body.nodes.len(),
        sound(*old(prime)),
    ensures
        sound(*final(prime)),
        extends(*old(prime), *final(prime)),
        steady(*old(scene), *final(scene)),
    decreases body.rank(index as int), 2nat,
{
    let (dual, target, part) = match &body.nodes[index] {
        Node::Compound(dual, target, part) => (*dual, *target, *part),
        _ => return Err(GenerateError::Unsupported),
    };
    proof {
        lemma_part(body, index as int, 0);
        lemma_part(body, index as int, 1);
    }
    binary(typed, body, scene, prime, index, Binary::Dual(dual))?;
    store_at(typed, body, scene, prime, index, target, part)
}


/// Appends the code of a binary operation on the two parts of the node at
/// `index`: the left operand is computed and saved, the right one is
/// computed into the alternate registers, and the operation combines them
/// into the primary register.
#[verifier::spinoff_prover]
#[verifier::rlimit(40)]
fn binary(typed: &Typed, body: &Body, scene: &mut Scene, prime: &mut Translation, index: usize, operator: Binary) -> (r: Result<(), GenerateError>)
    requires
        body.well_formed(),
        index < body.nodes.len(),
        sound(*old(prime)),
    ensures
        sound(*final(prime)),
        extends(*old(prime), *final(prime)),
        steady(*old(scene), *final(scene)),
    decreases body.rank(index as int), 1nat,
{
    let span = Span::internal();
    let (left, right) = match &body.nodes[index] {
        Node::Binary(_, left, right) => (*left, *right),
        Node::Compound(_, left, right) => (*left, *right),
        _ => return Err(GenerateError::Unsupported),
    };
    proof {
        lemma_part(body, index as int, 0);
        lemma_part(body, index as int, 1);
    }
    if let Binary::Or | Binary::And = operator {
        return short(typed, body, scene, prime, index, operator);
    }
    value(typed, body, scene, prime, left)?;
    let left_kind = type_of(typed, left)?;
    let size = register_size(scene, left_kind)?;
    let register = scene.primary.at(size);
    let alternate = scene.alternate.at(size);
    let slot = stack(size);
    let saved = scene.primary.at(slot);
    emit(prime, Instruction::Register(code_push(slot), saved), span);
    let primary = scene.primary;
    scene.primary = scene.alternate;
    scene.alternate = primary;
    let outcome = value(typed, body, scene, prime, right);
    let primary = scene.primary;
    scene.primary = scene.alternate;
    scene.alternate = primary;
    outcome?;
    emit(prime, Instruction::Register(code_pop(slot), saved), span);
    let right_kind = type_of(typed, right)?;
    match operator {
        Binary::Compare(compare) => compare_registers(scene, prime, compare, size, register, alternate),
        Binary::Dual(HDual::Multiply) => multiply(scene, prime, size, register, alternate),
        Binary::Dual(HDual::Divide) => divide(scene, prime, left_kind, true, size, register, alternate),
        Binary::Dual(HDual::Modulo) => divide(scene, prime, left_kind, false, size, register, alternate),
        Binary::Dual(HDual::ShiftLeft) => shift(scene, prime, left_kind, true, size, register),
        Binary::Dual(HDual::ShiftRight) => shift(scene, prime, left_kind, false, size, register),
        Binary::Dual(dual) => arithmetic(typed, scene, prime, dual, left_kind, right_kind, register, alternate),
        _ => Err(GenerateError::Unsupported),
    }
}

/// Compares two registers and sets the primary byte register to whether
/// the comparison holds.
fn compare_registers(scene: &mut Scene, prime: &mut Translation, compare: Compare, size: Size, register: Register, alternate: Register) -> (r: Result<(), GenerateError>)
    requires
        sound(*old(prime)),
    ensures
        sound(*final(prime)),
        extends(*old(prime), *final(prime)),
        steady(*old(scene), *final(scene)),
        final(scene).variables@ == old(scene).variables@,
        r is Ok,
        final(prime).instructions@.len() == old(prime).instructions@.len() + 2,
        final(prime).instructions@[old(prime).instructions@.len() as int].0 == Instruction::Registers(
            match size {
                Size::Byte => Code::CmpR8Rm8,
                Size::Word => Code::CmpR16Rm16,
                Size::Double => Code::CmpR32Rm32,
                Size::Quad => Code::CmpR64Rm64,
            },
            register,
            alternate,
        ),
        final(prime).instructions@[old(prime).instructions@.len() + 1int].0 == Instruction::Register(
            match compare {
                Compare::Less => Code::SetlRm8,
                Compare::Greater => Code::SetgRm8,
                Compare::LessEqual => Code::SetleRm8,
                Compare::GreaterEqual => Code::SetgeRm8,
                Compare::NotEqual => Code::SetneRm8,
                Compare::Equal => Code::SeteRm8,
            },
            old(scene).primary.byte,
        ),
{
    let span = Span::internal();
    emit(prime, Instruction::Registers(reg_rm(1, size), register, alternate), span);
    let code = match compare {
        Compare::Less => Code::SetlRm8,
        Compare::Greater => Code::SetgRm8,
        Compare::LessEqual => Code::SetleRm8,
        Compare::GreaterEqual => Code::SetgeRm8,
        Compare::NotEqual => Code::SetneRm8,
        Compare::Equal => Code::SeteRm8,
    };
    emit(prime, Instruction::Register(code, scene.primary.byte), span);
    Ok(())
}

/// Multiplies the primary register by the alternate one; bytes multiply
/// through the accumulator.
fn multiply(scene: &mut Scene, prime: &mut Translation, size: Size, register: Register, alternate: Register) -> (r: Result<(), GenerateError>)
    requires
        sound(*old(prime)),
    ensures
        sound(*final(prime)),
        extends(*old(prime), *final(prime)),
        steady(*old(scene), *final(scene)),
        final(scene).variables@ == old(scene).variables@,
{
    let span = Span::internal();
    match size {
        Size::Byte => {
            let ghost start = *scene;
            let free = claim(scene, prime, Register::AL, size, span);
            let (other, moved, conveyed) = convey(scene, prime, alternate, Register::BL, size, span);
            move_register(prime, register, Register::AL, size, span);
            emit(prime, Instruction::Register(Code::ImulRm8, other), span);
            unconvey(scene, prime, Register::BL, size, moved, conveyed, span);
            move_register(prime, Register::AL, register, size, span);
            release(scene, prime, Register::AL, size, free, span);
            proof {
                assert(scene.reserved@ =~= start.reserved@);
            }
        },
        _ => {
            let code = match size {
                Size::Word => Code::ImulR16Rm16,
                Size::Double => Code::ImulR32Rm32,
                _ => Code::ImulR64Rm64,
            };
            emit(prime, Instruction::Registers(code, register, alternate), span);
        },
    }
    Ok(())
}

/// Divides the primary register by the alternate one through the
/// accumulator and data registers; the quotient or the remainder goes to
/// the primary register.
fn divide(scene: &mut Scene, prime: &mut Translation, left_kind: &Type, quotient: bool, size: Size, register: Register, alternate: Register) -> (r: Result<(), GenerateError>)
    requires
        sound(*old(prime)),
    ensures
        sound(*final(prime)),
        extends(*old(prime), *final(prime)),
        steady(*old(scene), *final(scene)),
        final(scene).variables@ == old(scene).variables@,
{
    let span = Span::internal();
    let target = sized(Register::AL, size);
    let clear = sized(Register::DL, size);
    let ghost start = *scene;
    let first = claim(scene, prime, target, size, span);
    let second = claim(scene, prime, clear, size, span);
    let (other, moved, conveyed) = convey(scene, prime, alternate, sized(Register::BL, size), size, span);
    move_register(prime, register, target, size, span);
    let outcome = match left_kind {
        Type::Signed(width) => {
            emit(prime, Instruction::Plain(code_sign_extend(*width)), span);
            let code = match width {
                Size::Byte => Code::IdivRm8,
                Size::Word => Code::IdivRm16,
                Size::Double => Code::IdivRm32,
                Size::Quad => Code::IdivRm64,
            };
            emit(prime, Instruction::Register(code, other), span);
            Ok(())
        },
        Type::Unsigned(width) => {
            emit(prime, Instruction::Registers(reg_rm(2, *width), clear, clear), span);
            let code = match width {
                Size::Byte => Code::DivRm8,
                Size::Word => Code::DivRm16,
                Size::Double => Code::DivRm32,
                Size::Quad => Code::DivRm64,
            };
            emit(prime, Instruction::Register(code, other), span);
            Ok(())
        },
        _ => Err(GenerateError::Unrepresentable),
    };
    unconvey(scene, prime, sized(Register::BL, size), size, moved, conveyed, span);
    let result = if quotient {
        sized(Register::AL, size)
    } else {
        sized(Register::DL, size)
    };
    move_register(prime, result, register, size, span);
    release(scene, prime, clear, size, second, span);
    release(scene, prime, target, size, first, span);
    proof {
        assert(scene.reserved@ =~= start.reserved@);
    }
    outcome
}

/// Shifts the primary register by the alternate byte register, through
/// the count register.
fn shift(scene: &mut Scene, prime: &mut Translation, left_kind: &Type, left: bool, size: Size, register: Register) -> (r: Result<(), GenerateError>)
    requires
        sound(*old(prime)),
    ensures
        sound(*final(prime)),
        extends(*old(prime), *final(prime)),
        steady(*old(scene), *final(scene)),
        final(scene).variables@ == old(scene).variables@,
{
    let span = Span::internal();
    let ghost start = *scene;
    let free = claim(scene, prime, Register::CL, size, span);
    let (other, moved, conveyed) = convey(scene, prime, register, sized(Register::AL, size), size, span);
    move_register(prime, scene.alternate.byte, Register::CL, Size::Byte, span);
    let code = match (left, left_kind) {
        (true, Type::Signed(width)) => Some(match width {
            Size::Byte => Code::SalRm8Cl,
            Size::Word => Code::SalRm16Cl,
            Size::Double => Code::SalRm32Cl,
            Size::Quad => Code::SalRm64Cl,
        }),
        (true, Type::Unsigned(width)) => Some(match width {
            Size::Byte => Code::ShlRm8Cl,
            Size::Word => Code::ShlRm16Cl,
            Size::Double => Code::ShlRm32Cl,
            Size::Quad => Code::ShlRm64Cl,
        }),
        (false, Type::Signed(width)) => Some(match width {
            Size::Byte => Code::SarRm8Cl,
            Size::Word => Code::SarRm16Cl,
            Size::Double => Code::SarRm32Cl,
            Size::Quad => Code::SarRm64Cl,
        }),
        (false, Type::Unsigned(width)) => Some(match width {
            Size::Byte => Code::ShrRm8Cl,
            Size::Word => Code::ShrRm16Cl,
            Size::Double => Code::ShrRm32Cl,
            Size::Quad => Code::ShrRm64Cl,
        }),
        _ => None,
    };
    let outcome = match code {
        Some(code) => {
            emit(prime, Instruction::Registers(code, other, Register::CL), span);
            move_register(prime, other, register, size, span);
            Ok(())
        },
        None => Err(GenerateError::Unrepresentable),
    };
    unconvey(scene, prime, sized(Register::AL, size), size, moved, conveyed, span);
    release(scene, prime, Register::CL, size, free, span);
    proof {
        assert(scene.reserved@ =~= start.reserved@);
    }
    outcome
}

/// Adds, subtracts or combines bitwise the alternate register into the
/// primary one; a pointer moves by the index scaled by its element size.
fn arithmetic(typed: &Typed, scene: &mut Scene, prime: &mut Translation, dual: HDual, left_kind: &Type, right_kind: &Type, register: Register, alternate: Register) -> (r: Result<(), GenerateError>)
    requires
        sound(*old(prime)),
    ensures
        sound(*final(prime)),
        extends(*old(prime), *final(prime)),
        steady(*old(scene), *final(scene)),
        final(scene).variables@ == old(scene).variables@,
        !(*left_kind is Pointer) ==> (r is Ok ==> final(prime).instructions@ == old(
            prime,
        ).instructions@.push(
            (
                Instruction::Registers(
                    combining(dual, integer_size(*left_kind)),
                    register,
                    alternate,
                ),
                old(prime).pending_label,
            ),
        )),
{
    let span = Span::internal();
    if let Type::Pointer(element) = left_kind {
        let scale = byte_size(typed, element)?;
        let word = scene.mode.size();
        match right_kind {
            Type::Signed(width) => emit_some(prime, sign_extend(scene.primary, *width, word), span),
            Type::Unsigned(width) => emit_some(prime, zero_extend(scene.primary, *width, word), span),
            _ => return Err(GenerateError::Unrepresentable),
        }
        let alternate = scene.alternate.at(word);
        let code = match scene.mode {
            Mode::Protected => Code::ImulR32Rm32Imm32,
            Mode::Long => Code::ImulR64Rm64Imm32,
            Mode::Real => Code::ImulR16Rm16Imm16,
        };
        #[verifier::truncate]
        let scale = scale as i32;
        emit(prime, Instruction::Scaled(code, alternate, alternate, scale), span);
        let family: u8 = match dual {
            HDual::Add => 5,
            HDual::Minus => 6,
            _ => return Err(GenerateError::Unsupported),
        };
        emit(prime, Instruction::Registers(reg_rm(family, word), scene.primary.at(word), alternate), span);
        return Ok(());
    }
    let width = match (dual, left_kind) {
        (HDual::Add, Type::Signed(width)) | (HDual::Add, Type::Unsigned(width))
        | (HDual::Minus, Type::Signed(width)) | (HDual::Minus, Type::Unsigned(width)) => *width,
        (HDual::BinaryOr, Type::Truth) | (HDual::BinaryAnd, Type::Truth)
        | (HDual::ExclusiveOr, Type::Truth) => Size::Byte,
        (HDual::BinaryOr, Type::Signed(width)) | (HDual::BinaryOr, Type::Unsigned(width))
        | (HDual::BinaryAnd, Type::Signed(width)) | (HDual::BinaryAnd, Type::Unsigned(width))
        | (HDual::ExclusiveOr, Type::Signed(width)) | (HDual::ExclusiveOr, Type::Unsigned(width)) => *width,
        _ => return Err(GenerateError::Unrepresentable),
    };
    let family: u8 = match dual {
        HDual::Add => 5,
        HDual::Minus => 6,
        HDual::BinaryOr => 3,
        HDual::BinaryAnd => 4,
        _ => 2,
    };
    emit(prime, Instruction::Registers(reg_rm(family, width), register, alternate), span);
    Ok(())
}

/// A logical operation computes its left operand and skips the right one
/// when the left one decides: `or` when it holds, `and` when it fails.
fn short(typed: &Typed, body: &Body, scene: &mut Scene, prime: &mut Translation, index: usize, operator: Binary) -> (r: Result<(), GenerateError>)
    requires
        body.well_formed(),
        index < body.nodes.len(),
        sound(*old(prime)),
    ensures
        sound(*final(prime)),
        extends(*old(prime), *final(prime)),
        steady(*old(scene), *final(scene)),
    decreases body.rank(index as int), 0nat,
{
    let span = Span::internal();
    let (left, right) = match &body.nodes[index] {
        Node::Binary(_, left, right) => (*left, *right),
        Node::Compound(_, left, right) => (*left, *right),
        _ => return Err(GenerateError::Unsupported),
    };
    proof {
        lemma_part(body, index as int, 0);
        lemma_part(body, index as int, 1);
    }
    value(typed, body, scene, prime, left)?;
    let register = scene.primary.byte;
    emit(prime, Instruction::Registers(Code::TestRm8R8, register, register), span);
    let exit = fresh(scene)?;
    let kind: u8 = if operator == Binary::Or {
        1
    } else {
        0
    };
    emit(prime, Instruction::Branch(branch(scene.mode, kind), exit), span);
    value(typed, body, scene, prime, right)?;
    mark(prime, exit, span);
    Ok(())
}

/// Appends the code that computes the address of a node into the primary
/// register of the mode's word size, and returns the memory it denotes.
fn target(typed: &Typed, body: &Body, scene: &mut Scene, prime: &mut Translation, index: usize) -> (r: Result<Memory, GenerateError>)
    requires
        body.well_formed(),
        index < body.nodes.len(),
        sound(*old(prime)),
    ensures
        sound(*final(prime)),
        extends(*old(prime), *final(prime)),
        steady(*old(scene), *final(scene)),
    decreases body.rank(index as int), 1nat,
{
    let span = Span::internal();
    match &body.nodes[index] {
        Node::Variable(variable) => match scene.variables.get(variable) {
            Some(offset) => Ok(frame_memory(scene, *offset)),
            None => Err(GenerateError::Missing),
        },
        Node::Field(base, field) => {
            proof {
                lemma_part(body, index as int, 0);
            }
            let memory = target(typed, body, scene, prime, *base)?;
            let structure = match type_of(typed, *base)? {
                Type::Structure(path) => *path,
                _ => return Err(GenerateError::Missing),
            };
            let offset = field_offset(typed, structure, *field)?;
            #[verifier::truncate]
            let offset = offset as i32;
            let displacement = match memory.displacement.checked_add(offset) {
                Some(displacement) => displacement,
                None => return Err(GenerateError::Overflow),
            };
            Ok(Memory { displacement, ..memory })
        },
        Node::Index(base, position) => {
            proof {
                lemma_part(body, index as int, 0);
                lemma_part(body, index as int, 1);
            }
            let word = scene.mode.size();
            let primary = scene.primary.at(word);
            match type_of(typed, *base)? {
                Type::Array(element, _) => {
                    let scale = byte_size(typed, element)?;
                    let memory = target(typed, body, scene, prime, *base)?;
                    emit(prime, Instruction::Load(load(scene.mode), primary, memory), span);
                    emit(prime, Instruction::Register(code_push(word), primary), span);
                    swap_restore(typed, body, scene, prime, index, *position)?;
                    let position_kind = type_of(typed, *position)?;
                    scale_index(scene, prime, position_kind, scale)?;
                    Ok(Memory { base: primary, index: None, displacement: 0 })
                },
                Type::Slice(element) => {
                    let scale = byte_size(typed, element)?;
                    value(typed, body, scene, prime, *base)?;
                    let memory = Memory { base: primary, index: None, displacement: 0 };
                    emit(prime, Instruction::Memory(code_push(word), memory), span);
                    swap_restore(typed, body, scene, prime, index, *position)?;
                    let position_kind = type_of(typed, *position)?;
                    scale_index(scene, prime, position_kind, scale)?;
                    Ok(Memory { base: primary, index: None, displacement: 0 })
                },
                _ => Err(GenerateError::Unrepresentable),
            }
        },
        Node::Unary(HUnary::Dereference, part) => {
            proof {
                lemma_part(body, index as int, 0);
            }
            value(typed, body, scene, prime, *part)?;
            let primary = scene.primary.at(scene.mode.size());
            Ok(Memory { base: primary, index: None, displacement: 0 })
        },
        _ => Err(GenerateError::NotAddressable),
    }
}

/// Adds an index, scaled by the element size, to the address in the
/// primary register; the index is in the alternate register.
fn scale_index(scene: &Scene, prime: &mut Translation, kind: &Type, scale: usize) -> (r: Result<(), GenerateError>)
    requires
        sound(*old(prime)),
    ensures
        sound(*final(prime)),
        extends(*old(prime), *final(prime)),
{
    let span = Span::internal();
    let word = scene.mode.size();
    match kind {
        Type::Signed(width) => emit_some(prime, sign_extend(scene.primary, *width, word), span),
        Type::Unsigned(width) => emit_some(prime, zero_extend(scene.primary, *width, word), span),
        _ => return Err(GenerateError::Unrepresentable),
    }
    let alternate = scene.alternate.at(word);
    let code = match scene.mode {
        Mode::Protected => Code::ImulR32Rm32Imm32,
        Mode::Long => Code::ImulR64Rm64Imm32,
        Mode::Real => Code::ImulR16Rm16Imm16,
    };
    #[verifier::truncate]
    let scale = scale as i32;
    emit(prime, Instruction::Scaled(code, alternate, alternate, scale), span);
    emit(prime, Instruction::Registers(reg_rm(5, word), scene.primary.at(word), alternate), span);
    Ok(())
}

/// Computes a node into the alternate registers, then restores the saved
/// address into the primary register.
fn swap_restore(typed: &Typed, body: &Body, scene: &mut Scene, prime: &mut Translation, index: usize, part: usize) -> (r: Result<(), GenerateError>)
    requires
        body.well_formed(),
        index < body.nodes.len(),
        part < body.nodes.len(),
        body.rank(part as int) < body.rank(index as int),
        sound(*old(prime)),
    ensures
        sound(*final(prime)),
        extends(*old(prime), *final(prime)),
        steady(*old(scene), *final(scene)),
    decreases body.rank(index as int), 0nat,
{
    let primary = scene.primary;
    scene.primary = scene.alternate;
    scene.alternate = primary;
    let outcome = value(typed, body, scene, prime, part);
    let primary = scene.primary;
    scene.primary = scene.alternate;
    scene.alternate = primary;
    outcome?;
    let word = scene.mode.size();
    emit(prime, Instruction::Register(code_pop(word), scene.primary.at(word)), Span::internal());
    Ok(())
}

/// A conversion between integers computes the value and extends it to the
/// target size, by its sign if it is signed and with zeros otherwise.
fn cast(typed: &Typed, body: &Body, scene: &mut Scene, prime: &mut Translation, index: usize) -> (r: Result<(), GenerateError>)
    requires
        body.well_formed(),
        index < body.nodes.len(),
        sound(*old(prime)),
    ensures
        sound(*final(prime)),
        extends(*old(prime), *final(prime)),
        steady(*old(scene), *final(scene)),
    decreases body.rank(index as int), 1nat,
{
    let (part, target) = match &body.nodes[index] {
        Node::Cast(part, target) => (*part, target),
        _ => return Err(GenerateError::Unsupported),
    };
    proof {
        lemma_part(body, index as int, 0);
    }
    value(typed, body, scene, prime, part)?;
    let span = Span::internal();
    match (type_of(typed, part)?, target) {
        (Type::Signed(size), Type::Signed(to)) | (Type::Signed(size), Type::Unsigned(to)) => {
            emit_some(prime, sign_extend(scene.primary, *size, *to), span);
            Ok(())
        },
        (Type::Unsigned(size), Type::Signed(to)) | (Type::Unsigned(size), Type::Unsigned(to)) => {
            emit_some(prime, zero_extend(scene.primary, *size, *to), span);
            Ok(())
        },
        _ => Err(GenerateError::InvalidCast),
    }
}

/// Returns from a function with the value of a node: a value in a
/// register moves to the accumulator; a value in memory is copied to the
/// space the caller passed; a diverging node returns nothing.
fn render(typed: &Typed, body: &Body, scene: &mut Scene, prime: &mut Translation, index: usize) -> (r: Result<(), GenerateError>)
    requires
        body.well_formed(),
        index < body.nodes.len(),
        sound(*old(prime)),
    ensures
        sound(*final(prime)),
        extends(*old(prime), *final(prime)),
        steady(*old(scene), *final(scene)),
    decreases body.rank(index as int), 4nat,
{
    let span = Span::internal();
    value(typed, body, scene, prime, index)?;
    let kind = type_of(typed, index)?;
    match kind {
        Type::Void => {},
        Type::Never => return Ok(()),
        _ => if kind.composite() {
            let size = byte_size(typed, kind)?;
            let word = scene.mode.size();
            let offset = parameters_offset(scene.mode);
            let memory = frame_memory(scene, offset as isize);
            let (source, counter, target) = copy_registers(scene.mode);
            let ghost start = *scene;
            let first = claim(scene, prime, source, word, span);
            let second = claim(scene, prime, counter, word, span);
            let third = claim(scene, prime, target, word, span);
            move_register(prime, scene.primary.at(word), source, word, span);
            emit(prime, Instruction::Load(reg_rm(0, word), target, memory), span);
            #[verifier::truncate]
            let count = size as i32;
            emit(prime, Instruction::Immediate(move_immediate(word), counter, count), span);
            emit(prime, Instruction::Repeat(Code::RepMovsb, scene.mode.bits() as u32), span);
            release(scene, prime, target, word, third, span);
            release(scene, prime, counter, word, second, span);
            release(scene, prime, source, word, first, span);
            proof {
                assert(scene.reserved@ =~= start.reserved@);
            }
        } else {
            let size = register_size(scene, kind)?;
            move_register(prime, scene.primary.at(size), sized(Register::AL, size), size, span);
        },
    }
    finish(scene, prime);
    Ok(())
}

/// Closes the frame and returns.
fn finish(scene: &Scene, prime: &mut Translation)
    requires
        sound(*old(prime)),
    ensures
        sound(*final(prime)),
        extends(*old(prime), *final(prime)),
{
    let span = Span::internal();
    let (leave, ret) = match scene.mode {
        Mode::Protected => (Code::Leaved, Code::Retnd),
        Mode::Long => (Code::Leaveq, Code::Retnq),
        Mode::Real => (Code::Leavew, Code::Retnw),
    };
    emit(prime, Instruction::Plain(leave), span);
    emit(prime, Instruction::Plain(ret), span);
}


/// A parameter of a function: a variable with its type, or a register.
#[derive(Debug)]
pub enum Parameter {
    Variable(u64, Type),
    Register(String),
}

/// The return of a function: a value of a type, or a register.
#[derive(Debug)]
pub enum ReturnType {
    Type(Type),
    Register(String),
}

/// A function to translate: its parameters, its return, its body, whether
/// it is the program's entry, and the names of the registers it reserves.
#[derive(Debug)]
pub struct Function {
    pub parameters: Vec<Parameter>,
    pub return_type: ReturnType,
    pub body: Body,
    pub main: bool,
    pub reserved: Vec<String>,
}

/// Gives each variable parameter its place above the frame base, in
/// order, past the address of a returned value that lives in memory; a
/// byte takes two bytes of stack.
pub fn parameters(typed: &Typed, function: &Function, scene: &mut Scene) -> (r: Result<(), GenerateError>)
    ensures
        steady(*old(scene), *final(scene)),
        final(scene).next_offset == old(scene).next_offset,
        final(scene).next_label == old(scene).next_label,
{
    broadcast use vstd::std_specs::hash::group_hash_axioms;

    let mut offset = parameters_offset(scene.mode);
    if let ReturnType::Type(kind) = &function.return_type {
        if kind.composite() {
            offset = match offset.checked_add(scene.mode.size().bytes()) {
                Some(offset) => offset,
                None => return Err(GenerateError::Overflow),
            };
        }
    }
    let mut k: usize = 0;
    while k < function.parameters.len()
        invariant
            steady(*old(scene), *scene),
            scene.next_offset == old(scene).next_offset,
            scene.next_label == old(scene).next_label,
        decreases function.parameters.len() - k,
    {
        if let Parameter::Variable(variable, kind) = &function.parameters[k] {
            if offset > isize::MAX as usize {
                return Err(GenerateError::Overflow);
            }
            scene.variables.insert(*variable, offset as isize);
            let size = byte_size(typed, kind)?;
            let step = if size == 1 {
                2
            } else {
                size
            };
            offset = match offset.checked_add(step) {
                Some(offset) => offset,
                None => return Err(GenerateError::Overflow),
            };
        }
        k = k + 1;
    }
    Ok(())
}

/// Translates a function into x86 instructions in the given mode: the
/// frame opens, the parameters get their places, the body computes and
/// returns its value, and the frame's reservation is settled. The entry
/// function instead ends the process with the value of its body. Every
/// recorded call is at a call instruction.
pub fn translate(function: &Function, typed: &Typed, mode: Mode) -> (r: Result<Translation, GenerateError>)
    requires
        function.body.well_formed(),
        function.body.root < function.body.nodes.len(),
    ensures
        r matches Ok(translation) ==> calls_marked(translation),
        r matches Ok(translation) ==> translation.instructions@.len() >= 2
            && translation.instructions@[0].0 == crate::x86::entry_code(mode)[0]
            && translation.instructions@[1].0 == crate::x86::entry_code(mode)[1],
        r matches Ok(translation) ==> (function.main ==> translation.instructions@.last().0
            == Instruction::Plain(Code::Syscall) && translation.instructions@[2].0 is Immediate),
{
    let span = Span::internal();
    let reserved = match reserved(&function.reserved, mode) {
        Ok(reserved) => reserved,
        Err(e) => return Err(GenerateError::Register(e)),
    };
    let (primary, alternate) = match registers(&reserved, mode) {
        Ok(sets) => sets,
        Err(e) => return Err(GenerateError::Register(e)),
    };
    let mut scene = Scene {
        mode,
        primary,
        alternate,
        reserved,
        variables: HashMap::new(),
        next_offset: 0,
        next_label: 0,
    };
    let mut translation = Translation {
        pending_label: None,
        instructions: Vec::new(),
        calls: Vec::new(),
        spans: Vec::new(),
    };
    entry(&scene, &mut translation, span);
    let ghost opened = translation;
    assert(opened.instructions@[2].0 is Immediate);
    assert(opened.instructions@[0].0 == crate::x86::entry_code(mode)[0]);
    assert(opened.instructions@[1].0 == crate::x86::entry_code(mode)[1]);
    parameters(typed, function, &mut scene)?;
    let root = function.body.root;
    if function.main {
        value(typed, &function.body, &mut scene, &mut translation, root)?;
        emit(&mut translation, Instruction::Registers(Code::MovR64Rm64, Register::RDI, Register::RAX), span);
        emit(&mut translation, Instruction::Wide(Code::MovR64Imm64, Register::RAX, 0x2000001), span);
        emit(&mut translation, Instruction::Plain(Code::Syscall), span);
        if scene.next_offset == isize::MIN {
            return Err(GenerateError::Overflow);
        }
        #[verifier::truncate]
        let frame = (-scene.next_offset) as i32;
        let (reservation, label) = translation.instructions[2];
        let settled = match reservation {
            Instruction::Immediate(code, register, _) => Instruction::Immediate(code, register, frame),
            other => other,
        };
        translation.instructions.set(2, (settled, label));
        return Ok(translation);
    }
    render(typed, &function.body, &mut scene, &mut translation, root)?;
    if scene.next_offset == isize::MIN {
        return Err(GenerateError::Overflow);
    }
    let ghost before = translation;
    settle_frame(&scene, &mut translation);
    proof {
        assert forall|i: int| 0 <= i < translation.calls@.len() implies #[trigger] translation.calls@[i].0
            < translation.instructions@.len() && is_call(
            translation.instructions@[translation.calls@[i].0 as int].0,
        ) by {
            assert(before.calls@[i].0 >= 3);
            assert(is_call(before.instructions@[before.calls@[i].0 as int].0));
        }
    }
    Ok(translation)
}


/// Reserves `size` bytes of the frame, which grows downwards, and returns
/// their offset from the frame base.
fn reserve_frame(scene: &mut Scene, size: usize) -> (r: Result<isize, GenerateError>)
    ensures
        steady(*old(scene), *final(scene)),
        final(scene).variables@ == old(scene).variables@,
        final(scene).next_label == old(scene).next_label,
        r matches Ok(offset) ==> offset == old(scene).next_offset - size && final(scene).next_offset
            == offset,
{
    if size > isize::MAX as usize || scene.next_offset < isize::MIN + (size as isize) {
        return Err(GenerateError::Overflow);
    }
    scene.next_offset = scene.next_offset - (size as isize);
    Ok(scene.next_offset)
}

/// Appends a call that keeps the reserved registers: they are saved
/// before the arguments and restored after the call. Arguments are pushed
/// from the last; an argument that lives in memory is copied onto the
/// stack. A returned value that lives in memory gets a frame slot whose
/// address is passed first and is the call's value; any other returned
/// value moves from the accumulator into the primary register.
pub fn call(typed: &Typed, body: &Body, scene: &mut Scene, prime: &mut Translation, index: usize) -> (r: Result<(), GenerateError>)
    requires
        body.well_formed(),
        index < body.nodes.len(),
        sound(*old(prime)),
    ensures
        sound(*final(prime)),
        extends(*old(prime), *final(prime)),
        steady(*old(scene), *final(scene)),
    decreases body.rank(index as int), 0nat,
{
    let span = Span::internal();
    let (path, arguments) = match &body.nodes[index] {
        Node::Call(path, arguments) => (*path, arguments),
        _ => return Err(GenerateError::Unsupported),
    };
    let word = scene.mode.size();
    let mut saved: Vec<Registers> = Vec::new();
    let mut k: usize = 0;
    while k < scene.reserved.len()
        invariant
            saved@ == scene.reserved@.subrange(0, k as int),
            k <= scene.reserved.len(),
        decreases scene.reserved.len() - k,
    {
        saved.push(scene.reserved[k]);
        k = k + 1;
    }
    let mut k: usize = saved.len();
    while k > 0
        invariant
            sound(*prime),
            extends(*old(prime), *prime),
            k <= saved.len(),
        decreases k,
    {
        k = k - 1;
        emit(prime, Instruction::Register(code_push(word), saved[k].at(word)), span);
    }
    let mut size: usize = 0;
    let mut k: usize = arguments.len();
    while k > 0
        invariant
            body.well_formed(),
            index < body.nodes.len(),
            sound(*prime),
            extends(*old(prime), *prime),
            steady(*old(scene), *scene),
            parts(body.nodes@[index as int]) == arguments@,
            k <= arguments.len(),
        decreases k,
    {
        k = k - 1;
        proof {
            lemma_part(body, index as int, k as int);
        }
        let argument = arguments[k];
        value(typed, body, scene, prime, argument)?;
        let kind = type_of(typed, argument)?;
        let bytes = if kind.composite() {
            let bytes = byte_size(typed, kind)?;
            #[verifier::truncate]
            let immediate = bytes as i32;
            let code = match scene.mode {
                Mode::Protected => Code::SubRm32Imm32,
                Mode::Long => Code::SubRm64Imm32,
                Mode::Real => Code::SubRm16Imm16,
            };
            emit(prime, Instruction::Immediate(code, scene.mode.stack(), immediate), span);
            let memory = Memory { base: scene.mode.stack(), index: None, displacement: 0 };
            set(scene, prime, kind, bytes, memory, scene.primary.at(word), span)?;
            bytes
        } else {
            let slot = stack(register_size(scene, kind)?);
            emit(prime, Instruction::Register(code_push(slot), scene.primary.at(slot)), span);
            slot.bytes()
        };
        size = match size.checked_add(bytes) {
            Some(size) => size,
            None => return Err(GenerateError::Overflow),
        };
    }
    let kind = type_of(typed, index)?;
    let composite = if kind.composite() {
        size = match size.checked_add(word.bytes()) {
            Some(size) => size,
            None => return Err(GenerateError::Overflow),
        };
        let bytes = byte_size(typed, kind)?;
        let offset = reserve_frame(scene, bytes)?;
        let memory = frame_memory(scene, offset);
        emit(prime, Instruction::Load(load(scene.mode), scene.primary.at(word), memory), span);
        emit(prime, Instruction::Register(code_push(word), scene.primary.at(word)), span);
        Some(offset)
    } else {
        None
    };
    #[verifier::truncate]
    let size = size as i32;
    let overload = match typed.functions.get(&index) {
        Some(overload) => *overload,
        None => return Err(GenerateError::Missing),
    };
    emit_call(prime, scene.mode, path as usize, overload, span);
    let code = match scene.mode {
        Mode::Protected => Code::AddRm32Imm32,
        Mode::Long => Code::AddRm64Imm32,
        Mode::Real => Code::AddRm16Imm16,
    };
    emit(prime, Instruction::Immediate(code, scene.mode.stack(), size), span);
    match composite {
        Some(offset) => {
            let memory = frame_memory(scene, offset);
            emit(prime, Instruction::Load(load(scene.mode), scene.primary.at(word), memory), span);
        },
        None => if !matches!(kind, Type::Void | Type::Never) {
            let size = register_size(scene, kind)?;
            move_register(prime, sized(Register::AL, size), scene.primary.at(size), size, span);
        },
    }
    let mut k: usize = 0;
    while k < saved.len()
        invariant
            sound(*prime),
            extends(*old(prime), *prime),
        decreases saved.len() - k,
    {
        emit(prime, Instruction::Register(code_pop(word), saved[k].at(word)), span);
        k = k + 1;
    }
    Ok(())
}

} // verus!

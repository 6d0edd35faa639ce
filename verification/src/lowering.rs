use vstd::prelude::*;

use std::collections::HashMap;

use crate::hir::HType;
use crate::layout::{depth, field_offsets, offsets, size, size_of, Identifier, Structure};
use crate::lower::{
    binary_operation, call_target, cast, conversion, pointer, unary, unary_operation, HBinary, HDual, HUnary, LBinary, LUnary, LowerError,
};
use crate::node::{Sign, Target, Width};
use crate::types::{Convention, RType, StructureId};

verus! {

/// The position of a node in the body of a typed value.
pub type HIndex = usize;

/// Interned name of a local variable or parameter.
pub type Variable = u64;

/// A stack slot of a lowered function.
pub type LTarget = usize;

/// The interned name of the field of a slice that holds its address.
pub const ADDRESS: Identifier = 0;

/// The interned name of the field of a slice that holds its length.
pub const SIZE: Identifier = 1;

/// A function item: its path and the overload that inference chose.
#[derive(Debug, Clone, Copy, PartialEq, Eq, Structural)]
pub struct FunctionRef {
    pub path: u64,
    pub index: usize,
}

/// A node of a typed value body. Nodes name their parts by position.
#[derive(Debug)]
pub enum HNode {
    Block(Vec<HIndex>),
    Let(Variable, Option<HType>, Option<HIndex>),
    Assign(HIndex, HIndex),
    While(HIndex, HIndex),
    When(Vec<(HIndex, HIndex)>),
    Cast(HIndex, Option<HType>),
    Return(Option<HIndex>),
    Compile(usize),
    Inline(usize),
    Call(u64, Vec<HIndex>),
    Method(HIndex, Vec<HIndex>),
    Field(HIndex, Identifier),
    New(StructureId, Vec<(Identifier, HIndex)>),
    SliceNew(Option<Target>, HType, Vec<(Identifier, HIndex)>),
    Slice(HIndex, Option<HIndex>, Option<HIndex>),
    Index(HIndex, HIndex),
    Compound(HDual, HIndex, HIndex),
    Binary(HBinary, HIndex, HIndex),
    Unary(HUnary, HIndex),
    Variable(Variable),
    Function(u64),
    Static(u64),
    Array(Vec<HIndex>),
    String(String),
    Register(String),
    Integral(i128),
    Truth(bool),
    Rune(char),
    Break,
    Continue,
    Unresolved,
    Error,
}

/// A lowered expression.
#[derive(Debug)]
pub enum LNode {
    Block(Vec<LUnit>, Box<LNode>),
    If(Box<LNode>, Box<LNode>, Option<Box<LNode>>),
    Cast(Box<LNode>, Sign, Width, Width),
    Binary(LBinary, Width, Box<LNode>, Box<LNode>),
    Unary(LUnary, Width, Box<LNode>),
    Dereference(LPlace),
    Target(LTarget),
    Static(u64),
    Function(FunctionRef),
    Call(LReceiver, Vec<LNode>),
    Compile(usize),
    String(String),
    Register(String),
    Integral(i128),
    Never(Box<LUnit>),
}

/// An expression that evaluates to an address.
#[derive(Debug)]
pub struct LPlace(pub Box<LNode>);

/// What a lowered call calls: a function item, or a function value with
/// its calling convention.
#[derive(Debug)]
pub enum LReceiver {
    Path(FunctionRef),
    Method(Option<Convention>, Box<LNode>),
}

/// A lowered statement.
#[derive(Debug)]
pub enum LUnit {
    Block(Vec<LUnit>),
    Assign(LPlace, LNode),
    Zero(LTarget),
    Node(LNode),
    If(LNode, Box<LUnit>, Option<Box<LUnit>>),
    Loop(Box<LUnit>),
    Break,
    Continue,
    Return(Option<LNode>),
    Compile(usize),
    Inline(usize),
    Call(LReceiver, Vec<LNode>),
}

/// The conditions of a list of branches.
pub open spec fn conditions(branches: Seq<(HIndex, HIndex)>) -> Seq<HIndex> {
    branches.map_values(|b: (HIndex, HIndex)| b.0)
}

/// The bodies of a list of branches.
pub open spec fn bodies(branches: Seq<(HIndex, HIndex)>) -> Seq<HIndex> {
    branches.map_values(|b: (HIndex, HIndex)| b.1)
}

/// The values of a list of named fields.
pub open spec fn field_values(fields: Seq<(Identifier, HIndex)>) -> Seq<HIndex> {
    fields.map_values(|f: (Identifier, HIndex)| f.1)
}

/// The node an optional part names, if any.
pub open spec fn optional(part: Option<HIndex>) -> Seq<HIndex> {
    match part {
        Some(index) => seq![index],
        None => seq![],
    }
}

/// The parts of a node: the nodes that it is made of.
pub open spec fn children(node: HNode) -> Seq<HIndex> {
    match node {
        HNode::Block(nodes) => nodes@,
        HNode::Let(_, _, node) => optional(node),
        HNode::Assign(a, b) => seq![a, b],
        HNode::While(a, b) => seq![a, b],
        HNode::When(branches) => conditions(branches@) + bodies(branches@),
        HNode::Cast(node, _) => seq![node],
        HNode::Return(node) => optional(node),
        HNode::Call(_, arguments) => arguments@,
        HNode::Method(base, arguments) => seq![base] + arguments@,
        HNode::Field(base, _) => seq![base],
        HNode::New(_, fields) => field_values(fields@),
        HNode::SliceNew(_, _, fields) => field_values(fields@),
        HNode::Slice(base, start, end) => seq![base] + optional(start) + optional(end),
        HNode::Index(a, b) => seq![a, b],
        HNode::Compound(_, a, b) => seq![a, b],
        HNode::Binary(_, a, b) => seq![a, b],
        HNode::Unary(_, node) => seq![node],
        HNode::Array(nodes) => nodes@,
        _ => seq![],
    }
}

/// Whether `rank` places every part of every node in the body and ranks
/// it below the node. Such a ranking exists exactly when no node is a
/// part of itself.
pub open spec fn ranked(nodes: Seq<HNode>, rank: spec_fn(int) -> nat) -> bool {
    forall|i: int, k: int|
        0 <= i < nodes.len() && 0 <= k < children(nodes[i]).len() ==> {
            &&& #[trigger] children(nodes[i])[k] < nodes.len()
            &&& rank(children(nodes[i])[k] as int) < rank(i)
        }
}

/// A ranking of the nodes of a body in which no node is a part of itself.
pub open spec fn ranking(nodes: Seq<HNode>) -> spec_fn(int) -> nat {
    choose|rank: spec_fn(int) -> nat| ranked(nodes, rank)
}

/// Whether the size of a type, and of the types that it points to or
/// holds, can be computed without exceeding the address space.
pub open spec fn fits(table: Seq<Structure>, kind: RType) -> bool
    decreases kind,
{
    &&& size_of(table, kind, depth(table)) != Err::<int, crate::layout::LayoutError>(
        crate::layout::LayoutError::Overflow,
    )
    &&& match kind {
        RType::Array(element, _) => fits(table, *element),
        RType::Slice(_, element) => fits(table, *element),
        RType::Pointer(_, element) => fits(table, *element),
        _ => true,
    }
}

/// What lowering reads: a typed value body, the types that inference gave
/// its nodes and variables, the overloads it chose, the structures, the
/// architecture of each function item and the architecture of the code.
#[derive(Debug)]
pub struct Lowering {
    pub nodes: Vec<HNode>,
    pub types: HashMap<HIndex, RType>,
    pub variables: HashMap<Variable, RType>,
    pub functions: HashMap<HIndex, usize>,
    pub structures: Vec<Structure>,
    pub architectures: HashMap<u64, Target>,
    pub target: Target,
}

impl Lowering {
    /// No node of the body is a part of itself, and the sizes of all types
    /// given to nodes and variables fit in the address space.
    pub open spec fn well_formed(&self) -> bool {
        &&& exists|rank: spec_fn(int) -> nat| ranked(self.nodes@, rank)
        &&& forall|i: HIndex| #[trigger]
            self.types@.contains_key(i) ==> fits(self.structures@, self.types@[i])
        &&& forall|v: Variable| #[trigger]
            self.variables@.contains_key(v) ==> fits(self.structures@, self.variables@[v])
    }

    /// The rank of a node, below the ranks of the nodes it is part of.
    pub open spec fn rank(&self, index: int) -> nat {
        ranking(self.nodes@)(index)
    }

    /// Whether inference gave the node the type `Never`.
    pub open spec fn diverges(&self, index: int) -> bool {
        &&& self.types@.contains_key(index as HIndex)
        &&& self.types@[index as HIndex] is Never
    }
}

/// The stack slots of a function being lowered, with their sizes, and the
/// slot of each variable.
#[derive(Debug)]
pub struct Frame {
    pub locals: HashMap<LTarget, usize>,
    pub targets: HashMap<Variable, LTarget>,
}

/// Lowering only adds: every slot stays, and every variable keeps its
/// slot.
pub open spec fn grows(before: Frame, after: Frame) -> bool {
    &&& forall|k: LTarget| #[trigger]
        before.locals@.contains_key(k) ==> after.locals@.contains_key(k)
    &&& forall|v: Variable| #[trigger]
        before.targets@.contains_key(v) ==> after.targets@.contains_key(v)
            && after.targets@[v] == before.targets@[v]
}

impl Frame {
    /// A frame without slots.
    pub fn new() -> (r: Frame)
        ensures
            r.locals@ == Map::<LTarget, usize>::empty(),
            r.targets@ == Map::<Variable, LTarget>::empty(),
    {
        Frame { locals: HashMap::new(), targets: HashMap::new() }
    }

    /// A slot of `size` bytes, numbered by the count of variables so far.
    pub fn local(&mut self, size: usize) -> (r: LTarget)
        ensures
            r == old(self).targets@.len(),
            final(self).locals@ == old(self).locals@.insert(r, size),
            final(self).targets@ == old(self).targets@,
            grows(*old(self), *final(self)),
    {
        broadcast use vstd::std_specs::hash::group_hash_axioms;

        let target = self.targets.len();
        self.locals.insert(target, size);
        target
    }

    /// A slot of `size` bytes for a variable that has none yet.
    pub fn variable(&mut self, variable: Variable, size: usize) -> (r: LTarget)
        requires
            !old(self).targets@.contains_key(variable),
        ensures
            r == old(self).targets@.len(),
            final(self).locals@ == old(self).locals@.insert(r, size),
            final(self).targets@ == old(self).targets@.insert(variable, r),
            grows(*old(self), *final(self)),
    {
        broadcast use vstd::std_specs::hash::group_hash_axioms;

        let target = self.local(size);
        self.targets.insert(variable, target);
        target
    }
}

/// The place `offset` bytes past a place, in the architecture's pointer
/// width.
pub open spec fn spec_offset_node(width: Width, place: LPlace, offset: LNode) -> LPlace {
    LPlace(Box::new(LNode::Binary(LBinary::Add, width, place.0, Box::new(offset))))
}

/// The place `offset` bytes past `place`.
pub fn offset_node(context: &Lowering, place: LPlace, offset: LNode) -> (r: LPlace)
    ensures
        r == spec_offset_node(context.target.spec_architecture().pointer, place, offset),
{
    let width = context.target.architecture().pointer;
    let LPlace(node) = place;
    LPlace(Box::new(LNode::Binary(LBinary::Add, width, node, Box::new(offset))))
}

/// The place a constant number of bytes past `place`.
pub fn offset(context: &Lowering, place: LPlace, bytes: usize) -> (r: LPlace)
    ensures
        r == spec_offset_node(
            context.target.spec_architecture().pointer,
            place,
            LNode::Integral(bytes as i128),
        ),
{
    offset_node(context, place, LNode::Integral(bytes as i128))
}

/// The value of the first field of the given name, and its position.
pub fn field(fields: &Vec<(Identifier, HIndex)>, name: Identifier) -> (r: Result<
    (usize, HIndex),
    LowerError,
>)
    ensures
        r matches Ok((k, index)) ==> k < fields.len() && fields@[k as int] == (name, index),
        r is Err <==> forall|k: int| 0 <= k < fields.len() ==> fields@[k].0 != name,
        r matches Err(e) ==> e == LowerError::MissingField,
{
    let mut k: usize = 0;
    while k < fields.len()
        invariant
            k <= fields.len(),
            forall|j: int| 0 <= j < k ==> fields@[j].0 != name,
        decreases fields.len() - k,
    {
        if fields[k].0 == name {
            return Ok((k, fields[k].1));
        }
        k = k + 1;
    }
    Err(LowerError::MissingField)
}

/// The type inference gave a node.
fn kind_of(context: &Lowering, index: HIndex) -> (r: Result<&RType, LowerError>)
    ensures
        r matches Ok(kind) ==> context.types@.contains_key(index) && *kind
            == context.types@[index],
        r matches Err(e) ==> !context.types@.contains_key(index) && e == LowerError::Missing,
{
    match context.types.get(&index) {
        Some(kind) => Ok(kind),
        None => Err(LowerError::Missing),
    }
}

/// The size of a type whose size fits.
fn size_in(context: &Lowering, kind: &RType) -> (r: Result<usize, LowerError>)
    requires
        fits(context.structures@, *kind),
    ensures
        match r {
            Ok(n) => size_of(context.structures@, *kind, depth(context.structures@)) == Ok::<
                int,
                crate::layout::LayoutError,
            >(n as int),
            Err(e) => e matches LowerError::Layout(l) && size_of(
                context.structures@,
                *kind,
                depth(context.structures@),
            ) == Err::<int, crate::layout::LayoutError>(l),
        },
{
    match size(&context.structures, kind) {
        Ok(n) => Ok(n),
        Err(e) => Err(LowerError::Layout(e)),
    }
}

/// Checks that an item of the `item` architecture may be used here.
fn check_target(context: &Lowering, item: Option<Target>) -> (r: Result<(), LowerError>)
    ensures
        r is Ok <==> item == Some(context.target),
{
    crate::lower::target(context.target, item)
}

/// The receiver of a call of a function item: the architecture of the
/// function must be known and callable from here.
pub fn functional(context: &Lowering, path: u64, index: usize) -> (r: Result<LReceiver, LowerError>)
    ensures
        r is Ok <==> context.architectures@.contains_key(path),
        r matches Ok(receiver) ==> receiver == LReceiver::Path(FunctionRef { path, index }),
        !context.architectures@.contains_key(path) ==> r == Err::<LReceiver, LowerError>(
            LowerError::Missing,
        ),
{
    match context.architectures.get(&path) {
        None => Err(LowerError::Missing),
        Some(target) => {
            let checked = call_target(context.target, *target);
            assert(checked is Ok) by {
                assert(context.target == Target::Host);
            }
            Ok(LReceiver::Path(FunctionRef { path, index }))
        },
    }
}


/// Whether a node of the body holds a part at position `k` of its parts,
/// and that part has a lower rank.
proof fn lemma_part(context: &Lowering, index: int, k: int)
    requires
        context.well_formed(),
        0 <= index < context.nodes@.len(),
        0 <= k < children(context.nodes@[index]).len(),
    ensures
        children(context.nodes@[index])[k] < context.nodes@.len(),
        context.rank(children(context.nodes@[index])[k] as int) < context.rank(index),
{
    let rank = ranking(context.nodes@);
    assert(ranked(context.nodes@, rank));
    assert(children(context.nodes@[index])[k] < context.nodes@.len());
}

/// The size that inference's type for a node has, if it has one.
pub open spec fn node_size(context: Lowering, index: int) -> Result<int, crate::layout::LayoutError> {
    size_of(
        context.structures@,
        context.types@[index as HIndex],
        depth(context.structures@),
    )
}

/// Whether an expression reads the place a constant number of bytes past
/// a base place, computed at the pointer width.
pub open spec fn offset_at(node: LNode, bytes: int, width: Width) -> bool {
    match node {
        LNode::Dereference(LPlace(address)) => match *address {
            LNode::Binary(LBinary::Add, w, _, offset) => w == width && match *offset {
                LNode::Integral(o) => o == bytes,
                _ => false,
            },
            _ => false,
        },
        _ => false,
    }
}

/// Whether a statement stores a value at a constant number of bytes past
/// a base place, computed at the pointer width.
pub open spec fn stores_at(unit: LUnit, bytes: int, width: Width) -> bool {
    match unit {
        LUnit::Assign(LPlace(address), _) => match *address {
            LNode::Binary(LBinary::Add, w, _, offset) => w == width && match *offset {
                LNode::Integral(o) => o == bytes,
                _ => false,
            },
            _ => false,
        },
        _ => false,
    }
}

/// The element type of an array or slice type.
pub open spec fn element_of(kind: RType) -> Option<RType> {
    match kind {
        RType::Array(element, _) => Some(*element),
        RType::Slice(_, element) => Some(*element),
        _ => None,
    }
}

/// Whether an expression reads the element at a position of a sequence:
/// the place is the sequence's address plus the position scaled by
/// `step`, the size of an element, computed at the pointer width.
pub open spec fn indexes(node: LNode, step: int, width: Width) -> bool {
    match node {
        LNode::Dereference(LPlace(address)) => match *address {
            LNode::Binary(LBinary::Add, w, _, offset) => w == width && match *offset {
                LNode::Binary(LBinary::Multiply, v, scale, _) => v == width && match *scale {
                    LNode::Integral(s) => s == step,
                    _ => false,
                },
                _ => false,
            },
            _ => false,
        },
        _ => false,
    }
}

/// What the lowered expression of a node is at its top: a diverging node
/// lowers to `Never`; operators and conversions carry the operation and
/// widths that the decisions of lowering choose for the operand types;
/// literals, items and compile-time values lower to themselves; the
/// others lower to the form that holds them.
pub open spec fn expression(context: Lowering, index: int, node: LNode) -> bool {
    let kind = context.types@[index as HIndex];
    if kind is Never {
        node is Never
    } else {
        match context.nodes@[index] {
            HNode::Block(_) => node is Block,
            HNode::When(_) => node is If,
            HNode::Cast(part, _) => node matches LNode::Cast(_, sign, from, to) && conversion(
                context.types@[part],
                kind,
            ) == Ok::<(Sign, Width, Width), LowerError>((sign, from, to)),
            HNode::Compile(k) => node == LNode::Compile(k),
            HNode::Call(path, _) => node matches LNode::Call(LReceiver::Path(f), _) && f
                == FunctionRef { path, index: context.functions@[index as HIndex] },
            HNode::Method(..) => node matches LNode::Call(LReceiver::Method(..), _),
            HNode::Field(base, name) => match context.types@[base] {
                RType::Structure(path) => path < context.structures@.len() && offset_at(
                    node,
                    field_offsets(
                        context.structures@,
                        context.structures@[path as int].fields@,
                        (depth(context.structures@) - 1) as nat,
                    )[name] as int,
                    context.target.spec_architecture().pointer,
                ),
                RType::Slice(target, _) => if name == SIZE {
                    target matches Some(target) && offset_at(
                        node,
                        target.spec_architecture().pointer.spec_bytes() as int,
                        context.target.spec_architecture().pointer,
                    )
                } else {
                    name == ADDRESS && node is Dereference
                },
                _ => false,
            },
            HNode::Index(base, _) => match element_of(context.types@[base]) {
                Some(element) => size_of(
                    context.structures@,
                    element,
                    depth(context.structures@),
                ) matches Ok(step) && indexes(node, step, context.target.spec_architecture().pointer),
                None => false,
            },
            HNode::Static(_) => node is Dereference,
            HNode::Variable(_) => node is Dereference,
            HNode::Unary(HUnary::Dereference, _) => node is Dereference,
            HNode::Unary(HUnary::Reference, _) => true,
            HNode::Unary(operator, _) => node matches LNode::Unary(o, w, _) && unary_operation(
                operator,
                kind,
            ) == Ok::<(LUnary, Width), LowerError>((o, w)),
            HNode::New(..) => node is Block,
            HNode::SliceNew(..) => match kind {
                RType::Slice(Some(target), _) => match node {
                    LNode::Block(units, _) => units.len() == 2 && match units@[0] {
                        LUnit::Assign(LPlace(address), _) => *address is Target,
                        _ => false,
                    } && stores_at(
                        units@[1],
                        target.spec_architecture().pointer.spec_bytes() as int,
                        context.target.spec_architecture().pointer,
                    ),
                    _ => false,
                },
                _ => false,
            },
            HNode::Slice(..) => node is Block,
            HNode::Array(nodes) => match kind {
                RType::Array(element, _) => size_of(
                    context.structures@,
                    *element,
                    depth(context.structures@),
                ) matches Ok(step) && node matches LNode::Block(units, _) && units.len()
                    == nodes.len() && forall|k: int|
                    0 <= k < units.len() ==> stores_at(
                        #[trigger] units@[k],
                        step * k,
                        context.target.spec_architecture().pointer,
                    ),
                _ => false,
            },
            HNode::Binary(operator, left, _) => node matches LNode::Binary(o, w, _, _)
                && binary_operation(operator, context.types@[left]) == Ok::<
                (LBinary, Width),
                LowerError,
            >((o, w)),
            HNode::Function(path) => node == LNode::Function(
                FunctionRef { path, index: context.functions@[index as HIndex] },
            ),
            HNode::String(text) => node matches LNode::String(t) && t@ == text@,
            HNode::Register(text) => node matches LNode::Register(t) && t@ == text@,
            HNode::Integral(value) => node == LNode::Integral(value),
            HNode::Truth(value) => node == LNode::Integral(if value { 1 } else { 0 }),
            HNode::Rune(value) => node == LNode::Integral((value as u32) as i128),
            _ => false,
        }
    }
}

/// Whether a node is a literal, a compile-time value or an item, which
/// lowers to itself.
pub open spec fn literal(node: HNode) -> bool {
    ||| node is Integral
    ||| node is Truth
    ||| node is Rune
    ||| node is String
    ||| node is Register
    ||| node is Compile
    ||| node is Static
}

/// What the lowered statement of a node is at its top: a node with a
/// sized type is evaluated for its value; otherwise each form lowers to
/// the statement that performs it.
pub open spec fn statement(context: Lowering, index: int, unit: LUnit) -> bool {
    if node_size(context, index) != Ok::<int, crate::layout::LayoutError>(0) {
        unit is Node
    } else {
        match context.nodes@[index] {
            HNode::Block(nodes) => unit matches LUnit::Block(units) && units.len() == nodes.len(),
            HNode::Assign(..) => unit is Assign,
            HNode::Compound(..) => unit is Assign,
            HNode::While(..) => unit matches LUnit::Loop(body) && *body matches LUnit::If(
                _,
                _,
                Some(exit),
            ) && *exit is Break,
            HNode::Return(_) => unit is Return,
            HNode::Compile(k) => unit == LUnit::Compile(k),
            HNode::Inline(k) => unit == LUnit::Inline(k),
            HNode::Call(..) => unit is Call,
            HNode::Method(..) => unit is Call,
            HNode::Break => unit is Break,
            HNode::Continue => unit is Continue,
            HNode::Static(_) => unit matches LUnit::Block(units) && units.len() == 0,
            HNode::Variable(_) => unit matches LUnit::Block(units) && units.len() == 0,
            _ => true,
        }
    }
}

/// Lowers a node into an expression; a node whose type has size zero
/// lowers only if it diverges.
fn lower_node(context: &Lowering, frame: &mut Frame, index: HIndex, looped: bool) -> (r: Result<
    LNode,
    LowerError,
>)
    requires
        context.well_formed(),
        index < context.nodes.len(),
    ensures
        grows(*old(frame), *final(frame)),
        r matches Ok(node) ==> expression(*context, index as int, node),
        !context.types@.contains_key(index) ==> r == Err::<LNode, LowerError>(LowerError::Missing),
        context.nodes@[index as int] matches HNode::Variable(variable) ==> (
        context.types@.contains_key(index) && !context.diverges(index as int) ==> (r matches Ok(
            node,
        ) ==> old(frame).targets@.contains_key(variable) && node == LNode::Dereference(
            LPlace(Box::new(LNode::Target(old(frame).targets@[variable]))),
        ))),
        context.types@.contains_key(index) && !context.diverges(index as int) && literal(
            context.nodes@[index as int],
        ) ==> (r is Ok <==> (node_size(*context, index as int) is Ok && node_size(
            *context,
            index as int,
        ) != Ok::<int, crate::layout::LayoutError>(0))),
    decreases context.rank(index as int), if context.diverges(index as int) {
        3nat
    } else {
        1nat
    },
{
    let kind = kind_of(context, index)?;
    let size = size_in(context, kind)?;
    if let RType::Never = kind {
        let block = unit_node(context, frame, index, looped)?;
        return Ok(LNode::Never(Box::new(block)));
    }
    if size == 0 {
        return Err(LowerError::Inconsistent);
    }
    match &context.nodes[index] {
        HNode::Block(_) => lower_block(context, frame, index, looped),
        HNode::When(_) => lower_when(context, frame, index, looped),
        HNode::Cast(part, _) => {
            proof {
                lemma_part(context, index as int, 0);
            }
            let origin = kind_of(context, *part)?;
            let (sign, from, to) = cast(origin, kind)?;
            let node = lower_node(context, frame, *part, looped)?;
            Ok(LNode::Cast(Box::new(node), sign, from, to))
        },
        HNode::Compile(k) => Ok(LNode::Compile(*k)),
        HNode::Call(path, _) => {
            let overload = match context.functions.get(&index) {
                Some(overload) => *overload,
                None => return Err(LowerError::Missing),
            };
            let receiver = functional(context, *path, overload)?;
            let arguments = lower_arguments(context, frame, index, looped)?;
            Ok(LNode::Call(receiver, arguments))
        },
        HNode::Method(base, _) => {
            proof {
                lemma_part(context, index as int, 0);
            }
            let arguments = lower_arguments(context, frame, index, looped)?;
            let receiver = method(context, frame, *base, looped)?;
            Ok(LNode::Call(receiver, arguments))
        },
        HNode::Field(_, _) => lower_field(context, frame, index, looped),
        HNode::New(_, _) => lower_new(context, frame, index, looped),
        HNode::SliceNew(_, _, _) => lower_slice_new(context, frame, index, looped),
        HNode::Slice(_, _, _) => lower_slice(context, frame, index, looped),
        HNode::Index(_, _) => lower_index(context, frame, index, looped),
        HNode::Binary(operator, _, _) => binary(context, frame, index, *operator, looped),
        HNode::Unary(HUnary::Reference, part) => {
            proof {
                lemma_part(context, index as int, 0);
            }
            let LPlace(node) = place(context, frame, *part, looped, true)?;
            Ok(*node)
        },
        HNode::Unary(HUnary::Dereference, part) => {
            proof {
                lemma_part(context, index as int, 0);
            }
            let pointer_kind = kind_of(context, *part)?;
            match pointer_kind {
                RType::Pointer(target, _) => {
                    check_target(context, *target)?;
                    let node = lower_node(context, frame, *part, looped)?;
                    Ok(LNode::Dereference(LPlace(Box::new(node))))
                },
                _ => Err(LowerError::Inconsistent),
            }
        },
        HNode::Unary(operator, part) => {
            proof {
                lemma_part(context, index as int, 0);
            }
            let node = lower_node(context, frame, *part, looped)?;
            let (operation, width) = unary(*operator, kind)?;
            Ok(LNode::Unary(operation, width, Box::new(node)))
        },
        HNode::Variable(variable) => match frame.targets.get(variable) {
            Some(target) => Ok(LNode::Dereference(LPlace(Box::new(LNode::Target(*target))))),
            None => Err(LowerError::Inconsistent),
        },
        HNode::Function(path) => match context.functions.get(&index) {
            Some(overload) => Ok(
                LNode::Function(FunctionRef { path: *path, index: *overload }),
            ),
            None => Err(LowerError::Missing),
        },
        HNode::Static(path) => Ok(
            LNode::Dereference(LPlace(Box::new(LNode::Static(*path)))),
        ),
        HNode::Array(_) => lower_array(context, frame, index, looped),
        HNode::String(text) => Ok(LNode::String(text.clone())),
        HNode::Register(text) => Ok(LNode::Register(text.clone())),
        HNode::Integral(value) => Ok(LNode::Integral(*value)),
        HNode::Truth(value) => Ok(
            LNode::Integral(
                if *value {
                    1
                } else {
                    0
                },
            ),
        ),
        HNode::Rune(value) => Ok(LNode::Integral((*value as u32) as i128)),
        HNode::Unresolved | HNode::Error => Err(LowerError::Missing),
        _ => Err(LowerError::Inconsistent),
    }
}


/// Lowers a node into a place: an expression that yields an address. A
/// node that is no dereference is stored in a new slot if `lift` is set.
pub fn place(context: &Lowering, frame: &mut Frame, index: HIndex, looped: bool, lift: bool) -> (r:
    Result<LPlace, LowerError>)
    requires
        context.well_formed(),
        index < context.nodes.len(),
    ensures
        grows(*old(frame), *final(frame)),
        !context.types@.contains_key(index) ==> r == Err::<LPlace, LowerError>(LowerError::Missing),
    decreases context.rank(index as int), 4nat,
{
    let node = lower_node(context, frame, index, looped)?;
    match node {
        LNode::Dereference(place) => Ok(place),
        other => if lift {
            let kind = kind_of(context, index)?;
            let size = size_in(context, kind)?;
            let local = frame.local(size);
            let unit = LUnit::Assign(LPlace(Box::new(LNode::Target(local))), other);
            Ok(LPlace(Box::new(LNode::Block(vec![unit], Box::new(LNode::Target(local))))))
        } else {
            Err(LowerError::NoLocation)
        },
    }
}

/// The receiver of a call of a function value: its type must be a
/// function of a known architecture that is callable from here.
pub fn method(context: &Lowering, frame: &mut Frame, base: HIndex, looped: bool) -> (r: Result<
    LReceiver,
    LowerError,
>)
    requires
        context.well_formed(),
        base < context.nodes.len(),
    ensures
        grows(*old(frame), *final(frame)),
        r matches Ok(receiver) ==> receiver is Method,
    decreases context.rank(base as int), 4nat,
{
    let node = lower_node(context, frame, base, looped)?;
    let kind = kind_of(context, base)?;
    match kind {
        RType::Function(function) => match function.target {
            None => Err(LowerError::UnknownArchitecture),
            Some(target) => {
                call_target(context.target, target)?;
                Ok(LReceiver::Method(function.convention, Box::new(node)))
            },
        },
        _ => Err(LowerError::Inconsistent),
    }
}

/// Lowers a binary operation, or the operation of a compound assignment,
/// at the operation and width chosen for the type of its left operand.
fn binary(context: &Lowering, frame: &mut Frame, index: HIndex, operator: HBinary, looped: bool) -> (r:
    Result<LNode, LowerError>)
    requires
        context.well_formed(),
        index < context.nodes.len(),
    ensures
        grows(*old(frame), *final(frame)),
        r matches Ok(node) ==> {
            &&& context.types@.contains_key(children(context.nodes@[index as int])[0])
            &&& node matches LNode::Binary(o, w, _, _) && binary_operation(
                operator,
                context.types@[children(context.nodes@[index as int])[0]],
            ) == Ok::<(LBinary, Width), LowerError>((o, w))
        },
    decreases context.rank(index as int), 0nat,
{
    let (left, right) = match &context.nodes[index] {
        HNode::Binary(_, left, right) => (*left, *right),
        HNode::Compound(_, left, right) => (*left, *right),
        _ => return Err(LowerError::Inconsistent),
    };
    proof {
        lemma_part(context, index as int, 0);
        lemma_part(context, index as int, 1);
    }
    let left_kind = kind_of(context, left)?;
    let (operation, width) = crate::lower::binary(operator, left_kind)?;
    let left = lower_node(context, frame, left, looped)?;
    let right = lower_node(context, frame, right, looped)?;
    Ok(LNode::Binary(operation, width, Box::new(left), Box::new(right)))
}

/// Lowers the arguments of a call or a method call, in order.
fn lower_arguments(context: &Lowering, frame: &mut Frame, index: HIndex, looped: bool) -> (r:
    Result<Vec<LNode>, LowerError>)
    requires
        context.well_formed(),
        index < context.nodes.len(),
    ensures
        grows(*old(frame), *final(frame)),
    decreases context.rank(index as int), 0nat,
{
    let (arguments, first) = match &context.nodes[index] {
        HNode::Call(_, arguments) => (arguments, 0usize),
        HNode::Method(_, arguments) => (arguments, 1usize),
        _ => return Err(LowerError::Inconsistent),
    };
    let mut lowered: Vec<LNode> = Vec::new();
    let mut k: usize = 0;
    while k < arguments.len()
        invariant
            context.well_formed(),
            index < context.nodes.len(),
            first <= 1,
            children(context.nodes@[index as int]).len() == first + arguments.len(),
            forall|j: int|
                0 <= j < arguments.len() ==> children(context.nodes@[index as int])[first + j]
                    == arguments@[j],
            k <= arguments.len(),
            grows(*old(frame), *frame),
        decreases arguments.len() - k,
    {
        proof {
            lemma_part(context, index as int, first + k);
        }
        let node = lower_node(context, frame, arguments[k], looped)?;
        lowered.push(node);
        k = k + 1;
    }
    Ok(lowered)
}

/// Lowers a block whose last node gives its value.
fn lower_block(context: &Lowering, frame: &mut Frame, index: HIndex, looped: bool) -> (r: Result<
    LNode,
    LowerError,
>)
    requires
        context.well_formed(),
        index < context.nodes.len(),
    ensures
        grows(*old(frame), *final(frame)),
        r matches Ok(node) ==> node is Block,
    decreases context.rank(index as int), 0nat,
{
    let nodes = match &context.nodes[index] {
        HNode::Block(nodes) => nodes,
        _ => return Err(LowerError::Inconsistent),
    };
    if nodes.len() == 0 {
        return Err(LowerError::Inconsistent);
    }
    let last = nodes.len() - 1;
    let mut block: Vec<LUnit> = Vec::new();
    let mut k: usize = 0;
    while k < last
        invariant
            context.well_formed(),
            index < context.nodes.len(),
            children(context.nodes@[index as int]) == nodes@,
            last == nodes.len() - 1,
            k <= last,
            grows(*old(frame), *frame),
        decreases last - k,
    {
        proof {
            lemma_part(context, index as int, k as int);
        }
        let unit = unit_node(context, frame, nodes[k], looped)?;
        block.push(unit);
        k = k + 1;
    }
    proof {
        lemma_part(context, index as int, last as int);
    }
    let node = lower_node(context, frame, nodes[last], looped)?;
    Ok(LNode::Block(block, Box::new(node)))
}

/// Lowers the branches of a conditional into nested choices, the last
/// branch innermost.
fn lower_when(context: &Lowering, frame: &mut Frame, index: HIndex, looped: bool) -> (r: Result<
    LNode,
    LowerError,
>)
    requires
        context.well_formed(),
        index < context.nodes.len(),
    ensures
        grows(*old(frame), *final(frame)),
        r matches Ok(node) ==> node is If,
    decreases context.rank(index as int), 0nat,
{
    let branches = match &context.nodes[index] {
        HNode::When(branches) => branches,
        _ => return Err(LowerError::Inconsistent),
    };
    let mut node: Option<LNode> = None;
    let mut k: usize = branches.len();
    while k > 0
        invariant
            context.well_formed(),
            index < context.nodes.len(),
            children(context.nodes@[index as int]) == conditions(branches@) + bodies(branches@),
            k <= branches.len(),
            node matches Some(n) ==> n is If,
            grows(*old(frame), *frame),
        decreases k,
    {
        k = k - 1;
        let (condition, body) = branches[k];
        proof {
            assert(children(context.nodes@[index as int])[k as int] == condition);
            assert(children(context.nodes@[index as int])[branches.len() + k] == body);
            lemma_part(context, index as int, k as int);
            lemma_part(context, index as int, branches.len() + k);
        }
        let truth = lower_node(context, frame, condition, looped)?;
        let unit = lower_node(context, frame, body, looped)?;
        let other = match node {
            Some(n) => Some(Box::new(n)),
            None => None,
        };
        node = Some(LNode::If(Box::new(truth), Box::new(unit), other));
    }
    match node {
        Some(n) => Ok(n),
        None => Err(LowerError::Inconsistent),
    }
}


/// Lowers the field of a structure, or the address or length of a slice,
/// to the place of the field.
fn lower_field(context: &Lowering, frame: &mut Frame, index: HIndex, looped: bool) -> (r: Result<
    LNode,
    LowerError,
>)
    requires
        context.well_formed(),
        index < context.nodes.len(),
    ensures
        grows(*old(frame), *final(frame)),
        r matches Ok(node) ==> context.nodes@[index as int] is Field && (!(
        context.types@[index] is Never) ==> expression(*context, index as int, node)),
    decreases context.rank(index as int), 0nat,
{
    let (base, name) = match &context.nodes[index] {
        HNode::Field(base, name) => (*base, *name),
        _ => return Err(LowerError::Inconsistent),
    };
    proof {
        lemma_part(context, index as int, 0);
    }
    let place = place(context, frame, base, looped, false)?;
    let kind = kind_of(context, base)?;
    match kind {
        RType::Structure(path) => {
            let layout = match offsets(&context.structures, *path) {
                Ok(layout) => layout,
                Err(e) => return Err(LowerError::Layout(e)),
            };
            match layout.fields.get(&name) {
                Some(bytes) => {
                    let node = LNode::Dereference(offset(context, place, *bytes));
                    Ok(node)
                },
                None => Err(LowerError::Inconsistent),
            }
        },
        RType::Slice(target, _) => {
            if name == ADDRESS {
                Ok(LNode::Dereference(place))
            } else if name == SIZE {
                let width = pointer(*target)?;
                Ok(LNode::Dereference(offset(context, place, width.bytes())))
            } else {
                Err(LowerError::Inconsistent)
            }
        },
        _ => Err(LowerError::Inconsistent),
    }
}

/// Lowers a structure value into a new slot whose fields are set one by
/// one, in the order the structure declares them.
fn lower_new(context: &Lowering, frame: &mut Frame, index: HIndex, looped: bool) -> (r: Result<
    LNode,
    LowerError,
>)
    requires
        context.well_formed(),
        index < context.nodes.len(),
    ensures
        grows(*old(frame), *final(frame)),
        r matches Ok(node) ==> node is Block,
    decreases context.rank(index as int), 0nat,
{
    let (path, fields) = match &context.nodes[index] {
        HNode::New(path, fields) => (*path, fields),
        _ => return Err(LowerError::Inconsistent),
    };
    let kind = kind_of(context, index)?;
    match kind {
        RType::Structure(other) => if *other != path {
            return Err(LowerError::Inconsistent);
        },
        _ => return Err(LowerError::Inconsistent),
    }
    let layout = match offsets(&context.structures, path) {
        Ok(layout) => layout,
        Err(e) => return Err(LowerError::Layout(e)),
    };
    let size = size_in(context, kind)?;
    let target = frame.local(size);
    if path >= context.structures.len() {
        return Err(LowerError::Layout(crate::layout::LayoutError::UndefinedStructure));
    }
    let declared = &context.structures[path].fields;
    let mut block: Vec<LUnit> = Vec::new();
    let mut k: usize = 0;
    while k < declared.len()
        invariant
            context.well_formed(),
            index < context.nodes.len(),
            children(context.nodes@[index as int]) == field_values(fields@),
            k <= declared.len(),
            grows(*old(frame), *frame),
        decreases declared.len() - k,
    {
        let name = declared[k].0;
        let (j, part) = field(fields, name)?;
        proof {
            assert(field_values(fields@)[j as int] == part);
            lemma_part(context, index as int, j as int);
        }
        let part_kind = kind_of(context, part)?;
        let part_size = size_in(context, part_kind)?;
        if part_size != 0 {
            let bytes = match layout.fields.get(&name) {
                Some(bytes) => *bytes,
                None => return Err(LowerError::Inconsistent),
            };
            let place = offset(context, LPlace(Box::new(LNode::Target(target))), bytes);
            let node = lower_node(context, frame, part, looped)?;
            block.push(LUnit::Assign(place, node));
        } else {
            let unit = unit_node(context, frame, part, looped)?;
            block.push(unit);
        }
        k = k + 1;
    }
    Ok(LNode::Block(block, Box::new(LNode::Dereference(LPlace(Box::new(LNode::Target(target)))))))
}

/// Lowers a slice value into a new slot holding its address and, past the
/// address, its length.
fn lower_slice_new(context: &Lowering, frame: &mut Frame, index: HIndex, looped: bool) -> (r:
    Result<LNode, LowerError>)
    requires
        context.well_formed(),
        index < context.nodes.len(),
    ensures
        grows(*old(frame), *final(frame)),
        r matches Ok(node) ==> context.nodes@[index as int] is SliceNew && (!(
        context.types@[index] is Never) ==> expression(*context, index as int, node)),
    decreases context.rank(index as int), 0nat,
{
    let fields = match &context.nodes[index] {
        HNode::SliceNew(_, _, fields) => fields,
        _ => return Err(LowerError::Inconsistent),
    };
    let kind = kind_of(context, index)?;
    let size = size_in(context, kind)?;
    let target = frame.local(size);
    let mut block: Vec<LUnit> = Vec::new();
    let (j, address) = field(fields, ADDRESS)?;
    proof {
        assert(field_values(fields@)[j as int] == address);
        lemma_part(context, index as int, j as int);
    }
    let node = lower_node(context, frame, address, looped)?;
    block.push(LUnit::Assign(LPlace(Box::new(LNode::Target(target))), node));
    match kind {
        RType::Slice(architecture, _) => {
            let (j, length) = field(fields, SIZE)?;
            proof {
                assert(field_values(fields@)[j as int] == length);
                lemma_part(context, index as int, j as int);
            }
            let width = pointer(*architecture)?;
            let place = offset(context, LPlace(Box::new(LNode::Target(target))), width.bytes());
            let node = lower_node(context, frame, length, looped)?;
            block.push(LUnit::Assign(place, node));
        },
        _ => return Err(LowerError::Inconsistent),
    }
    Ok(LNode::Block(block, Box::new(LNode::Dereference(LPlace(Box::new(LNode::Target(target)))))))
}

/// Lowers an element of an array or slice to the place of the element.
fn lower_index(context: &Lowering, frame: &mut Frame, index: HIndex, looped: bool) -> (r: Result<
    LNode,
    LowerError,
>)
    requires
        context.well_formed(),
        index < context.nodes.len(),
    ensures
        grows(*old(frame), *final(frame)),
        r matches Ok(node) ==> (context.nodes@[index as int] matches HNode::Index(base, _)
            && element_of(context.types@[base]) matches Some(element) && size_of(
            context.structures@,
            element,
            depth(context.structures@),
        ) matches Ok(step) && indexes(node, step, context.target.spec_architecture().pointer)),
    decreases context.rank(index as int), 0nat,
{
    let (base, position) = match &context.nodes[index] {
        HNode::Index(base, position) => (*base, *position),
        _ => return Err(LowerError::Inconsistent),
    };
    proof {
        lemma_part(context, index as int, 0);
        lemma_part(context, index as int, 1);
    }
    let width = context.target.architecture().pointer;
    let position = lower_node(context, frame, position, looped)?;
    let place = place(context, frame, base, looped, true)?;
    let base_kind = kind_of(context, base)?;
    let (place, element) = match base_kind {
        RType::Array(element, _) => (place, element),
        RType::Slice(target, element) => {
            check_target(context, *target)?;
            (LPlace(Box::new(LNode::Dereference(place))), element)
        },
        _ => return Err(LowerError::Inconsistent),
    };
    let step = size_in(context, element)?;
    let bytes = LNode::Binary(
        LBinary::Multiply,
        width,
        Box::new(LNode::Integral(step as i128)),
        Box::new(position),
    );
    Ok(LNode::Dereference(offset_node(context, place, bytes)))
}

/// Lowers an array value into a new slot whose elements are set one by
/// one.
fn lower_array(context: &Lowering, frame: &mut Frame, index: HIndex, looped: bool) -> (r: Result<
    LNode,
    LowerError,
>)
    requires
        context.well_formed(),
        index < context.nodes.len(),
    ensures
        grows(*old(frame), *final(frame)),
        r matches Ok(node) ==> context.nodes@[index as int] is Array && (!(
        context.types@[index] is Never) ==> expression(*context, index as int, node)),
    decreases context.rank(index as int), 0nat,
{
    let nodes = match &context.nodes[index] {
        HNode::Array(nodes) => nodes,
        _ => return Err(LowerError::Inconsistent),
    };
    let kind = kind_of(context, index)?;
    let size = size_in(context, kind)?;
    let local = frame.local(size);
    let element = match kind {
        RType::Array(element, _) => element,
        _ => return Err(LowerError::Inconsistent),
    };
    let step = size_in(context, element)?;
    let mut block: Vec<LUnit> = Vec::new();
    let mut k: usize = 0;
    while k < nodes.len()
        invariant
            context.well_formed(),
            index < context.nodes.len(),
            children(context.nodes@[index as int]) == nodes@,
            k <= nodes.len(),
            grows(*old(frame), *frame),
            block.len() == k,
            kind == context.types@[index],
            *kind matches RType::Array(e, _) && *e == **element,
            size_of(context.structures@, **element, depth(context.structures@)) == Ok::<
                int,
                crate::layout::LayoutError,
            >(step as int),
            forall|j: int|
                0 <= j < k ==> stores_at(
                    #[trigger] block@[j],
                    step * j,
                    context.target.spec_architecture().pointer,
                ),
        decreases nodes.len() - k,
    {
        proof {
            lemma_part(context, index as int, k as int);
        }
        let bytes = match step.checked_mul(k) {
            Some(bytes) => bytes,
            None => return Err(LowerError::Inconsistent),
        };
        let place = offset(context, LPlace(Box::new(LNode::Target(local))), bytes);
        let node = lower_node(context, frame, nodes[k], looped)?;
        block.push(LUnit::Assign(place, node));
        k = k + 1;
    }
    Ok(LNode::Block(block, Box::new(LNode::Dereference(LPlace(Box::new(LNode::Target(local)))))))
}


/// Lowers a slice of an array or of a slice, from an optional start to an
/// optional end, into a new slot holding the address of the start and the
/// length.
fn lower_slice(context: &Lowering, frame: &mut Frame, index: HIndex, looped: bool) -> (r: Result<
    LNode,
    LowerError,
>)
    requires
        context.well_formed(),
        index < context.nodes.len(),
    ensures
        grows(*old(frame), *final(frame)),
        r matches Ok(node) ==> node is Block,
    decreases context.rank(index as int), 0nat,
{
    let (base, start, end) = match &context.nodes[index] {
        HNode::Slice(base, start, end) => (*base, *start, *end),
        _ => return Err(LowerError::Inconsistent),
    };
    let kind = kind_of(context, index)?;
    let size = size_in(context, kind)?;
    let width = context.target.architecture().pointer;
    proof {
        lemma_part(context, index as int, 0);
    }
    let LPlace(place) = place(context, frame, base, looped, true)?;
    let base = frame.local(width.bytes());
    let mut block: Vec<LUnit> = Vec::new();
    block.push(LUnit::Assign(LPlace(Box::new(LNode::Target(base))), *place));
    let end = match end {
        Some(end) => {
            let position: usize = if start.is_some() {
                2
            } else {
                1
            };
            proof {
                assert(children(context.nodes@[index as int])[position as int] == end);
                lemma_part(context, index as int, position as int);
            }
            Some(lower_node(context, frame, end, looped))
        },
        None => None,
    };
    let (address, end, element) = match kind {
        RType::Slice(target, element) => {
            check_target(context, *target)?;
            let address = LPlace(
                Box::new(LNode::Dereference(LPlace(Box::new(LNode::Target(base))))),
            );
            let end = match end {
                Some(end) => end?,
                None => LNode::Dereference(
                    offset(context, LPlace(Box::new(LNode::Target(base))), width.bytes()),
                ),
            };
            (address, end, element)
        },
        RType::Array(element, length) => {
            let end = match end {
                Some(end) => end?,
                None => LNode::Integral(*length as i128),
            };
            (LPlace(Box::new(LNode::Target(base))), end, element)
        },
        _ => return Err(LowerError::Inconsistent),
    };
    let (address, sized) = match start {
        Some(start) => {
            proof {
                assert(children(context.nodes@[index as int])[1] == start);
                lemma_part(context, index as int, 1);
            }
            let local = frame.local(width.bytes());
            let node = lower_node(context, frame, start, looped)?;
            block.push(LUnit::Assign(LPlace(Box::new(LNode::Target(local))), node));
            let step = size_in(context, element)?;
            let bytes = LNode::Binary(
                LBinary::Multiply,
                width,
                Box::new(LNode::Integral(step as i128)),
                Box::new(LNode::Dereference(LPlace(Box::new(LNode::Target(local))))),
            );
            let address = offset_node(context, address, bytes);
            let sized = LNode::Binary(
                LBinary::Minus,
                width,
                Box::new(end),
                Box::new(LNode::Dereference(LPlace(Box::new(LNode::Target(local))))),
            );
            (address, sized)
        },
        None => (address, end),
    };
    let LPlace(address) = address;
    let slice = frame.local(size);
    block.push(LUnit::Assign(LPlace(Box::new(LNode::Target(slice))), *address));
    block.push(LUnit::Assign(LPlace(Box::new(LNode::Target(slice))), sized));
    Ok(LNode::Block(block, Box::new(LNode::Dereference(LPlace(Box::new(LNode::Target(slice)))))))
}

/// Lowers a node into a statement.
fn unit_node(context: &Lowering, frame: &mut Frame, index: HIndex, looped: bool) -> (r: Result<
    LUnit,
    LowerError,
>)
    requires
        context.well_formed(),
        index < context.nodes.len(),
    ensures
        grows(*old(frame), *final(frame)),
        r matches Ok(unit) ==> statement(*context, index as int, unit),
        !context.types@.contains_key(index) ==> r == Err::<LUnit, LowerError>(LowerError::Missing),
        context.types@.contains_key(index) && node_size(*context, index as int) == Ok::<
            int,
            crate::layout::LayoutError,
        >(0) && (context.nodes@[index as int] is Break || context.nodes@[index as int] is Continue)
            ==> (r is Ok <==> looped) && (!looped ==> r == Err::<LUnit, LowerError>(
            LowerError::NotInLoop,
        )),
    decreases context.rank(index as int), 2nat,
{
    let kind = kind_of(context, index)?;
    let size = size_in(context, kind)?;
    if size != 0 {
        let node = lower_node(context, frame, index, looped)?;
        return Ok(LUnit::Node(node));
    }
    match &context.nodes[index] {
        HNode::Block(_) => unit_block(context, frame, index, looped),
        HNode::Let(_, _, _) => unit_let(context, frame, index, looped),
        HNode::Assign(target, part) => {
            proof {
                lemma_part(context, index as int, 0);
                lemma_part(context, index as int, 1);
            }
            let place = place(context, frame, *target, looped, false)?;
            let node = lower_node(context, frame, *part, looped)?;
            Ok(LUnit::Assign(place, node))
        },
        HNode::While(condition, body) => {
            proof {
                lemma_part(context, index as int, 0);
                lemma_part(context, index as int, 1);
            }
            let condition = lower_node(context, frame, *condition, looped)?;
            let exit = Box::new(LUnit::Break);
            let body = Box::new(unit_node(context, frame, *body, true)?);
            Ok(LUnit::Loop(Box::new(LUnit::If(condition, body, Some(exit)))))
        },
        HNode::When(_) => unit_when(context, frame, index, looped),
        HNode::Cast(part, _) => {
            proof {
                lemma_part(context, index as int, 0);
            }
            let origin = kind_of(context, *part)?;
            match (origin, kind) {
                (RType::Void, RType::Void) => unit_node(context, frame, *part, looped),
                (RType::Never, RType::Never) => unit_node(context, frame, *part, looped),
                _ => Err(LowerError::InvalidCast),
            }
        },
        HNode::Return(part) => match part {
            Some(part) => {
                proof {
                    lemma_part(context, index as int, 0);
                }
                let node = lower_node(context, frame, *part, looped)?;
                Ok(LUnit::Return(Some(node)))
            },
            None => Ok(LUnit::Return(None)),
        },
        HNode::Compile(k) => Ok(LUnit::Compile(*k)),
        HNode::Inline(k) => Ok(LUnit::Inline(*k)),
        HNode::Call(path, _) => {
            let overload = match context.functions.get(&index) {
                Some(overload) => *overload,
                None => return Err(LowerError::Missing),
            };
            let receiver = functional(context, *path, overload)?;
            let arguments = lower_arguments(context, frame, index, looped)?;
            Ok(LUnit::Call(receiver, arguments))
        },
        HNode::Method(base, _) => {
            proof {
                lemma_part(context, index as int, 0);
            }
            let arguments = lower_arguments(context, frame, index, looped)?;
            let receiver = method(context, frame, *base, looped)?;
            Ok(LUnit::Call(receiver, arguments))
        },
        HNode::Field(base, _) => {
            proof {
                lemma_part(context, index as int, 0);
            }
            unit_node(context, frame, *base, looped)
        },
        HNode::New(_, _) => unit_new(context, frame, index, looped),
        HNode::Index(base, position) => {
            if let RType::Slice(target, _) = kind {
                check_target(context, *target)?;
            }
            proof {
                lemma_part(context, index as int, 0);
                lemma_part(context, index as int, 1);
            }
            let base = unit_node(context, frame, *base, looped)?;
            let position = unit_node(context, frame, *position, looped)?;
            Ok(LUnit::Block(vec![base, position]))
        },
        HNode::Compound(dual, target, _) => {
            proof {
                lemma_part(context, index as int, 0);
            }
            let place = place(context, frame, *target, looped, false)?;
            let node = binary(context, frame, index, HBinary::Dual(*dual), looped)?;
            Ok(LUnit::Assign(place, node))
        },
        HNode::Binary(_, left, _) => {
            kind_of(context, *left)?;
            Err(LowerError::InvalidBinary)
        },
        HNode::Unary(HUnary::Dereference, part) => {
            proof {
                lemma_part(context, index as int, 0);
            }
            let pointer_kind = kind_of(context, *part)?;
            match pointer_kind {
                RType::Pointer(target, _) => {
                    check_target(context, *target)?;
                    let node = lower_node(context, frame, *part, looped)?;
                    Ok(LUnit::Node(node))
                },
                _ => Err(LowerError::Inconsistent),
            }
        },
        HNode::Unary(_, _) => Err(LowerError::InvalidUnary),
        HNode::Break => if looped {
            Ok(LUnit::Break)
        } else {
            Err(LowerError::NotInLoop)
        },
        HNode::Continue => if looped {
            Ok(LUnit::Continue)
        } else {
            Err(LowerError::NotInLoop)
        },
        HNode::Static(_) => Ok(LUnit::Block(Vec::new())),
        HNode::Variable(_) => Ok(LUnit::Block(Vec::new())),
        HNode::Unresolved | HNode::Error => Err(LowerError::Missing),
        _ => Err(LowerError::Inconsistent),
    }
}

/// Lowers each node of a block into a statement.
fn unit_block(context: &Lowering, frame: &mut Frame, index: HIndex, looped: bool) -> (r: Result<
    LUnit,
    LowerError,
>)
    requires
        context.well_formed(),
        index < context.nodes.len(),
    ensures
        grows(*old(frame), *final(frame)),
        r matches Ok(unit) ==> (context.nodes@[index as int] matches HNode::Block(nodes)
            && unit matches LUnit::Block(units) && units.len() == nodes.len()),
    decreases context.rank(index as int), 0nat,
{
    let nodes = match &context.nodes[index] {
        HNode::Block(nodes) => nodes,
        _ => return Err(LowerError::Inconsistent),
    };
    let mut units: Vec<LUnit> = Vec::new();
    let mut k: usize = 0;
    while k < nodes.len()
        invariant
            context.well_formed(),
            index < context.nodes.len(),
            children(context.nodes@[index as int]) == nodes@,
            k <= nodes.len(),
            units.len() == k,
            grows(*old(frame), *frame),
        decreases nodes.len() - k,
    {
        proof {
            lemma_part(context, index as int, k as int);
        }
        let unit = unit_node(context, frame, nodes[k], looped)?;
        units.push(unit);
        k = k + 1;
    }
    Ok(LUnit::Block(units))
}

/// Lowers a variable declaration: the variable gets a slot of the size of
/// its type, which the value, if any, is stored into.
fn unit_let(context: &Lowering, frame: &mut Frame, index: HIndex, looped: bool) -> (r: Result<
    LUnit,
    LowerError,
>)
    requires
        context.well_formed(),
        index < context.nodes.len(),
    ensures
        grows(*old(frame), *final(frame)),
        r is Ok ==> (context.nodes@[index as int] matches HNode::Let(variable, _, _)
            && final(frame).targets@.contains_key(variable)),
    decreases context.rank(index as int), 0nat,
{
    let (variable, part) = match &context.nodes[index] {
        HNode::Let(variable, _, part) => (*variable, *part),
        _ => return Err(LowerError::Inconsistent),
    };
    let kind = match context.variables.get(&variable) {
        Some(kind) => kind,
        None => return Err(LowerError::Missing),
    };
    let size = size_in(context, kind)?;
    if frame.targets.contains_key(&variable) {
        return Err(LowerError::Inconsistent);
    }
    let target = frame.variable(variable, size);
    let ghost declared = *frame;
    let unit = match part {
        Some(part) => {
            proof {
                lemma_part(context, index as int, 0);
            }
            let node = lower_node(context, frame, part, looped)?;
            if size != 0 {
                LUnit::Assign(LPlace(Box::new(LNode::Target(target))), node)
            } else {
                LUnit::Node(node)
            }
        },
        None => if size != 0 {
            LUnit::Zero(target)
        } else {
            LUnit::Block(Vec::new())
        },
    };
    assert(declared.targets@.contains_key(variable));
    Ok(unit)
}

/// Lowers the branches of a conditional statement into nested choices,
/// the last branch innermost.
fn unit_when(context: &Lowering, frame: &mut Frame, index: HIndex, looped: bool) -> (r: Result<
    LUnit,
    LowerError,
>)
    requires
        context.well_formed(),
        index < context.nodes.len(),
    ensures
        grows(*old(frame), *final(frame)),
        r matches Ok(unit) ==> unit is If,
    decreases context.rank(index as int), 0nat,
{
    let branches = match &context.nodes[index] {
        HNode::When(branches) => branches,
        _ => return Err(LowerError::Inconsistent),
    };
    let mut node: Option<LUnit> = None;
    let mut k: usize = branches.len();
    while k > 0
        invariant
            context.well_formed(),
            index < context.nodes.len(),
            children(context.nodes@[index as int]) == conditions(branches@) + bodies(branches@),
            k <= branches.len(),
            node matches Some(n) ==> n is If,
            grows(*old(frame), *frame),
        decreases k,
    {
        k = k - 1;
        let (condition, body) = branches[k];
        proof {
            assert(children(context.nodes@[index as int])[k as int] == condition);
            assert(children(context.nodes@[index as int])[branches.len() + k] == body);
            lemma_part(context, index as int, k as int);
            lemma_part(context, index as int, branches.len() + k);
        }
        let truth = lower_node(context, frame, condition, looped)?;
        let unit = Box::new(unit_node(context, frame, body, looped)?);
        let other = match node {
            Some(n) => Some(Box::new(n)),
            None => None,
        };
        node = Some(LUnit::If(truth, unit, other));
    }
    match node {
        Some(n) => Ok(n),
        None => Err(LowerError::Inconsistent),
    }
}

/// Lowers a structure value of size zero: each field is evaluated for its
/// effects, in the order the structure declares them.
fn unit_new(context: &Lowering, frame: &mut Frame, index: HIndex, looped: bool) -> (r: Result<
    LUnit,
    LowerError,
>)
    requires
        context.well_formed(),
        index < context.nodes.len(),
    ensures
        grows(*old(frame), *final(frame)),
    decreases context.rank(index as int), 0nat,
{
    let (path, fields) = match &context.nodes[index] {
        HNode::New(path, fields) => (*path, fields),
        _ => return Err(LowerError::Inconsistent),
    };
    if path >= context.structures.len() {
        return Err(LowerError::Layout(crate::layout::LayoutError::UndefinedStructure));
    }
    let declared = &context.structures[path].fields;
    let mut units: Vec<LUnit> = Vec::new();
    let mut k: usize = 0;
    while k < declared.len()
        invariant
            context.well_formed(),
            index < context.nodes.len(),
            children(context.nodes@[index as int]) == field_values(fields@),
            k <= declared.len(),
            grows(*old(frame), *frame),
        decreases declared.len() - k,
    {
        let name = declared[k].0;
        let (j, part) = field(fields, name)?;
        proof {
            assert(field_values(fields@)[j as int] == part);
            lemma_part(context, index as int, j as int);
        }
        let unit = unit_node(context, frame, part, looped)?;
        units.push(unit);
        k = k + 1;
    }
    Ok(LUnit::Block(units))
}


/// Lowers a node into an expression. The size of its type must not be
/// zero unless the type is `Never`.
pub fn lower(context: &Lowering, frame: &mut Frame, index: HIndex, looped: bool) -> (r: Result<
    LNode,
    LowerError,
>)
    requires
        context.well_formed(),
        index < context.nodes.len(),
        context.types@.contains_key(index) ==> context.types@[index] is Never || node_size(
            *context,
            index as int,
        ) != Ok::<int, crate::layout::LayoutError>(0),
    ensures
        grows(*old(frame), *final(frame)),
        r matches Ok(node) ==> expression(*context, index as int, node),
        !context.types@.contains_key(index) ==> r == Err::<LNode, LowerError>(LowerError::Missing),
        context.types@.contains_key(index) && !context.diverges(index as int) && literal(
            context.nodes@[index as int],
        ) ==> (r is Ok <==> node_size(*context, index as int) is Ok),
        context.nodes@[index as int] matches HNode::Variable(variable) ==> (
        context.types@.contains_key(index) && !context.diverges(index as int) ==> (r matches Ok(
            node,
        ) ==> old(frame).targets@.contains_key(variable) && node == LNode::Dereference(
            LPlace(Box::new(LNode::Target(old(frame).targets@[variable]))),
        ))),
{
    lower_node(context, frame, index, looped)
}

/// Lowers a node into a statement. `looped` tells whether the node stands
/// inside a loop, where `break` and `continue` may stand.
pub fn unit(context: &Lowering, frame: &mut Frame, index: HIndex, looped: bool) -> (r: Result<
    LUnit,
    LowerError,
>)
    requires
        context.well_formed(),
        index < context.nodes.len(),
    ensures
        grows(*old(frame), *final(frame)),
        r matches Ok(unit) ==> statement(*context, index as int, unit),
        !context.types@.contains_key(index) ==> r == Err::<LUnit, LowerError>(LowerError::Missing),
        context.types@.contains_key(index) && node_size(*context, index as int) == Ok::<
            int,
            crate::layout::LayoutError,
        >(0) && (context.nodes@[index as int] is Break || context.nodes@[index as int] is Continue)
            ==> (r is Ok <==> looped) && (!looped ==> r == Err::<LUnit, LowerError>(
            LowerError::NotInLoop,
        )),
{
    unit_node(context, frame, index, looped)
}

/// A lowered function: its body, the slot of each parameter, and all the
/// slots with their sizes.
#[derive(Debug)]
pub struct LFunction {
    pub unit: LUnit,
    pub parameters: HashMap<Variable, LTarget>,
    pub locals: HashMap<LTarget, usize>,
}

/// Lowers the body of a function whose parameters are `parameters` and
/// whose return type is `return_type`. Each parameter first gets a slot of
/// the size of its type. A function that returns a value of size zero
/// lowers its body as a statement; any other returns the value of its
/// body.
pub fn function(
    context: &Lowering,
    parameters: &Vec<Variable>,
    return_type: &RType,
    root: HIndex,
) -> (r: Result<LFunction, LowerError>)
    requires
        context.well_formed(),
        root < context.nodes.len(),
        fits(context.structures@, *return_type),
    ensures
        r matches Ok(f) ==> forall|k: int|
            0 <= k < parameters.len() ==> #[trigger] f.parameters@.contains_key(parameters@[k]),
        r matches Ok(f) ==> (size_of(context.structures@, *return_type, depth(context.structures@))
            == Ok::<int, crate::layout::LayoutError>(0) ==> statement(
            *context,
            root as int,
            f.unit,
        )),
        r matches Ok(f) ==> (size_of(context.structures@, *return_type, depth(context.structures@))
            != Ok::<int, crate::layout::LayoutError>(0) ==> (f.unit matches LUnit::Return(Some(node))
            && expression(*context, root as int, node))),
        (exists|k: int|
            0 <= k < parameters.len() && !context.variables@.contains_key(#[trigger] parameters@[k]))
            ==> r is Err,
{
    let mut frame = Frame::new();
    let mut slots: HashMap<Variable, LTarget> = HashMap::new();
    let mut k: usize = 0;
    while k < parameters.len()
        invariant
            context.well_formed(),
            k <= parameters.len(),
            forall|j: int| 0 <= j < k ==> #[trigger] slots@.contains_key(parameters@[j]),
            forall|j: int| 0 <= j < k ==> context.variables@.contains_key(#[trigger] parameters@[j]),
        decreases parameters.len() - k,
    {
        broadcast use vstd::std_specs::hash::group_hash_axioms;

        let variable = parameters[k];
        let kind = match context.variables.get(&variable) {
            Some(kind) => kind,
            None => return Err(LowerError::Missing),
        };
        let size = size_in(context, kind)?;
        if frame.targets.contains_key(&variable) {
            return Err(LowerError::Inconsistent);
        }
        let target = frame.variable(variable, size);
        slots.insert(variable, target);
        k = k + 1;
    }
    let size = size_in(context, return_type)?;
    let unit = if size == 0 {
        unit_node(context, &mut frame, root, false)?
    } else {
        let node = lower_node(context, &mut frame, root, false)?;
        LUnit::Return(Some(node))
    };
    Ok(LFunction { unit, parameters: slots, locals: frame.locals })
}

/// A lowered value: a statement if its type has size zero, an expression
/// otherwise.
#[derive(Debug)]
pub enum LValued {
    Block(LUnit),
    Node(LNode),
}

/// A lowered compile-time value with the slots it uses.
#[derive(Debug)]
pub struct LValue {
    pub value: LValued,
    pub locals: HashMap<LTarget, usize>,
}

/// Lowers a compile-time value whose body starts at `root`.
pub fn low(context: &Lowering, root: HIndex) -> (r: Result<LValue, LowerError>)
    requires
        context.well_formed(),
        root < context.nodes.len(),
    ensures
        r matches Ok(value) ==> match value.value {
            LValued::Block(unit) => node_size(*context, root as int) == Ok::<
                int,
                crate::layout::LayoutError,
            >(0) && statement(*context, root as int, unit),
            LValued::Node(node) => node_size(*context, root as int) != Ok::<
                int,
                crate::layout::LayoutError,
            >(0) && expression(*context, root as int, node),
        },
        !context.types@.contains_key(root) ==> r == Err::<LValue, LowerError>(LowerError::Missing),
{
    let mut frame = Frame::new();
    let kind = kind_of(context, root)?;
    let size = size_in(context, kind)?;
    let value = if size == 0 {
        LValued::Block(unit_node(context, &mut frame, root, false)?)
    } else {
        LValued::Node(lower_node(context, &mut frame, root, false)?)
    };
    Ok(LValue { value, locals: frame.locals })
}

} // verus!

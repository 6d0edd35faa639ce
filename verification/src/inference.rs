use vstd::prelude::*;

use std::collections::HashMap;

use crate::hir::{lift, lifts_to, HType};
use crate::layout::Structure;
use crate::lower::{HBinary, HDual, HUnary};
use crate::lowering::{children, ranked, ranking, HIndex, HNode, Variable, ADDRESS, SIZE};
use crate::node::{Sign, Span, Target, Width};
use crate::types::{
    copy_type, lemma_same_compatible, lemma_same_meets, lemma_unifies_reflexive,
    lemma_unifies_symmetric, meets, raise, same, truth, unifies, unify, IType, RType, Signature,
};

verus! {

/// What inference found of a value body: the type of each node and of
/// each variable, and the overload chosen for each call and function.
#[derive(Debug)]
pub struct Types {
    pub nodes: HashMap<HIndex, RType>,
    pub variables: HashMap<Variable, RType>,
    pub functions: HashMap<HIndex, usize>,
}

/// A type error, at the node where it was found.
#[derive(Debug, Clone, Copy, PartialEq, Eq, Structural)]
pub enum InferError {
    /// The node does not have the expected type.
    Mismatch(HIndex),
    /// The node needs a type annotation.
    Unknown(HIndex),
    /// A conditional with a value lacks a branch whose condition is `true`.
    MissingDefault(HIndex),
    /// An array has another length than expected.
    ArraySize(HIndex),
    /// No overload of the function fits.
    NoMatchingFunction(HIndex),
    /// More than one overload of the function fits.
    AmbiguousFunction(HIndex),
    /// A return without a value from a function that returns one.
    MissingReturn(HIndex),
    /// The structure or slice has no field of that name, or the value
    /// leaves a field out.
    UndefinedField(HIndex),
    /// A call of a value that is no function.
    ExpectedFunction(HIndex),
    /// A field of a value that is no structure or slice.
    ExpectedStructure(HIndex),
    /// A dereference of a value that is no pointer.
    ExpectedPointer(HIndex),
    /// An index or slice of a value that is no array or slice.
    ExpectedSequence(HIndex),
    /// An integer literal whose type nothing gives.
    UnknownIntegral(HIndex),
    /// A node that was given a type twice.
    Repeated(HIndex),
}

/// What inference reads: a value body, the overloads of each function
/// path, the structures, the type of each static, the type of each
/// compile-time value, and the architecture of the code.
#[derive(Debug)]
pub struct Inference {
    pub nodes: Vec<HNode>,
    pub signatures: HashMap<u64, Vec<Signature>>,
    pub structures: Vec<Structure>,
    pub statics: HashMap<u64, RType>,
    pub compiled: HashMap<usize, RType>,
    pub target: Option<Target>,
}

impl Inference {
    /// No node of the body is a part of itself.
    pub open spec fn well_formed(&self) -> bool {
        exists|rank: spec_fn(int) -> nat| ranked(self.nodes@, rank)
    }

    /// The rank of a node, below the ranks of the nodes it is part of.
    pub open spec fn rank(&self, index: int) -> nat {
        ranking(self.nodes@)(index)
    }
}

/// The state of inference: what it found so far, the errors, and the
/// return type of the enclosing function, if the value is a function body.
#[derive(Debug)]
pub struct Scene {
    pub types: Types,
    pub errors: Vec<InferError>,
    pub return_type: Option<RType>,
}

/// Inference only adds: a node keeps the type it was given, the nodes
/// given a type are parts of the node at `index` (ranked at most as it),
/// and errors are only appended.
pub open spec fn kept(inference: Inference, before: Scene, after: Scene, index: int) -> bool {
    &&& forall|k: HIndex| #[trigger]
        before.types.nodes@.contains_key(k) ==> after.types.nodes@.contains_key(k)
            && after.types.nodes@[k] == before.types.nodes@[k]
    &&& forall|k: HIndex| #[trigger]
        after.types.nodes@.contains_key(k) ==> before.types.nodes@.contains_key(k)
            || inference.rank(k as int) <= inference.rank(index)
    &&& before.errors@.len() <= after.errors@.len()
    &&& forall|v: Variable| #[trigger]
        before.types.variables@.contains_key(v) ==> after.types.variables@.contains_key(v)
    &&& before.return_type == after.return_type
}

/// Like `kept`, where every node given a type is ranked below the node at
/// `index`: the node itself was given none.
pub open spec fn kept_below(inference: Inference, before: Scene, after: Scene, index: int) -> bool {
    &&& forall|k: HIndex| #[trigger]
        before.types.nodes@.contains_key(k) ==> after.types.nodes@.contains_key(k)
            && after.types.nodes@[k] == before.types.nodes@[k]
    &&& forall|k: HIndex| #[trigger]
        after.types.nodes@.contains_key(k) ==> before.types.nodes@.contains_key(k)
            || inference.rank(k as int) < inference.rank(index)
    &&& before.errors@.len() <= after.errors@.len()
    &&& forall|v: Variable| #[trigger]
        before.types.variables@.contains_key(v) ==> after.types.variables@.contains_key(v)
    &&& before.return_type == after.return_type
}

/// The type of a node whose type does not depend on its parts.
pub open spec fn fixed(node: HNode) -> Option<RType> {
    match node {
        HNode::Truth(_) => Some(RType::Truth),
        HNode::Rune(_) => Some(RType::Rune),
        HNode::Break => Some(RType::Never),
        HNode::Continue => Some(RType::Never),
        HNode::Return(_) => Some(RType::Never),
        HNode::Inline(_) => Some(RType::Void),
        HNode::While(_, _) => Some(RType::Void),
        _ => None,
    }
}

/// Whether a binary operator gives a truth value: comparisons, equality
/// and the logical operators.
pub open spec fn gives_truth(operator: HBinary) -> bool {
    !(operator is Dual)
}

/// Whether `element` is the element type of an array or slice type.
pub open spec fn element_same(sequence: RType, element: RType) -> bool {
    match sequence {
        RType::Slice(_, e) => same(*e, element),
        RType::Array(e, _) => same(*e, element),
        _ => false,
    }
}

/// How the type of a field of a slice relates to the slice's type: the
/// address points to the elements in the slice's architecture, the length
/// is an unsigned size of that architecture.
pub open spec fn slice_field(base: RType, name: u64, kind: RType) -> bool {
    base matches RType::Slice(target, element) ==> {
        &&& name == ADDRESS ==> (kind matches RType::Pointer(t, e) && t == target && same(
            *element,
            *e,
        ))
        &&& name == SIZE ==> kind == RType::IntegralSize(target, Sign::Unsigned)
    }
}

/// How the type of a unary operation relates to the type of its operand:
/// negation keeps it, a reference points to it in the code's architecture,
/// and a dereference gives what the operand points to.
pub open spec fn unary_result(operator: HUnary, target: Option<Target>, operand: RType, result: RType) -> bool {
    match operator {
        HUnary::Not | HUnary::Negate => same(operand, result),
        HUnary::Reference => result matches RType::Pointer(t, element) && t == target && same(
            operand,
            *element,
        ),
        HUnary::Dereference => operand matches RType::Pointer(_, element) && same(*element, result),
    }
}

/// Whether a node of the body holds a part at position `k` of its parts,
/// and that part has a lower rank.
proof fn lemma_part(inference: &Inference, index: int, k: int)
    requires
        inference.well_formed(),
        0 <= index < inference.nodes@.len(),
        0 <= k < children(inference.nodes@[index]).len(),
    ensures
        children(inference.nodes@[index])[k] < inference.nodes@.len(),
        inference.rank(children(inference.nodes@[index])[k] as int) < inference.rank(index),
{
    let rank = ranking(inference.nodes@);
    assert(ranked(inference.nodes@, rank));
    assert(children(inference.nodes@[index])[k] < inference.nodes@.len());
}

/// Records an error.
fn report(scene: &mut Scene, error: InferError)
    ensures
        final(scene).types.nodes@ == old(scene).types.nodes@,
        final(scene).types.variables@ == old(scene).types.variables@,
        final(scene).types.functions@ == old(scene).types.functions@,
        final(scene).errors@ == old(scene).errors@.push(error),
        final(scene).return_type == old(scene).return_type,
{
    scene.errors.push(error);
}

/// Gives a node its type; a node that has one already is an error.
fn insert(inference: &Inference, scene: &mut Scene, index: HIndex, kind: RType)
    ensures
        kept(*inference, *old(scene), *final(scene), index as int),
        old(scene).types.nodes@.contains_key(index) ==> final(scene).types.nodes@ == old(scene).types.nodes@ && final(scene).errors@.len() == old(scene).errors@.len() + 1,
        !old(scene).types.nodes@.contains_key(index) ==> final(scene).types.nodes@ == old(scene).types.nodes@.insert(index, kind) && final(scene).errors@ == old(scene).errors@,
        final(scene).types.variables@ == old(scene).types.variables@,
        final(scene).types.functions@ == old(scene).types.functions@,
        final(scene).return_type == old(scene).return_type,
{
    broadcast use vstd::std_specs::hash::group_hash_axioms;

    if scene.types.nodes.contains_key(&index) {
        report(scene, InferError::Repeated(index));
    } else {
        scene.types.nodes.insert(index, kind);
    }
}

/// Chooses an overload for a call or a function value.
fn select(scene: &mut Scene, index: HIndex, overload: usize)
    ensures
        final(scene).types.nodes@ == old(scene).types.nodes@,
        final(scene).types.variables@ == old(scene).types.variables@,
        final(scene).types.functions@ == old(scene).types.functions@.insert(index, overload),
        final(scene).errors@ == old(scene).errors@,
        final(scene).return_type == old(scene).return_type,
{
    scene.types.functions.insert(index, overload);
}

/// The type of a structure's field of the given name, if it declares one.
fn declared(inference: &Inference, path: usize, name: u64) -> (r: Option<RType>)
{
    if path >= inference.structures.len() {
        return None;
    }
    let fields = &inference.structures[path].fields;
    let mut k: usize = 0;
    while k < fields.len()
        decreases fields.len() - k,
    {
        if fields[k].0 == name {
            return Some(lift(inference.target, &fields[k].1));
        }
        k = k + 1;
    }
    None
}

/// The value given for the named field, if any.
fn given(fields: &Vec<(u64, HIndex)>, name: u64) -> (r: Option<(usize, HIndex)>)
    ensures
        r matches Some((k, part)) ==> k < fields.len() && fields@[k as int] == (name, part),
{
    let mut k: usize = 0;
    while k < fields.len()
        decreases fields.len() - k,
    {
        if fields[k].0 == name {
            return Some((k, fields[k].1));
        }
        k = k + 1;
    }
    None
}


/// Infers the type of a node from the node alone and records it.
pub fn synthesize(inference: &Inference, scene: &mut Scene, index: HIndex) -> (r: Option<RType>)
    requires
        inference.well_formed(),
        index < inference.nodes.len(),
    ensures
        kept(*inference, *old(scene), *final(scene), index as int),
        r matches Some(kind) ==> (!old(scene).types.nodes@.contains_key(index) ==> final(scene).types.nodes@.contains_key(index) && same(final(scene).types.nodes@[index], kind)),
        r is None ==> (final(scene).types.nodes@.contains_key(index) == old(scene).types.nodes@.contains_key(index)),
        fixed(inference.nodes@[index as int]) matches Some(kind) ==> r == Some(kind),
        inference.nodes@[index as int] matches HNode::Unary(operator, part) ==> (
            !old(scene).types.nodes@.contains_key(part) ==> (r matches Some(kind) ==> final(
            scene).types.nodes@.contains_key(part) && unary_result(
            operator,
            inference.target,
            final(scene).types.nodes@[part],
            kind,
        ))),
        inference.nodes@[index as int] matches HNode::Binary(operator, _, _) ==> (gives_truth(
            operator,
        ) ==> r == Some(RType::Truth)),
        inference.nodes@[index as int] matches HNode::Cast(_, Some(written)) ==> (r matches Some(
            kind,
        ) ==> lifts_to(inference.target, written, kind)),
        inference.nodes@[index as int] matches HNode::Index(base, _) ==> (
            !old(scene).types.nodes@.contains_key(base) ==> (r matches Some(kind) ==> final(
            scene).types.nodes@.contains_key(base) && element_same(
            final(scene).types.nodes@[base],
            kind,
        ))),
        inference.nodes@[index as int] matches HNode::Field(base, name) ==> (
            !old(scene).types.nodes@.contains_key(base) ==> (r matches Some(kind) ==> final(
            scene).types.nodes@.contains_key(base) && slice_field(
            final(scene).types.nodes@[base],
            name,
            kind,
        ))),
        inference.nodes@[index as int] matches HNode::Binary(HBinary::Dual(_), left, _) ==> (
            !old(scene).types.nodes@.contains_key(left) ==> (r matches Some(kind) ==> final(
            scene).types.nodes@.contains_key(left) && same(final(scene).types.nodes@[left], kind))),
        inference.nodes@[index as int] is Compound ==> r == Some(RType::Void),
    decreases inference.rank(index as int), 2nat,
{
    proof {
        if inference.nodes@[index as int] is Unary || inference.nodes@[index as int] is Field
            || inference.nodes@[index as int] is Index || inference.nodes@[index as int] is Binary {
            lemma_part(inference, index as int, 0);
        }
    }
    let kind = synthesized(inference, scene, index)?;
    let copy = copy_type(&kind);
    insert(inference, scene, index, copy);
    Some(kind)
}

/// The type of a node, inferred from the node alone.
fn synthesized(inference: &Inference, scene: &mut Scene, index: HIndex) -> (r: Option<RType>)
    requires
        inference.well_formed(),
        index < inference.nodes.len(),
    ensures
        kept_below(*inference, *old(scene), *final(scene), index as int),
        fixed(inference.nodes@[index as int]) matches Some(kind) ==> r == Some(kind),
        inference.nodes@[index as int] matches HNode::Unary(operator, part) ==> (
            !old(scene).types.nodes@.contains_key(part) ==> (r matches Some(kind) ==> final(
            scene).types.nodes@.contains_key(part) && unary_result(
            operator,
            inference.target,
            final(scene).types.nodes@[part],
            kind,
        ))),
        inference.nodes@[index as int] matches HNode::Binary(operator, _, _) ==> (gives_truth(
            operator,
        ) ==> r == Some(RType::Truth)),
        inference.nodes@[index as int] matches HNode::Cast(_, Some(written)) ==> (r matches Some(
            kind,
        ) ==> lifts_to(inference.target, written, kind)),
        inference.nodes@[index as int] matches HNode::Index(base, _) ==> (
            !old(scene).types.nodes@.contains_key(base) ==> (r matches Some(kind) ==> final(
            scene).types.nodes@.contains_key(base) && element_same(
            final(scene).types.nodes@[base],
            kind,
        ))),
        inference.nodes@[index as int] matches HNode::Field(base, name) ==> (
            !old(scene).types.nodes@.contains_key(base) ==> (r matches Some(kind) ==> final(
            scene).types.nodes@.contains_key(base) && slice_field(
            final(scene).types.nodes@[base],
            name,
            kind,
        ))),
        inference.nodes@[index as int] matches HNode::Binary(HBinary::Dual(_), left, _) ==> (
            !old(scene).types.nodes@.contains_key(left) ==> (r matches Some(kind) ==> final(
            scene).types.nodes@.contains_key(left) && same(final(scene).types.nodes@[left], kind))),
        inference.nodes@[index as int] is Compound ==> r == Some(RType::Void),
    decreases inference.rank(index as int), 1nat,
{
    match &inference.nodes[index] {
        HNode::Block(_) => synthesize_block(inference, scene, index),
        HNode::Let(_, _, _) => synthesize_let(inference, scene, index),
        HNode::Assign(target, part) => {
            proof {
                lemma_part(inference, index as int, 0);
                lemma_part(inference, index as int, 1);
            }
            let kind = synthesize(inference, scene, *target)?;
            check(inference, scene, *part, raise(kind, Span::internal()));
            Some(RType::Void)
        },
        HNode::While(condition, body) => {
            proof {
                lemma_part(inference, index as int, 0);
                lemma_part(inference, index as int, 1);
            }
            check(inference, scene, *condition, truth());
            synthesize(inference, scene, *body);
            Some(RType::Void)
        },
        HNode::When(_) => synthesize_when(inference, scene, index),
        HNode::Cast(part, annotation) => {
            proof {
                lemma_part(inference, index as int, 0);
            }
            let kind = match annotation {
                Some(kind) => lift(inference.target, kind),
                None => {
                    report(scene, InferError::Unknown(index));
                    return None;
                },
            };
            if let HNode::Integral(_) = &inference.nodes[*part] {
                check(inference, scene, *part, raise(copy_type(&kind), Span::internal()));
            } else {
                synthesize(inference, scene, *part);
            }
            Some(kind)
        },
        HNode::Return(part) => {
            let expected = match &scene.return_type {
                Some(kind) => Some(copy_type(kind)),
                None => None,
            };
            if let Some(kind) = expected {
                match part {
                    Some(part) => {
                        proof {
                            lemma_part(inference, index as int, 0);
                        }
                        check(inference, scene, *part, raise(kind, Span::internal()));
                    },
                    None => if !unifies(&kind, &RType::Void) {
                        report(scene, InferError::MissingReturn(index));
                    },
                }
            }
            Some(RType::Never)
        },
        HNode::Compile(value) => match inference.compiled.get(value) {
            Some(kind) => Some(copy_type(kind)),
            None => None,
        },
        HNode::Inline(_) => Some(RType::Void),
        HNode::Call(_, _) => synthesize_call(inference, scene, index),
        HNode::Method(_, _) => synthesize_method(inference, scene, index),
        HNode::Field(_, _) => synthesize_field(inference, scene, index),
        HNode::New(_, _) => synthesize_new(inference, scene, index),
        HNode::SliceNew(_, _, _) => synthesize_slice_new(inference, scene, index),
        HNode::Slice(base, start, end) => {
            proof {
                lemma_part(inference, index as int, 0);
            }
            let (kind, target) = sequence(inference, scene, *base)?;
            if let Some(start) = start {
                proof {
                    assert(children(inference.nodes@[index as int])[1] == *start);
                    lemma_part(inference, index as int, 1);
                }
                check(inference, scene, *start, crate::types::index(target));
            }
            if let Some(end) = end {
                let position: usize = if start.is_some() {
                    2
                } else {
                    1
                };
                proof {
                    assert(children(inference.nodes@[index as int])[position as int] == *end);
                    lemma_part(inference, index as int, position as int);
                }
                check(inference, scene, *end, crate::types::index(target));
            }
            Some(RType::Slice(target, Box::new(kind)))
        },
        HNode::Index(base, position) => {
            proof {
                lemma_part(inference, index as int, 0);
                lemma_part(inference, index as int, 1);
            }
            let (kind, target) = sequence(inference, scene, *base)?;
            check(inference, scene, *position, crate::types::index(target));
            Some(kind)
        },
        HNode::Compound(_, _, _) => synthesize_compound(inference, scene, index),
        HNode::Binary(_, _, _) => synthesize_binary(inference, scene, index),
        HNode::Unary(operator, part) => {
            proof {
                lemma_part(inference, index as int, 0);
            }
            let kind = synthesize(inference, scene, *part)?;
            match operator {
                HUnary::Not | HUnary::Negate => Some(kind),
                HUnary::Reference => Some(RType::Pointer(inference.target, Box::new(kind))),
                HUnary::Dereference => match kind {
                    RType::Pointer(_, element) => Some(*element),
                    _ => {
                        report(scene, InferError::ExpectedPointer(*part));
                        None
                    },
                },
            }
        },
        HNode::Variable(variable) => match scene.types.variables.get(variable) {
            Some(kind) => Some(copy_type(kind)),
            None => None,
        },
        HNode::Function(path) => {
            let candidates = match inference.signatures.get(path) {
                Some(candidates) => candidates,
                None => return None,
            };
            if candidates.len() == 1 {
                select(scene, index, 0);
                Some(RType::Function(Box::new(copy_signature_at(candidates, 0))))
            } else {
                report(scene, InferError::AmbiguousFunction(index));
                None
            }
        },
        HNode::Static(path) => match inference.statics.get(path) {
            Some(kind) => Some(copy_type(kind)),
            None => None,
        },
        HNode::String(text) => {
            let byte = RType::Integral(Sign::Unsigned, Width::B);
            Some(RType::Array(Box::new(byte), text.as_str().len()))
        },
        HNode::Register(_) => {
            report(scene, InferError::Unknown(index));
            None
        },
        HNode::Array(_) => synthesize_array(inference, scene, index),
        HNode::Integral(_) => {
            report(scene, InferError::UnknownIntegral(index));
            None
        },
        HNode::Truth(_) => Some(RType::Truth),
        HNode::Rune(_) => Some(RType::Rune),
        HNode::Break => Some(RType::Never),
        HNode::Continue => Some(RType::Never),
        HNode::Unresolved => None,
        HNode::Error => None,
    }
}

/// A copy of the signature at a position of a list.
fn copy_signature_at(signatures: &Vec<Signature>, k: usize) -> (r: Signature)
    requires
        k < signatures.len(),
{
    let signature = &signatures[k];
    let mut parameters: Vec<RType> = Vec::new();
    let mut i: usize = 0;
    while i < signature.parameters.len()
        decreases signature.parameters.len() - i,
    {
        parameters.push(copy_type(&signature.parameters[i]));
        i = i + 1;
    }
    Signature {
        convention: signature.convention,
        parameters,
        return_type: copy_type(&signature.return_type),
        target: signature.target,
    }
}

/// The element type and architecture of an array or slice node.
fn sequence(inference: &Inference, scene: &mut Scene, base: HIndex) -> (r: Option<
    (RType, Option<Target>),
>)
    requires
        inference.well_formed(),
        base < inference.nodes.len(),
    ensures
        kept(*inference, *old(scene), *final(scene), base as int),
        !old(scene).types.nodes@.contains_key(base) ==> (r matches Some((kind, target)) ==> final(
            scene).types.nodes@.contains_key(base) && element_same(
            final(scene).types.nodes@[base],
            kind,
        )),
    decreases inference.rank(base as int), 3nat,
{
    match synthesize(inference, scene, base)? {
        RType::Slice(target, kind) => Some((*kind, target)),
        RType::Array(kind, _) => Some((*kind, inference.target)),
        _ => {
            report(scene, InferError::ExpectedSequence(base));
            None
        },
    }
}


/// The type of a block: that of its last node, `Void` if it is empty.
fn synthesize_block(inference: &Inference, scene: &mut Scene, index: HIndex) -> (r: Option<RType>)
    requires
        inference.well_formed(),
        index < inference.nodes.len(),
    ensures
        kept_below(*inference, *old(scene), *final(scene), index as int),
    decreases inference.rank(index as int), 0nat,
{
    let nodes = match &inference.nodes[index] {
        HNode::Block(nodes) => nodes,
        _ => return None,
    };
    let mut last: Option<RType> = Some(RType::Void);
    let mut k: usize = 0;
    while k < nodes.len()
        invariant
            inference.well_formed(),
            index < inference.nodes.len(),
            kept_below(*inference, *old(scene), *scene, index as int),
            children(inference.nodes@[index as int]) == nodes@,
            k <= nodes.len(),
        decreases nodes.len() - k,
    {
        proof {
            lemma_part(inference, index as int, k as int);
        }
        last = synthesize(inference, scene, nodes[k]);
        k = k + 1;
    }
    last
}

/// A declaration gives its variable the written type, the type of its
/// value, or both once the value is checked against the written type.
fn synthesize_let(inference: &Inference, scene: &mut Scene, index: HIndex) -> (r: Option<RType>)
    requires
        inference.well_formed(),
        index < inference.nodes.len(),
    ensures
        kept_below(*inference, *old(scene), *final(scene), index as int),
    decreases inference.rank(index as int), 0nat,
{
    let (variable, annotation, part) = match &inference.nodes[index] {
        HNode::Let(variable, annotation, part) => (*variable, annotation, *part),
        _ => return None,
    };
    let kind = match (annotation, part) {
        (None, None) => {
            report(scene, InferError::Unknown(index));
            return None;
        },
        (Some(kind), None) => lift(inference.target, kind),
        (None, Some(part)) => {
            proof {
                lemma_part(inference, index as int, 0);
            }
            synthesize(inference, scene, part)?
        },
        (Some(kind), Some(part)) => {
            proof {
                lemma_part(inference, index as int, 0);
            }
            let kind = lift(inference.target, kind);
            check(inference, scene, part, raise(copy_type(&kind), Span::internal()));
            kind
        },
    };
    scene.types.variables.insert(variable, kind);
    Some(RType::Void)
}

/// A conditional has the type of its branches if they all agree and one
/// of them always applies; `Void` otherwise.
fn synthesize_when(inference: &Inference, scene: &mut Scene, index: HIndex) -> (r: Option<RType>)
    requires
        inference.well_formed(),
        index < inference.nodes.len(),
    ensures
        kept_below(*inference, *old(scene), *final(scene), index as int),
    decreases inference.rank(index as int), 0nat,
{
    let branches = match &inference.nodes[index] {
        HNode::When(branches) => branches,
        _ => return None,
    };
    let mut first: Option<RType> = None;
    let mut equal = true;
    let mut complete = false;
    let mut k: usize = 0;
    while k < branches.len()
        invariant
            inference.well_formed(),
            index < inference.nodes.len(),
            kept_below(*inference, *old(scene), *scene, index as int),
            children(inference.nodes@[index as int]) == crate::lowering::conditions(branches@)
                + crate::lowering::bodies(branches@),
            k <= branches.len(),
        decreases branches.len() - k,
    {
        let (condition, body) = branches[k];
        proof {
            assert(children(inference.nodes@[index as int])[k as int] == condition);
            assert(children(inference.nodes@[index as int])[branches.len() + k] == body);
            lemma_part(inference, index as int, k as int);
            lemma_part(inference, index as int, branches.len() + k);
        }
        check(inference, scene, condition, truth());
        if let HNode::Truth(true) = &inference.nodes[condition] {
            complete = true;
        }
        if let Some(kind) = synthesize(inference, scene, body) {
            match &first {
                Some(first) => equal = equal && unifies(first, &kind),
                None => first = Some(kind),
            }
        }
        k = k + 1;
    }
    if equal && complete {
        first
    } else {
        Some(RType::Void)
    }
}

/// A call takes the overload of its path whose parameters fit its
/// arguments: by count alone if that leaves one, which checks the
/// arguments; otherwise by the types of the arguments.
fn synthesize_call(inference: &Inference, scene: &mut Scene, index: HIndex) -> (r: Option<RType>)
    requires
        inference.well_formed(),
        index < inference.nodes.len(),
    ensures
        kept_below(*inference, *old(scene), *final(scene), index as int),
    decreases inference.rank(index as int), 0nat,
{
    let (path, arguments) = match &inference.nodes[index] {
        HNode::Call(path, arguments) => (*path, arguments),
        _ => return None,
    };
    let candidates = match inference.signatures.get(&path) {
        Some(candidates) => candidates,
        None => return None,
    };
    let mut fitting: Vec<usize> = Vec::new();
    let mut k: usize = 0;
    while k < candidates.len()
        invariant
            forall|j: int| 0 <= j < fitting.len() ==> #[trigger] fitting@[j] < candidates.len()
                && candidates@[fitting@[j] as int].parameters.len() == arguments.len(),
        decreases candidates.len() - k,
    {
        if candidates[k].parameters.len() == arguments.len() {
            fitting.push(k);
        }
        k = k + 1;
    }
    if fitting.len() == 1 {
        let chosen = fitting[0];
        let signature = &candidates[chosen];
        let mut j: usize = 0;
        while j < arguments.len()
            invariant
            inference.well_formed(),
            index < inference.nodes.len(),
            kept_below(*inference, *old(scene), *scene, index as int),
                children(inference.nodes@[index as int]) == arguments@,
                signature.parameters.len() == arguments.len(),
            decreases arguments.len() - j,
        {
            proof {
                lemma_part(inference, index as int, j as int);
            }
            let expected = raise(copy_type(&signature.parameters[j]), Span::internal());
            check(inference, scene, arguments[j], expected);
            j = j + 1;
        }
        select(scene, index, chosen);
        return Some(copy_type(&signature.return_type));
    }
    let mut kinds: Vec<RType> = Vec::new();
    let mut j: usize = 0;
    while j < arguments.len()
        invariant
            inference.well_formed(),
            index < inference.nodes.len(),
            kept_below(*inference, *old(scene), *scene, index as int),
            children(inference.nodes@[index as int]) == arguments@,
            j <= arguments.len(),
            kinds.len() == j,
        decreases arguments.len() - j,
    {
        proof {
            lemma_part(inference, index as int, j as int);
        }
        let kind = synthesize(inference, scene, arguments[j])?;
        kinds.push(kind);
        j = j + 1;
    }
    let mut matching: Vec<usize> = Vec::new();
    let mut k: usize = 0;
    while k < fitting.len()
        invariant
            kinds.len() == arguments.len(),
            forall|i: int| 0 <= i < fitting.len() ==> #[trigger] fitting@[i] < candidates.len()
                && candidates@[fitting@[i] as int].parameters.len() == arguments.len(),
            forall|i: int| 0 <= i < matching.len() ==> #[trigger] matching@[i] < candidates.len(),
        decreases fitting.len() - k,
    {
        let candidate = &candidates[fitting[k]];
        let mut all = true;
        let mut i: usize = 0;
        while i < kinds.len()
            invariant
                candidate.parameters.len() == kinds.len(),
            decreases kinds.len() - i,
        {
            all = all && unifies(&candidate.parameters[i], &kinds[i]);
            i = i + 1;
        }
        if all {
            matching.push(fitting[k]);
        }
        k = k + 1;
    }
    if matching.len() == 1 {
        select(scene, index, matching[0]);
        Some(copy_type(&candidates[matching[0]].return_type))
    } else if matching.len() == 0 {
        report(scene, InferError::NoMatchingFunction(index));
        None
    } else {
        report(scene, InferError::AmbiguousFunction(index));
        None
    }
}

/// A call of a function value checks its arguments against the
/// parameters and has the return type.
fn synthesize_method(inference: &Inference, scene: &mut Scene, index: HIndex) -> (r: Option<RType>)
    requires
        inference.well_formed(),
        index < inference.nodes.len(),
    ensures
        kept_below(*inference, *old(scene), *final(scene), index as int),
    decreases inference.rank(index as int), 0nat,
{
    let (base, arguments) = match &inference.nodes[index] {
        HNode::Method(base, arguments) => (*base, arguments),
        _ => return None,
    };
    proof {
        lemma_part(inference, index as int, 0);
    }
    let kind = synthesize(inference, scene, base)?;
    match kind {
        RType::Function(signature) => {
            let mut j: usize = 0;
            while j < arguments.len() && j < signature.parameters.len()
                invariant
            inference.well_formed(),
            index < inference.nodes.len(),
            kept_below(*inference, *old(scene), *scene, index as int),
                    children(inference.nodes@[index as int]) == seq![base] + arguments@,
                decreases arguments.len() - j,
            {
                proof {
                    assert(children(inference.nodes@[index as int])[j + 1] == arguments@[j as int]);
                    lemma_part(inference, index as int, j + 1);
                }
                let expected = raise(copy_type(&signature.parameters[j]), Span::internal());
                check(inference, scene, arguments[j], expected);
                j = j + 1;
            }
            Some(signature.return_type)
        },
        _ => {
            report(scene, InferError::ExpectedFunction(base));
            None
        },
    }
}

/// A field has the declared type of the structure's field; a slice has
/// its address, a pointer, and its length, an unsigned size.
fn synthesize_field(inference: &Inference, scene: &mut Scene, index: HIndex) -> (r: Option<RType>)
    requires
        inference.well_formed(),
        index < inference.nodes.len(),
    ensures
        kept_below(*inference, *old(scene), *final(scene), index as int),
        inference.nodes@[index as int] matches HNode::Field(base, name) ==> (
            !old(scene).types.nodes@.contains_key(base) ==> (r matches Some(kind) ==> final(
            scene).types.nodes@.contains_key(base) && slice_field(
            final(scene).types.nodes@[base],
            name,
            kind,
        ))),
    decreases inference.rank(index as int), 0nat,
{
    let (base, name) = match &inference.nodes[index] {
        HNode::Field(base, name) => (*base, *name),
        _ => return None,
    };
    proof {
        lemma_part(inference, index as int, 0);
    }
    let kind = synthesize(inference, scene, base)?;
    match kind {
        RType::Structure(path) => {
            if path >= inference.structures.len() {
                return None;
            }
            match declared(inference, path, name) {
                Some(kind) => Some(kind),
                None => {
                    report(scene, InferError::UndefinedField(index));
                    None
                },
            }
        },
        RType::Slice(target, element) => if name == ADDRESS {
            Some(RType::Pointer(target, element))
        } else if name == SIZE {
            Some(RType::IntegralSize(target, Sign::Unsigned))
        } else {
            report(scene, InferError::UndefinedField(index));
            None
        },
        _ => {
            report(scene, InferError::ExpectedStructure(base));
            None
        },
    }
}

/// A structure value checks each given field against the declared type;
/// a declared field left out is an error.
fn synthesize_new(inference: &Inference, scene: &mut Scene, index: HIndex) -> (r: Option<RType>)
    requires
        inference.well_formed(),
        index < inference.nodes.len(),
    ensures
        kept_below(*inference, *old(scene), *final(scene), index as int),
    decreases inference.rank(index as int), 0nat,
{
    let (path, fields) = match &inference.nodes[index] {
        HNode::New(path, fields) => (*path, fields),
        _ => return None,
    };
    if path >= inference.structures.len() {
        return None;
    }
    let declared = &inference.structures[path].fields;
    let mut k: usize = 0;
    while k < declared.len()
        invariant
            inference.well_formed(),
            index < inference.nodes.len(),
            kept_below(*inference, *old(scene), *scene, index as int),
            children(inference.nodes@[index as int]) == crate::lowering::field_values(fields@),
        decreases declared.len() - k,
    {
        match given(fields, declared[k].0) {
            Some((j, part)) => {
                proof {
                    assert(crate::lowering::field_values(fields@)[j as int] == part);
                    lemma_part(inference, index as int, j as int);
                }
                let kind = lift(inference.target, &declared[k].1);
                check(inference, scene, part, raise(kind, Span::internal()));
            },
            None => report(scene, InferError::UndefinedField(index)),
        }
        k = k + 1;
    }
    Some(RType::Structure(path))
}

/// A slice value checks its length against an unsigned size and its
/// address against a pointer to the written element type.
fn synthesize_slice_new(inference: &Inference, scene: &mut Scene, index: HIndex) -> (r: Option<
    RType,
>)
    requires
        inference.well_formed(),
        index < inference.nodes.len(),
    ensures
        kept_below(*inference, *old(scene), *final(scene), index as int),
    decreases inference.rank(index as int), 0nat,
{
    let (target, element, fields) = match &inference.nodes[index] {
        HNode::SliceNew(target, element, fields) => (*target, element, fields),
        _ => return None,
    };
    let size = match target {
        Some(target) => raise(
            RType::IntegralSize(Some(target), Sign::Unsigned),
            Span::internal(),
        ),
        None => crate::types::index(inference.target),
    };
    if let Some((j, part)) = given(fields, SIZE) {
        proof {
            assert(crate::lowering::field_values(fields@)[j as int] == part);
            lemma_part(inference, index as int, j as int);
        }
        check(inference, scene, part, size);
    }
    let kind = lift(inference.target, element);
    if let Some((j, part)) = given(fields, ADDRESS) {
        proof {
            assert(crate::lowering::field_values(fields@)[j as int] == part);
            lemma_part(inference, index as int, j as int);
        }
        let pointer = RType::Pointer(inference.target, Box::new(copy_type(&kind)));
        check(inference, scene, part, raise(pointer, Span::internal()));
    }
    Some(RType::Slice(target, Box::new(kind)))
}

/// A compound assignment checks its value against its target, or against
/// a size when it moves a pointer.
fn synthesize_compound(inference: &Inference, scene: &mut Scene, index: HIndex) -> (r: Option<
    RType,
>)
    requires
        inference.well_formed(),
        index < inference.nodes.len(),
    ensures
        kept_below(*inference, *old(scene), *final(scene), index as int),
        inference.nodes@[index as int] is Compound ==> r == Some(RType::Void),
    decreases inference.rank(index as int), 0nat,
{
    let (dual, target, part) = match &inference.nodes[index] {
        HNode::Compound(dual, target, part) => (*dual, *target, *part),
        _ => return None,
    };
    proof {
        lemma_part(inference, index as int, 0);
        lemma_part(inference, index as int, 1);
    }
    let kind = synthesize(inference, scene, target);
    if let HDual::Add | HDual::Minus = dual {
        if let Some(RType::Pointer(architecture, _)) = &kind {
            check(inference, scene, part, IType::IntegralSize(*architecture));
            return Some(RType::Void);
        }
    }
    if let Some(kind) = kind {
        check(inference, scene, part, raise(kind, Span::internal()));
    }
    Some(RType::Void)
}

/// A binary operation: logical operators take truth values; comparisons
/// give a truth value; moving a pointer takes a size; the others have the
/// type of their left operand, which the right one is checked against.
fn synthesize_binary(inference: &Inference, scene: &mut Scene, index: HIndex) -> (r: Option<RType>)
    requires
        inference.well_formed(),
        index < inference.nodes.len(),
    ensures
        kept_below(*inference, *old(scene), *final(scene), index as int),
        inference.nodes@[index as int] matches HNode::Binary(operator, _, _) ==> (gives_truth(
            operator,
        ) ==> r == Some(RType::Truth)),
        inference.nodes@[index as int] matches HNode::Binary(HBinary::Dual(_), left, _) ==> (
            !old(scene).types.nodes@.contains_key(left) ==> (r matches Some(kind) ==> final(
            scene).types.nodes@.contains_key(left) && same(final(scene).types.nodes@[left], kind))),
    decreases inference.rank(index as int), 0nat,
{
    let (operator, left, right) = match &inference.nodes[index] {
        HNode::Binary(operator, left, right) => (*operator, *left, *right),
        _ => return None,
    };
    proof {
        lemma_part(inference, index as int, 0);
        lemma_part(inference, index as int, 1);
    }
    if let HBinary::And | HBinary::Or = operator {
        check(inference, scene, left, truth());
        check(inference, scene, right, truth());
        return Some(RType::Truth);
    }
    let kind = synthesize(inference, scene, left);
    if let HBinary::Equal | HBinary::NotEqual = operator {
        if let Some(kind) = kind {
            check(inference, scene, right, raise(kind, Span::internal()));
        }
        return Some(RType::Truth);
    }
    if let HBinary::Dual(HDual::Add | HDual::Minus) = operator {
        if let Some(RType::Pointer(architecture, _)) = &kind {
            check(inference, scene, right, IType::IntegralSize(*architecture));
            return kind;
        }
    }
    let compare = match operator {
        HBinary::Less | HBinary::LessEqual | HBinary::Greater | HBinary::GreaterEqual => true,
        _ => false,
    };
    if let Some(kind) = &kind {
        check(inference, scene, right, raise(copy_type(kind), Span::internal()));
    }
    if compare {
        Some(RType::Truth)
    } else {
        kind
    }
}

/// An array has the type of its first element, which the others are
/// checked against, and as its length the count of the others.
fn synthesize_array(inference: &Inference, scene: &mut Scene, index: HIndex) -> (r: Option<RType>)
    requires
        inference.well_formed(),
        index < inference.nodes.len(),
    ensures
        kept_below(*inference, *old(scene), *final(scene), index as int),
    decreases inference.rank(index as int), 0nat,
{
    let nodes = match &inference.nodes[index] {
        HNode::Array(nodes) => nodes,
        _ => return None,
    };
    if nodes.len() == 0 {
        report(scene, InferError::Unknown(index));
        return None;
    }
    proof {
        lemma_part(inference, index as int, 0);
    }
    let kind = synthesize(inference, scene, nodes[0])?;
    let mut k: usize = 1;
    while k < nodes.len()
        invariant
            inference.well_formed(),
            index < inference.nodes.len(),
            kept_below(*inference, *old(scene), *scene, index as int),
            children(inference.nodes@[index as int]) == nodes@,
            1 <= k <= nodes.len(),
        decreases nodes.len() - k,
    {
        proof {
            lemma_part(inference, index as int, k as int);
        }
        check(inference, scene, nodes[k], raise(copy_type(&kind), Span::internal()));
        k = k + 1;
    }
    Some(RType::Array(Box::new(kind), nodes.len() - 1))
}


/// Whether the type a check gave a node meets the expectation, unless an
/// error was reported.
pub open spec fn answered(before: Scene, after: Scene, index: int, kind: IType) -> bool {
    !before.types.nodes@.contains_key(index as HIndex) && after.types.nodes@.contains_key(
        index as HIndex,
    ) && !meets(after.types.nodes@[index as HIndex], kind) ==> before.errors@.len()
        < after.errors@.len()
}

/// A copy of a type meets the expectation of exactly that type.
proof fn lemma_copy_meets(copy: RType, kind: RType, span: Span)
    requires
        same(copy, kind),
    ensures
        meets(copy, IType::Type(kind, span)),
{
    lemma_same_compatible(copy, kind, kind);
    lemma_unifies_reflexive(kind);
}

/// Asserts that a node has the expected type, reporting a mismatch
/// otherwise. An expected `Void` discards the node's value. A node that
/// gets a type here gets one that meets the expectation unless an error is
/// reported, except a reference, which gets the type it points to, and a
/// compile-time value, whose type its own inference decides.
pub fn check(inference: &Inference, scene: &mut Scene, index: HIndex, kind: IType)
    requires
        inference.well_formed(),
        index < inference.nodes.len(),
    ensures
        kept(*inference, *old(scene), *final(scene), index as int),
        !(kind matches IType::Type(RType::Void, _)) && !(inference.nodes@[index as int] matches HNode::Unary(
            HUnary::Reference,
            _,
        )) && !(inference.nodes@[index as int] is Compile) ==> answered(
            *old(scene),
            *final(scene),
            index as int,
            kind,
        ),
    decreases inference.rank(index as int), 3nat,
{
    if let IType::Type(RType::Void, _) = &kind {
        synthesize(inference, scene, index);
        return;
    }
    match (&inference.nodes[index], &kind) {
        (HNode::Block(_), IType::Type(_, _)) => check_block(inference, scene, index, kind),
        (HNode::When(_), IType::Type(_, _)) => check_when(inference, scene, index, kind),
        (HNode::Slice(_, _, _), IType::Type(RType::Slice(_, _), _)) => check_slice(
            inference,
            scene,
            index,
            kind,
        ),
        (HNode::Slice(_, _, _), IType::Sequence(_, _, _)) => check_slice(
            inference,
            scene,
            index,
            kind,
        ),
        (HNode::Array(_), IType::Sequence(_, _, _)) => check_array(inference, scene, index, kind),
        (HNode::Array(_), IType::Type(RType::Array(_, _), _)) => check_array(
            inference,
            scene,
            index,
            kind,
        ),
        (HNode::Index(_, _), IType::Type(_, _)) => check_index(inference, scene, index, kind),
        (HNode::Function(_), IType::Type(RType::Function(_), _)) => check_function(
            inference,
            scene,
            index,
            kind,
        ),
        (HNode::Binary(HBinary::Dual(_), _, _), IType::Type(_, _)) => check_binary(
            inference,
            scene,
            index,
            kind,
        ),
        (HNode::Unary(operator, _), IType::Type(expected, _)) if *operator != HUnary::Reference
            || matches!(expected, RType::Pointer(_, _)) => check_unary(inference, scene, index, kind),
        (HNode::Cast(part, None), IType::Type(expected, _)) => {
            proof {
                lemma_part(inference, index as int, 0);
            }
            synthesize(inference, scene, *part);
            let copy = copy_type(expected);
            let ghost middle = *scene;
            insert(inference, scene, index, copy);
            proof {
                if !old(scene).types.nodes@.contains_key(index) {
                    assert(!middle.types.nodes@.contains_key(index));
                    lemma_copy_meets(copy, *expected, kind->Type_1);
                }
            }
        },
        (HNode::Integral(_), _) => check_integral(inference, scene, index, kind),
        (HNode::Register(_), IType::Type(expected, _)) | (HNode::Inline(_), IType::Type(
            expected,
            _,
        )) => {
            let copy = copy_type(expected);
            insert(inference, scene, index, copy);
            proof {
                if !old(scene).types.nodes@.contains_key(index) {
                    lemma_copy_meets(copy, *expected, kind->Type_1);
                }
            }
        },
        (HNode::Compile(value), _) => {
            if let Some(found) = inference.compiled.get(value) {
                insert(inference, scene, index, copy_type(found));
            }
        },
        _ => {
            let ghost before = *scene;
            if let Some(found) = synthesize(inference, scene, index) {
                if !unify(&found, &kind) {
                    report(scene, InferError::Mismatch(index));
                } else {
                    proof {
                        if !before.types.nodes@.contains_key(index) {
                            lemma_same_meets(scene.types.nodes@[index], found, kind);
                        }
                    }
                }
            }
        },
    }
}

/// A block checks its last node against the expectation; the others are
/// inferred for their effects.
fn check_block(inference: &Inference, scene: &mut Scene, index: HIndex, kind: IType)
    requires
        inference.well_formed(),
        index < inference.nodes.len(),
    ensures
        kept(*inference, *old(scene), *final(scene), index as int),
        answered(*old(scene), *final(scene), index as int, kind),
    decreases inference.rank(index as int), 0nat,
{
    let nodes = match &inference.nodes[index] {
        HNode::Block(nodes) => nodes,
        _ => return,
    };
    let expected = match kind {
        IType::Type(expected, _) => expected,
        _ => return,
    };
    if nodes.len() == 0 {
        return;
    }
    let last = nodes.len() - 1;
    let mut k: usize = 0;
    while k < last
        invariant
            inference.well_formed(),
            index < inference.nodes.len(),
            kept_below(*inference, *old(scene), *scene, index as int),
            children(inference.nodes@[index as int]) == nodes@,
            last == nodes.len() - 1,
            k <= last,
        decreases last - k,
    {
        proof {
            lemma_part(inference, index as int, k as int);
        }
        synthesize(inference, scene, nodes[k]);
        k = k + 1;
    }
    proof {
        lemma_part(inference, index as int, last as int);
    }
    check(inference, scene, nodes[last], raise(copy_type(&expected), Span::internal()));
    let copy = copy_type(&expected);
    insert(inference, scene, index, copy);
    proof {
        lemma_copy_meets(copy, expected, kind->Type_1);
    }
}

/// A conditional checks each branch against the expectation and each
/// condition against a truth value; without a branch that always applies
/// the expectation must be `Void`.
fn check_when(inference: &Inference, scene: &mut Scene, index: HIndex, kind: IType)
    requires
        inference.well_formed(),
        index < inference.nodes.len(),
    ensures
        kept(*inference, *old(scene), *final(scene), index as int),
        answered(*old(scene), *final(scene), index as int, kind),
    decreases inference.rank(index as int), 0nat,
{
    let branches = match &inference.nodes[index] {
        HNode::When(branches) => branches,
        _ => return,
    };
    let expected = match kind {
        IType::Type(expected, _) => expected,
        _ => return,
    };
    let mut complete = false;
    let mut k: usize = 0;
    while k < branches.len()
        invariant
            inference.well_formed(),
            index < inference.nodes.len(),
            kept_below(*inference, *old(scene), *scene, index as int),
            children(inference.nodes@[index as int]) == crate::lowering::conditions(branches@)
                + crate::lowering::bodies(branches@),
            k <= branches.len(),
        decreases branches.len() - k,
    {
        let (condition, body) = branches[k];
        proof {
            assert(children(inference.nodes@[index as int])[k as int] == condition);
            assert(children(inference.nodes@[index as int])[branches.len() + k] == body);
            lemma_part(inference, index as int, k as int);
            lemma_part(inference, index as int, branches.len() + k);
        }
        if let HNode::Truth(true) = &inference.nodes[condition] {
            complete = true;
        }
        check(inference, scene, body, raise(copy_type(&expected), Span::internal()));
        check(inference, scene, condition, truth());
        k = k + 1;
    }
    if complete || unifies(&expected, &RType::Void) {
        let copy = copy_type(&expected);
        insert(inference, scene, index, copy);
        proof {
            lemma_copy_meets(copy, expected, kind->Type_1);
        }
    } else {
        report(scene, InferError::MissingDefault(index));
    }
}

/// A slice checks its bounds as truth values and its base against a
/// sequence of the expected element type.
fn check_slice(inference: &Inference, scene: &mut Scene, index: HIndex, kind: IType)
    requires
        inference.well_formed(),
        index < inference.nodes.len(),
    ensures
        kept(*inference, *old(scene), *final(scene), index as int),
        answered(*old(scene), *final(scene), index as int, kind),
    decreases inference.rank(index as int), 0nat,
{
    let (base, start, end) = match &inference.nodes[index] {
        HNode::Slice(base, start, end) => (*base, *start, *end),
        _ => return,
    };
    let (target, element) = match kind {
        IType::Type(RType::Slice(target, element), _) => (target, *element),
        IType::Sequence(target, element, _) => (target, element),
        _ => return,
    };
    proof {
        lemma_part(inference, index as int, 0);
    }
    if let Some(start) = start {
        proof {
            assert(children(inference.nodes@[index as int])[1] == start);
            lemma_part(inference, index as int, 1);
        }
        check(inference, scene, start, truth());
    }
    if let Some(end) = end {
        let position: usize = if start.is_some() {
            2
        } else {
            1
        };
        proof {
            assert(children(inference.nodes@[index as int])[position as int] == end);
            lemma_part(inference, index as int, position as int);
        }
        check(inference, scene, end, truth());
    }
    check(
        inference,
        scene,
        base,
        IType::Sequence(target, copy_type(&element), Span::internal()),
    );
    let copy = copy_type(&element);
    let inserted = RType::Slice(target, Box::new(copy));
    insert(inference, scene, index, inserted);
    proof {
        lemma_same_compatible(copy, element, element);
        lemma_unifies_reflexive(element);
    }
}

/// An array checks its elements against the expected element type, and
/// its length against the expected length if there is one.
fn check_array(inference: &Inference, scene: &mut Scene, index: HIndex, kind: IType)
    requires
        inference.well_formed(),
        index < inference.nodes.len(),
    ensures
        kept(*inference, *old(scene), *final(scene), index as int),
        answered(*old(scene), *final(scene), index as int, kind),
    decreases inference.rank(index as int), 0nat,
{
    let nodes = match &inference.nodes[index] {
        HNode::Array(nodes) => nodes,
        _ => return,
    };
    let (element, length) = match kind {
        IType::Sequence(_, element, _) => (element, None),
        IType::Type(RType::Array(element, length), _) => (*element, Some(length)),
        _ => return,
    };
    let mut k: usize = 0;
    while k < nodes.len()
        invariant
            inference.well_formed(),
            index < inference.nodes.len(),
            kept_below(*inference, *old(scene), *scene, index as int),
            children(inference.nodes@[index as int]) == nodes@,
            k <= nodes.len(),
        decreases nodes.len() - k,
    {
        proof {
            lemma_part(inference, index as int, k as int);
        }
        check(inference, scene, nodes[k], raise(copy_type(&element), Span::internal()));
        k = k + 1;
    }
    match length {
        Some(length) => if nodes.len() != length {
            report(scene, InferError::ArraySize(index));
            return;
        },
        None => {},
    }
    let copy = copy_type(&element);
    insert(inference, scene, index, RType::Array(Box::new(copy), nodes.len()));
    proof {
        lemma_same_compatible(copy, element, element);
        lemma_unifies_reflexive(element);
    }
}

/// An element checks its position against an index and its base against
/// a sequence of the expected type.
fn check_index(inference: &Inference, scene: &mut Scene, index: HIndex, kind: IType)
    requires
        inference.well_formed(),
        index < inference.nodes.len(),
    ensures
        kept(*inference, *old(scene), *final(scene), index as int),
        answered(*old(scene), *final(scene), index as int, kind),
    decreases inference.rank(index as int), 0nat,
{
    let (base, position) = match &inference.nodes[index] {
        HNode::Index(base, position) => (*base, *position),
        _ => return,
    };
    let expected = match kind {
        IType::Type(expected, _) => expected,
        _ => return,
    };
    proof {
        lemma_part(inference, index as int, 0);
        lemma_part(inference, index as int, 1);
    }
    check(inference, scene, position, crate::types::index(inference.target));
    check(
        inference,
        scene,
        base,
        IType::Sequence(inference.target, copy_type(&expected), Span::internal()),
    );
    let copy = copy_type(&expected);
    insert(inference, scene, index, copy);
    proof {
        lemma_copy_meets(copy, expected, kind->Type_1);
    }
}

/// A function value takes the one overload of its path that is
/// interchangeable with the expected function type.
fn check_function(inference: &Inference, scene: &mut Scene, index: HIndex, kind: IType)
    requires
        inference.well_formed(),
        index < inference.nodes.len(),
    ensures
        kept(*inference, *old(scene), *final(scene), index as int),
        answered(*old(scene), *final(scene), index as int, kind),
    decreases inference.rank(index as int), 0nat,
{
    let path = match &inference.nodes[index] {
        HNode::Function(path) => *path,
        _ => return,
    };
    let expected = match &kind {
        IType::Type(expected, _) => expected,
        _ => return,
    };
    let candidates = match inference.signatures.get(&path) {
        Some(candidates) => candidates,
        None => return,
    };
    let mut matching: Vec<usize> = Vec::new();
    let mut k: usize = 0;
    while k < candidates.len()
        invariant
            forall|j: int| 0 <= j < matching.len() ==> #[trigger] matching@[j] < candidates.len(),
        decreases candidates.len() - k,
    {
        let candidate = RType::Function(Box::new(copy_signature_at(candidates, k)));
        if unifies(expected, &candidate) {
            matching.push(k);
        }
        k = k + 1;
    }
    if matching.len() == 1 {
        let candidate = RType::Function(Box::new(copy_signature_at(candidates, matching[0])));
        if unifies(expected, &candidate) {
            select(scene, index, matching[0]);
            insert(inference, scene, index, candidate);
            proof {
                lemma_unifies_symmetric(*expected, candidate);
            }
        } else {
            report(scene, InferError::NoMatchingFunction(index));
        }
    } else if matching.len() == 0 {
        report(scene, InferError::NoMatchingFunction(index));
    } else {
        report(scene, InferError::AmbiguousFunction(index));
    }
}

/// An arithmetic operation checks both operands against the expectation;
/// moving a pointer checks the distance against a size.
fn check_binary(inference: &Inference, scene: &mut Scene, index: HIndex, kind: IType)
    requires
        inference.well_formed(),
        index < inference.nodes.len(),
    ensures
        kept(*inference, *old(scene), *final(scene), index as int),
        answered(*old(scene), *final(scene), index as int, kind),
    decreases inference.rank(index as int), 0nat,
{
    let (dual, left, right) = match &inference.nodes[index] {
        HNode::Binary(HBinary::Dual(dual), left, right) => (*dual, *left, *right),
        _ => return,
    };
    let expected = match kind {
        IType::Type(expected, _) => expected,
        _ => return,
    };
    proof {
        lemma_part(inference, index as int, 0);
        lemma_part(inference, index as int, 1);
    }
    check(inference, scene, left, raise(copy_type(&expected), Span::internal()));
    match (&dual, &expected) {
        (HDual::Add, RType::Pointer(_, _)) | (HDual::Minus, RType::Pointer(_, _)) => {
            check(inference, scene, right, IType::IntegralSize(None));
        },
        _ => {
            check(inference, scene, right, raise(copy_type(&expected), Span::internal()));
        },
    }
    let copy = copy_type(&expected);
    insert(inference, scene, index, copy);
    proof {
        lemma_copy_meets(copy, expected, kind->Type_1);
    }
}

/// A dereference checks its pointer against a pointer to the expectation;
/// negation checks its operand against the expectation; a reference
/// checks its operand against the type it is expected to point to, and is
/// given that type.
fn check_unary(inference: &Inference, scene: &mut Scene, index: HIndex, kind: IType)
    requires
        inference.well_formed(),
        index < inference.nodes.len(),
    ensures
        kept(*inference, *old(scene), *final(scene), index as int),
        !(inference.nodes@[index as int] matches HNode::Unary(HUnary::Reference, _)) ==> answered(
            *old(scene),
            *final(scene),
            index as int,
            kind,
        ),
    decreases inference.rank(index as int), 0nat,
{
    let (operator, part) = match &inference.nodes[index] {
        HNode::Unary(operator, part) => (*operator, *part),
        _ => return,
    };
    let expected = match kind {
        IType::Type(expected, _) => expected,
        _ => return,
    };
    proof {
        lemma_part(inference, index as int, 0);
    }
    match operator {
        HUnary::Dereference => {
            let pointer = RType::Pointer(inference.target, Box::new(copy_type(&expected)));
            check(inference, scene, part, raise(pointer, Span::internal()));
            let copy = copy_type(&expected);
            insert(inference, scene, index, copy);
            proof {
                lemma_copy_meets(copy, expected, kind->Type_1);
            }
        },
        HUnary::Reference => match expected {
            RType::Pointer(_, element) => {
                check(inference, scene, part, raise(copy_type(&element), Span::internal()));
                insert(inference, scene, index, *element);
            },
            _ => {},
        },
        HUnary::Not | HUnary::Negate => {
            check(inference, scene, part, raise(copy_type(&expected), Span::internal()));
            let copy = copy_type(&expected);
            insert(inference, scene, index, copy);
            proof {
                lemma_copy_meets(copy, expected, kind->Type_1);
            }
        },
    }
}

/// An integer literal takes an expected integer or size type; any other
/// expectation is a mismatch.
fn check_integral(inference: &Inference, scene: &mut Scene, index: HIndex, kind: IType)
    requires
        inference.well_formed(),
        index < inference.nodes.len(),
    ensures
        kept(*inference, *old(scene), *final(scene), index as int),
        answered(*old(scene), *final(scene), index as int, kind),
    decreases inference.rank(index as int), 0nat,
{
    match kind {
        IType::IntegralSize(target) => {
            insert(inference, scene, index, RType::IntegralSize(target, Sign::Unsigned));
        },
        IType::Type(RType::IntegralSize(target, sign), _) => {
            insert(inference, scene, index, RType::IntegralSize(target, sign));
        },
        IType::Type(RType::Integral(sign, width), _) => {
            insert(inference, scene, index, RType::Integral(sign, width));
        },
        _ => report(scene, InferError::Mismatch(index)),
    }
}


/// A scene with nothing found yet.
fn empty(return_type: Option<RType>) -> (r: Scene)
    ensures
        r.return_type == return_type,
        r.types.nodes@ == Map::<HIndex, RType>::empty(),
        r.types.variables@ == Map::<Variable, RType>::empty(),
        r.types.functions@ == Map::<HIndex, usize>::empty(),
        r.errors@.len() == 0,
{
    Scene {
        types: Types { nodes: HashMap::new(), variables: HashMap::new(), functions: HashMap::new() },
        errors: Vec::new(),
        return_type,
    }
}

/// Infers the types in a value whose body starts at `root`. If a hint is
/// given, the type of the root is matched against it; otherwise it is
/// inferred from the root alone.
pub fn hint(inference: &Inference, root: HIndex, expected: Option<IType>) -> (r: Scene)
    requires
        inference.well_formed(),
        root < inference.nodes.len(),
    ensures
        r.return_type is None,
        expected matches Some(expected) ==> (!(expected matches IType::Type(RType::Void, _))
            && !(inference.nodes@[root as int] matches HNode::Unary(HUnary::Reference, _))
            && !(inference.nodes@[root as int] is Compile) && r.types.nodes@.contains_key(root)
            && !meets(r.types.nodes@[root], expected) ==> r.errors@.len() > 0),
        expected is None ==> (fixed(inference.nodes@[root as int]) matches Some(kind)
            ==> r.types.nodes@.contains_key(root) && same(r.types.nodes@[root], kind)),
{
    let mut scene = empty(None);
    match expected {
        Some(expected) => check(inference, &mut scene, root, expected),
        None => {
            synthesize(inference, &mut scene, root);
        },
    }
    scene
}

/// Infers the types in a value that may have a written type: the written
/// type, if any, is the hint.
pub fn types(inference: &Inference, root: HIndex, kind: Option<&HType>) -> (r: Scene)
    requires
        inference.well_formed(),
        root < inference.nodes.len(),
    ensures
        kind matches Some(written) ==> exists|lifted: RType| #[trigger]
            lifts_to(inference.target, *written, lifted) && (!(lifted is Void)
                && !(inference.nodes@[root as int] matches HNode::Unary(HUnary::Reference, _))
                && !(inference.nodes@[root as int] is Compile) && r.types.nodes@.contains_key(root)
                && !meets(r.types.nodes@[root], IType::Type(lifted, Span::spec_internal()))
                ==> r.errors@.len() > 0),
        kind is None ==> (fixed(inference.nodes@[root as int]) matches Some(fixed_kind)
            ==> r.types.nodes@.contains_key(root) && same(r.types.nodes@[root], fixed_kind)),
{
    match kind {
        Some(kind) => {
            let lifted = lift(inference.target, kind);
            let ghost expected = lifted;
            let scene = hint(inference, root, Some(raise(lifted, Span::internal())));
            assert(lifts_to(inference.target, *kind, expected));
            scene
        },
        None => hint(inference, root, None),
    }
}

/// Infers the types in the body of a function: each parameter has its
/// written type, and the body is checked against the return type.
pub fn function(inference: &Inference, root: HIndex, parameters: &Vec<(Variable, HType)>, return_type: &HType) -> (r: Scene)
    requires
        inference.well_formed(),
        root < inference.nodes.len(),
    ensures
        r.return_type matches Some(hint) && lifts_to(inference.target, *return_type, hint),
        forall|k: int| 0 <= k < parameters.len() ==> #[trigger] r.types.variables@.contains_key(parameters@[k].0),
        r.return_type matches Some(hint) ==> (!(hint is Void)
            && !(inference.nodes@[root as int] matches HNode::Unary(HUnary::Reference, _))
            && !(inference.nodes@[root as int] is Compile) && r.types.nodes@.contains_key(root)
            && !meets(r.types.nodes@[root], IType::Type(hint, Span::spec_internal()))
            ==> r.errors@.len() > 0),
{
    let hint = lift(inference.target, return_type);
    let copy = copy_type(&hint);
    let mut scene = empty(Some(hint));
    let mut k: usize = 0;
    while k < parameters.len()
        invariant
            k <= parameters.len(),
            scene.return_type == Some(hint),
            scene.errors@.len() == 0,
            scene.types.nodes@ == Map::<HIndex, RType>::empty(),
            forall|j: int| 0 <= j < k ==> #[trigger] scene.types.variables@.contains_key(parameters@[j].0),
        decreases parameters.len() - k,
    {
        broadcast use vstd::std_specs::hash::group_hash_axioms;

        scene.types.variables.insert(parameters[k].0, lift(inference.target, &parameters[k].1));
        k = k + 1;
    }
    let ghost before = scene;
    let ghost expected = IType::Type(copy, Span::spec_internal());
    check(inference, &mut scene, root, raise(copy, Span::internal()));
    proof {
        if scene.types.nodes@.contains_key(root) {
            lemma_same_compatible(copy, hint, scene.types.nodes@[root]);
            lemma_unifies_symmetric(scene.types.nodes@[root], copy);
            lemma_unifies_symmetric(scene.types.nodes@[root], hint);
        }
        if hint is Void {
        } else {
            assert(!(copy is Void)) by {
                if copy is Void {
                    assert(same(copy, hint));
                }
            }
        }
    }
    assert forall|k: int| 0 <= k < parameters.len() implies #[trigger] scene.types.variables@.contains_key(
        parameters@[k].0,
    ) by {
        assert(before.types.variables@.contains_key(parameters@[k].0));
    }
    scene
}

/// A static item: loaded from outside with a written type, or defined
/// here with a written type, a value, or both.
#[derive(Debug)]
pub enum Static {
    Load(HType),
    Local(Option<HType>, Option<HIndex>),
}

/// The type of a static: its written type, or the type inferred for its
/// value with the written type as the hint.
pub fn statics(inference: &Inference, item: &Static) -> (r: Option<RType>)
    requires
        inference.well_formed(),
        item matches Static::Local(_, Some(root)) ==> root < inference.nodes.len(),
    ensures
        item matches Static::Load(written) ==> r matches Some(kind) && lifts_to(
            inference.target,
            *written,
            kind,
        ),
        item matches Static::Local(Some(written), None) ==> r matches Some(kind) && lifts_to(
            inference.target,
            *written,
            kind,
        ),
        item matches Static::Local(None, None) ==> r is None,
        item matches Static::Local(None, Some(root)) ==> (fixed(inference.nodes@[*root as int])
            is Some ==> r is Some),
{
    match item {
        Static::Load(kind) => Some(lift(inference.target, kind)),
        Static::Local(kind, Some(root)) => {
            let scene = match kind {
                Some(kind) => types(inference, *root, Some(kind)),
                None => types(inference, *root, None),
            };
            match scene.types.nodes.get(root) {
                Some(found) => Some(copy_type(found)),
                None => None,
            }
        },
        Static::Local(Some(kind), None) => Some(lift(inference.target, kind)),
        Static::Local(None, None) => None,
    }
}

} // verus!

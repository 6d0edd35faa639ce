use vstd::prelude::*;

use crate::node::{Sign, Target, Width};
use crate::types::{Convention, RType, Signature, StructureId};

verus! {

/// A type as written in source, before it is resolved within an item.
#[derive(Debug)]
pub enum HType {
    Void,
    Rune,
    Truth,
    Never,
    Structure(StructureId),
    Integral(Sign, Width),
    IntegralSize(Sign),
    Pointer(Box<HType>),
    Function(Box<HSignature>),
    /// An array of elements with the length given by the value at the index.
    Array(Box<HType>, usize),
    Slice(Box<HType>),
}

/// A function signature as written in source.
#[derive(Debug)]
pub struct HSignature {
    pub convention: Option<Convention>,
    pub parameters: Vec<HType>,
    pub return_type: HType,
}

/// Whether `lifted` is the resolved form of the written type `kind`
/// inside an item of the given architecture. Pointers, sizes, slices and
/// functions take the item's architecture; array lengths are not evaluated
/// and resolve to zero.
pub open spec fn lifts_to(target: Option<Target>, kind: HType, lifted: RType) -> bool
    decreases kind, 0nat,
{
    match kind {
        HType::Void => lifted == RType::Void,
        HType::Rune => lifted == RType::Rune,
        HType::Truth => lifted == RType::Truth,
        HType::Never => lifted == RType::Never,
        HType::Structure(path) => lifted == RType::Structure(path),
        HType::Integral(sign, width) => lifted == RType::Integral(sign, width),
        HType::IntegralSize(sign) => lifted == RType::IntegralSize(target, sign),
        HType::Pointer(k) => match lifted {
            RType::Pointer(t, r) => t == target && lifts_to(target, *k, *r),
            _ => false,
        },
        HType::Function(s) => match lifted {
            RType::Function(g) => signature_lifts_to(target, *s, *g),
            _ => false,
        },
        HType::Array(k, _) => match lifted {
            RType::Array(r, n) => n == 0 && lifts_to(target, *k, *r),
            _ => false,
        },
        HType::Slice(k) => match lifted {
            RType::Slice(t, r) => t == target && lifts_to(target, *k, *r),
            _ => false,
        },
    }
}

/// Whether `lifted` is the resolved form of the written signature inside an
/// item of the given architecture; the signature takes that architecture.
pub open spec fn signature_lifts_to(
    target: Option<Target>,
    signature: HSignature,
    lifted: Signature,
) -> bool
    decreases signature, 1nat,
{
    &&& lifted.convention == signature.convention
    &&& lifted.target == target
    &&& lifts_to(target, signature.return_type, lifted.return_type)
    &&& all_lift_to(target, signature.parameters@, lifted.parameters@)
}

/// Whether each type of `lifted` is the resolved form of the written type at
/// the same position of `kinds`, and the lists have the same length.
pub open spec fn all_lift_to(target: Option<Target>, kinds: Seq<HType>, lifted: Seq<RType>) -> bool
    decreases kinds, 2nat,
{
    if kinds.len() == 0 {
        lifted.len() == 0
    } else {
        &&& lifted.len() > 0
        &&& lifts_to(target, kinds[0], lifted[0])
        &&& all_lift_to(target, kinds.drop_first(), lifted.drop_first())
    }
}

/// Resolves a written type inside an item of the given architecture.
pub fn lift(target: Option<Target>, kind: &HType) -> (r: RType)
    ensures
        lifts_to(target, *kind, r),
    decreases *kind, 0nat,
{
    match kind {
        HType::Void => RType::Void,
        HType::Rune => RType::Rune,
        HType::Truth => RType::Truth,
        HType::Never => RType::Never,
        HType::Structure(path) => RType::Structure(*path),
        HType::Integral(sign, width) => RType::Integral(*sign, *width),
        HType::IntegralSize(sign) => RType::IntegralSize(target, *sign),
        HType::Pointer(k) => {
            let k = lift(target, k);
            RType::Pointer(target, Box::new(k))
        },
        HType::Function(signature) => {
            let signature = lift_signature(target, signature);
            RType::Function(Box::new(signature))
        },
        HType::Array(k, _size) => {
            let k = lift(target, k);
            RType::Array(Box::new(k), 0)
        },
        HType::Slice(k) => {
            let k = lift(target, k);
            RType::Slice(target, Box::new(k))
        },
    }
}

/// Resolves a written signature inside an item of the given architecture.
pub fn lift_signature(target: Option<Target>, signature: &HSignature) -> (r: Signature)
    ensures
        signature_lifts_to(target, *signature, r),
    decreases *signature, 1nat,
{
    let n = signature.parameters.len();
    let mut parameters: Vec<RType> = Vec::new();
    let mut i: usize = 0;
    while i < n
        invariant
            n == signature.parameters.len(),
            i <= n,
            parameters.len() == i,
            forall|j: int|
                0 <= j < i ==> lifts_to(target, signature.parameters@[j], #[trigger] parameters@[j]),
        decreases n - i,
    {
        let p = lift(target, &signature.parameters[i]);
        parameters.push(p);
        i = i + 1;
    }
    proof {
        lemma_all_lift_to(target, signature.parameters@, parameters@);
    }
    let return_type = lift(target, &signature.return_type);
    Signature { convention: signature.convention, parameters, return_type, target }
}

/// Pointwise resolution of two lists of the same length is resolution of
/// the lists.
proof fn lemma_all_lift_to(target: Option<Target>, kinds: Seq<HType>, lifted: Seq<RType>)
    requires
        kinds.len() == lifted.len(),
        forall|j: int| 0 <= j < kinds.len() ==> lifts_to(target, kinds[j], #[trigger] lifted[j]),
    ensures
        all_lift_to(target, kinds, lifted),
    decreases kinds.len(),
{
    if kinds.len() > 0 {
        assert(lifts_to(target, kinds[0], lifted[0]));
        assert forall|j: int| 0 <= j < kinds.drop_first().len() implies lifts_to(
            target,
            kinds.drop_first()[j],
            #[trigger] lifted.drop_first()[j],
        ) by {
            assert(lifts_to(target, kinds[j + 1], lifted[j + 1]));
        }
        lemma_all_lift_to(target, kinds.drop_first(), lifted.drop_first());
    }
}

/// Resolves the written signatures of the functions that share a path,
/// each inside its own item of the given architecture, in order.
pub fn signatures(target: Option<Target>, functions: &Vec<HSignature>) -> (r: Vec<Signature>)
    ensures
        r.len() == functions.len(),
        forall|i: int|
            0 <= i < functions.len() ==> signature_lifts_to(target, functions@[i], #[trigger] r@[i]),
{
    let mut lifted: Vec<Signature> = Vec::new();
    let mut i: usize = 0;
    while i < functions.len()
        invariant
            i <= functions.len(),
            lifted.len() == i,
            forall|j: int|
                0 <= j < i ==> signature_lifts_to(target, functions@[j], #[trigger] lifted@[j]),
        decreases functions.len() - i,
    {
        let signature = lift_signature(target, &functions[i]);
        lifted.push(signature);
        i = i + 1;
    }
    lifted
}

} // verus!

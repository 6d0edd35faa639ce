use vstd::prelude::*;

use crate::node::{Sign, Span, Target, Width};

verus! {

/// Interned path of a structure item.
pub type StructureId = usize;

/// Interned name of a calling convention.
pub type Convention = u64;

/// A resolved type.
#[derive(Debug)]
pub enum RType {
    Void,
    Rune,
    Truth,
    Never,
    Structure(StructureId),
    Integral(Sign, Width),
    IntegralSize(Option<Target>, Sign),
    Pointer(Option<Target>, Box<RType>),
    Function(Box<Signature>),
    Array(Box<RType>, usize),
    Slice(Option<Target>, Box<RType>),
}

/// A resolved function signature.
#[derive(Debug)]
pub struct Signature {
    pub convention: Option<Convention>,
    pub parameters: Vec<RType>,
    pub return_type: RType,
    pub target: Option<Target>,
}

/// Whether two types are interchangeable. `Never` is interchangeable with
/// every type; otherwise the types must have the same shape, the same
/// architectures, lengths, signs, widths and conventions, and
/// interchangeable element, pointee, parameter and return types.
pub open spec fn compatible(left: RType, right: RType) -> bool
    decreases left, 0nat,
{
    if left is Never || right is Never {
        true
    } else {
        match (left, right) {
            (RType::Void, RType::Void) => true,
            (RType::Rune, RType::Rune) => true,
            (RType::Truth, RType::Truth) => true,
            (RType::Structure(a), RType::Structure(b)) => a == b,
            (RType::Integral(s, w), RType::Integral(t, v)) => s == t && w == v,
            (RType::IntegralSize(a, s), RType::IntegralSize(b, t)) => a == b && s == t,
            (RType::Array(k, n), RType::Array(j, m)) => n == m && compatible(*k, *j),
            (RType::Slice(a, k), RType::Slice(b, j)) => a == b && compatible(*k, *j),
            (RType::Pointer(a, k), RType::Pointer(b, j)) => a == b && compatible(*k, *j),
            (RType::Function(f), RType::Function(g)) => {
                &&& f.convention == g.convention
                &&& compatible(f.return_type, g.return_type)
                &&& compatible_all(f.parameters@, g.parameters@)
            },
            _ => false,
        }
    }
}

/// Whether two type lists have the same length and are pairwise
/// interchangeable.
pub open spec fn compatible_all(left: Seq<RType>, right: Seq<RType>) -> bool
    decreases left, 1nat,
{
    if left.len() == 0 {
        right.len() == 0
    } else {
        &&& right.len() > 0
        &&& compatible(left[0], right[0])
        &&& compatible_all(left.drop_first(), right.drop_first())
    }
}

/// Interchangeable type lists have the same length.
proof fn lemma_compatible_all_same_length(left: Seq<RType>, right: Seq<RType>)
    ensures
        compatible_all(left, right) ==> left.len() == right.len(),
    decreases left.len(),
{
    if left.len() > 0 && right.len() > 0 {
        lemma_compatible_all_same_length(left.drop_first(), right.drop_first());
    }
}

/// Decides whether two types are interchangeable.
pub fn unifies(left: &RType, right: &RType) -> (r: bool)
    ensures
        r == compatible(*left, *right),
    decreases *left,
{
    match (left, right) {
        (RType::Truth, RType::Truth) | (RType::Rune, RType::Rune) => true,
        (RType::Void, RType::Void) | (_, RType::Never) | (RType::Never, _) => true,
        (RType::Structure(a), _) => match right {
            RType::Structure(b) => *a == *b,
            _ => false,
        },
        (RType::Integral(s, w), _) => match right {
            RType::Integral(t, v) => *s == *t && *w == *v,
            _ => false,
        },
        (RType::IntegralSize(a, s), _) => match right {
            RType::IntegralSize(b, t) => *a == *b && *s == *t,
            _ => false,
        },
        (RType::Array(left_kind, left_size), RType::Array(right_kind, right_size)) => {
            *left_size == *right_size && unifies(left_kind, right_kind)
        },
        (RType::Slice(left_target, left_kind), RType::Slice(right_target, right_kind)) => {
            *left_target == *right_target && unifies(left_kind, right_kind)
        },
        (RType::Pointer(left_target, left_kind), RType::Pointer(right_target, right_kind)) => {
            *left_target == *right_target && unifies(left_kind, right_kind)
        },
        (RType::Function(f), RType::Function(g)) => {
            let mut equal = f.convention == g.convention;
            equal = equal && unifies(&f.return_type, &g.return_type);
            proof {
                lemma_compatible_all_same_length(f.parameters@, g.parameters@);
            }
            equal = equal && f.parameters.len() == g.parameters.len();
            equal && parameters_unify(f, g)
        },
        (_, _) => false,
    }
}

/// Decides whether the parameter lists of two signatures are pairwise
/// interchangeable, given that they have the same length.
fn parameters_unify(f: &Box<Signature>, g: &Box<Signature>) -> (r: bool)
    requires
        f.parameters.len() == g.parameters.len(),
    ensures
        r == compatible_all(f.parameters@, g.parameters@),
    decreases *f, 0nat,
{
    let n = f.parameters.len();
    let mut i: usize = n;
    let mut all = true;
    proof {
        assert(f.parameters@.subrange(n as int, n as int).len() == 0);
    }
    while i > 0
        invariant
            n == f.parameters.len(),
            n == g.parameters.len(),
            i <= n,
            all == compatible_all(
                f.parameters@.subrange(i as int, n as int),
                g.parameters@.subrange(i as int, n as int),
            ),
        decreases i,
    {
        i = i - 1;
        let one = unifies(&f.parameters[i], &g.parameters[i]);
        proof {
            let ls = f.parameters@.subrange(i as int, n as int);
            let rs = g.parameters@.subrange(i as int, n as int);
            assert(ls.drop_first() =~= f.parameters@.subrange(i + 1, n as int));
            assert(rs.drop_first() =~= g.parameters@.subrange(i + 1, n as int));
            assert(ls[0] == f.parameters@[i as int]);
            assert(rs[0] == g.parameters@[i as int]);
        }
        all = one && all;
    }
    assert(f.parameters@.subrange(0, n as int) =~= f.parameters@);
    assert(g.parameters@.subrange(0, n as int) =~= g.parameters@);
    all
}

} // verus!

verus! {

/// Every type is interchangeable with itself.
pub proof fn lemma_unifies_reflexive(kind: RType)
    ensures
        compatible(kind, kind),
    decreases kind, 0nat,
{
    match kind {
        RType::Array(k, _) => lemma_unifies_reflexive(*k),
        RType::Slice(_, k) => lemma_unifies_reflexive(*k),
        RType::Pointer(_, k) => lemma_unifies_reflexive(*k),
        RType::Function(f) => {
            lemma_unifies_reflexive(f.return_type);
            lemma_unifies_all_reflexive(f.parameters@);
        },
        _ => {},
    }
}

/// Every type list is pairwise interchangeable with itself.
pub proof fn lemma_unifies_all_reflexive(kinds: Seq<RType>)
    ensures
        compatible_all(kinds, kinds),
    decreases kinds, 1nat,
{
    if kinds.len() > 0 {
        lemma_unifies_reflexive(kinds[0]);
        lemma_unifies_all_reflexive(kinds.drop_first());
    }
}

/// Interchangeability does not depend on the order of the two types.
pub proof fn lemma_unifies_symmetric(left: RType, right: RType)
    ensures
        compatible(left, right) == compatible(right, left),
    decreases left, 0nat,
{
    if !(left is Never || right is Never) {
        match (left, right) {
            (RType::Array(k, _), RType::Array(j, _)) => lemma_unifies_symmetric(*k, *j),
            (RType::Slice(_, k), RType::Slice(_, j)) => lemma_unifies_symmetric(*k, *j),
            (RType::Pointer(_, k), RType::Pointer(_, j)) => lemma_unifies_symmetric(*k, *j),
            (RType::Function(f), RType::Function(g)) => {
                lemma_unifies_symmetric(f.return_type, g.return_type);
                lemma_unifies_all_symmetric(f.parameters@, g.parameters@);
            },
            _ => {},
        }
    }
}

/// Pairwise interchangeability of lists does not depend on their order.
pub proof fn lemma_unifies_all_symmetric(left: Seq<RType>, right: Seq<RType>)
    ensures
        compatible_all(left, right) == compatible_all(right, left),
    decreases left, 1nat,
{
    if left.len() > 0 && right.len() > 0 {
        lemma_unifies_symmetric(left[0], right[0]);
        lemma_unifies_all_symmetric(left.drop_first(), right.drop_first());
    }
}

/// `Never` is interchangeable with every type.
pub proof fn lemma_unifies_never(kind: RType)
    ensures
        compatible(kind, RType::Never),
        compatible(RType::Never, kind),
{
}

/// An expected type: a type, a sequence of elements of a type, or an
/// architecture-sized integer.
#[derive(Debug)]
pub enum IType {
    Type(RType, Span),
    Sequence(Option<Target>, RType, Span),
    IntegralSize(Option<Target>),
}

impl IType {
    /// The span that the expectation originates from.
    pub open spec fn spec_span(&self) -> Span {
        match self {
            IType::Type(_, span) => *span,
            IType::Sequence(_, _, span) => *span,
            IType::IntegralSize(_) => Span::spec_internal(),
        }
    }

    /// The span that the expectation originates from.
    pub fn span(&self) -> (r: Span)
        ensures
            r == self.spec_span(),
    {
        match self {
            IType::Type(_, span) => *span,
            IType::Sequence(_, _, span) => *span,
            IType::IntegralSize(_) => Span::internal(),
        }
    }
}

/// The expectation of a truth value.
pub fn truth() -> (r: IType)
    ensures
        r == IType::Type(RType::Truth, Span::spec_internal()),
{
    IType::Type(RType::Truth, Span::internal())
}

/// The expectation of an unsigned architecture-sized index.
pub fn index(target: Option<Target>) -> (r: IType)
    ensures
        r == IType::Type(RType::IntegralSize(target, Sign::Unsigned), Span::spec_internal()),
{
    raise(RType::IntegralSize(target, Sign::Unsigned), Span::internal())
}

/// The expectation of exactly the given type.
pub fn raise(kind: RType, span: Span) -> (r: IType)
    ensures
        r == IType::Type(kind, span),
{
    IType::Type(kind, span)
}

/// Whether a type meets an expectation.
pub open spec fn meets(target: RType, kind: IType) -> bool {
    match (target, kind) {
        (RType::Array(k, _), IType::Sequence(_, other, _)) => compatible(*k, other),
        (RType::Slice(t, k), IType::Sequence(ts, other, _)) => t == ts && compatible(*k, other),
        (RType::IntegralSize(_, _), IType::IntegralSize(_)) => true,
        (_, IType::Type(other, _)) => compatible(target, other),
        (_, _) => false,
    }
}

/// Decides whether a type meets an expectation.
pub fn unify(target: &RType, kind: &IType) -> (r: bool)
    ensures
        r == meets(*target, *kind),
{
    match (target, kind) {
        (RType::Array(k, _), IType::Sequence(_, other, _)) => unifies(k, other),
        (RType::Slice(t, k), IType::Sequence(ts, other, _)) => *t == *ts && unifies(k, other),
        (RType::IntegralSize(_, _), IType::IntegralSize(_)) => true,
        (_, IType::Type(other, _)) => unifies(target, other),
        (_, _) => false,
    }
}

/// Every type meets the expectation of exactly itself.
pub proof fn lemma_unify_raised(kind: RType, span: Span)
    ensures
        meets(kind, IType::Type(kind, span)),
{
    lemma_unifies_reflexive(kind);
}

} // verus!

verus! {

/// Whether two types are the same in every part; parameter lists are
/// compared element by element.
pub open spec fn same(left: RType, right: RType) -> bool
    decreases left, 0nat,
{
    match (left, right) {
        (RType::Void, RType::Void) => true,
        (RType::Rune, RType::Rune) => true,
        (RType::Truth, RType::Truth) => true,
        (RType::Never, RType::Never) => true,
        (RType::Structure(a), RType::Structure(b)) => a == b,
        (RType::Integral(s, w), RType::Integral(t, v)) => s == t && w == v,
        (RType::IntegralSize(a, s), RType::IntegralSize(b, t)) => a == b && s == t,
        (RType::Array(k, n), RType::Array(j, m)) => n == m && same(*k, *j),
        (RType::Slice(a, k), RType::Slice(b, j)) => a == b && same(*k, *j),
        (RType::Pointer(a, k), RType::Pointer(b, j)) => a == b && same(*k, *j),
        (RType::Function(f), RType::Function(g)) => {
            &&& f.convention == g.convention
            &&& f.target == g.target
            &&& same(f.return_type, g.return_type)
            &&& same_all(f.parameters@, g.parameters@)
        },
        _ => false,
    }
}

/// Whether two type lists have the same length and the same types in
/// order.
pub open spec fn same_all(left: Seq<RType>, right: Seq<RType>) -> bool
    decreases left, 1nat,
{
    if left.len() == 0 {
        right.len() == 0
    } else {
        &&& right.len() > 0
        &&& same(left[0], right[0])
        &&& same_all(left.drop_first(), right.drop_first())
    }
}

/// The same types are interchangeable with the same types.
pub proof fn lemma_same_compatible(left: RType, right: RType, other: RType)
    requires
        same(left, right),
    ensures
        compatible(left, other) == compatible(right, other),
        compatible(other, left) == compatible(other, right),
    decreases left, 0nat,
{
    lemma_unifies_symmetric(left, other);
    lemma_unifies_symmetric(right, other);
    match (left, right, other) {
        (RType::Array(k, _), RType::Array(j, _), RType::Array(o, _)) => {
            lemma_same_compatible(*k, *j, *o);
        },
        (RType::Slice(_, k), RType::Slice(_, j), RType::Slice(_, o)) => {
            lemma_same_compatible(*k, *j, *o);
        },
        (RType::Pointer(_, k), RType::Pointer(_, j), RType::Pointer(_, o)) => {
            lemma_same_compatible(*k, *j, *o);
        },
        (RType::Function(f), RType::Function(g), RType::Function(h)) => {
            lemma_same_compatible(f.return_type, g.return_type, h.return_type);
            lemma_same_compatible_all(f.parameters@, g.parameters@, h.parameters@);
        },
        _ => {},
    }
}

/// The same type lists are pairwise interchangeable with the same lists.
pub proof fn lemma_same_compatible_all(left: Seq<RType>, right: Seq<RType>, other: Seq<RType>)
    requires
        same_all(left, right),
    ensures
        compatible_all(left, other) == compatible_all(right, other),
    decreases left, 1nat,
{
    if left.len() > 0 && other.len() > 0 {
        lemma_same_compatible(left[0], right[0], other[0]);
        lemma_same_compatible_all(left.drop_first(), right.drop_first(), other.drop_first());
    }
}

/// The same types meet the same expectations.
pub proof fn lemma_same_meets(left: RType, right: RType, kind: IType)
    requires
        same(left, right),
    ensures
        meets(left, kind) == meets(right, kind),
{
    match (left, right, kind) {
        (RType::Array(k, _), RType::Array(j, _), IType::Sequence(_, other, _)) => {
            lemma_same_compatible(*k, *j, other);
        },
        (RType::Slice(_, k), RType::Slice(_, j), IType::Sequence(_, other, _)) => {
            lemma_same_compatible(*k, *j, other);
        },
        (_, _, IType::Type(other, _)) => {
            lemma_same_compatible(left, right, other);
        },
        _ => {},
    }
}

/// A copy of a type.
pub fn copy_type(kind: &RType) -> (r: RType)
    ensures
        same(r, *kind),
    decreases *kind,
{
    match kind {
        RType::Void => RType::Void,
        RType::Rune => RType::Rune,
        RType::Truth => RType::Truth,
        RType::Never => RType::Never,
        RType::Structure(path) => RType::Structure(*path),
        RType::Integral(sign, width) => RType::Integral(*sign, *width),
        RType::IntegralSize(target, sign) => RType::IntegralSize(*target, *sign),
        RType::Array(element, length) => RType::Array(Box::new(copy_type(element)), *length),
        RType::Slice(target, element) => RType::Slice(*target, Box::new(copy_type(element))),
        RType::Pointer(target, element) => RType::Pointer(*target, Box::new(copy_type(element))),
        RType::Function(signature) => RType::Function(Box::new(copy_signature(signature))),
    }
}

/// A copy of a signature.
pub fn copy_signature(signature: &Box<Signature>) -> (r: Signature)
    ensures
        r.convention == signature.convention,
        r.target == signature.target,
        same(r.return_type, signature.return_type),
        same_all(r.parameters@, signature.parameters@),
    decreases *signature, 0nat,
{
    let n = signature.parameters.len();
    let mut parameters: Vec<RType> = Vec::new();
    let mut i: usize = 0;
    while i < n
        invariant
            n == signature.parameters.len(),
            i <= n,
            parameters.len() == i,
            forall|j: int| 0 <= j < i ==> same(#[trigger] parameters@[j], signature.parameters@[j]),
        decreases n - i,
    {
        parameters.push(copy_type(&signature.parameters[i]));
        i = i + 1;
    }
    proof {
        lemma_same_all_pointwise(parameters@, signature.parameters@);
    }
    Signature {
        convention: signature.convention,
        parameters,
        return_type: copy_type(&signature.return_type),
        target: signature.target,
    }
}

/// Lists of the same length whose elements are pairwise the same are the
/// same.
proof fn lemma_same_all_pointwise(left: Seq<RType>, right: Seq<RType>)
    requires
        left.len() == right.len(),
        forall|j: int| 0 <= j < left.len() ==> same(#[trigger] left[j], right[j]),
    ensures
        same_all(left, right),
    decreases left.len(),
{
    if left.len() > 0 {
        assert(same(left[0], right[0]));
        assert forall|j: int| 0 <= j < left.drop_first().len() implies same(
            #[trigger] left.drop_first()[j],
            right.drop_first()[j],
        ) by {
            assert(same(left[j + 1], right[j + 1]));
        }
        lemma_same_all_pointwise(left.drop_first(), right.drop_first());
    }
}

/// A copy of an expectation.
pub fn copy_expectation(kind: &IType) -> (r: IType)
    ensures
        forall|target: RType| #[trigger] meets(target, r) == meets(target, *kind),
{
    match kind {
        IType::Type(other, span) => {
            let copy = copy_type(other);
            proof {
                assert forall|target: RType| #[trigger] meets(target, IType::Type(copy, *span)) == meets(target, *kind) by {
                    lemma_same_compatible(copy, *other, target);
                }
            }
            IType::Type(copy, *span)
        },
        IType::Sequence(target, other, span) => {
            let copy = copy_type(other);
            proof {
                assert forall|t: RType| #[trigger] meets(t, IType::Sequence(*target, copy, *span)) == meets(t, *kind) by {
                    match t {
                        RType::Array(k, _) => lemma_same_compatible(copy, *other, *k),
                        RType::Slice(_, k) => lemma_same_compatible(copy, *other, *k),
                        _ => {},
                    }
                }
            }
            IType::Sequence(*target, copy, *span)
        },
        IType::IntegralSize(target) => IType::IntegralSize(*target),
    }
}

} // verus!

verus! {

/// Interchangeable type lists agree pairwise at every position.
proof fn lemma_compatible_all_pointwise(left: Seq<RType>, right: Seq<RType>)
    ensures
        compatible_all(left, right) <==> (left.len() == right.len() && forall|i: int|
            0 <= i < left.len() ==> compatible(#[trigger] left[i], right[i])),
    decreases left.len(),
{
    if left.len() > 0 && right.len() > 0 {
        lemma_compatible_all_pointwise(left.drop_first(), right.drop_first());
        if compatible_all(left, right) {
            assert forall|i: int| 0 <= i < left.len() implies compatible(#[trigger] left[i], right[i]) by {
                if i > 0 {
                    assert(left.drop_first()[i - 1] == left[i]);
                    assert(right.drop_first()[i - 1] == right[i]);
                }
            }
        }
        if left.len() == right.len() && forall|i: int|
            0 <= i < left.len() ==> compatible(#[trigger] left[i], right[i]) {
            assert(compatible(left[0], right[0]));
            assert forall|i: int| 0 <= i < left.drop_first().len() implies compatible(
                #[trigger] left.drop_first()[i],
                right.drop_first()[i],
            ) by {
                assert(compatible(left[i + 1], right[i + 1]));
            }
        }
    }
}

/// Two function types are interchangeable exactly when they have the same
/// calling convention, interchangeable return types, and as many
/// parameters, pairwise interchangeable.
pub proof fn lemma_function_compatibility(f: Signature, g: Signature)
    ensures
        compatible(RType::Function(Box::new(f)), RType::Function(Box::new(g))) <==> {
            &&& f.convention == g.convention
            &&& compatible(f.return_type, g.return_type)
            &&& f.parameters.len() == g.parameters.len()
            &&& forall|i: int|
                0 <= i < f.parameters.len() ==> compatible(#[trigger] f.parameters@[i], g.parameters@[i])
        },
{
    lemma_compatible_all_pointwise(f.parameters@, g.parameters@);
}

/// Arrays are interchangeable exactly when they have the same length and
/// interchangeable elements; slices and pointers exactly when they have the
/// same architecture and interchangeable elements.
pub proof fn lemma_sequence_compatibility(
    k: RType,
    j: RType,
    n: usize,
    m: usize,
    a: Option<Target>,
    b: Option<Target>,
)
    ensures
        compatible(RType::Array(Box::new(k), n), RType::Array(Box::new(j), m)) <==> (n == m
            && compatible(k, j)),
        compatible(RType::Slice(a, Box::new(k)), RType::Slice(b, Box::new(j))) <==> (a == b
            && compatible(k, j)),
        compatible(RType::Pointer(a, Box::new(k)), RType::Pointer(b, Box::new(j))) <==> (a == b
            && compatible(k, j)),
        !compatible(RType::Pointer(a, Box::new(k)), RType::Slice(b, Box::new(j))),
{
}

/// Scalar types are interchangeable exactly with themselves and `Never`.
pub proof fn lemma_scalar_compatibility(s: Sign, w: Width, t: Sign, v: Width)
    ensures
        compatible(RType::Integral(s, w), RType::Integral(t, v)) <==> (s == t && w == v),
        !compatible(RType::Truth, RType::Rune),
        !compatible(RType::Truth, RType::Integral(s, w)),
        !compatible(RType::Void, RType::Truth),
        compatible(RType::Void, RType::Void),
{
}

} // verus!

verus! {

/// A type meets the expectation of a type exactly when the two are
/// interchangeable; an array or slice meets the expectation of a sequence
/// when its elements are interchangeable with the expected ones, a slice
/// only of the same architecture; only architecture-sized integers meet
/// the expectation of a size.
pub proof fn lemma_expectations(
    kind: RType,
    other: RType,
    element: RType,
    n: usize,
    a: Option<Target>,
    b: Option<Target>,
    sign: Sign,
    span: Span,
)
    ensures
        meets(kind, IType::Type(other, span)) <==> compatible(kind, other),
        meets(RType::Array(Box::new(element), n), IType::Sequence(b, other, span)) <==> compatible(
            element,
            other,
        ),
        meets(RType::Slice(a, Box::new(element)), IType::Sequence(b, other, span)) <==> (a == b
            && compatible(element, other)),
        meets(RType::IntegralSize(a, sign), IType::IntegralSize(b)),
        !meets(RType::Truth, IType::IntegralSize(b)),
        !meets(RType::Integral(sign, Width::Q), IType::IntegralSize(b)),
        !meets(RType::Pointer(a, Box::new(element)), IType::Sequence(b, other, span)),
{
}

} // verus!

verus! {

/// Every type is the same as itself.
pub proof fn lemma_same_reflexive(kind: RType)
    ensures
        same(kind, kind),
    decreases kind, 0nat,
{
    match kind {
        RType::Array(k, _) => lemma_same_reflexive(*k),
        RType::Slice(_, k) => lemma_same_reflexive(*k),
        RType::Pointer(_, k) => lemma_same_reflexive(*k),
        RType::Function(f) => {
            lemma_same_reflexive(f.return_type);
            lemma_same_all_reflexive(f.parameters@);
        },
        _ => {},
    }
}

/// Every type list is the same as itself.
pub proof fn lemma_same_all_reflexive(kinds: Seq<RType>)
    ensures
        same_all(kinds, kinds),
    decreases kinds, 1nat,
{
    if kinds.len() > 0 {
        lemma_same_reflexive(kinds[0]);
        lemma_same_all_reflexive(kinds.drop_first());
    }
}

/// Sameness tells types apart by their shape, signs, widths, lengths and
/// architectures; `Never` is the same only as itself.
pub proof fn lemma_same_distinguishes(
    s: Sign,
    w: Width,
    t: Sign,
    v: Width,
    k: RType,
    j: RType,
    n: usize,
    m: usize,
    a: Option<Target>,
    b: Option<Target>,
)
    ensures
        same(RType::Integral(s, w), RType::Integral(t, v)) <==> (s == t && w == v),
        same(RType::Array(Box::new(k), n), RType::Array(Box::new(j), m)) <==> (n == m && same(k, j)),
        same(RType::Pointer(a, Box::new(k)), RType::Pointer(b, Box::new(j))) <==> (a == b && same(k, j)),
        same(RType::Slice(a, Box::new(k)), RType::Slice(b, Box::new(j))) <==> (a == b && same(k, j)),
        !same(RType::Never, RType::Void),
        !same(RType::Truth, RType::Rune),
        !same(RType::Never, RType::Integral(s, w)),
        !same(RType::Pointer(a, Box::new(k)), RType::Slice(b, Box::new(j))),
{
}

} // verus!

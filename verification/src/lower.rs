use vstd::prelude::*;

use crate::node::{Sign, Target, Width};
use crate::layout::{size_of, Structure};
use crate::types::RType;

verus! {

/// An arithmetic or bitwise operator of the source language.
#[derive(Debug, Clone, Copy, PartialEq, Eq, Structural)]
pub enum HDual {
    Add,
    Minus,
    Multiply,
    Divide,
    Modulo,
    BinaryOr,
    BinaryAnd,
    ExclusiveOr,
    ShiftLeft,
    ShiftRight,
}

/// A binary operator of the source language.
#[derive(Debug, Clone, Copy, PartialEq, Eq, Structural)]
pub enum HBinary {
    Dual(HDual),
    Or,
    And,
    Equal,
    NotEqual,
    Less,
    Greater,
    LessEqual,
    GreaterEqual,
}

/// A binary operation of the lowered representation. Division,
/// remainder and ordering carry the sign of their operands.
#[derive(Debug, Clone, Copy, PartialEq, Eq, Structural)]
pub enum LBinary {
    Add,
    Minus,
    Multiply,
    Divide(Sign),
    Modulo(Sign),
    BinaryOr,
    BinaryAnd,
    ExclusiveOr,
    ShiftLeft,
    ShiftRight,
    Or,
    And,
    Equal,
    NotEqual,
    Less(Sign),
    Greater(Sign),
    LessEqual(Sign),
    GreaterEqual(Sign),
}

/// Why a value cannot be lowered.
#[derive(Debug, Clone, Copy, PartialEq, Eq, Structural)]
pub enum LowerError {
    /// A pointer-sized value has no architecture.
    UnknownArchitecture,
    /// A function or value of another architecture is used.
    DifferingArchitecture,
    /// The operator does not apply to the operand type.
    InvalidBinary,
    /// The value cannot be converted to the type.
    InvalidCast,
    /// The operator does not apply to the operand type.
    InvalidUnary,
    /// The size of a type cannot be computed.
    Layout(crate::layout::LayoutError),
    /// Inference left a node or variable without a type, a call without
    /// an overload, or a function without an architecture.
    Missing,
    /// A structure value leaves a field out.
    MissingField,
    /// A `break` or `continue` stands outside a loop.
    NotInLoop,
    /// A temporary value is used where a location is needed.
    NoLocation,
    /// The body contradicts the types inference gave it.
    Inconsistent,
}

/// A unary operator of the source language.
#[derive(Debug, Clone, Copy, PartialEq, Eq, Structural)]
pub enum HUnary {
    Not,
    Negate,
    Reference,
    Dereference,
}

/// A unary operation of the lowered representation.
#[derive(Debug, Clone, Copy, PartialEq, Eq, Structural)]
pub enum LUnary {
    Not,
    Negate,
}

/// The width of a pointer of the architecture, if it is known.
pub open spec fn pointer_width(target: Option<Target>) -> Result<Width, LowerError> {
    match target {
        Some(target) => Ok(target.spec_architecture().pointer),
        None => Err(LowerError::UnknownArchitecture),
    }
}

/// The width of a pointer of the architecture. Fails if the architecture
/// is unknown.
pub fn pointer(target: Option<Target>) -> (r: Result<Width, LowerError>)
    ensures
        r == pointer_width(target),
{
    match target {
        Some(target) => Ok(target.architecture().pointer),
        None => Err(LowerError::UnknownArchitecture),
    }
}

/// Checks that a function of the `target` architecture may be called from
/// code of the `local` architecture: host code calls anything, other code
/// only its own architecture.
pub fn call_target(local: Target, target: Target) -> (r: Result<(), LowerError>)
    ensures
        r is Ok <==> (local == Target::Host || local == target),
        r matches Err(e) ==> e == LowerError::DifferingArchitecture,
{
    if local != Target::Host && local != target {
        Err(LowerError::DifferingArchitecture)
    } else {
        Ok(())
    }
}

/// Checks that an item of the `item` architecture may be used from code
/// of the `local` architecture: it must have an architecture, and the
/// same one.
pub fn target(local: Target, item: Option<Target>) -> (r: Result<(), LowerError>)
    ensures
        r == (match item {
            None => Err(LowerError::UnknownArchitecture),
            Some(target) => if target == local {
                Ok(())
            } else {
                Err(LowerError::DifferingArchitecture)
            },
        }),
{
    match item {
        None => Err(LowerError::UnknownArchitecture),
        Some(target) => if local != target {
            Err(LowerError::DifferingArchitecture)
        } else {
            Ok(())
        },
    }
}

/// The lowered operation of an operator on integers of the given sign:
/// the arithmetic, bitwise and ordering operators.
pub open spec fn integral_operation(binary: HBinary, sign: Sign) -> Option<LBinary> {
    match binary {
        HBinary::Less => Some(LBinary::Less(sign)),
        HBinary::Greater => Some(LBinary::Greater(sign)),
        HBinary::LessEqual => Some(LBinary::LessEqual(sign)),
        HBinary::GreaterEqual => Some(LBinary::GreaterEqual(sign)),
        HBinary::Dual(dual) => Some(
            match dual {
                HDual::Add => LBinary::Add,
                HDual::Minus => LBinary::Minus,
                HDual::Multiply => LBinary::Multiply,
                HDual::Divide => LBinary::Divide(sign),
                HDual::Modulo => LBinary::Modulo(sign),
                HDual::BinaryOr => LBinary::BinaryOr,
                HDual::BinaryAnd => LBinary::BinaryAnd,
                HDual::ExclusiveOr => LBinary::ExclusiveOr,
                HDual::ShiftLeft => LBinary::ShiftLeft,
                HDual::ShiftRight => LBinary::ShiftRight,
            },
        ),
        _ => None,
    }
}

/// The lowered operation of an equality operator.
pub open spec fn equality_operation(binary: HBinary) -> Option<LBinary> {
    match binary {
        HBinary::Equal => Some(LBinary::Equal),
        HBinary::NotEqual => Some(LBinary::NotEqual),
        _ => None,
    }
}

/// The operation, paired with the width of a pointer of the architecture.
pub open spec fn at_pointer(operation: LBinary, target: Option<Target>) -> Result<(LBinary, Width), LowerError> {
    match pointer_width(target) {
        Ok(width) => Ok((operation, width)),
        Err(e) => Err(e),
    }
}

/// The lowered operation and operand width of a binary operator whose left
/// operand has the given type. Integers take the arithmetic, bitwise,
/// ordering and equality operators at their width; characters and truth
/// values compare for equality, and truth values also take `or` and
/// `and`; function values compare for equality and pointers also add and
/// subtract, at the width of a pointer of their architecture.
pub open spec fn binary_operation(binary: HBinary, left: RType) -> Result<(LBinary, Width), LowerError> {
    match left {
        RType::Integral(sign, width) => match integral_operation(binary, sign) {
            Some(operation) => Ok((operation, width)),
            None => match equality_operation(binary) {
                Some(operation) => Ok((operation, width)),
                None => Err(LowerError::InvalidBinary),
            },
        },
        RType::IntegralSize(target, sign) => match integral_operation(binary, sign) {
            Some(operation) => at_pointer(operation, target),
            None => match equality_operation(binary) {
                Some(operation) => at_pointer(operation, target),
                None => Err(LowerError::InvalidBinary),
            },
        },
        RType::Rune => match equality_operation(binary) {
            Some(operation) => Ok((operation, Width::D)),
            None => Err(LowerError::InvalidBinary),
        },
        RType::Truth => match equality_operation(binary) {
            Some(operation) => Ok((operation, Width::B)),
            None => match binary {
                HBinary::Or => Ok((LBinary::Or, Width::B)),
                HBinary::And => Ok((LBinary::And, Width::B)),
                _ => Err(LowerError::InvalidBinary),
            },
        },
        RType::Function(function) => match equality_operation(binary) {
            Some(operation) => at_pointer(operation, function.target),
            None => Err(LowerError::InvalidBinary),
        },
        RType::Pointer(target, _) => match equality_operation(binary) {
            Some(operation) => at_pointer(operation, target),
            None => match binary {
                HBinary::Dual(HDual::Add) => at_pointer(LBinary::Add, target),
                HBinary::Dual(HDual::Minus) => at_pointer(LBinary::Minus, target),
                _ => Err(LowerError::InvalidBinary),
            },
        },
        _ => Err(LowerError::InvalidBinary),
    }
}

/// The lowered operation of an operator on integers of the given sign.
fn integral(binary: HBinary, sign: Sign) -> (r: Option<LBinary>)
    ensures
        r == integral_operation(binary, sign),
{
    match binary {
        HBinary::Less => Some(LBinary::Less(sign)),
        HBinary::Greater => Some(LBinary::Greater(sign)),
        HBinary::LessEqual => Some(LBinary::LessEqual(sign)),
        HBinary::GreaterEqual => Some(LBinary::GreaterEqual(sign)),
        HBinary::Dual(dual) => Some(
            match dual {
                HDual::Add => LBinary::Add,
                HDual::Minus => LBinary::Minus,
                HDual::Multiply => LBinary::Multiply,
                HDual::Divide => LBinary::Divide(sign),
                HDual::Modulo => LBinary::Modulo(sign),
                HDual::BinaryOr => LBinary::BinaryOr,
                HDual::BinaryAnd => LBinary::BinaryAnd,
                HDual::ExclusiveOr => LBinary::ExclusiveOr,
                HDual::ShiftLeft => LBinary::ShiftLeft,
                HDual::ShiftRight => LBinary::ShiftRight,
            },
        ),
        _ => None,
    }
}

/// The lowered operation of an equality operator.
fn equality(binary: HBinary) -> (r: Option<LBinary>)
    ensures
        r == equality_operation(binary),
{
    match binary {
        HBinary::Equal => Some(LBinary::Equal),
        HBinary::NotEqual => Some(LBinary::NotEqual),
        _ => None,
    }
}

/// The operation at the width of a pointer of the architecture.
fn with_pointer(operation: LBinary, target: Option<Target>) -> (r: Result<(LBinary, Width), LowerError>)
    ensures
        r == at_pointer(operation, target),
{
    match pointer(target) {
        Ok(width) => Ok((operation, width)),
        Err(e) => Err(e),
    }
}

/// Chooses the lowered operation and operand width of a binary operator
/// whose left operand has type `left`.
pub fn binary(operator: HBinary, left: &RType) -> (r: Result<(LBinary, Width), LowerError>)
    ensures
        r == binary_operation(operator, *left),
{
    match left {
        RType::Integral(sign, width) => match integral(operator, *sign) {
            Some(operation) => Ok((operation, *width)),
            None => match equality(operator) {
                Some(operation) => Ok((operation, *width)),
                None => Err(LowerError::InvalidBinary),
            },
        },
        RType::IntegralSize(target, sign) => match integral(operator, *sign) {
            Some(operation) => with_pointer(operation, *target),
            None => match equality(operator) {
                Some(operation) => with_pointer(operation, *target),
                None => Err(LowerError::InvalidBinary),
            },
        },
        RType::Rune => match equality(operator) {
            Some(operation) => Ok((operation, Width::D)),
            None => Err(LowerError::InvalidBinary),
        },
        RType::Truth => match equality(operator) {
            Some(operation) => Ok((operation, Width::B)),
            None => match operator {
                HBinary::Or => Ok((LBinary::Or, Width::B)),
                HBinary::And => Ok((LBinary::And, Width::B)),
                _ => Err(LowerError::InvalidBinary),
            },
        },
        RType::Function(function) => match equality(operator) {
            Some(operation) => with_pointer(operation, function.target),
            None => Err(LowerError::InvalidBinary),
        },
        RType::Pointer(target, _) => match equality(operator) {
            Some(operation) => with_pointer(operation, *target),
            None => match operator {
                HBinary::Dual(HDual::Add) => with_pointer(LBinary::Add, *target),
                HBinary::Dual(HDual::Minus) => with_pointer(LBinary::Minus, *target),
                _ => Err(LowerError::InvalidBinary),
            },
        },
        _ => Err(LowerError::InvalidBinary),
    }
}

/// The sign of a conversion with the widths of pointers of the two
/// architectures.
pub open spec fn pointer_conversion(sign: Sign, origin: Option<Target>, target: Option<Target>) -> Result<(Sign, Width, Width), LowerError> {
    match (pointer_width(origin), pointer_width(target)) {
        (Err(e), _) => Err(e),
        (Ok(_), Err(e)) => Err(e),
        (Ok(from), Ok(to)) => Ok((sign, from, to)),
    }
}

/// A pointer-sized conversion between items of one architecture.
pub open spec fn same_architecture(origin: Option<Target>, target: Option<Target>) -> Result<(Sign, Width, Width), LowerError> {
    if origin == target {
        pointer_conversion(Sign::Unsigned, origin, target)
    } else {
        Err(LowerError::InvalidCast)
    }
}

/// How a value of type `origin` converts to type `kind`: the sign by which
/// it extends, its width and the width of the result. Pointers, unsigned
/// pointer-sized integers and functions convert into each other within one
/// architecture; integers of any width convert into each other, keeping
/// the sign of the origin; characters convert to and from unsigned bytes
/// and double words.
pub open spec fn conversion(origin: RType, kind: RType) -> Result<(Sign, Width, Width), LowerError> {
    match (origin, kind) {
        (RType::Pointer(from, _), RType::Pointer(to, _)) => same_architecture(from, to),
        (RType::Pointer(from, _), RType::IntegralSize(to, Sign::Unsigned)) => same_architecture(from, to),
        (RType::IntegralSize(from, Sign::Unsigned), RType::Pointer(to, _)) => same_architecture(from, to),
        (RType::Pointer(from, _), RType::Function(to)) => same_architecture(from, to.target),
        (RType::IntegralSize(from, Sign::Unsigned), RType::Function(to)) => same_architecture(
            from,
            to.target,
        ),
        (RType::Function(from), RType::Pointer(to, _)) => same_architecture(from.target, to),
        (RType::Function(from), RType::IntegralSize(to, Sign::Unsigned)) => same_architecture(
            from.target,
            to,
        ),
        (RType::Function(from), RType::Function(to)) => same_architecture(from.target, to.target),
        (RType::IntegralSize(from, sign), RType::IntegralSize(to, _)) => pointer_conversion(sign, from, to),
        (RType::Integral(sign, from), RType::IntegralSize(to, _)) => match pointer_width(to) {
            Ok(to) => Ok((sign, from, to)),
            Err(e) => Err(e),
        },
        (RType::IntegralSize(from, sign), RType::Integral(_, to)) => match pointer_width(from) {
            Ok(from) => Ok((sign, from, to)),
            Err(e) => Err(e),
        },
        (RType::Integral(sign, from), RType::Integral(_, to)) => Ok((sign, from, to)),
        (RType::Rune, RType::Integral(Sign::Unsigned, to)) => if to == Width::B || to == Width::D {
            Ok((Sign::Unsigned, Width::D, to))
        } else {
            Err(LowerError::InvalidCast)
        },
        (RType::Integral(Sign::Unsigned, from), RType::Rune) => if from == Width::B || from
            == Width::D {
            Ok((Sign::Unsigned, from, Width::D))
        } else {
            Err(LowerError::InvalidCast)
        },
        _ => Err(LowerError::InvalidCast),
    }
}

/// Pointer widths of a conversion between the two architectures.
fn convert_pointers(sign: Sign, origin: Option<Target>, target: Option<Target>) -> (r: Result<(Sign, Width, Width), LowerError>)
    ensures
        r == pointer_conversion(sign, origin, target),
{
    let from = match pointer(origin) {
        Ok(width) => width,
        Err(e) => return Err(e),
    };
    let to = match pointer(target) {
        Ok(width) => width,
        Err(e) => return Err(e),
    };
    Ok((sign, from, to))
}

/// A pointer-sized conversion, allowed within one architecture.
fn convert_within(origin: Option<Target>, target: Option<Target>) -> (r: Result<(Sign, Width, Width), LowerError>)
    ensures
        r == same_architecture(origin, target),
{
    if origin == target {
        convert_pointers(Sign::Unsigned, origin, target)
    } else {
        Err(LowerError::InvalidCast)
    }
}

/// Chooses how a value of type `origin` converts to type `kind`: the sign
/// by which it extends, its width and the width of the result.
pub fn cast(origin: &RType, kind: &RType) -> (r: Result<(Sign, Width, Width), LowerError>)
    ensures
        r == conversion(*origin, *kind),
{
    match (origin, kind) {
        (RType::Pointer(from, _), RType::Pointer(to, _)) => convert_within(*from, *to),
        (RType::Pointer(from, _), RType::IntegralSize(to, Sign::Unsigned)) => convert_within(*from, *to),
        (RType::IntegralSize(from, Sign::Unsigned), RType::Pointer(to, _)) => convert_within(*from, *to),
        (RType::Pointer(from, _), RType::Function(to)) => convert_within(*from, to.target),
        (RType::IntegralSize(from, Sign::Unsigned), RType::Function(to)) => convert_within(
            *from,
            to.target,
        ),
        (RType::Function(from), RType::Pointer(to, _)) => convert_within(from.target, *to),
        (RType::Function(from), RType::IntegralSize(to, Sign::Unsigned)) => convert_within(
            from.target,
            *to,
        ),
        (RType::Function(from), RType::Function(to)) => convert_within(from.target, to.target),
        (RType::IntegralSize(from, sign), RType::IntegralSize(to, _)) => convert_pointers(*sign, *from, *to),
        (RType::Integral(sign, from), RType::IntegralSize(to, _)) => match pointer(*to) {
            Ok(to) => Ok((*sign, *from, to)),
            Err(e) => Err(e),
        },
        (RType::IntegralSize(from, sign), RType::Integral(_, to)) => match pointer(*from) {
            Ok(from) => Ok((*sign, from, *to)),
            Err(e) => Err(e),
        },
        (RType::Integral(sign, from), RType::Integral(_, to)) => Ok((*sign, *from, *to)),
        (RType::Rune, RType::Integral(Sign::Unsigned, to)) => match to {
            Width::B | Width::D => Ok((Sign::Unsigned, Width::D, *to)),
            _ => Err(LowerError::InvalidCast),
        },
        (RType::Integral(Sign::Unsigned, from), RType::Rune) => match from {
            Width::B | Width::D => Ok((Sign::Unsigned, *from, Width::D)),
            _ => Err(LowerError::InvalidCast),
        },
        _ => Err(LowerError::InvalidCast),
    }
}

/// A binary operation works at the width of its operand: the width that
/// lowering chooses is the size of the left operand's type.
pub proof fn lemma_operand_width(
    operator: HBinary,
    left: RType,
    table: Seq<Structure>,
    fuel: nat,
)
    requires
        binary_operation(operator, left) is Ok,
    ensures
        size_of(table, left, fuel) == Ok::<int, crate::layout::LayoutError>(
            binary_operation(operator, left)->Ok_0.1.spec_bytes() as int,
        ),
{
}

/// A conversion works at the sizes of its two types: the width of the
/// origin is the size of the origin type, and the width of the result the
/// size of the target type.
pub proof fn lemma_conversion_widths(origin: RType, kind: RType, table: Seq<Structure>, fuel: nat)
    requires
        conversion(origin, kind) is Ok,
    ensures
        size_of(table, origin, fuel) == Ok::<int, crate::layout::LayoutError>(
            conversion(origin, kind)->Ok_0.1.spec_bytes() as int,
        ),
        size_of(table, kind, fuel) == Ok::<int, crate::layout::LayoutError>(
            conversion(origin, kind)->Ok_0.2.spec_bytes() as int,
        ),
{
}

/// A conversion between pointers, pointer-sized unsigned integers and
/// functions keeps the width.
pub proof fn lemma_pointer_conversion_keeps_width(origin: RType, kind: RType)
    requires
        conversion(origin, kind) is Ok,
        origin is Pointer || origin is Function || origin matches RType::IntegralSize(_, Sign::Unsigned),
        kind is Pointer || kind is Function || kind matches RType::IntegralSize(_, Sign::Unsigned),
    ensures
        conversion(origin, kind)->Ok_0.1 == conversion(origin, kind)->Ok_0.2,
{
}

/// The lowered operation and operand width of an arithmetic unary
/// operator on a value of type `kind`: logical or bitwise negation of
/// truth values and integers, and arithmetic negation of signed integers.
/// References and dereferences are no arithmetic and lower otherwise.
pub open spec fn unary_operation(operator: HUnary, kind: RType) -> Result<(LUnary, Width), LowerError> {
    match (operator, kind) {
        (HUnary::Not, RType::Truth) => Ok((LUnary::Not, Width::B)),
        (HUnary::Not, RType::Integral(_, width)) => Ok((LUnary::Not, width)),
        (HUnary::Not, RType::IntegralSize(target, _)) => match pointer_width(target) {
            Ok(width) => Ok((LUnary::Not, width)),
            Err(e) => Err(e),
        },
        (HUnary::Negate, RType::Integral(Sign::Signed, width)) => Ok((LUnary::Negate, width)),
        (HUnary::Negate, RType::IntegralSize(target, Sign::Signed)) => match pointer_width(target) {
            Ok(width) => Ok((LUnary::Negate, width)),
            Err(e) => Err(e),
        },
        _ => Err(LowerError::InvalidUnary),
    }
}

/// Chooses the lowered operation and operand width of an arithmetic unary
/// operator on a value of type `kind`.
pub fn unary(operator: HUnary, kind: &RType) -> (r: Result<(LUnary, Width), LowerError>)
    ensures
        r == unary_operation(operator, *kind),
{
    match (operator, kind) {
        (HUnary::Not, RType::Truth) => Ok((LUnary::Not, Width::B)),
        (HUnary::Not, RType::Integral(_, width)) => Ok((LUnary::Not, *width)),
        (HUnary::Not, RType::IntegralSize(target, _)) => match pointer(*target) {
            Ok(width) => Ok((LUnary::Not, width)),
            Err(e) => Err(e),
        },
        (HUnary::Negate, RType::Integral(Sign::Signed, width)) => Ok((LUnary::Negate, *width)),
        (HUnary::Negate, RType::IntegralSize(target, Sign::Signed)) => match pointer(*target) {
            Ok(width) => Ok((LUnary::Negate, width)),
            Err(e) => Err(e),
        },
        _ => Err(LowerError::InvalidUnary),
    }
}

/// A unary operation works at the width of its operand: the width that
/// lowering chooses is the size of the operand's type.
pub proof fn lemma_unary_width(operator: HUnary, kind: RType, table: Seq<Structure>, fuel: nat)
    requires
        unary_operation(operator, kind) is Ok,
    ensures
        size_of(table, kind, fuel) == Ok::<int, crate::layout::LayoutError>(
            unary_operation(operator, kind)->Ok_0.1.spec_bytes() as int,
        ),
{
}

} // verus!

verus! {

/// On integers, each operator lowers to the operation of the same name,
/// with the sign of the operands where the operation depends on it, at
/// the integers' width.
pub proof fn lemma_integral_operators(sign: Sign, width: Width)
    ensures
        binary_operation(HBinary::Dual(HDual::Add), RType::Integral(sign, width)) == Ok::<(LBinary, Width), LowerError>((LBinary::Add, width)),
        binary_operation(HBinary::Dual(HDual::Minus), RType::Integral(sign, width)) == Ok::<(LBinary, Width), LowerError>((LBinary::Minus, width)),
        binary_operation(HBinary::Dual(HDual::Multiply), RType::Integral(sign, width)) == Ok::<(LBinary, Width), LowerError>((LBinary::Multiply, width)),
        binary_operation(HBinary::Dual(HDual::Divide), RType::Integral(sign, width)) == Ok::<(LBinary, Width), LowerError>((LBinary::Divide(sign), width)),
        binary_operation(HBinary::Dual(HDual::Modulo), RType::Integral(sign, width)) == Ok::<(LBinary, Width), LowerError>((LBinary::Modulo(sign), width)),
        binary_operation(HBinary::Dual(HDual::BinaryOr), RType::Integral(sign, width)) == Ok::<(LBinary, Width), LowerError>((LBinary::BinaryOr, width)),
        binary_operation(HBinary::Dual(HDual::BinaryAnd), RType::Integral(sign, width)) == Ok::<(LBinary, Width), LowerError>((LBinary::BinaryAnd, width)),
        binary_operation(HBinary::Dual(HDual::ExclusiveOr), RType::Integral(sign, width)) == Ok::<(LBinary, Width), LowerError>((LBinary::ExclusiveOr, width)),
        binary_operation(HBinary::Dual(HDual::ShiftLeft), RType::Integral(sign, width)) == Ok::<(LBinary, Width), LowerError>((LBinary::ShiftLeft, width)),
        binary_operation(HBinary::Dual(HDual::ShiftRight), RType::Integral(sign, width)) == Ok::<(LBinary, Width), LowerError>((LBinary::ShiftRight, width)),
        binary_operation(HBinary::Less, RType::Integral(sign, width)) == Ok::<(LBinary, Width), LowerError>((LBinary::Less(sign), width)),
        binary_operation(HBinary::Greater, RType::Integral(sign, width)) == Ok::<(LBinary, Width), LowerError>((LBinary::Greater(sign), width)),
        binary_operation(HBinary::LessEqual, RType::Integral(sign, width)) == Ok::<(LBinary, Width), LowerError>((LBinary::LessEqual(sign), width)),
        binary_operation(HBinary::GreaterEqual, RType::Integral(sign, width)) == Ok::<(LBinary, Width), LowerError>((LBinary::GreaterEqual(sign), width)),
        binary_operation(HBinary::Equal, RType::Integral(sign, width)) == Ok::<(LBinary, Width), LowerError>((LBinary::Equal, width)),
        binary_operation(HBinary::NotEqual, RType::Integral(sign, width)) == Ok::<(LBinary, Width), LowerError>((LBinary::NotEqual, width)),
        binary_operation(HBinary::Or, RType::Integral(sign, width)) == Err::<(LBinary, Width), LowerError>(LowerError::InvalidBinary),
        binary_operation(HBinary::And, RType::Integral(sign, width)) == Err::<(LBinary, Width), LowerError>(LowerError::InvalidBinary),
{
}

/// On architecture-sized integers, each operator lowers to the operation
/// of the same name at the width of the architecture's pointers.
pub proof fn lemma_size_operators(sign: Sign, target: Target)
    ensures
        binary_operation(HBinary::Dual(HDual::Add), RType::IntegralSize(Some(target), sign)) == Ok::<(LBinary, Width), LowerError>((LBinary::Add, target.spec_architecture().pointer)),
        binary_operation(HBinary::Dual(HDual::Minus), RType::IntegralSize(Some(target), sign)) == Ok::<(LBinary, Width), LowerError>((LBinary::Minus, target.spec_architecture().pointer)),
        binary_operation(HBinary::Dual(HDual::Multiply), RType::IntegralSize(Some(target), sign)) == Ok::<(LBinary, Width), LowerError>((LBinary::Multiply, target.spec_architecture().pointer)),
        binary_operation(HBinary::Dual(HDual::Divide), RType::IntegralSize(Some(target), sign)) == Ok::<(LBinary, Width), LowerError>((LBinary::Divide(sign), target.spec_architecture().pointer)),
        binary_operation(HBinary::Dual(HDual::Modulo), RType::IntegralSize(Some(target), sign)) == Ok::<(LBinary, Width), LowerError>((LBinary::Modulo(sign), target.spec_architecture().pointer)),
        binary_operation(HBinary::Dual(HDual::BinaryOr), RType::IntegralSize(Some(target), sign)) == Ok::<(LBinary, Width), LowerError>((LBinary::BinaryOr, target.spec_architecture().pointer)),
        binary_operation(HBinary::Dual(HDual::BinaryAnd), RType::IntegralSize(Some(target), sign)) == Ok::<(LBinary, Width), LowerError>((LBinary::BinaryAnd, target.spec_architecture().pointer)),
        binary_operation(HBinary::Dual(HDual::ExclusiveOr), RType::IntegralSize(Some(target), sign)) == Ok::<(LBinary, Width), LowerError>((LBinary::ExclusiveOr, target.spec_architecture().pointer)),
        binary_operation(HBinary::Dual(HDual::ShiftLeft), RType::IntegralSize(Some(target), sign)) == Ok::<(LBinary, Width), LowerError>((LBinary::ShiftLeft, target.spec_architecture().pointer)),
        binary_operation(HBinary::Dual(HDual::ShiftRight), RType::IntegralSize(Some(target), sign)) == Ok::<(LBinary, Width), LowerError>((LBinary::ShiftRight, target.spec_architecture().pointer)),
        binary_operation(HBinary::Less, RType::IntegralSize(Some(target), sign)) == Ok::<(LBinary, Width), LowerError>((LBinary::Less(sign), target.spec_architecture().pointer)),
        binary_operation(HBinary::Greater, RType::IntegralSize(Some(target), sign)) == Ok::<(LBinary, Width), LowerError>((LBinary::Greater(sign), target.spec_architecture().pointer)),
        binary_operation(HBinary::LessEqual, RType::IntegralSize(Some(target), sign)) == Ok::<(LBinary, Width), LowerError>((LBinary::LessEqual(sign), target.spec_architecture().pointer)),
        binary_operation(HBinary::GreaterEqual, RType::IntegralSize(Some(target), sign)) == Ok::<(LBinary, Width), LowerError>((LBinary::GreaterEqual(sign), target.spec_architecture().pointer)),
        binary_operation(HBinary::Equal, RType::IntegralSize(Some(target), sign)) == Ok::<(LBinary, Width), LowerError>((LBinary::Equal, target.spec_architecture().pointer)),
        binary_operation(HBinary::NotEqual, RType::IntegralSize(Some(target), sign)) == Ok::<(LBinary, Width), LowerError>((LBinary::NotEqual, target.spec_architecture().pointer)),
{
}

/// On truth values, only equality and the logical operators apply, at the
/// width of a byte.
pub proof fn lemma_truth_operators()
    ensures
        binary_operation(HBinary::Equal, RType::Truth) == Ok::<(LBinary, Width), LowerError>((LBinary::Equal, Width::B)),
        binary_operation(HBinary::NotEqual, RType::Truth) == Ok::<(LBinary, Width), LowerError>((LBinary::NotEqual, Width::B)),
        binary_operation(HBinary::Or, RType::Truth) == Ok::<(LBinary, Width), LowerError>((LBinary::Or, Width::B)),
        binary_operation(HBinary::And, RType::Truth) == Ok::<(LBinary, Width), LowerError>((LBinary::And, Width::B)),
        binary_operation(HBinary::Dual(HDual::Add), RType::Truth) == Err::<(LBinary, Width), LowerError>(LowerError::InvalidBinary),
        binary_operation(HBinary::Less, RType::Truth) == Err::<(LBinary, Width), LowerError>(LowerError::InvalidBinary),
{
}

/// On pointers, addition and subtraction move the pointer, and equality
/// compares it, at the width of the architecture's pointers.
pub proof fn lemma_pointer_operators(target: Target, element: RType)
    ensures
        binary_operation(HBinary::Dual(HDual::Add), RType::Pointer(Some(target), Box::new(element))) == Ok::<(LBinary, Width), LowerError>((LBinary::Add, target.spec_architecture().pointer)),
        binary_operation(HBinary::Dual(HDual::Minus), RType::Pointer(Some(target), Box::new(element))) == Ok::<(LBinary, Width), LowerError>((LBinary::Minus, target.spec_architecture().pointer)),
        binary_operation(HBinary::Equal, RType::Pointer(Some(target), Box::new(element))) == Ok::<(LBinary, Width), LowerError>((LBinary::Equal, target.spec_architecture().pointer)),
        binary_operation(HBinary::Dual(HDual::Multiply), RType::Pointer(Some(target), Box::new(element))) == Err::<(LBinary, Width), LowerError>(LowerError::InvalidBinary),
{
}

/// Negation applies to signed integers and logical or bitwise negation to
/// truth values and integers, at their width.
pub proof fn lemma_unary_operators(sign: Sign, width: Width)
    ensures
        unary_operation(HUnary::Negate, RType::Integral(Sign::Signed, width)) == Ok::<(LUnary, Width), LowerError>((LUnary::Negate, width)),
        unary_operation(HUnary::Negate, RType::Integral(Sign::Unsigned, width)) == Err::<(LUnary, Width), LowerError>(LowerError::InvalidUnary),
        unary_operation(HUnary::Not, RType::Integral(sign, width)) == Ok::<(LUnary, Width), LowerError>((LUnary::Not, width)),
        unary_operation(HUnary::Not, RType::Truth) == Ok::<(LUnary, Width), LowerError>((LUnary::Not, Width::B)),
        unary_operation(HUnary::Negate, RType::Truth) == Err::<(LUnary, Width), LowerError>(LowerError::InvalidUnary),
{
}

/// A conversion between integers extends by the sign of the value from its
/// width to the target's width, whatever the target's sign.
pub proof fn lemma_integral_conversion(sign: Sign, from: Width, other: Sign, to: Width)
    ensures
        conversion(RType::Integral(sign, from), RType::Integral(other, to)) == Ok::<(Sign, Width, Width), LowerError>((sign, from, to)),
        conversion(RType::Truth, RType::Integral(other, to)) == Err::<(Sign, Width, Width), LowerError>(LowerError::InvalidCast),
{
}

} // verus!

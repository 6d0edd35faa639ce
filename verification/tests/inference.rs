use std::collections::HashMap;

use lucent::hir::HType;
use lucent::inference::{function, hint, statics, synthesize, check, types, InferError, Inference, Scene, Static, Types};
use lucent::lower::{HBinary, HDual, HUnary};
use lucent::lowering::{self, HNode, LNode, Lowering, Frame, ADDRESS};
use lucent::node::{Sign, Span, Target, Width};
use lucent::types::{raise, truth, IType, RType, Signature};

fn inference(nodes: Vec<HNode>) -> Inference {
    Inference {
        nodes,
        signatures: HashMap::new(),
        structures: Vec::new(),
        statics: HashMap::new(),
        compiled: HashMap::new(),
        target: Some(Target::Host),
    }
}

fn scene() -> Scene {
    Scene {
        types: Types { nodes: HashMap::new(), variables: HashMap::new(), functions: HashMap::new() },
        errors: Vec::new(),
        return_type: None,
    }
}

fn word() -> RType {
    RType::Integral(Sign::Signed, Width::D)
}

fn expect(kind: RType) -> IType {
    raise(kind, Span::internal())
}

fn is_word(kind: Option<&RType>) -> bool {
    matches!(kind, Some(RType::Integral(Sign::Signed, Width::D)))
}

#[test]
fn truth_synthesizes_truth() {
    let inference = inference(vec![HNode::Truth(true)]);
    let mut scene = scene();
    assert!(matches!(synthesize(&inference, &mut scene, 0), Some(RType::Truth)));
    assert!(matches!(scene.types.nodes.get(&0), Some(RType::Truth)));
    assert!(scene.errors.is_empty());
}

#[test]
fn integral_without_type_is_unknown() {
    let inference = inference(vec![HNode::Integral(3)]);
    let mut scene = scene();
    assert!(synthesize(&inference, &mut scene, 0).is_none());
    assert_eq!(scene.errors, vec![InferError::UnknownIntegral(0)]);
    assert!(scene.types.nodes.is_empty());
}

#[test]
fn integral_takes_expected_integer_type() {
    let inference = inference(vec![HNode::Integral(3)]);
    let mut scene = scene();
    check(&inference, &mut scene, 0, expect(word()));
    assert!(is_word(scene.types.nodes.get(&0)));
    assert!(scene.errors.is_empty());
}

#[test]
fn integral_against_truth_is_a_mismatch() {
    let inference = inference(vec![HNode::Integral(3)]);
    let mut scene = scene();
    check(&inference, &mut scene, 0, truth());
    assert_eq!(scene.errors, vec![InferError::Mismatch(0)]);
    assert!(scene.types.nodes.is_empty());
}

#[test]
fn mismatch_is_reported() {
    let inference = inference(vec![HNode::Rune('a')]);
    let mut scene = scene();
    check(&inference, &mut scene, 0, truth());
    assert_eq!(scene.errors, vec![InferError::Mismatch(0)]);
}

#[test]
fn node_typed_twice_is_repeated() {
    let inference = inference(vec![HNode::Truth(false)]);
    let mut scene = scene();
    synthesize(&inference, &mut scene, 0);
    synthesize(&inference, &mut scene, 0);
    assert_eq!(scene.errors, vec![InferError::Repeated(0)]);
}

#[test]
fn block_is_checked_through_its_last_node() {
    let nodes = vec![HNode::Truth(true), HNode::Integral(1), HNode::Block(vec![0, 1])];
    let inference = inference(nodes);
    let mut scene = scene();
    check(&inference, &mut scene, 2, expect(word()));
    assert!(matches!(scene.types.nodes.get(&0), Some(RType::Truth)));
    assert!(is_word(scene.types.nodes.get(&1)));
    assert!(is_word(scene.types.nodes.get(&2)));
    assert!(scene.errors.is_empty());
}

#[test]
fn conditional_value_needs_default_branch() {
    let nodes = vec![HNode::Truth(false), HNode::Integral(1), HNode::When(vec![(0, 1)])];
    let inference = inference(nodes);
    let mut scene = scene();
    check(&inference, &mut scene, 2, expect(word()));
    assert_eq!(scene.errors, vec![InferError::MissingDefault(2)]);
    assert!(scene.types.nodes.get(&2).is_none());
}

#[test]
fn conditional_with_default_branch_has_the_type() {
    let nodes = vec![HNode::Truth(true), HNode::Integral(1), HNode::When(vec![(0, 1)])];
    let inference = inference(nodes);
    let mut scene = scene();
    check(&inference, &mut scene, 2, expect(word()));
    assert!(scene.errors.is_empty());
    assert!(is_word(scene.types.nodes.get(&2)));
}

#[test]
fn declaration_types_its_variable() {
    let nodes = vec![HNode::Integral(4), HNode::Let(8, Some(HType::Integral(Sign::Signed, Width::D)), Some(0))];
    let inference = inference(nodes);
    let mut scene = scene();
    assert!(matches!(synthesize(&inference, &mut scene, 1), Some(RType::Void)));
    assert!(is_word(scene.types.variables.get(&8)));
    assert!(is_word(scene.types.nodes.get(&0)));
}

#[test]
fn declaration_without_type_or_value_is_unknown() {
    let inference = inference(vec![HNode::Let(8, None, None)]);
    let mut scene = scene();
    assert!(synthesize(&inference, &mut scene, 0).is_none());
    assert_eq!(scene.errors, vec![InferError::Unknown(0)]);
}

#[test]
fn call_with_one_overload_checks_arguments() {
    let nodes = vec![HNode::Integral(1), HNode::Call(5, vec![0])];
    let mut inference = inference(nodes);
    let signature = Signature { convention: None, parameters: vec![word()], return_type: RType::Truth, target: Some(Target::Host) };
    inference.signatures.insert(5, vec![signature]);
    let mut scene = scene();
    assert!(matches!(synthesize(&inference, &mut scene, 1), Some(RType::Truth)));
    assert!(is_word(scene.types.nodes.get(&0)));
    assert_eq!(scene.types.functions.get(&1), Some(&0));
}

#[test]
fn call_overloads_are_told_apart_by_argument_types() {
    let nodes = vec![HNode::Rune('x'), HNode::Call(5, vec![0])];
    let mut inference = inference(nodes);
    let first = Signature { convention: None, parameters: vec![word()], return_type: RType::Void, target: None };
    let second = Signature { convention: None, parameters: vec![RType::Rune], return_type: RType::Truth, target: None };
    inference.signatures.insert(5, vec![first, second]);
    let mut scene = scene();
    assert!(matches!(synthesize(&inference, &mut scene, 1), Some(RType::Truth)));
    assert_eq!(scene.types.functions.get(&1), Some(&1));
}

#[test]
fn call_without_fitting_overload() {
    let nodes = vec![HNode::Truth(true), HNode::Call(5, vec![0])];
    let mut inference = inference(nodes);
    let first = Signature { convention: None, parameters: vec![word()], return_type: RType::Void, target: None };
    let second = Signature { convention: None, parameters: vec![RType::Rune], return_type: RType::Void, target: None };
    inference.signatures.insert(5, vec![first, second]);
    let mut scene = scene();
    assert!(synthesize(&inference, &mut scene, 1).is_none());
    assert_eq!(scene.errors, vec![InferError::NoMatchingFunction(1)]);
}

#[test]
fn array_of_other_length_is_refused() {
    let nodes = vec![HNode::Integral(1), HNode::Integral(2), HNode::Array(vec![0, 1])];
    let inference = inference(nodes);
    let mut scene = scene();
    check(&inference, &mut scene, 2, expect(RType::Array(Box::new(word()), 3)));
    assert_eq!(scene.errors, vec![InferError::ArraySize(2)]);
    check(&inference, &mut scene, 2, expect(RType::Array(Box::new(word()), 2)));
    assert!(matches!(scene.types.nodes.get(&2), Some(RType::Array(_, 2))));
}

#[test]
fn return_without_value_from_function_with_value() {
    let inference = inference(vec![HNode::Return(None)]);
    let mut scene = scene();
    scene.return_type = Some(word());
    assert!(matches!(synthesize(&inference, &mut scene, 0), Some(RType::Never)));
    assert_eq!(scene.errors, vec![InferError::MissingReturn(0)]);
}

#[test]
fn dereference_of_truth_is_refused() {
    let nodes = vec![HNode::Truth(true), HNode::Unary(HUnary::Dereference, 0)];
    let inference = inference(nodes);
    let mut scene = scene();
    assert!(synthesize(&inference, &mut scene, 1).is_none());
    assert_eq!(scene.errors, vec![InferError::ExpectedPointer(0)]);
}

#[test]
fn comparison_gives_truth() {
    let nodes = vec![HNode::Rune('a'), HNode::Rune('b'), HNode::Binary(HBinary::Less, 0, 1)];
    let inference = inference(nodes);
    let mut scene = scene();
    assert!(matches!(synthesize(&inference, &mut scene, 2), Some(RType::Truth)));
}

#[test]
fn addition_checks_right_operand_against_left() {
    let nodes = vec![HNode::Rune('a'), HNode::Truth(true), HNode::Binary(HBinary::Dual(HDual::Add), 0, 1)];
    let inference = inference(nodes);
    let mut scene = scene();
    assert!(matches!(synthesize(&inference, &mut scene, 2), Some(RType::Rune)));
    assert_eq!(scene.errors, vec![InferError::Mismatch(1)]);
}

#[test]
fn slice_address_is_a_pointer() {
    let nodes = vec![HNode::Variable(2), HNode::Field(0, ADDRESS)];
    let inference = inference(nodes);
    let mut scene = scene();
    scene.types.variables.insert(2, RType::Slice(Some(Target::Host), Box::new(word())));
    assert!(matches!(synthesize(&inference, &mut scene, 1), Some(RType::Pointer(Some(Target::Host), _))));
}

#[test]
fn hint_reports_mismatch_of_root() {
    let inference = inference(vec![HNode::Truth(true)]);
    let scene = hint(&inference, 0, Some(expect(RType::Rune)));
    assert_eq!(scene.errors, vec![InferError::Mismatch(0)]);
}

#[test]
fn hint_without_expectation_synthesizes() {
    let inference = inference(vec![HNode::Rune('z')]);
    let scene = hint(&inference, 0, None);
    assert!(matches!(scene.types.nodes.get(&0), Some(RType::Rune)));
}

#[test]
fn types_uses_written_type_as_hint() {
    let inference = inference(vec![HNode::Integral(7)]);
    let kind = HType::Integral(Sign::Unsigned, Width::Q);
    let scene = types(&inference, 0, Some(&kind));
    assert!(matches!(scene.types.nodes.get(&0), Some(RType::Integral(Sign::Unsigned, Width::Q))));
    assert!(scene.errors.is_empty());
}

#[test]
fn function_body_is_checked_against_return_type() {
    let nodes = vec![HNode::Variable(1)];
    let inference = inference(nodes);
    let parameters = vec![(1, HType::Integral(Sign::Signed, Width::D))];
    let scene = function(&inference, 0, &parameters, &HType::Integral(Sign::Signed, Width::D));
    assert!(scene.errors.is_empty());
    assert!(is_word(scene.types.nodes.get(&0)));
    assert!(is_word(scene.types.variables.get(&1)));
}

#[test]
fn loaded_static_has_its_written_type() {
    let inference = inference(vec![]);
    assert!(matches!(statics(&inference, &Static::Load(HType::Truth)), Some(RType::Truth)));
}

#[test]
fn local_static_has_the_type_of_its_value() {
    let inference = inference(vec![HNode::Rune('q')]);
    assert!(matches!(statics(&inference, &Static::Local(None, Some(0))), Some(RType::Rune)));
}

#[test]
fn inferred_types_lower() {
    let nodes = vec![HNode::Integral(2), HNode::Integral(3), HNode::Binary(HBinary::Dual(HDual::Multiply), 0, 1)];
    let inference = inference(nodes);
    let scene = hint(&inference, 2, Some(expect(word())));
    assert!(scene.errors.is_empty());
    let context = Lowering {
        nodes: inference.nodes,
        types: scene.types.nodes,
        variables: scene.types.variables,
        functions: scene.types.functions,
        structures: Vec::new(),
        architectures: HashMap::new(),
        target: Target::Host,
    };
    let mut frame = Frame::new();
    assert!(matches!(
        lowering::lower(&context, &mut frame, 2, false),
        Ok(LNode::Binary(lucent::lower::LBinary::Multiply, Width::D, _, _))
    ));
}

#[test]
fn function_value_takes_the_matching_overload() {
    let mut inference = inference(vec![HNode::Function(6)]);
    let first = Signature { convention: None, parameters: vec![RType::Truth], return_type: RType::Void, target: None };
    let second = Signature { convention: None, parameters: vec![RType::Rune], return_type: RType::Void, target: None };
    inference.signatures.insert(6, vec![first, second]);
    let expected = RType::Function(Box::new(Signature {
        convention: None,
        parameters: vec![RType::Rune],
        return_type: RType::Void,
        target: None,
    }));
    let mut scene = scene();
    check(&inference, &mut scene, 0, expect(expected));
    assert!(scene.errors.is_empty());
    assert_eq!(scene.types.functions.get(&0), Some(&1));
}

#[test]
fn function_value_with_two_overloads_is_ambiguous_alone() {
    let mut inference = inference(vec![HNode::Function(6)]);
    let first = Signature { convention: None, parameters: vec![], return_type: RType::Void, target: None };
    let second = Signature { convention: None, parameters: vec![RType::Rune], return_type: RType::Void, target: None };
    inference.signatures.insert(6, vec![first, second]);
    let mut scene = scene();
    assert!(synthesize(&inference, &mut scene, 0).is_none());
    assert_eq!(scene.errors, vec![InferError::AmbiguousFunction(0)]);
}

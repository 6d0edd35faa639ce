use std::collections::HashMap;

use lucent::hir::HType;
use lucent::layout::Structure;
use lucent::lower::{HBinary, HDual, HUnary, LBinary, LUnary, LowerError};
use lucent::lowering::{
    function, low, lower, unit, Frame, FunctionRef, HNode, LNode, LPlace, LReceiver, LUnit,
    LValued, Lowering, ADDRESS, SIZE,
};
use lucent::node::{Sign, Target, Width};
use lucent::types::{RType, Signature};

fn context(nodes: Vec<HNode>, types: Vec<(usize, RType)>) -> Lowering {
    Lowering {
        nodes,
        types: types.into_iter().collect(),
        variables: HashMap::new(),
        functions: HashMap::new(),
        structures: Vec::new(),
        architectures: HashMap::new(),
        target: Target::Host,
    }
}

fn word() -> RType {
    RType::Integral(Sign::Signed, Width::D)
}

#[test]
fn lower_integral_literal() {
    let context = context(vec![HNode::Integral(42)], vec![(0, word())]);
    let mut frame = Frame::new();
    let node = lower(&context, &mut frame, 0, false).unwrap();
    assert!(matches!(node, LNode::Integral(42)));
    assert!(frame.locals.is_empty());
}

#[test]
fn lower_truth_and_rune_literals() {
    let context = context(
        vec![HNode::Truth(true), HNode::Rune('A')],
        vec![(0, RType::Truth), (1, RType::Rune)],
    );
    let mut frame = Frame::new();
    assert!(matches!(lower(&context, &mut frame, 0, false), Ok(LNode::Integral(1))));
    assert!(matches!(lower(&context, &mut frame, 1, false), Ok(LNode::Integral(65))));
}

#[test]
fn lower_missing_type() {
    let context = context(vec![HNode::Integral(1)], vec![]);
    let mut frame = Frame::new();
    assert!(matches!(lower(&context, &mut frame, 0, false), Err(LowerError::Missing)));
}

#[test]
fn lower_addition_uses_operand_width() {
    let nodes = vec![
        HNode::Integral(1),
        HNode::Integral(2),
        HNode::Binary(HBinary::Dual(HDual::Add), 0, 1),
    ];
    let context = context(nodes, vec![(0, word()), (1, word()), (2, word())]);
    let mut frame = Frame::new();
    match lower(&context, &mut frame, 2, false) {
        Ok(LNode::Binary(LBinary::Add, Width::D, left, right)) => {
            assert!(matches!(*left, LNode::Integral(1)));
            assert!(matches!(*right, LNode::Integral(2)));
        }
        other => panic!("unexpected: {:?}", other),
    }
}

#[test]
fn lower_comparison_of_truths_is_invalid() {
    let nodes = vec![HNode::Truth(true), HNode::Truth(false), HNode::Binary(HBinary::Less, 0, 1)];
    let context = context(nodes, vec![(0, RType::Truth), (1, RType::Truth), (2, RType::Truth)]);
    let mut frame = Frame::new();
    assert!(matches!(lower(&context, &mut frame, 2, false), Err(LowerError::InvalidBinary)));
}

#[test]
fn lower_cast_widens() {
    let nodes = vec![HNode::Integral(7), HNode::Cast(0, None)];
    let byte = RType::Integral(Sign::Unsigned, Width::B);
    let quad = RType::Integral(Sign::Signed, Width::Q);
    let context = context(nodes, vec![(0, byte), (1, quad)]);
    let mut frame = Frame::new();
    match lower(&context, &mut frame, 1, false) {
        Ok(LNode::Cast(node, Sign::Unsigned, Width::B, Width::Q)) => {
            assert!(matches!(*node, LNode::Integral(7)))
        }
        other => panic!("unexpected: {:?}", other),
    }
}

#[test]
fn lower_cast_of_truth_is_invalid() {
    let nodes = vec![HNode::Truth(true), HNode::Cast(0, None)];
    let context = context(nodes, vec![(0, RType::Truth), (1, word())]);
    let mut frame = Frame::new();
    assert!(matches!(lower(&context, &mut frame, 1, false), Err(LowerError::InvalidCast)));
}

#[test]
fn lower_negation() {
    let nodes = vec![HNode::Integral(3), HNode::Unary(HUnary::Negate, 0)];
    let context = context(nodes, vec![(0, word()), (1, word())]);
    let mut frame = Frame::new();
    assert!(matches!(
        lower(&context, &mut frame, 1, false),
        Ok(LNode::Unary(LUnary::Negate, Width::D, _))
    ));
}

#[test]
fn break_outside_loop_is_refused() {
    let context = context(vec![HNode::Break], vec![(0, RType::Never)]);
    let mut frame = Frame::new();
    assert!(matches!(unit(&context, &mut frame, 0, false), Err(LowerError::NotInLoop)));
    assert!(matches!(unit(&context, &mut frame, 0, true), Ok(LUnit::Break)));
}

#[test]
fn while_loop_exits_on_false_condition() {
    let nodes = vec![HNode::Truth(true), HNode::Break, HNode::While(0, 1)];
    let types = vec![(0, RType::Truth), (1, RType::Never), (2, RType::Void)];
    let context = context(nodes, types);
    let mut frame = Frame::new();
    match unit(&context, &mut frame, 2, false) {
        Ok(LUnit::Loop(body)) => match *body {
            LUnit::If(LNode::Integral(1), inner, Some(exit)) => {
                assert!(matches!(*inner, LUnit::Break));
                assert!(matches!(*exit, LUnit::Break));
            }
            other => panic!("unexpected: {:?}", other),
        },
        other => panic!("unexpected: {:?}", other),
    }
}

#[test]
fn diverging_node_lowers_to_never() {
    let nodes = vec![HNode::Return(None)];
    let context = context(nodes, vec![(0, RType::Never)]);
    let mut frame = Frame::new();
    match lower(&context, &mut frame, 0, false) {
        Ok(LNode::Never(unit)) => assert!(matches!(*unit, LUnit::Return(None))),
        other => panic!("unexpected: {:?}", other),
    }
}

#[test]
fn let_gives_the_variable_a_slot() {
    let nodes = vec![HNode::Integral(5), HNode::Let(9, None, Some(0))];
    let mut context = context(nodes, vec![(0, word()), (1, RType::Void)]);
    context.variables.insert(9, word());
    let mut frame = Frame::new();
    match unit(&context, &mut frame, 1, false) {
        Ok(LUnit::Assign(LPlace(target), LNode::Integral(5))) => {
            assert!(matches!(*target, LNode::Target(0)))
        }
        other => panic!("unexpected: {:?}", other),
    }
    assert_eq!(frame.targets.get(&9), Some(&0));
    assert_eq!(frame.locals.get(&0), Some(&4));
}

#[test]
fn variable_reads_its_slot() {
    let nodes = vec![HNode::Integral(5), HNode::Let(3, None, Some(0)), HNode::Variable(3)];
    let mut context = context(nodes, vec![(0, word()), (1, RType::Void), (2, word())]);
    context.variables.insert(3, word());
    let mut frame = Frame::new();
    unit(&context, &mut frame, 1, false).unwrap();
    match lower(&context, &mut frame, 2, false) {
        Ok(LNode::Dereference(LPlace(target))) => assert!(matches!(*target, LNode::Target(0))),
        other => panic!("unexpected: {:?}", other),
    }
}

#[test]
fn structure_field_is_an_offset() {
    let nodes = vec![
        HNode::Integral(1),
        HNode::Integral(2),
        HNode::New(0, vec![(10, 0), (11, 1)]),
        HNode::Let(7, None, Some(2)),
        HNode::Variable(7),
        HNode::Field(4, 11),
    ];
    let structure = Structure {
        fields: vec![
            (10, HType::Integral(Sign::Signed, Width::D)),
            (11, HType::Integral(Sign::Signed, Width::D)),
        ],
    };
    let types = vec![
        (0, word()),
        (1, word()),
        (2, RType::Structure(0)),
        (3, RType::Void),
        (4, RType::Structure(0)),
        (5, word()),
    ];
    let mut context = context(nodes, types);
    context.structures.push(structure);
    context.variables.insert(7, RType::Structure(0));
    let mut frame = Frame::new();
    match unit(&context, &mut frame, 3, false) {
        Ok(LUnit::Assign(_, LNode::Block(units, _))) => assert_eq!(units.len(), 2),
        other => panic!("unexpected: {:?}", other),
    }
    match lower(&context, &mut frame, 5, false) {
        Ok(LNode::Dereference(LPlace(address))) => match *address {
            LNode::Binary(LBinary::Add, Width::Q, base, offset) => {
                assert!(matches!(*offset, LNode::Integral(4)));
                assert!(matches!(*base, LNode::Target(0)));
            }
            other => panic!("unexpected: {:?}", other),
        },
        other => panic!("unexpected: {:?}", other),
    }
}

#[test]
fn field_of_temporary_has_no_location() {
    let nodes = vec![HNode::Integral(1), HNode::New(0, vec![(10, 0)]), HNode::Field(1, 10)];
    let structure = Structure { fields: vec![(10, HType::Integral(Sign::Signed, Width::D))] };
    let mut context = context(nodes, vec![(0, word()), (1, RType::Structure(0)), (2, word())]);
    context.structures.push(structure);
    let mut frame = Frame::new();
    assert!(matches!(lower(&context, &mut frame, 2, false), Err(LowerError::NoLocation)));
}

#[test]
fn structure_value_without_field_is_refused() {
    let nodes = vec![HNode::Integral(1), HNode::New(0, vec![(10, 0)])];
    let structure = Structure {
        fields: vec![
            (10, HType::Integral(Sign::Signed, Width::D)),
            (11, HType::Integral(Sign::Signed, Width::D)),
        ],
    };
    let mut context = context(nodes, vec![(0, word()), (1, RType::Structure(0))]);
    context.structures.push(structure);
    let mut frame = Frame::new();
    assert!(matches!(lower(&context, &mut frame, 1, false), Err(LowerError::MissingField)));
}

#[test]
fn slice_value_stores_address_then_length() {
    let size = || RType::IntegralSize(Some(Target::Host), Sign::Unsigned);
    let slice = RType::Slice(Some(Target::Host), Box::new(word()));
    let nodes = vec![
        HNode::Integral(0),
        HNode::Integral(3),
        HNode::SliceNew(None, HType::Integral(Sign::Signed, Width::D), vec![(SIZE, 1), (ADDRESS, 0)]),
    ];
    let context = context(nodes, vec![(0, size()), (1, size()), (2, slice)]);
    let mut frame = Frame::new();
    match lower(&context, &mut frame, 2, false) {
        Ok(LNode::Block(units, _)) => {
            assert_eq!(units.len(), 2);
            assert!(matches!(&units[0], LUnit::Assign(_, LNode::Integral(0))));
            match &units[1] {
                LUnit::Assign(LPlace(address), LNode::Integral(3)) => match address.as_ref() {
                    LNode::Binary(LBinary::Add, Width::Q, _, offset) => {
                        assert!(matches!(offset.as_ref(), LNode::Integral(8)))
                    }
                    other => panic!("unexpected: {:?}", other),
                },
                other => panic!("unexpected: {:?}", other),
            }
        }
        other => panic!("unexpected: {:?}", other),
    }
    assert_eq!(frame.locals.get(&0), Some(&16));
}

#[test]
fn temporary_value_has_no_location() {
    let nodes = vec![HNode::Integral(1), HNode::Integral(2), HNode::Assign(0, 1)];
    let context = context(nodes, vec![(0, word()), (1, word()), (2, RType::Void)]);
    let mut frame = Frame::new();
    assert!(matches!(unit(&context, &mut frame, 2, false), Err(LowerError::NoLocation)));
}

#[test]
fn call_of_function_item() {
    let nodes = vec![HNode::Integral(1), HNode::Call(77, vec![0])];
    let mut context = context(nodes, vec![(0, word()), (1, word())]);
    context.functions.insert(1, 2);
    context.architectures.insert(77, Target::Host);
    let mut frame = Frame::new();
    match lower(&context, &mut frame, 1, false) {
        Ok(LNode::Call(LReceiver::Path(FunctionRef { path: 77, index: 2 }), arguments)) => {
            assert_eq!(arguments.len(), 1)
        }
        other => panic!("unexpected: {:?}", other),
    }
}

#[test]
fn call_without_architecture_is_missing() {
    let nodes = vec![HNode::Call(77, vec![])];
    let mut context = context(nodes, vec![(0, word())]);
    context.functions.insert(0, 0);
    let mut frame = Frame::new();
    assert!(matches!(lower(&context, &mut frame, 0, false), Err(LowerError::Missing)));
}

#[test]
fn method_of_function_value() {
    let signature = Signature {
        convention: None,
        parameters: vec![],
        return_type: word(),
        target: Some(Target::Host),
    };
    let nodes = vec![HNode::Function(5), HNode::Method(0, vec![])];
    let mut context = context(
        nodes,
        vec![(0, RType::Function(Box::new(signature))), (1, word())],
    );
    context.functions.insert(0, 0);
    let mut frame = Frame::new();
    assert!(matches!(
        lower(&context, &mut frame, 1, false),
        Ok(LNode::Call(LReceiver::Method(None, _), _))
    ));
}

#[test]
fn array_elements_are_stored_in_order() {
    let nodes = vec![HNode::Integral(1), HNode::Integral(2), HNode::Array(vec![0, 1])];
    let array = RType::Array(Box::new(word()), 2);
    let context = context(nodes, vec![(0, word()), (1, word()), (2, array)]);
    let mut frame = Frame::new();
    match lower(&context, &mut frame, 2, false) {
        Ok(LNode::Block(units, _)) => {
            assert_eq!(units.len(), 2);
            match &units[1] {
                LUnit::Assign(LPlace(address), LNode::Integral(2)) => match address.as_ref() {
                    LNode::Binary(LBinary::Add, _, _, offset) => {
                        assert!(matches!(offset.as_ref(), LNode::Integral(4)))
                    }
                    other => panic!("unexpected: {:?}", other),
                },
                other => panic!("unexpected: {:?}", other),
            }
        }
        other => panic!("unexpected: {:?}", other),
    }
    assert_eq!(frame.locals.get(&0), Some(&8));
}

#[test]
fn function_with_value_returns_it() {
    let nodes = vec![HNode::Variable(1)];
    let mut context = context(nodes, vec![(0, word())]);
    context.variables.insert(1, word());
    let lowered = function(&context, &vec![1], &word(), 0).unwrap();
    assert_eq!(lowered.parameters.get(&1), Some(&0));
    assert!(matches!(lowered.unit, LUnit::Return(Some(LNode::Dereference(_)))));
}

#[test]
fn function_without_parameter_type_fails() {
    let context = context(vec![HNode::Integral(0)], vec![(0, word())]);
    assert!(matches!(function(&context, &vec![4], &word(), 0), Err(LowerError::Missing)));
}

#[test]
fn low_value_of_size_zero_is_a_statement() {
    let context = context(vec![HNode::Block(vec![])], vec![(0, RType::Void)]);
    match low(&context, 0) {
        Ok(value) => assert!(matches!(value.value, LValued::Block(LUnit::Block(ref units)) if units.is_empty())),
        Err(e) => panic!("unexpected: {:?}", e),
    }
}

#[test]
fn low_value_with_size_is_an_expression() {
    let context = context(vec![HNode::Integral(9)], vec![(0, word())]);
    assert!(matches!(low(&context, 0), Ok(lucent::lowering::LValue { value: LValued::Node(LNode::Integral(9)), .. })));
}

#[test]
fn compound_assignment_stores_the_operation() {
    let nodes = vec![
        HNode::Integral(5),
        HNode::Let(3, None, Some(0)),
        HNode::Variable(3),
        HNode::Integral(1),
        HNode::Compound(HDual::Add, 2, 3),
    ];
    let mut context = context(
        nodes,
        vec![(0, word()), (1, RType::Void), (2, word()), (3, word()), (4, RType::Void)],
    );
    context.variables.insert(3, word());
    let mut frame = Frame::new();
    unit(&context, &mut frame, 1, false).unwrap();
    match unit(&context, &mut frame, 4, false) {
        Ok(LUnit::Assign(LPlace(target), LNode::Binary(LBinary::Add, Width::D, _, _))) => {
            assert!(matches!(*target, LNode::Target(0)))
        }
        other => panic!("unexpected: {:?}", other),
    }
}

use std::collections::HashMap;

use lucent::generate::{
    translate, Binary, Body, Compare, Function, GenerateError, Node, Parameter, ReturnType, Type,
    Typed,
};
use lucent::generate::call;
use lucent::lower::HDual;
use lucent::node::{Size, Span};
use lucent::x86::{entry, register_set, registers, reserved, Code, Instruction, Mode, Register, Scene, Translation};

fn typed(nodes: Vec<(usize, Type)>) -> Typed {
    Typed {
        nodes: nodes.into_iter().collect(),
        variables: HashMap::new(),
        functions: HashMap::new(),
        structures: HashMap::new(),
        fields: Vec::new(),
    }
}

fn function(nodes: Vec<Node>, root: usize, return_type: Type) -> Function {
    Function {
        parameters: Vec::new(),
        return_type: ReturnType::Type(return_type),
        body: Body { nodes, root },
        main: false,
        reserved: Vec::new(),
    }
}

fn codes(instructions: &[(Instruction, Option<u64>)]) -> Vec<Code> {
    instructions.iter().map(|(instruction, _)| match instruction {
        Instruction::Plain(code)
        | Instruction::Register(code, _)
        | Instruction::Registers(code, _, _)
        | Instruction::Immediate(code, _, _)
        | Instruction::Wide(code, _, _)
        | Instruction::Scaled(code, _, _, _)
        | Instruction::Load(code, _, _)
        | Instruction::Store(code, _, _)
        | Instruction::Memory(code, _)
        | Instruction::Branch(code, _)
        | Instruction::Repeat(code, _) => *code,
    }).collect()
}

#[test]
fn translate_returns_constant() {
    let function = function(vec![Node::Integral(7)], 0, Type::Signed(Size::Double));
    let typed = typed(vec![(0, Type::Signed(Size::Double))]);
    let translation = translate(&function, &typed, Mode::Long).unwrap();
    let codes = codes(&translation.instructions);
    assert_eq!(codes[0], Code::PushR64);
    assert_eq!(codes[1], Code::MovR64Rm64);
    assert_eq!(codes[2], Code::MovR32Imm32);
    assert_eq!(codes[codes.len() - 2], Code::Leaveq);
    assert_eq!(codes[codes.len() - 1], Code::Retnq);
    assert!(!codes.contains(&Code::SubRm64Imm32));
    assert!(matches!(translation.instructions[2].0, Instruction::Wide(Code::MovR32Imm32, _, 7)));
}

#[test]
fn translate_records_calls_at_call_instructions() {
    let nodes = vec![Node::Integral(1), Node::Call(9, vec![0])];
    let function = function(nodes, 1, Type::Signed(Size::Double));
    let mut typed = typed(vec![(0, Type::Signed(Size::Double)), (1, Type::Signed(Size::Double))]);
    typed.functions.insert(1, 2);
    let translation = translate(&function, &typed, Mode::Long).unwrap();
    assert_eq!(translation.calls.len(), 1);
    let (index, (path, overload)) = translation.calls[0];
    assert_eq!((path, overload), (9, 2));
    assert!(matches!(translation.instructions[index].0, Instruction::Branch(Code::CallRel32A64, 0)));
    assert!(matches!(
        translation.instructions[index + 1].0,
        Instruction::Immediate(Code::AddRm64Imm32, _, 4)
    ));
}

#[test]
fn translate_reserves_frame_for_variables() {
    let nodes = vec![Node::Integral(3), Node::Let(5, Some(0)), Node::Variable(5), Node::Block(vec![1, 2])];
    let function = function(nodes, 3, Type::Signed(Size::Quad));
    let mut typed = typed(vec![
        (0, Type::Signed(Size::Quad)),
        (1, Type::Void),
        (2, Type::Signed(Size::Quad)),
        (3, Type::Signed(Size::Quad)),
    ]);
    typed.variables.insert(5, Type::Signed(Size::Quad));
    let translation = translate(&function, &typed, Mode::Long).unwrap();
    assert!(matches!(translation.instructions[2].0, Instruction::Immediate(Code::SubRm64Imm32, _, 8)));
    assert!(codes(&translation.instructions).contains(&Code::MovRm64R64));
}

#[test]
fn translate_addition() {
    let nodes = vec![
        Node::Integral(1),
        Node::Integral(2),
        Node::Binary(Binary::Dual(HDual::Add), 0, 1),
    ];
    let function = function(nodes, 2, Type::Signed(Size::Double));
    let typed = typed(vec![
        (0, Type::Signed(Size::Double)),
        (1, Type::Signed(Size::Double)),
        (2, Type::Signed(Size::Double)),
    ]);
    let translation = translate(&function, &typed, Mode::Long).unwrap();
    let codes = codes(&translation.instructions);
    assert!(codes.contains(&Code::AddR32Rm32));
    assert!(codes.contains(&Code::PushR32));
    assert!(codes.contains(&Code::PopR32));
}

#[test]
fn translate_comparison_sets_a_byte() {
    let nodes = vec![
        Node::Integral(1),
        Node::Integral(2),
        Node::Binary(Binary::Compare(Compare::Less), 0, 1),
    ];
    let function = function(nodes, 2, Type::Truth);
    let typed = typed(vec![
        (0, Type::Signed(Size::Double)),
        (1, Type::Signed(Size::Double)),
        (2, Type::Truth),
    ]);
    let translation = translate(&function, &typed, Mode::Long).unwrap();
    let codes = codes(&translation.instructions);
    assert!(codes.contains(&Code::CmpR32Rm32));
    assert!(codes.contains(&Code::SetlRm8));
}

#[test]
fn translate_loop_jumps_back_to_its_label() {
    let nodes = vec![Node::Truth(false), Node::Block(vec![]), Node::While(0, 1), Node::Block(vec![2])];
    let function = function(nodes, 3, Type::Void);
    let typed = typed(vec![(0, Type::Truth), (1, Type::Void), (2, Type::Void), (3, Type::Void)]);
    let translation = translate(&function, &typed, Mode::Long).unwrap();
    let entry = translation.instructions.iter().find_map(|(_, label)| *label).unwrap();
    assert!(translation
        .instructions
        .iter()
        .any(|(instruction, _)| matches!(instruction, Instruction::Branch(Code::JmpRel32A64, label) if *label == entry)));
    assert!(codes(&translation.instructions).contains(&Code::JeRel32A64));
}

#[test]
fn translate_entry_function_exits() {
    let mut function = function(vec![Node::Integral(0)], 0, Type::Signed(Size::Quad));
    function.main = true;
    let typed = typed(vec![(0, Type::Signed(Size::Quad))]);
    let translation = translate(&function, &typed, Mode::Long).unwrap();
    let codes = codes(&translation.instructions);
    assert_eq!(codes[codes.len() - 1], Code::Syscall);
    assert!(matches!(translation.instructions[2].0, Instruction::Immediate(Code::SubRm64Imm32, _, 0)));
}

#[test]
fn declaration_without_value_is_unsupported() {
    let function = function(vec![Node::Let(1, None)], 0, Type::Void);
    let typed = typed(vec![(0, Type::Void)]);
    assert!(matches!(translate(&function, &typed, Mode::Long), Err(GenerateError::Unsupported)));
}

#[test]
fn rune_needs_32_bit_registers() {
    let function = function(vec![Node::Rune('a')], 0, Type::Rune);
    let typed = typed(vec![(0, Type::Rune)]);
    assert!(matches!(translate(&function, &typed, Mode::Real), Err(GenerateError::Rune)));
}

#[test]
fn parameters_sit_above_the_frame_base() {
    let nodes = vec![Node::Variable(4)];
    let mut function = function(nodes, 0, Type::Signed(Size::Quad));
    function.parameters.push(Parameter::Variable(4, Type::Signed(Size::Quad)));
    let mut typed = typed(vec![(0, Type::Signed(Size::Quad))]);
    typed.variables.insert(4, Type::Signed(Size::Quad));
    let translation = translate(&function, &typed, Mode::Long).unwrap();
    assert!(translation.instructions.iter().any(|(instruction, _)| matches!(
        instruction,
        Instruction::Load(Code::MovR64Rm64, _, memory) if memory.displacement == 16
    )));
}

#[test]
fn call_saves_reserved_registers_around_the_call() {
    let names: Vec<String> = vec!["rbx".into()];
    let sets = reserved(&names, Mode::Long).unwrap();
    let (primary, alternate) = registers(&sets, Mode::Long).unwrap();
    let mut scene = Scene {
        mode: Mode::Long,
        primary,
        alternate,
        reserved: sets,
        variables: HashMap::new(),
        next_offset: 0,
        next_label: 0,
    };
    let mut prime = Translation { pending_label: None, instructions: vec![], calls: vec![], spans: vec![] };
    entry(&scene, &mut prime, Span::internal());
    let body = Body { nodes: vec![Node::Integral(5), Node::Call(3, vec![0])], root: 1 };
    let mut typed = typed(vec![(0, Type::Signed(Size::Quad)), (1, Type::Void)]);
    typed.functions.insert(1, 0);
    call(&typed, &body, &mut scene, &mut prime, 1).unwrap();
    let rbx = register_set(Register::RBX).quad;
    assert!(matches!(prime.instructions[3].0, Instruction::Register(Code::PushR64, register) if register == rbx));
    let last = prime.instructions.len() - 1;
    assert!(matches!(prime.instructions[last].0, Instruction::Register(Code::PopR64, register) if register == rbx));
    assert_eq!(prime.calls.len(), 1);
    assert!(matches!(prime.instructions[prime.calls[0].0].0, Instruction::Branch(Code::CallRel32A64, 0)));
    assert!(matches!(
        prime.instructions[prime.calls[0].0 + 1].0,
        Instruction::Immediate(Code::AddRm64Imm32, _, 8)
    ));
}

#[test]
fn translate_logical_and_skips_right_operand() {
    let nodes = vec![Node::Truth(true), Node::Truth(false), Node::Binary(Binary::And, 0, 1)];
    let function = function(nodes, 2, Type::Truth);
    let typed = typed(vec![(0, Type::Truth), (1, Type::Truth), (2, Type::Truth)]);
    let translation = translate(&function, &typed, Mode::Long).unwrap();
    let codes = codes(&translation.instructions);
    assert!(codes.contains(&Code::TestRm8R8));
    assert!(codes.contains(&Code::JeRel32A64));
    assert!(!codes.contains(&Code::AndR8Rm8));
}

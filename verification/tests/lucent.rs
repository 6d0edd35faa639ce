use lucent::analysis::{loops, target, Misplaced, Value, ValueNode};
use lucent::arena::OwnedArena;
use lucent::binary::{patch, segments, Entity, Entry, PatchError, Relative, Section, Segment, SegmentKind};
use lucent::hir::{lift, lift_signature, signatures, HSignature, HType};
use lucent::layout::{offsets, size, LayoutError, Structure};
use lucent::lower::{self, call_target, cast, pointer, unary, HBinary, HDual, HUnary, LBinary, LUnary, LowerError};
use lucent::mach::{compile, BinarySegment, LoadCommands, UnixThreadCommand, PAGE_SIZE};
use lucent::node::{text_is, Sign, Size, Span, Symbol, Target, Width};
use lucent::types::{index, raise, truth, unifies, unify, IType, RType, Signature};
use lucent::x86::{register, register_set, registers, reserved, stack, Mode, Register, RegisterError};
use lucent::x86::{code_pop, code_push, code_sign_extend, load, sign_extend, transfer, zero_extend, Code, Instruction};
use lucent::x86::{entry, settle_frame, stack_reserve, Scene, Translation};

fn integral(sign: Sign, width: Width) -> RType {
    RType::Integral(sign, width)
}

fn host_pointer(kind: RType) -> RType {
    RType::Pointer(Some(Target::Host), Box::new(kind))
}

fn signature(parameters: Vec<RType>, return_type: RType, target: Option<Target>) -> RType {
    RType::Function(Box::new(Signature { convention: None, parameters, return_type, target }))
}

// ----- node -----

#[test]
fn width_from_bytes() {
    assert_eq!(Width::new(1), Some(Width::B));
    assert_eq!(Width::new(2), Some(Width::W));
    assert_eq!(Width::new(4), Some(Width::D));
    assert_eq!(Width::new(8), Some(Width::Q));
    assert_eq!(Width::new(3), None);
    assert_eq!(Width::new(0), None);
    assert_eq!(Width::Q.bytes(), 8);
    assert_eq!(Size::Word.bytes(), 2);
}

#[test]
fn target_names() {
    assert_eq!(Target::parse("host"), Some(Target::Host));
    assert_eq!(Target::parse("x86"), None);
    assert_eq!(Target::parse("Host"), None);
    assert_eq!(Target::Host.to_string(), "\"host\"");
    let expected = if usize::BITS == 64 { Width::Q } else { Width::D };
    assert_eq!(Target::Host.architecture().pointer, expected);
    assert_eq!(Width::new(std::mem::size_of::<usize>()), Some(expected));
}

#[test]
fn text_comparison() {
    assert!(text_is("rax", "rax"));
    assert!(!text_is("rax", "rbx"));
    assert!(!text_is("rax", "ra"));
    assert!(text_is("", ""));
}

#[test]
fn internal_span() {
    assert_eq!(Span::internal(), Span { file: 0, start: 0, end: 19 });
}

// ----- types -----

#[test]
fn unifies_same_shapes() {
    let signed = integral(Sign::Signed, Width::D);
    assert!(unifies(&signed, &integral(Sign::Signed, Width::D)));
    assert!(!unifies(&signed, &integral(Sign::Unsigned, Width::D)));
    assert!(!unifies(&signed, &integral(Sign::Signed, Width::Q)));
    assert!(unifies(&RType::Rune, &RType::Rune));
    assert!(!unifies(&RType::Rune, &RType::Truth));
    assert!(unifies(&RType::Structure(3), &RType::Structure(3)));
    assert!(!unifies(&RType::Structure(3), &RType::Structure(4)));
}

#[test]
fn unifies_never_with_everything() {
    assert!(unifies(&RType::Never, &RType::Rune));
    assert!(unifies(&RType::Truth, &RType::Never));
    assert!(unifies(&host_pointer(RType::Never), &host_pointer(RType::Void)));
}

#[test]
fn unifies_nested_types() {
    let a = host_pointer(integral(Sign::Unsigned, Width::B));
    let b = host_pointer(integral(Sign::Unsigned, Width::B));
    let c = RType::Pointer(None, Box::new(integral(Sign::Unsigned, Width::B)));
    assert!(unifies(&a, &b));
    assert!(!unifies(&a, &c));
    let array = RType::Array(Box::new(RType::Truth), 3);
    assert!(unifies(&array, &RType::Array(Box::new(RType::Truth), 3)));
    assert!(!unifies(&array, &RType::Array(Box::new(RType::Truth), 4)));
    let f = signature(vec![RType::Truth, RType::Rune], RType::Void, None);
    let g = signature(vec![RType::Truth, RType::Rune], RType::Void, None);
    let h = signature(vec![RType::Truth], RType::Void, None);
    assert!(unifies(&f, &g));
    assert!(!unifies(&f, &h));
    assert!(!unifies(&h, &f));
}

#[test]
fn expectations() {
    assert!(matches!(truth(), IType::Type(RType::Truth, span) if span == Span::internal()));
    let expected = index(Some(Target::Host));
    assert!(matches!(expected, IType::Type(RType::IntegralSize(Some(Target::Host), Sign::Unsigned), _)));
    let span = Span { file: 1, start: 2, end: 3 };
    assert_eq!(raise(RType::Rune, span).span(), span);
    assert_eq!(IType::IntegralSize(None).span(), Span::internal());
    assert!(unify(&RType::Rune, &raise(RType::Rune, span)));
    assert!(!unify(&RType::Truth, &raise(RType::Rune, span)));
    assert!(unify(&RType::IntegralSize(None, Sign::Signed), &IType::IntegralSize(Some(Target::Host))));
    let array = RType::Array(Box::new(RType::Rune), 2);
    assert!(unify(&array, &IType::Sequence(None, RType::Rune, span)));
    let slice = RType::Slice(Some(Target::Host), Box::new(RType::Rune));
    assert!(unify(&slice, &IType::Sequence(Some(Target::Host), RType::Rune, span)));
    assert!(!unify(&slice, &IType::Sequence(None, RType::Rune, span)));
}

// ----- hir -----

#[test]
fn lift_takes_item_architecture() {
    let written = HType::Pointer(Box::new(HType::IntegralSize(Sign::Unsigned)));
    let lifted = lift(Some(Target::Host), &written);
    match lifted {
        RType::Pointer(Some(Target::Host), inner) => {
            assert!(matches!(*inner, RType::IntegralSize(Some(Target::Host), Sign::Unsigned)))
        }
        other => panic!("unexpected type: {:?}", other),
    }
    let array = lift(None, &HType::Array(Box::new(HType::Truth), 7));
    assert!(matches!(array, RType::Array(_, 0)));
    let slice = lift(None, &HType::Slice(Box::new(HType::Rune)));
    assert!(matches!(slice, RType::Slice(None, _)));
}

#[test]
fn lift_signatures() {
    let written = HSignature {
        convention: Some(7),
        parameters: vec![HType::Truth, HType::Integral(Sign::Signed, Width::W)],
        return_type: HType::Void,
    };
    let lifted = lift_signature(Some(Target::Host), &written);
    assert_eq!(lifted.convention, Some(7));
    assert_eq!(lifted.target, Some(Target::Host));
    assert_eq!(lifted.parameters.len(), 2);
    assert!(matches!(lifted.parameters[1], RType::Integral(Sign::Signed, Width::W)));
    assert!(matches!(lifted.return_type, RType::Void));
    let other = HSignature { convention: None, parameters: vec![], return_type: HType::Rune };
    let all = signatures(None, &vec![written, other]);
    assert_eq!(all.len(), 2);
    assert_eq!(all[0].parameters.len(), 2);
    assert!(matches!(all[1].return_type, RType::Rune));
    assert_eq!(all[1].target, None);
}

// ----- layout -----

#[test]
fn sizes_of_types() {
    let table: Vec<Structure> = vec![];
    let word = if usize::BITS == 64 { 8 } else { 4 };
    assert_eq!(size(&table, &integral(Sign::Signed, Width::D)), Ok(4));
    assert_eq!(size(&table, &RType::Rune), Ok(4));
    assert_eq!(size(&table, &RType::Truth), Ok(1));
    assert_eq!(size(&table, &RType::Void), Ok(0));
    assert_eq!(size(&table, &host_pointer(RType::Rune)), Ok(word));
    assert_eq!(size(&table, &RType::Slice(Some(Target::Host), Box::new(RType::Rune))), Ok(2 * word));
    assert_eq!(size(&table, &RType::Array(Box::new(integral(Sign::Unsigned, Width::W)), 3)), Ok(6));
    assert_eq!(size(&table, &signature(vec![], RType::Void, Some(Target::Host))), Ok(word));
}

#[test]
fn size_errors() {
    let table: Vec<Structure> = vec![Structure { fields: vec![(1, HType::Structure(0))] }];
    assert_eq!(
        size(&table, &RType::Pointer(None, Box::new(RType::Rune))),
        Err(LayoutError::UnknownArchitecture)
    );
    assert_eq!(size(&table, &RType::Structure(5)), Err(LayoutError::UndefinedStructure));
    assert_eq!(size(&table, &RType::Structure(0)), Err(LayoutError::Cyclic));
}

#[test]
fn structure_offsets() {
    let table: Vec<Structure> = vec![
        Structure {
            fields: vec![
                (10, HType::Integral(Sign::Unsigned, Width::B)),
                (11, HType::Integral(Sign::Unsigned, Width::D)),
                (12, HType::Truth),
            ],
        },
        Structure { fields: vec![(20, HType::Structure(0)), (21, HType::Rune)] },
    ];
    let first = offsets(&table, 0).unwrap();
    assert_eq!(first.fields, [(10, 0), (11, 1), (12, 5)].into_iter().collect());
    assert_eq!(first.size, 6);
    let second = offsets(&table, 1).unwrap();
    assert_eq!(second.fields, [(20, 0), (21, 6)].into_iter().collect());
    assert_eq!(second.size, 10);
    assert_eq!(size(&table, &RType::Structure(1)), Ok(10));
    assert!(matches!(offsets(&table, 2), Err(LayoutError::UndefinedStructure)));
}

// ----- binary -----

fn function(load: usize, size: usize, bytes: Vec<u8>) -> Entry {
    Entry { load, address: load, size, entity: Entity::Function(Section { bytes, relative: vec![] }) }
}

fn variable(load: usize, size: usize, data: Option<Vec<u8>>) -> Entry {
    Entry { load, address: load, size, entity: Entity::Variable(data) }
}

#[test]
fn segments_group_adjacent_entries() {
    let entries = vec![
        variable(0x3000, 4, Some(vec![9, 9, 9, 9])),
        function(0x1002, 1, vec![3]),
        function(0x1000, 2, vec![1, 2]),
        variable(0x3004, 2, Some(vec![8, 8])),
        variable(0x4000, 16, None),
        variable(0x4010, 16, None),
        function(0x2000, 1, vec![7]),
    ];
    let grouped = segments(entries);
    assert_eq!(grouped.len(), 4);
    assert_eq!(grouped[0].address, 0x1000);
    assert!(matches!(&grouped[0].kind, SegmentKind::Text(code) if *code == vec![vec![1, 2], vec![3]]));
    assert_eq!(grouped[1].address, 0x2000);
    assert!(matches!(&grouped[1].kind, SegmentKind::Text(code) if *code == vec![vec![7]]));
    assert_eq!(grouped[2].address, 0x3000);
    assert!(matches!(&grouped[2].kind, SegmentKind::Data(data) if *data == vec![vec![9, 9, 9, 9], vec![8, 8]]));
    assert_eq!(grouped[3].address, 0x4000);
    assert!(matches!(grouped[3].kind, SegmentKind::Reserve(32)));
}

#[test]
fn segments_split_on_kind_change() {
    let entries = vec![function(0x10, 2, vec![1, 2]), variable(0x12, 1, Some(vec![5])), variable(0x13, 3, None)];
    let grouped = segments(entries);
    assert_eq!(grouped.len(), 3);
    assert!(matches!(grouped[0].kind, SegmentKind::Text(_)));
    assert_eq!(grouped[1].address, 0x12);
    assert!(matches!(grouped[2].kind, SegmentKind::Reserve(3)));
    assert!(segments(vec![]).is_empty());
}

fn patched_function(relative: Vec<Relative>) -> Vec<Entry> {
    vec![
        Entry {
            load: 0x1000,
            address: 0x1000,
            size: 8,
            entity: Entity::Function(Section { bytes: vec![0xaa; 8], relative }),
        },
        variable(0x3000, 2, Some(vec![1, 2])),
    ]
}

#[test]
fn patch_fills_displacements() {
    let relative = vec![
        Relative { size: Size::Double, offset: 1, target: 5, path: 0 },
        Relative { size: Size::Byte, offset: 7, target: 8, path: 1 },
    ];
    let mut entries = patched_function(relative);
    let starts: Vec<usize> = vec![0x2000, 0x0ff0];
    assert_eq!(patch(&mut entries, &starts), Ok(()));
    match &entries[0].entity {
        // 0x2000 - 0x1005 = 0xffb; 0x0ff0 - 0x1008 = -0x18 = 0xe8
        Entity::Function(section) => assert_eq!(section.bytes, vec![0xaa, 0xfb, 0x0f, 0, 0, 0xaa, 0xaa, 0xe8]),
        _ => panic!("function expected"),
    }
    assert!(matches!(&entries[1].entity, Entity::Variable(Some(data)) if *data == vec![1, 2]));
}

#[test]
fn patch_reports_unresolved() {
    let relative = vec![
        Relative { size: Size::Word, offset: 0, target: 2, path: 0 },
        Relative { size: Size::Word, offset: 2, target: 4, path: 9 },
        Relative { size: Size::Word, offset: 4, target: 6, path: 0 },
    ];
    let mut entries = patched_function(relative);
    let starts: Vec<usize> = vec![0x1010];
    assert_eq!(patch(&mut entries, &starts), Err(PatchError::Unresolved));
    match &entries[0].entity {
        // only the displacement before the unresolved one is filled: 0x1010 - 0x1002 = 0x0e
        Entity::Function(section) => assert_eq!(section.bytes, vec![0x0e, 0, 0xaa, 0xaa, 0xaa, 0xaa, 0xaa, 0xaa]),
        _ => panic!("function expected"),
    }
}

#[test]
fn patch_reads_addresses_as_signed_words() {
    // a measuring point in the upper half of the address space lies just
    // below address zero: the distance to address zero is small
    let relative = vec![Relative { size: Size::Word, offset: 0, target: 8, path: 0 }];
    let mut entries = vec![Entry {
        load: 0,
        address: usize::MAX - 10,
        size: 2,
        entity: Entity::Function(Section { bytes: vec![0xaa, 0xaa], relative }),
    }];
    let starts: Vec<usize> = vec![0];
    assert_eq!(patch(&mut entries, &starts), Ok(()));
    match &entries[0].entity {
        Entity::Function(section) => assert_eq!(section.bytes, vec![3, 0]),
        _ => panic!("function expected"),
    }
}

// ----- mach -----

#[test]
fn binary_segment_builder() {
    let command = BinarySegment::default()
        .name(b"__DATA")
        .address(0x2000)
        .size(0x30)
        .file_size(0x10)
        .protections(1)
        .protections(2)
        .build();
    assert_eq!(command.cmd, 0x19);
    assert_eq!(command.cmdsize, 72);
    assert_eq!(&command.segname[..6], b"__DATA");
    assert!(command.segname[6..].iter().all(|byte| *byte == 0));
    assert_eq!(command.vmaddr, 0x2000);
    assert_eq!(command.vmsize, 0x30);
    assert_eq!(command.fileoff, 0);
    assert_eq!(command.filesize, 0x10);
    assert_eq!(command.maxprot, 3);
    assert_eq!(command.initprot, 3);
    assert_eq!(command.nsects, 0);
    assert_eq!(command.flags, 0);
}

#[test]
fn thread_command() {
    let thread = UnixThreadCommand::new(0x10_0000);
    assert_eq!(thread.command, 5);
    assert_eq!(thread.command_size, 184);
    assert_eq!(thread.flavor, 4);
    assert_eq!(thread.count, 42);
    for (i, value) in thread.thread_state.iter().enumerate() {
        assert_eq!(*value, if i == 16 { 0x10_0000 } else { 0 });
    }
}

#[test]
fn load_commands_size_and_bytes() {
    let segment = BinarySegment::default().name(b"__TEXT").size(3).build();
    let commands = LoadCommands::new(vec![segment], UnixThreadCommand::new(0x10_0000));
    assert_eq!(&commands.zero.segname[..10], b"__PAGEZERO");
    assert_eq!(commands.zero.vmsize, PAGE_SIZE as u64);
    assert_eq!(commands.header.vmaddr, PAGE_SIZE as u64);
    assert_eq!(commands.header.initprot, 5);
    assert_eq!(commands.size_count(), (72 * 3 + 184, 4));
    let mut bytes = vec![0xee];
    commands.write(&mut bytes);
    assert_eq!(bytes.len(), 1 + 72 * 3 + 184);
    assert_eq!(&bytes[1..5], &[0x19, 0, 0, 0]);
    assert_eq!(&bytes[5..9], &[72, 0, 0, 0]);
    assert_eq!(&bytes[9..19], b"__PAGEZERO");
    // the thread command follows the three segment commands
    assert_eq!(&bytes[1 + 216..1 + 224], &[5, 0, 0, 0, 184, 0, 0, 0]);
    // the instruction pointer is the 17th register of the state
    let rip = 1 + 216 + 16 + 16 * 8;
    assert_eq!(&bytes[rip..rip + 8], &[0, 0, 0x10, 0, 0, 0, 0, 0]);
}

#[test]
fn mach_segments() {
    let list = vec![
        Segment { address: 0x2000, kind: SegmentKind::Text(vec![vec![1, 2], vec![3]]) },
        Segment { address: 0x3000, kind: SegmentKind::Data(vec![vec![4]]) },
        Segment { address: 0x4000, kind: SegmentKind::Reserve(64) },
    ];
    let commands = lucent::mach::segments(&list);
    assert_eq!(commands.len(), 3);
    assert_eq!(&commands[0].segname[..6], b"__TEXT");
    assert_eq!((commands[0].vmaddr, commands[0].vmsize, commands[0].filesize), (0x2000, 3, 3));
    assert_eq!(commands[0].initprot, 5);
    assert_eq!(&commands[1].segname[..6], b"__DATA");
    assert_eq!((commands[1].vmsize, commands[1].filesize, commands[1].initprot), (1, 1, 3));
    assert_eq!((commands[2].vmsize, commands[2].filesize, commands[2].initprot), (64, 0, 3));
}

#[test]
fn compile_image() {
    let list = vec![
        Segment { address: 0x2000, kind: SegmentKind::Text(vec![vec![0x90, 0x90], vec![0xc3]]) },
        Segment { address: 0x8000, kind: SegmentKind::Reserve(64) },
        Segment { address: 0x9000, kind: SegmentKind::Data(vec![vec![7; 5000]]) },
    ];
    let image = compile(list);
    // header, then three pages: code, nothing for the reserve, two pages of data
    assert_eq!(image.len(), 4 * PAGE_SIZE);
    assert_eq!(&image[0..4], &[0xcf, 0xfa, 0xed, 0xfe]);
    assert_eq!(&image[4..8], &[7, 0, 0, 1]);
    assert_eq!(&image[8..12], &[3, 0, 0, 0]);
    assert_eq!(&image[12..16], &[2, 0, 0, 0]);
    assert_eq!(&image[16..20], &[6, 0, 0, 0]);
    let commands = 72 * 5 + 184;
    assert_eq!(&image[20..24], &(commands as u32).to_le_bytes());
    assert_eq!(&image[24..28], &[1, 0, 0, 0]);
    // the header segment maps the header and commands
    let header = 32 + 72;
    assert_eq!(&image[header + 32..header + 40], &((32 + commands) as u64).to_le_bytes());
    assert_eq!(&image[header + 48..header + 56], &((32 + commands) as u64).to_le_bytes());
    // the code segment lies at the first page
    let code = 32 + 2 * 72;
    assert_eq!(&image[code + 40..code + 48], &(PAGE_SIZE as u64).to_le_bytes());
    assert_eq!(&image[PAGE_SIZE..PAGE_SIZE + 3], &[0x90, 0x90, 0xc3]);
    assert!(image[PAGE_SIZE + 3..2 * PAGE_SIZE].iter().all(|byte| *byte == 0));
    // the reserve takes no room in the file: it starts at the next page
    let reserve = code + 72;
    assert_eq!(&image[reserve + 40..reserve + 48], &(2 * PAGE_SIZE as u64).to_le_bytes());
    assert_eq!(&image[reserve + 48..reserve + 56], &0u64.to_le_bytes());
    let data = reserve + 72;
    assert_eq!(&image[data + 40..data + 48], &(2 * PAGE_SIZE as u64).to_le_bytes());
    assert!(image[2 * PAGE_SIZE..2 * PAGE_SIZE + 5000].iter().all(|byte| *byte == 7));
    assert!(image[2 * PAGE_SIZE + 5000..].iter().all(|byte| *byte == 0));
}

#[test]
fn compile_without_segments() {
    let image = compile(vec![]);
    assert_eq!(image.len(), PAGE_SIZE);
    assert_eq!(&image[16..20], &[3, 0, 0, 0]);
}

// ----- x86 -----

#[test]
fn register_names() {
    assert_eq!(register(Mode::Long, "rax"), Ok(Register::RAX));
    assert_eq!(register(Mode::Real, "ah"), Ok(Register::AH));
    assert_eq!(register(Mode::Protected, "esp"), Ok(Register::ESP));
    assert_eq!(register(Mode::Long, "r13d"), Ok(Register::R13D));
    assert_eq!(register(Mode::Protected, "r8"), Err(RegisterError::InvalidRegister));
    assert_eq!(register(Mode::Long, "xmm0"), Err(RegisterError::InvalidRegister));
    assert_eq!(register(Mode::Long, "RAX"), Err(RegisterError::InvalidRegister));
}

#[test]
fn register_sets() {
    let a = register_set(Register::EAX);
    assert_eq!((a.byte, a.word, a.double, a.quad), (Register::AL, Register::AX, Register::EAX, Register::RAX));
    assert_eq!(register_set(Register::AH), a);
    assert_eq!(register_set(Register::RAX), a);
    assert_eq!(register_set(Register::SPL).quad, Register::RSP);
    assert_eq!(register_set(Register::R9W).at(Size::Double), Register::R9D);
    assert_eq!(register_set(Register::DIL).at(Size::Word), Register::DI);
}

#[test]
fn modes() {
    assert_eq!(Mode::Long.size(), Size::Quad);
    assert_eq!(Mode::Protected.size(), Size::Double);
    assert_eq!(Mode::Real.size(), Size::Word);
    assert_eq!(Mode::Real.bits(), 16);
    assert_eq!(Mode::Long.base(), Register::RBP);
    assert_eq!(Mode::Protected.stack(), Register::ESP);
    assert_eq!(Mode::Real.destination(), Register::DI);
    assert_eq!(stack(Size::Byte), Size::Word);
    assert_eq!(stack(Size::Double), Size::Double);
}

#[test]
fn reserved_register_sets() {
    let names: Vec<String> = vec!["rax".into(), "al".into(), "bx".into(), "ah".into()];
    let sets = reserved(&names, Mode::Long).unwrap();
    assert_eq!(sets, vec![register_set(Register::RAX), register_set(Register::BX)]);
    let bad: Vec<String> = vec!["rax".into(), "r8".into()];
    assert_eq!(reserved(&bad, Mode::Protected), Err(RegisterError::InvalidRegister));
    assert_eq!(reserved(&bad, Mode::Long).unwrap().len(), 2);
}

#[test]
fn scratch_registers() {
    let none: Vec<lucent::x86::Registers> = vec![];
    let (primary, alternate) = registers(&none, Mode::Protected).unwrap();
    assert_eq!(primary, register_set(Register::AL));
    assert_eq!(alternate, register_set(Register::BL));
    let taken = vec![register_set(Register::AL), register_set(Register::CL)];
    let (primary, alternate) = registers(&taken, Mode::Real).unwrap();
    assert_eq!(primary, register_set(Register::BL));
    assert_eq!(alternate, register_set(Register::DL));
    let names: Vec<String> = ["eax", "ebx", "ecx", "edx", "esi"].iter().map(|name| name.to_string()).collect();
    let most = reserved(&names, Mode::Long).unwrap();
    assert_eq!(registers(&most, Mode::Protected), Err(RegisterError::Exhausted));
    let (primary, alternate) = registers(&most, Mode::Long).unwrap();
    assert_eq!(primary, register_set(Register::DI));
    assert_eq!(alternate, register_set(Register::R8));
}

// ----- lower -----

#[test]
fn binary_operations() {
    let word = if usize::BITS == 64 { Width::Q } else { Width::D };
    let signed = integral(Sign::Signed, Width::D);
    assert_eq!(lower::binary(HBinary::Less, &signed), Ok((LBinary::Less(Sign::Signed), Width::D)));
    assert_eq!(
        lower::binary(HBinary::Dual(HDual::Divide), &integral(Sign::Unsigned, Width::W)),
        Ok((LBinary::Divide(Sign::Unsigned), Width::W))
    );
    assert_eq!(lower::binary(HBinary::NotEqual, &signed), Ok((LBinary::NotEqual, Width::D)));
    assert_eq!(lower::binary(HBinary::Or, &signed), Err(LowerError::InvalidBinary));
    assert_eq!(lower::binary(HBinary::Equal, &RType::Rune), Ok((LBinary::Equal, Width::D)));
    assert_eq!(lower::binary(HBinary::And, &RType::Truth), Ok((LBinary::And, Width::B)));
    assert_eq!(lower::binary(HBinary::Less, &RType::Truth), Err(LowerError::InvalidBinary));
    let size = RType::IntegralSize(Some(Target::Host), Sign::Signed);
    assert_eq!(lower::binary(HBinary::GreaterEqual, &size), Ok((LBinary::GreaterEqual(Sign::Signed), word)));
    let unknown = RType::IntegralSize(None, Sign::Signed);
    assert_eq!(lower::binary(HBinary::Equal, &unknown), Err(LowerError::UnknownArchitecture));
    let pointer = host_pointer(RType::Rune);
    assert_eq!(lower::binary(HBinary::Dual(HDual::Add), &pointer), Ok((LBinary::Add, word)));
    assert_eq!(lower::binary(HBinary::Dual(HDual::Multiply), &pointer), Err(LowerError::InvalidBinary));
    let function = signature(vec![], RType::Void, Some(Target::Host));
    assert_eq!(lower::binary(HBinary::Equal, &function), Ok((LBinary::Equal, word)));
    assert_eq!(lower::binary(HBinary::Less, &function), Err(LowerError::InvalidBinary));
    assert_eq!(lower::binary(HBinary::Equal, &RType::Void), Err(LowerError::InvalidBinary));
}

#[test]
fn conversions() {
    let word = if usize::BITS == 64 { Width::Q } else { Width::D };
    let unsigned_size = RType::IntegralSize(Some(Target::Host), Sign::Unsigned);
    assert_eq!(cast(&host_pointer(RType::Rune), &unsigned_size), Ok((Sign::Unsigned, word, word)));
    assert_eq!(
        cast(&host_pointer(RType::Rune), &RType::Pointer(None, Box::new(RType::Rune))),
        Err(LowerError::InvalidCast)
    );
    assert_eq!(
        cast(&host_pointer(RType::Rune), &RType::IntegralSize(Some(Target::Host), Sign::Signed)),
        Err(LowerError::InvalidCast)
    );
    assert_eq!(
        cast(&RType::Pointer(None, Box::new(RType::Rune)), &RType::Pointer(None, Box::new(RType::Truth))),
        Err(LowerError::UnknownArchitecture)
    );
    assert_eq!(
        cast(&integral(Sign::Signed, Width::B), &integral(Sign::Unsigned, Width::Q)),
        Ok((Sign::Signed, Width::B, Width::Q))
    );
    assert_eq!(
        cast(&integral(Sign::Unsigned, Width::W), &RType::IntegralSize(Some(Target::Host), Sign::Signed)),
        Ok((Sign::Unsigned, Width::W, word))
    );
    assert_eq!(cast(&RType::Rune, &integral(Sign::Unsigned, Width::B)), Ok((Sign::Unsigned, Width::D, Width::B)));
    assert_eq!(cast(&RType::Rune, &integral(Sign::Unsigned, Width::W)), Err(LowerError::InvalidCast));
    assert_eq!(cast(&integral(Sign::Unsigned, Width::D), &RType::Rune), Ok((Sign::Unsigned, Width::D, Width::D)));
    assert_eq!(cast(&integral(Sign::Signed, Width::D), &RType::Rune), Err(LowerError::InvalidCast));
    let function = signature(vec![], RType::Void, Some(Target::Host));
    assert_eq!(cast(&function, &host_pointer(RType::Void)), Ok((Sign::Unsigned, word, word)));
    assert_eq!(cast(&RType::Truth, &integral(Sign::Unsigned, Width::B)), Err(LowerError::InvalidCast));
}

#[test]
fn unary_operations() {
    let word = if usize::BITS == 64 { Width::Q } else { Width::D };
    assert_eq!(unary(HUnary::Not, &RType::Truth), Ok((LUnary::Not, Width::B)));
    assert_eq!(unary(HUnary::Not, &integral(Sign::Unsigned, Width::W)), Ok((LUnary::Not, Width::W)));
    assert_eq!(
        unary(HUnary::Not, &RType::IntegralSize(Some(Target::Host), Sign::Unsigned)),
        Ok((LUnary::Not, word))
    );
    assert_eq!(unary(HUnary::Negate, &integral(Sign::Signed, Width::Q)), Ok((LUnary::Negate, Width::Q)));
    assert_eq!(unary(HUnary::Negate, &integral(Sign::Unsigned, Width::Q)), Err(LowerError::InvalidUnary));
    assert_eq!(
        unary(HUnary::Negate, &RType::IntegralSize(None, Sign::Signed)),
        Err(LowerError::UnknownArchitecture)
    );
    assert_eq!(unary(HUnary::Negate, &RType::Truth), Err(LowerError::InvalidUnary));
    assert_eq!(unary(HUnary::Reference, &RType::Truth), Err(LowerError::InvalidUnary));
}

#[test]
fn architectures() {
    assert_eq!(pointer(None), Err(LowerError::UnknownArchitecture));
    assert_eq!(pointer(Some(Target::Host)), Ok(Target::Host.architecture().pointer));
    assert_eq!(call_target(Target::Host, Target::Host), Ok(()));
    assert_eq!(lower::target(Target::Host, Some(Target::Host)), Ok(()));
    assert_eq!(lower::target(Target::Host, None), Err(LowerError::UnknownArchitecture));
}

// ----- analysis -----

#[test]
fn item_target() {
    assert_eq!(target(&Symbol::Function(vec![1, 2], 0)), Some(Target::Host));
    assert_eq!(target(&Symbol::Static(vec![3])), Some(Target::Host));
}

#[test]
fn loops_accept_enclosed_jumps() {
    // while (leaf) { break; continue }
    let nodes = vec![
        ValueNode::Leaf,
        ValueNode::Break,
        ValueNode::Continue,
        ValueNode::Block(vec![1, 2]),
        ValueNode::While(0, 3),
    ];
    assert_eq!(loops(&Value { nodes, root: 4 }), Ok(()));
}

#[test]
fn loops_report_misplaced_jumps() {
    // { break; let _ = continue; while (leaf) { continue } }
    let nodes = vec![
        ValueNode::Break,
        ValueNode::Continue,
        ValueNode::Let(Some(1)),
        ValueNode::Leaf,
        ValueNode::Continue,
        ValueNode::While(3, 4),
        ValueNode::Block(vec![0, 2, 5]),
    ];
    assert_eq!(loops(&Value { nodes, root: 6 }), Err(vec![Misplaced::Break(0), Misplaced::Continue(1)]));
}

#[test]
fn loops_stop_at_first_failing_part() {
    // break + continue: the right side is not looked at once the left fails
    let nodes = vec![ValueNode::Break, ValueNode::Continue, ValueNode::Binary(0, 1)];
    assert_eq!(loops(&Value { nodes, root: 2 }), Err(vec![Misplaced::Break(0)]));
    // a return's value is not enclosed in a loop by the return
    let nodes = vec![ValueNode::Break, ValueNode::Return(Some(0))];
    assert_eq!(loops(&Value { nodes, root: 1 }), Err(vec![Misplaced::Break(0)]));
    // nor is what a cast applies to, unless a loop encloses the cast
    let nodes = vec![ValueNode::Continue, ValueNode::Cast(0)];
    assert_eq!(loops(&Value { nodes, root: 1 }), Err(vec![Misplaced::Continue(0)]));
    let nodes = vec![ValueNode::Leaf, ValueNode::Continue, ValueNode::Cast(1), ValueNode::While(0, 2)];
    assert_eq!(loops(&Value { nodes, root: 3 }), Ok(()));
    // in a branch, the value is checked before the condition
    let nodes = vec![ValueNode::Continue, ValueNode::Break, ValueNode::When(vec![(0, 1)])];
    assert_eq!(loops(&Value { nodes, root: 2 }), Err(vec![Misplaced::Break(1)]));
}

// ----- arena -----

#[test]
fn arena_keeps_values() {
    let mut arena: OwnedArena<String> = OwnedArena::default();
    assert_eq!(arena.len(), 0);
    let first = arena.push("one".to_string());
    let second = arena.push("two".to_string());
    assert_eq!((first, second), (0, 1));
    assert_eq!(arena.get(0), "one");
    assert_eq!(arena.get(1), "two");
    assert_eq!(arena.len(), 2);
}

// ----- laws on concrete values -----

#[test]
fn unifies_is_symmetric_on_examples() {
    let kinds = vec![
        RType::Never,
        RType::Rune,
        host_pointer(RType::Never),
        host_pointer(RType::Truth),
        signature(vec![RType::Never], RType::Void, None),
        signature(vec![RType::Rune], RType::Void, None),
        RType::Array(Box::new(RType::Rune), 2),
    ];
    for left in &kinds {
        assert!(unifies(left, left));
        for right in &kinds {
            assert_eq!(unifies(left, right), unifies(right, left));
        }
    }
}

#[test]
fn operation_widths_are_operand_sizes() {
    let table: Vec<Structure> = vec![];
    let operands = vec![
        integral(Sign::Signed, Width::W),
        RType::IntegralSize(Some(Target::Host), Sign::Unsigned),
        RType::Rune,
        RType::Truth,
        host_pointer(RType::Rune),
    ];
    for operand in &operands {
        let (_, width) = lower::binary(HBinary::Equal, operand).unwrap();
        assert_eq!(size(&table, operand), Ok(width.bytes()));
    }
    let (_, from, to) = cast(&RType::Rune, &integral(Sign::Unsigned, Width::B)).unwrap();
    assert_eq!(size(&table, &RType::Rune), Ok(from.bytes()));
    assert_eq!(size(&table, &integral(Sign::Unsigned, Width::B)), Ok(to.bytes()));
}

#[test]
fn loops_pass_without_jumps() {
    let nodes = vec![
        ValueNode::Leaf,
        ValueNode::Leaf,
        ValueNode::Binary(0, 1),
        ValueNode::Return(Some(2)),
        ValueNode::Block(vec![3]),
    ];
    assert_eq!(loops(&Value { nodes, root: 4 }), Ok(()));
}

#[test]
fn instruction_codes() {
    assert_eq!(code_push(Size::Byte), Code::PushR16);
    assert_eq!(code_push(Size::Quad), Code::PushR64);
    assert_eq!(code_pop(Size::Word), Code::PopR16);
    assert_eq!(code_pop(Size::Double), Code::PopR32);
    assert_eq!(code_sign_extend(Size::Double), Code::Cdq);
    assert_eq!(load(Mode::Long), Code::LeaR64M);
    let primary = register_set(Register::RBX);
    assert_eq!(
        zero_extend(primary, Size::Byte, Size::Quad),
        Some(Instruction::Registers(Code::MovzxR64Rm8, Register::RBX, Register::BL))
    );
    assert_eq!(zero_extend(primary, Size::Double, Size::Quad), None);
    assert_eq!(zero_extend(primary, Size::Quad, Size::Word), None);
    assert_eq!(
        sign_extend(primary, Size::Double, Size::Quad),
        Some(Instruction::Registers(Code::MovsxdR64Rm32, Register::RBX, Register::EBX))
    );
    assert_eq!(sign_extend(primary, Size::Word, Size::Word), None);
    let span = Span { file: 0, start: 0, end: 1 };
    let mut prime = Translation { pending_label: None, instructions: vec![], calls: vec![], spans: vec![] };
    transfer(&mut prime, Register::EAX, Register::EAX, Size::Double, span);
    assert!(prime.instructions.is_empty());
    transfer(&mut prime, Register::EAX, Register::ECX, Size::Double, span);
    assert_eq!(prime.instructions, vec![(Instruction::Registers(Code::MovR32Rm32, Register::ECX, Register::EAX), None)]);
}

#[test]
fn loops_accept_parts_in_any_order() {
    // the root comes first and its parts after it; no node is its own part
    let nodes = vec![ValueNode::Block(vec![2, 1]), ValueNode::Break, ValueNode::While(3, 4), ValueNode::Leaf, ValueNode::Continue];
    assert_eq!(loops(&Value { nodes, root: 0 }), Err(vec![Misplaced::Break(1)]));
}

#[test]
fn frame_and_labels() {
    let mut scene = Scene {
        mode: Mode::Long,
        primary: register_set(Register::RAX),
        alternate: register_set(Register::RBX),
        reserved: vec![],
        variables: std::collections::HashMap::new(),
        next_offset: 0,
        next_label: 0,
    };
    assert_eq!(scene.variable(7, 8), -8);
    assert_eq!(scene.variable(9, 4), -12);
    assert_eq!(scene.variables.get(&7), Some(&-8));
    assert_eq!(scene.variables.get(&9), Some(&-12));
    assert_eq!(scene.variables.len(), 2);
    assert_eq!(scene.label(), 1);
    assert_eq!(scene.label(), 2);
    let span = Span { file: 0, start: 0, end: 1 };
    let mut translation = Translation { pending_label: None, instructions: vec![], calls: vec![], spans: vec![] };
    let push = Instruction::Register(Code::PushR64, Register::RBP);
    translation.push(push, span);
    translation.set_pending_label(1, span);
    translation.set_pending_label(2, span);
    translation.push(push, span);
    assert_eq!(
        translation.instructions,
        vec![(push, None), (Instruction::Plain(Code::Nopw), Some(1)), (push, Some(2))]
    );
    assert_eq!(translation.spans.len(), 3);
    assert_eq!(translation.pending_label, None);
}

fn long_scene(next_offset: isize) -> Scene {
    Scene {
        mode: Mode::Long,
        primary: register_set(Register::RAX),
        alternate: register_set(Register::RBX),
        reserved: vec![],
        variables: std::collections::HashMap::new(),
        next_offset,
        next_label: 0,
    }
}

#[test]
fn function_frames() {
    let span = Span { file: 0, start: 0, end: 1 };
    let scene = long_scene(-24);
    let mut prime = Translation { pending_label: Some(5), instructions: vec![], calls: vec![], spans: vec![] };
    entry(&scene, &mut prime, span);
    assert_eq!(
        prime.instructions,
        vec![
            (Instruction::Register(Code::PushR64, Register::RBP), Some(5)),
            (Instruction::Registers(Code::MovR64Rm64, Register::RBP, Register::RSP), None),
            (Instruction::Immediate(Code::SubRm64Imm32, Register::RSP, 0), None),
        ]
    );
    prime.calls.push((3, (1, 0)));
    settle_frame(&scene, &mut prime);
    assert_eq!(prime.instructions[2].0, Instruction::Immediate(Code::SubRm64Imm32, Register::RSP, 24));
    assert_eq!(prime.calls, vec![(3, (1, 0))]);
    // a function without frame loses the reservation
    let empty = long_scene(0);
    settle_frame(&empty, &mut prime);
    assert_eq!(prime.instructions.len(), 2);
    assert_eq!(prime.calls, vec![(2, (1, 0))]);
    let mut other = Translation { pending_label: None, instructions: vec![], calls: vec![], spans: vec![] };
    stack_reserve(&long_scene(0), &mut other, 16, span);
    assert_eq!(other.instructions, vec![(Instruction::Immediate(Code::SubRm64Imm32, Register::RSP, 16), None)]);
}

#[test]
fn repeated_field_names_keep_the_last_offset() {
    let table: Vec<Structure> = vec![Structure {
        fields: vec![
            (1, HType::Integral(Sign::Unsigned, Width::D)),
            (1, HType::Truth),
            (2, HType::Rune),
        ],
    }];
    let laid = offsets(&table, 0).unwrap();
    assert_eq!(laid.fields, [(1, 4), (2, 5)].into_iter().collect());
    assert_eq!(laid.size, 9);
}

#[test]
fn reserved_sets_keep_first_naming_order() {
    let names: Vec<String> = vec!["ecx".into(), "al".into(), "cl".into(), "si".into()];
    let sets = reserved(&names, Mode::Protected).unwrap();
    assert_eq!(sets, vec![register_set(Register::CL), register_set(Register::AL), register_set(Register::SIL)]);
}

use vstd::prelude::*;

use goblin::mach::{constants, header, load_command};
use scroll::Pwrite;

use crate::binary::le_bytes;

verus! {

/// Size of a page of the executable image.
pub const PAGE_SIZE: usize = 4096;

/// A segment load command of a 64-bit Mach-O image.
#[derive(Debug, Clone, Copy)]
pub struct SegmentCommand {
    pub cmd: u32,
    pub cmdsize: u32,
    pub segname: [u8; 16],
    pub vmaddr: u64,
    pub vmsize: u64,
    pub fileoff: u64,
    pub filesize: u64,
    pub maxprot: u32,
    pub initprot: u32,
    pub nsects: u32,
    pub flags: u32,
}

/// The header of a 64-bit Mach-O image.
#[derive(Debug, Clone, Copy)]
pub struct MachHeader {
    pub magic: u32,
    pub cputype: u32,
    pub cpusubtype: u32,
    pub filetype: u32,
    pub ncmds: u32,
    pub sizeofcmds: u32,
    pub flags: u32,
    pub reserved: u32,
}

/// The little-endian bytes of a 32-bit number.
pub open spec fn le32(value: u32) -> Seq<u8> {
    le_bytes(value as nat, 4)
}

/// The little-endian bytes of a 64-bit number.
pub open spec fn le64(value: u64) -> Seq<u8> {
    le_bytes(value as nat, 8)
}

/// The bytes of a segment command: its fields in order, numbers in
/// little-endian.
pub open spec fn segment_command_bytes(c: SegmentCommand) -> Seq<u8> {
    le32(c.cmd) + le32(c.cmdsize) + c.segname@ + le64(c.vmaddr) + le64(c.vmsize) + le64(c.fileoff)
        + le64(c.filesize) + le32(c.maxprot) + le32(c.initprot) + le32(c.nsects) + le32(c.flags)
}

/// The bytes of an image header: its fields in order, little-endian.
pub open spec fn header_bytes(h: MachHeader) -> Seq<u8> {
    le32(h.magic) + le32(h.cputype) + le32(h.cpusubtype) + le32(h.filetype) + le32(h.ncmds)
        + le32(h.sizeofcmds) + le32(h.flags) + le32(h.reserved)
}

/// `load_command::LC_SEGMENT_64`, the command of a 64-bit segment.
#[verifier::external_body]
fn lc_segment_64() -> (r: u32)
    ensures
        r == 0x19,
{
    load_command::LC_SEGMENT_64
}

/// `load_command::SIZEOF_SEGMENT_COMMAND_64`, the size of a 64-bit segment
/// command.
#[verifier::external_body]
fn sizeof_segment_command_64() -> (r: usize)
    ensures
        r == 72,
{
    load_command::SIZEOF_SEGMENT_COMMAND_64
}

/// `load_command::LC_UNIXTHREAD`, the command of an initial thread state.
#[verifier::external_body]
fn lc_unixthread() -> (r: u32)
    ensures
        r == 0x5,
{
    load_command::LC_UNIXTHREAD
}

/// `constants::VM_PROT_READ`, the permission to read a segment.
#[verifier::external_body]
fn vm_prot_read() -> (r: u32)
    ensures
        r == 0x1,
{
    constants::VM_PROT_READ
}

/// `constants::VM_PROT_WRITE`, the permission to write a segment.
#[verifier::external_body]
fn vm_prot_write() -> (r: u32)
    ensures
        r == 0x2,
{
    constants::VM_PROT_WRITE
}

/// `constants::VM_PROT_EXECUTE`, the permission to execute a segment.
#[verifier::external_body]
fn vm_prot_execute() -> (r: u32)
    ensures
        r == 0x4,
{
    constants::VM_PROT_EXECUTE
}

/// `header::MH_MAGIC_64`, the magic number of a 64-bit image.
#[verifier::external_body]
fn mh_magic_64() -> (r: u32)
    ensures
        r == 0xfeed_facf,
{
    header::MH_MAGIC_64
}

/// `constants::cputype::CPU_TYPE_X86_64`, the x86-64 processor type.
#[verifier::external_body]
fn cpu_type_x86_64() -> (r: u32)
    ensures
        r == 0x0100_0007,
{
    constants::cputype::CPU_TYPE_X86_64
}

/// `constants::cputype::CPU_SUBTYPE_X86_64_ALL`, every x86-64 processor.
#[verifier::external_body]
fn cpu_subtype_x86_64_all() -> (r: u32)
    ensures
        r == 3,
{
    constants::cputype::CPU_SUBTYPE_X86_64_ALL
}

/// `header::MH_EXECUTE`, the file type of an executable.
#[verifier::external_body]
fn mh_execute() -> (r: u32)
    ensures
        r == 0x2,
{
    header::MH_EXECUTE
}

/// `header::MH_NOUNDEFS`, the flag of an image without undefined symbols.
#[verifier::external_body]
fn mh_noundefs() -> (r: u32)
    ensures
        r == 0x1,
{
    header::MH_NOUNDEFS
}

/// `header::SIZEOF_HEADER_64`, the size of a 64-bit image header.
#[verifier::external_body]
fn sizeof_header_64() -> (r: usize)
    ensures
        r == 32,
{
    header::SIZEOF_HEADER_64
}

/// Writes a segment command with goblin's `SegmentCommand64` layout through
/// scroll's `Pwrite::pwrite_with` in little-endian: the fields in declaration
/// order, the name byte by byte.
#[verifier::external_body]
fn encode_segment_command(c: &SegmentCommand) -> (r: Vec<u8>)
    ensures
        r@ == segment_command_bytes(*c),
{
    let command = load_command::SegmentCommand64 {
        cmd: c.cmd, cmdsize: c.cmdsize, segname: c.segname, vmaddr: c.vmaddr,
        vmsize: c.vmsize, fileoff: c.fileoff, filesize: c.filesize, maxprot: c.maxprot,
        initprot: c.initprot, nsects: c.nsects, flags: c.flags,
    };
    let mut bytes = vec![0u8; load_command::SIZEOF_SEGMENT_COMMAND_64];
    bytes.pwrite_with(command, 0, scroll::LE).unwrap();
    bytes
}

/// Writes an image header with goblin's `Header64` layout through scroll's
/// `Pwrite::pwrite_with` in little-endian: the fields in declaration order.
#[verifier::external_body]
fn encode_header(h: &MachHeader) -> (r: Vec<u8>)
    ensures
        r@ == header_bytes(*h),
{
    let value = header::Header64 {
        magic: h.magic, cputype: h.cputype, cpusubtype: h.cpusubtype, filetype: h.filetype,
        ncmds: h.ncmds, sizeofcmds: h.sizeofcmds, flags: h.flags, reserved: h.reserved,
    };
    let mut bytes = vec![0u8; header::SIZEOF_HEADER_64];
    bytes.pwrite_with(value, 0, scroll::LE).unwrap();
    bytes
}

/// Writes a 32-bit number through scroll's `Pwrite::pwrite_with` in
/// little-endian.
#[verifier::external_body]
fn encode_u32(value: u32) -> (r: Vec<u8>)
    ensures
        r@ == le32(value),
{
    let mut bytes = vec![0u8; 4];
    bytes.pwrite_with(value, 0, scroll::LE).unwrap();
    bytes
}

/// Writes a 64-bit number through scroll's `Pwrite::pwrite_with` in
/// little-endian.
#[verifier::external_body]
fn encode_u64(value: u64) -> (r: Vec<u8>)
    ensures
        r@ == le64(value),
{
    let mut bytes = vec![0u8; 8];
    bytes.pwrite_with(value, 0, scroll::LE).unwrap();
    bytes
}

} // verus!

verus! {

/// A segment load command under construction.
#[derive(Debug)]
pub struct BinarySegment {
    pub name: [u8; 16],
    pub address: u64,
    pub size: u64,
    pub offset: u64,
    pub file_size: u64,
    pub protections: u32,
}

impl Default for BinarySegment {
    /// An empty segment: no name, no address, no size, no permissions.
    fn default() -> (r: Self)
        ensures
            r.name@ == Seq::new(16, |i: int| 0u8),
            r.address == 0,
            r.size == 0,
            r.offset == 0,
            r.file_size == 0,
            r.protections == 0,
    {
        let name = [0u8; 16];
        proof {
            assert(name@ =~= Seq::new(16, |i: int| 0u8));
        }
        BinarySegment { name, address: 0, size: 0, offset: 0, file_size: 0, protections: 0 }
    }
}

impl BinarySegment {
    /// Sets the segment name: its first bytes become `name`.
    pub fn name(self, name: &[u8]) -> (r: Self)
        requires
            name@.len() <= 16,
        ensures
            r.name@ == name@ + self.name@.skip(name@.len() as int),
            r.address == self.address,
            r.size == self.size,
            r.offset == self.offset,
            r.file_size == self.file_size,
            r.protections == self.protections,
    {
        let mut segment = self;
        let mut i: usize = 0;
        while i < name.len()
            invariant
                i <= name@.len() <= 16,
                segment.address == self.address,
                segment.size == self.size,
                segment.offset == self.offset,
                segment.file_size == self.file_size,
                segment.protections == self.protections,
                segment.name@.len() == 16,
                forall|k: int|
                    0 <= k < 16 ==> #[trigger] segment.name@[k] == if k < i {
                        name@[k]
                    } else {
                        self.name@[k]
                    },
            decreases name@.len() - i,
        {
            segment.name[i] = name[i];
            i = i + 1;
        }
        assert(segment.name@ =~= name@ + self.name@.skip(name@.len() as int));
        segment
    }

    /// Sets the virtual address of the segment.
    pub fn address(self, address: u64) -> (r: Self)
        ensures
            r == (BinarySegment { address, ..self }),
    {
        let mut segment = self;
        segment.address = address;
        segment
    }

    /// Sets the size of the segment in memory.
    pub fn size(self, size: u64) -> (r: Self)
        ensures
            r == (BinarySegment { size, ..self }),
    {
        let mut segment = self;
        segment.size = size;
        segment
    }

    /// Sets the size of the segment in the file.
    pub fn file_size(self, file_size: u64) -> (r: Self)
        ensures
            r == (BinarySegment { file_size, ..self }),
    {
        let mut segment = self;
        segment.file_size = file_size;
        segment
    }

    /// Adds permissions to the segment.
    pub fn protections(self, protection: u32) -> (r: Self)
        ensures
            r == (BinarySegment { protections: self.protections | protection, ..self }),
    {
        let mut segment = self;
        segment.protections = segment.protections | protection;
        segment
    }

    /// The load command of the segment; its maximum and initial permissions
    /// are both the segment's permissions.
    pub fn build(self) -> (r: SegmentCommand)
        ensures
            r.cmd == 0x19,
            r.cmdsize == 72,
            r.segname == self.name,
            r.vmaddr == self.address,
            r.vmsize == self.size,
            r.fileoff == self.offset,
            r.filesize == self.file_size,
            r.maxprot == self.protections,
            r.initprot == self.protections,
            r.nsects == 0,
            r.flags == 0,
    {
        SegmentCommand {
            cmd: lc_segment_64(),
            cmdsize: sizeof_segment_command_64() as u32,
            segname: self.name,
            vmaddr: self.address,
            vmsize: self.size,
            fileoff: self.offset,
            filesize: self.file_size,
            maxprot: self.protections,
            initprot: self.protections,
            nsects: 0,
            flags: 0,
        }
    }
}

/// The initial thread state of an x86-64 image.
#[derive(Debug)]
pub struct UnixThreadCommand {
    pub command: u32,
    pub command_size: u32,
    pub flavor: u32,
    pub count: u32,
    pub thread_state: [u64; 21],
}

/// The thread state registers with only the instruction pointer set.
pub open spec fn thread_state(instruction_address: u64) -> Seq<u64> {
    Seq::new(21, |i: int| if i == 16 { instruction_address } else { 0u64 })
}

impl UnixThreadCommand {
    /// The number of 64-bit registers in an x86-64 thread state.
    pub const STATE_COUNT: usize = 21;

    /// The thread command that starts execution at `instruction_address`:
    /// an x86-64 thread state of 21 registers, all zero but the instruction
    /// pointer, the 17th. Its size is that of the command itself, and its
    /// count is the number of 32-bit words of the state.
    pub fn new(instruction_address: u64) -> (r: Self)
        ensures
            r.command == 0x5,
            r.command_size == 184,
            r.flavor == 4,
            r.count == 42,
            r.thread_state@ == thread_state(instruction_address),
    {
        let x86_thread_state64: u32 = 4;
        let state_size: usize = 8 * Self::STATE_COUNT;
        let state_count: usize = state_size / 4;
        let instruction_register: usize = 16;
        let mut thread_state = [0u64; 21];
        thread_state[instruction_register] = instruction_address;
        proof {
            assert(thread_state@ =~= crate::mach::thread_state(instruction_address));
        }
        UnixThreadCommand {
            command: lc_unixthread(),
            command_size: (16 + state_size) as u32,
            flavor: x86_thread_state64,
            count: state_count as u32,
            thread_state,
        }
    }
}

/// The bytes of the registers of a thread state, little-endian.
pub open spec fn state_bytes(state: Seq<u64>) -> Seq<u8>
    decreases state.len(),
{
    if state.len() == 0 {
        Seq::empty()
    } else {
        state_bytes(state.drop_last()) + le64(state.last())
    }
}

/// The bytes of a thread command: its fields in order, little-endian.
pub open spec fn thread_command_bytes(t: UnixThreadCommand) -> Seq<u8> {
    le32(t.command) + le32(t.command_size) + le32(t.flavor) + le32(t.count) + state_bytes(
        t.thread_state@,
    )
}

/// Writes a thread command: its fields in order, little-endian.
fn encode_thread(t: &UnixThreadCommand) -> (r: Vec<u8>)
    ensures
        r@ == thread_command_bytes(*t),
{
    let mut out = encode_u32(t.command);
    let mut part = encode_u32(t.command_size);
    out.append(&mut part);
    let mut part = encode_u32(t.flavor);
    out.append(&mut part);
    let mut part = encode_u32(t.count);
    out.append(&mut part);
    let ghost head = out@;
    let mut i: usize = 0;
    proof {
        assert(t.thread_state@.take(0) =~= Seq::<u64>::empty());
        assert(out@ =~= head + state_bytes(t.thread_state@.take(0)));
    }
    while i < 21
        invariant
            i <= 21,
            t.thread_state@.len() == 21,
            out@ == head + state_bytes(t.thread_state@.take(i as int)),
        decreases 21 - i,
    {
        let mut part = encode_u64(t.thread_state[i]);
        proof {
            assert(t.thread_state@.take(i + 1).drop_last() =~= t.thread_state@.take(i as int));
        }
        out.append(&mut part);
        proof {
            assert(out@ =~= head + state_bytes(t.thread_state@.take(i + 1)));
        }
        i = i + 1;
    }
    proof {
        assert(t.thread_state@.take(21) =~= t.thread_state@);
    }
    out
}

} // verus!

verus! {

/// A segment name padded with zero bytes to 16 bytes.
pub open spec fn padded(name: Seq<u8>) -> Seq<u8> {
    name + Seq::new((16 - name.len()) as nat, |i: int| 0u8)
}

/// The segment name `__PAGEZERO`.
pub open spec fn pagezero_name() -> Seq<u8> {
    seq![0x5fu8, 0x5f, 0x50, 0x41, 0x47, 0x45, 0x5a, 0x45, 0x52, 0x4f]
}

/// The segment name `__TEXT`.
pub open spec fn text_name() -> Seq<u8> {
    seq![0x5fu8, 0x5f, 0x54, 0x45, 0x58, 0x54]
}

/// The segment name `__DATA`.
pub open spec fn data_name() -> Seq<u8> {
    seq![0x5fu8, 0x5f, 0x44, 0x41, 0x54, 0x41]
}

/// Whether `c` is the segment command with the given name, addresses,
/// sizes and permissions, and no sections or flags.
pub open spec fn is_command(
    c: SegmentCommand,
    name: Seq<u8>,
    vmaddr: u64,
    vmsize: u64,
    fileoff: u64,
    filesize: u64,
    protections: u32,
) -> bool {
    &&& c.cmd == 0x19
    &&& c.cmdsize == 72
    &&& c.segname@ == padded(name)
    &&& c.vmaddr == vmaddr
    &&& c.vmsize == vmsize
    &&& c.fileoff == fileoff
    &&& c.filesize == filesize
    &&& c.maxprot == protections
    &&& c.initprot == protections
    &&& c.nsects == 0
    &&& c.flags == 0
}

/// The bytes of the segment command with the given name, addresses, sizes
/// and permissions.
pub open spec fn command_bytes(
    name: Seq<u8>,
    vmaddr: u64,
    vmsize: u64,
    fileoff: u64,
    filesize: u64,
    protections: u32,
) -> Seq<u8> {
    le32(0x19) + le32(72) + padded(name) + le64(vmaddr) + le64(vmsize) + le64(fileoff) + le64(
        filesize,
    ) + le32(protections) + le32(protections) + le32(0) + le32(0)
}

/// The bytes of a list of segment commands, one after another.
pub open spec fn commands_concat(commands: Seq<SegmentCommand>) -> Seq<u8>
    decreases commands.len(),
{
    if commands.len() == 0 {
        Seq::empty()
    } else {
        commands_concat(commands.drop_last()) + segment_command_bytes(commands.last())
    }
}

/// The sum of the command sizes of a list of segment commands.
pub open spec fn commands_size(commands: Seq<SegmentCommand>) -> int
    decreases commands.len(),
{
    if commands.len() == 0 {
        0
    } else {
        commands_size(commands.drop_last()) + commands.last().cmdsize
    }
}

/// The load commands of an executable image.
#[derive(Debug)]
pub struct LoadCommands {
    pub zero: SegmentCommand,
    pub header: SegmentCommand,
    pub segments: Vec<SegmentCommand>,
    pub thread: UnixThreadCommand,
}

/// The name bytes as a buffer.
fn name_bytes(name: &[u8]) -> (r: &[u8])
    ensures
        r@ == name@,
{
    name
}

impl LoadCommands {
    /// The load commands for the given segments and initial thread, after
    /// a page of unmapped memory at address zero and a segment that maps
    /// the image's header as readable and executable at the second page.
    pub fn new(segments: Vec<SegmentCommand>, thread: UnixThreadCommand) -> (r: Self)
        ensures
            is_command(r.zero, pagezero_name(), 0, PAGE_SIZE as u64, 0, 0, 0),
            is_command(r.header, text_name(), PAGE_SIZE as u64, 0, 0, 0, 5),
            r.segments@ == segments@,
            r.thread == thread,
    {
        let pagezero: [u8; 10] = [0x5f, 0x5f, 0x50, 0x41, 0x47, 0x45, 0x5a, 0x45, 0x52, 0x4f];
        let text: [u8; 6] = [0x5f, 0x5f, 0x54, 0x45, 0x58, 0x54];
        proof {
            assert(pagezero@ =~= pagezero_name());
            assert(text@ =~= text_name());
        }
        let zero = BinarySegment::default().name(name_bytes(&pagezero)).size(PAGE_SIZE as u64).build();
        let protections = vm_prot_execute() | vm_prot_read();
        let header = BinarySegment::default().name(name_bytes(&text)).address(
            PAGE_SIZE as u64,
        ).protections(protections).build();
        proof {
            assert(0u32 | (4u32 | 1u32) == 5u32) by (bit_vector);
            assert(zero.segname@ =~= padded(pagezero_name()));
            assert(header.segname@ =~= padded(text_name()));
        }
        LoadCommands { zero, header, segments, thread }
    }

    /// The total size of the commands and their number.
    pub fn size_count(&self) -> (r: (u32, usize))
        requires
            self.segments@.len() + 3 <= usize::MAX,
            self.zero.cmdsize + self.header.cmdsize + self.thread.command_size + commands_size(
                self.segments@,
            ) <= u32::MAX,
        ensures
            r.0 == self.zero.cmdsize + self.header.cmdsize + self.thread.command_size
                + commands_size(self.segments@),
            r.1 == self.segments@.len() + 3,
    {
        proof {
            lemma_commands_size_nonnegative(self.segments@);
        }
        let mut size: u32 = self.zero.cmdsize + self.header.cmdsize + self.thread.command_size;
        let mut count: usize = 3;
        let n = self.segments.len();
        let mut i: usize = 0;
        proof {
            assert(self.segments@.take(0) =~= Seq::<SegmentCommand>::empty());
        }
        while i < n
            invariant
                n == self.segments@.len(),
                i <= n,
                size == self.zero.cmdsize + self.header.cmdsize + self.thread.command_size
                    + commands_size(self.segments@.take(i as int)),
                count == i + 3,
                n + 3 <= usize::MAX,
                self.zero.cmdsize + self.header.cmdsize + self.thread.command_size + commands_size(
                    self.segments@,
                ) <= u32::MAX,
            decreases n - i,
        {
            proof {
                assert(self.segments@.take(i + 1).drop_last() =~= self.segments@.take(i as int));
                lemma_commands_size_prefix(self.segments@, i as int + 1);
            }
            size = size + self.segments[i].cmdsize;
            count = count + 1;
            i = i + 1;
        }
        proof {
            assert(self.segments@.take(n as int) =~= self.segments@);
        }
        (size, count)
    }

    /// Appends the bytes of the commands to `target`: the zero page, the
    /// header segment, the segments in order, and the thread.
    pub fn write(self, target: &mut Vec<u8>)
        ensures
            final(target)@ == old(target)@ + segment_command_bytes(self.zero)
                + segment_command_bytes(self.header) + commands_concat(self.segments@)
                + thread_command_bytes(self.thread),
    {
        let ghost start = target@;
        let mut part = encode_segment_command(&self.zero);
        target.append(&mut part);
        let mut part = encode_segment_command(&self.header);
        target.append(&mut part);
        let ghost head = target@;
        let n = self.segments.len();
        let mut i: usize = 0;
        proof {
            assert(self.segments@.take(0) =~= Seq::<SegmentCommand>::empty());
            assert(target@ =~= head + commands_concat(self.segments@.take(0)));
        }
        while i < n
            invariant
                n == self.segments@.len(),
                i <= n,
                target@ == head + commands_concat(self.segments@.take(i as int)),
            decreases n - i,
        {
            let mut part = encode_segment_command(&self.segments[i]);
            proof {
                assert(self.segments@.take(i + 1).drop_last() =~= self.segments@.take(i as int));
            }
            target.append(&mut part);
            proof {
                assert(target@ =~= head + commands_concat(self.segments@.take(i + 1)));
            }
            i = i + 1;
        }
        proof {
            assert(self.segments@.take(n as int) =~= self.segments@);
        }
        let mut part = encode_thread(&self.thread);
        target.append(&mut part);
        proof {
            assert(target@ =~= start + segment_command_bytes(self.zero) + segment_command_bytes(
                self.header,
            ) + commands_concat(self.segments@) + thread_command_bytes(self.thread));
        }
    }
}

/// Command sizes add up to a natural number.
proof fn lemma_commands_size_nonnegative(commands: Seq<SegmentCommand>)
    ensures
        commands_size(commands) >= 0,
    decreases commands.len(),
{
    if commands.len() > 0 {
        lemma_commands_size_nonnegative(commands.drop_last());
    }
}

/// The command sizes of a prefix add up to no more than those of the whole
/// list.
proof fn lemma_commands_size_prefix(commands: Seq<SegmentCommand>, i: int)
    requires
        0 <= i <= commands.len(),
    ensures
        commands_size(commands.take(i)) <= commands_size(commands),
    decreases commands.len() - i,
{
    if i < commands.len() {
        lemma_commands_size_prefix(commands, i + 1);
        lemma_commands_size_nonnegative(commands.take(i));
        assert(commands.take(i + 1).drop_last() =~= commands.take(i));
    } else {
        assert(commands.take(i) =~= commands);
    }
}

} // verus!

verus! {

use crate::binary::{Segment, SegmentKind, SegmentView, KindView, segments_view, chunks_view};

/// The first multiple of the page size at or after `offset`.
pub open spec fn ceiling(offset: int) -> int {
    if offset % (PAGE_SIZE as int) == 0 {
        offset
    } else {
        offset - offset % (PAGE_SIZE as int) + PAGE_SIZE as int
    }
}

/// `count` zero bytes.
pub open spec fn zeros(count: int) -> Seq<u8> {
    Seq::new(count as nat, |i: int| 0u8)
}

/// The total length of a list of buffers.
pub open spec fn chunk_total(chunks: Seq<Seq<u8>>) -> int
    decreases chunks.len(),
{
    if chunks.len() == 0 {
        0
    } else {
        chunk_total(chunks.drop_last()) + chunks.last().len()
    }
}

/// A list of buffers, one after another.
pub open spec fn flatten(chunks: Seq<Seq<u8>>) -> Seq<u8>
    decreases chunks.len(),
{
    if chunks.len() == 0 {
        Seq::empty()
    } else {
        flatten(chunks.drop_last()) + chunks.last()
    }
}

/// The bytes that a segment stores in the file.
pub open spec fn payload(segment: SegmentView) -> Seq<u8> {
    match segment.kind {
        KindView::Text(chunks) => flatten(chunks),
        KindView::Data(chunks) => flatten(chunks),
        KindView::Reserve(_) => Seq::empty(),
    }
}

/// The bytes of the load command of a segment stored at `fileoff`: code is
/// `__TEXT`, readable and executable; data and reserved bytes are
/// `__DATA`, readable and writable, and reserved bytes take no room in
/// the file.
pub open spec fn segment_bytes(segment: SegmentView, fileoff: int) -> Seq<u8> {
    match segment.kind {
        KindView::Text(chunks) => command_bytes(
            text_name(),
            segment.address as u64,
            chunk_total(chunks) as u64,
            fileoff as u64,
            chunk_total(chunks) as u64,
            5,
        ),
        KindView::Data(chunks) => command_bytes(
            data_name(),
            segment.address as u64,
            chunk_total(chunks) as u64,
            fileoff as u64,
            chunk_total(chunks) as u64,
            3,
        ),
        KindView::Reserve(size) => command_bytes(
            data_name(),
            segment.address as u64,
            size as u64,
            fileoff as u64,
            0,
            3,
        ),
    }
}

/// Where the segments go in the file body that starts at file offset
/// `start`: each segment begins at the next page boundary, the gap is
/// filled with zeros, and the next position is just after its payload.
pub struct Placement {
    pub offsets: Seq<int>,
    pub body: Seq<u8>,
    pub end: int,
}

/// Places the segments one after another from file offset `start`.
pub open spec fn placement(segments: Seq<SegmentView>, start: int) -> Placement
    decreases segments.len(),
{
    if segments.len() == 0 {
        Placement { offsets: Seq::empty(), body: Seq::empty(), end: start }
    } else {
        let prior = placement(segments.drop_last(), start);
        let offset = ceiling(prior.end);
        let data = payload(segments.last());
        Placement {
            offsets: prior.offsets.push(offset),
            body: prior.body + zeros(offset - prior.end) + data,
            end: offset + data.len(),
        }
    }
}

/// The bytes of the load commands of the segments at the given file
/// offsets.
pub open spec fn placed_commands(segments: Seq<SegmentView>, offsets: Seq<int>) -> Seq<u8>
    decreases segments.len(),
{
    if segments.len() == 0 {
        Seq::empty()
    } else {
        placed_commands(segments.drop_last(), offsets.drop_last()) + segment_bytes(
            segments.last(),
            offsets.last(),
        )
    }
}

/// The size of the load commands of an image with `count` segments.
pub open spec fn commands_length(count: int) -> int {
    72 * (count + 2) + 184
}

/// The address at which an image starts executing.
pub open spec fn entry_address() -> u64 {
    0x10_0000
}

/// The executable image of the segments: the header; the load commands of
/// the zero page, of the header, of each segment at its place and of the
/// initial thread; then the segments, each from a page boundary, and zeros
/// up to the next page boundary.
pub open spec fn image(segments: Seq<SegmentView>) -> Seq<u8> {
    let size = commands_length(segments.len() as int);
    let start = 32 + size;
    let placed = placement(segments, start);
    let header = MachHeader {
        magic: 0xfeed_facf,
        cputype: 0x0100_0007,
        cpusubtype: 3,
        filetype: 2,
        ncmds: (segments.len() + 3) as u32,
        sizeofcmds: size as u32,
        flags: 1,
        reserved: 0,
    };
    header_bytes(header) + command_bytes(pagezero_name(), 0, PAGE_SIZE as u64, 0, 0, 0)
        + command_bytes(text_name(), PAGE_SIZE as u64, start as u64, 0, start as u64, 5)
        + placed_commands(segments, placed.offsets) + le32(0x5) + le32(184) + le32(4) + le32(42)
        + state_bytes(thread_state(entry_address())) + placed.body + zeros(
        ceiling(placed.end) - placed.end,
    )
}

/// Whether an image of the segments fits: the load commands fit in a
/// 32-bit size, and every page boundary computed on the way is an address.
pub open spec fn compilable(segments: Seq<SegmentView>) -> bool {
    let size = commands_length(segments.len() as int);
    &&& size <= u32::MAX
    &&& placement(segments, 32 + size).end + PAGE_SIZE <= usize::MAX
}

/// Pads `bytes` with zeros so that `offset` moves to the next page boundary.
fn fill_page(offset: &mut usize, bytes: &mut Vec<u8>)
    requires
        *old(offset) + PAGE_SIZE <= usize::MAX,
    ensures
        *final(offset) == ceiling(*old(offset) as int),
        final(bytes)@ == old(bytes)@ + zeros(ceiling(*old(offset) as int) - *old(offset)),
{
    let remainder = *offset % PAGE_SIZE;
    let padding = if remainder == 0 {
        0
    } else {
        PAGE_SIZE - remainder
    };
    let ghost prior = bytes@;
    let mut k: usize = 0;
    while k < padding
        invariant
            k <= padding,
            padding < PAGE_SIZE,
            bytes@ == prior + zeros(k as int),
        decreases padding - k,
    {
        bytes.push(0);
        k = k + 1;
        proof {
            assert(bytes@ =~= prior + zeros(k as int));
        }
    }
    *offset = *offset + padding;
}

/// Appends a copy of `data` to `bytes`.
fn append_copy(bytes: &mut Vec<u8>, data: &Vec<u8>)
    ensures
        final(bytes)@ == old(bytes)@ + data@,
{
    let ghost prior = bytes@;
    let mut k: usize = 0;
    while k < data.len()
        invariant
            k <= data@.len(),
            bytes@ == prior + data@.take(k as int),
        decreases data@.len() - k,
    {
        bytes.push(data[k]);
        k = k + 1;
        proof {
            assert(bytes@ =~= prior + data@.take(k as int));
        }
    }
    assert(data@.take(data@.len() as int) =~= data@);
}

/// The total length of a list of buffers, when it fits.
fn total_length(chunks: &Vec<Vec<u8>>) -> (r: usize)
    requires
        chunk_total(chunks_view(chunks@)) <= usize::MAX,
    ensures
        r == chunk_total(chunks_view(chunks@)),
{
    let n = chunks.len();
    let mut total: usize = 0;
    let mut i: usize = 0;
    proof {
        assert(chunks_view(chunks@).take(0) =~= Seq::<Seq<u8>>::empty());
    }
    while i < n
        invariant
            n == chunks@.len(),
            i <= n,
            total == chunk_total(chunks_view(chunks@).take(i as int)),
            chunk_total(chunks_view(chunks@)) <= usize::MAX,
        decreases n - i,
    {
        proof {
            assert(chunks_view(chunks@).take(i + 1).drop_last() =~= chunks_view(chunks@).take(
                i as int,
            ));
            lemma_chunk_total_prefix(chunks_view(chunks@), i as int + 1);
        }
        total = total + chunks[i].len();
        i = i + 1;
    }
    proof {
        assert(chunks_view(chunks@).take(n as int) =~= chunks_view(chunks@));
    }
    total
}

/// The lengths of a prefix of buffers add up to no more than all of them.
proof fn lemma_chunk_total_prefix(chunks: Seq<Seq<u8>>, i: int)
    requires
        0 <= i <= chunks.len(),
    ensures
        0 <= chunk_total(chunks.take(i)) <= chunk_total(chunks),
    decreases chunks.len() - i,
{
    if i < chunks.len() {
        lemma_chunk_total_prefix(chunks, i + 1);
        assert(chunks.take(i + 1).drop_last() =~= chunks.take(i));
        lemma_chunk_total_nonnegative(chunks.take(i));
    } else {
        assert(chunks.take(i) =~= chunks);
        lemma_chunk_total_nonnegative(chunks);
    }
}

/// Lengths add up to a natural number.
proof fn lemma_chunk_total_nonnegative(chunks: Seq<Seq<u8>>)
    ensures
        chunk_total(chunks) >= 0,
    decreases chunks.len(),
{
    if chunks.len() > 0 {
        lemma_chunk_total_nonnegative(chunks.drop_last());
    }
}

/// The joined buffers are as long as their lengths add up to.
pub proof fn lemma_flatten_length(chunks: Seq<Seq<u8>>)
    ensures
        flatten(chunks).len() == chunk_total(chunks),
    decreases chunks.len(),
{
    if chunks.len() > 0 {
        lemma_flatten_length(chunks.drop_last());
    }
}

} // verus!

verus! {

/// Whether `c` is the load command of `segment`, not yet placed in the file.
pub open spec fn command_of(c: SegmentCommand, segment: SegmentView, fileoff: int) -> bool {
    match segment.kind {
        KindView::Text(chunks) => is_command(
            c,
            text_name(),
            segment.address as u64,
            chunk_total(chunks) as u64,
            fileoff as u64,
            chunk_total(chunks) as u64,
            5,
        ),
        KindView::Data(chunks) => is_command(
            c,
            data_name(),
            segment.address as u64,
            chunk_total(chunks) as u64,
            fileoff as u64,
            chunk_total(chunks) as u64,
            3,
        ),
        KindView::Reserve(size) => is_command(
            c,
            data_name(),
            segment.address as u64,
            size as u64,
            fileoff as u64,
            0,
            3,
        ),
    }
}

/// Whether the stored bytes of every code and data segment add up to an
/// address.
pub open spec fn sizes_fit(segments: Seq<SegmentView>) -> bool {
    forall|i: int|
        #![trigger segments[i]]
        0 <= i < segments.len() ==> match segments[i].kind {
            KindView::Text(chunks) => chunk_total(chunks) <= usize::MAX,
            KindView::Data(chunks) => chunk_total(chunks) <= usize::MAX,
            KindView::Reserve(_) => true,
        }
}

/// The load command of each segment: code as `__TEXT`, readable and
/// executable; data and reserved bytes as `__DATA`, readable and writable;
/// each sized by the bytes it holds, reserved bytes taking no room in the
/// file.
pub fn segments(list: &Vec<Segment>) -> (r: Vec<SegmentCommand>)
    requires
        sizes_fit(segments_view(list@)),
    ensures
        r@.len() == list@.len(),
        forall|i: int|
            #![trigger r@[i]]
            0 <= i < r@.len() ==> command_of(r@[i], list[i]@, 0),
{
    let text: [u8; 6] = [0x5f, 0x5f, 0x54, 0x45, 0x58, 0x54];
    let data_text: [u8; 6] = [0x5f, 0x5f, 0x44, 0x41, 0x54, 0x41];
    proof {
        assert(text@ =~= text_name());
        assert(data_text@ =~= data_name());
        assert(0u32 | (4u32 | 1u32) == 5u32) by (bit_vector);
        assert(0u32 | (1u32 | 2u32) == 3u32) by (bit_vector);
        assert(4u32 | 1u32 == 5u32) by (bit_vector);
        assert(1u32 | 2u32 == 3u32) by (bit_vector);
        assert(0u32 | 5u32 == 5u32) by (bit_vector);
        assert(0u32 | 3u32 == 3u32) by (bit_vector);
    }
    let executable = vm_prot_execute() | vm_prot_read();
    let writable = vm_prot_read() | vm_prot_write();
    let n = list.len();
    let mut out: Vec<SegmentCommand> = Vec::new();
    let mut i: usize = 0;
    while i < n
        invariant
            n == list@.len(),
            i <= n,
            sizes_fit(segments_view(list@)),
            text@ == text_name(),
            data_text@ == data_name(),
            executable == 5,
            writable == 3,
            0u32 | executable == 5,
            0u32 | writable == 3,
            out@.len() == i,
            forall|j: int|
                #![trigger out@[j]]
                0 <= j < i ==> command_of(out@[j], list[j]@, 0),
        decreases n - i,
    {
        let segment = &list[i];
        proof {
            assert(segments_view(list@)[i as int] == segment@);
        }
        let command = match &segment.kind {
            SegmentKind::Text(data) => {
                let size = total_length(data) as u64;
                let built = BinarySegment::default().name(name_bytes(&text)).address(
                    segment.address as u64,
                ).size(size).file_size(size).protections(executable).build();
                proof {
                    assert(built.segname@ =~= padded(text_name()));
                }
                built
            },
            SegmentKind::Data(data) => {
                let size = total_length(data) as u64;
                let built = BinarySegment::default().name(name_bytes(&data_text)).address(
                    segment.address as u64,
                ).size(size).file_size(size).protections(writable).build();
                proof {
                    assert(built.segname@ =~= padded(data_name()));
                }
                built
            },
            SegmentKind::Reserve(size) => {
                let built = BinarySegment::default().name(name_bytes(&data_text)).address(
                    segment.address as u64,
                ).size(*size as u64).file_size(0).protections(writable).build();
                proof {
                    assert(built.segname@ =~= padded(data_name()));
                }
                built
            },
        };
        proof {
            assert(command_of(command, list@[i as int]@, 0));
        }
        out.push(command);
        i = i + 1;
    }
    out
}

} // verus!

verus! {

/// A placement from `start` never ends before `start`, and ends after the
/// payload of every segment.
proof fn lemma_placement_bounds(segments: Seq<SegmentView>, start: int, i: int)
    requires
        0 <= i <= segments.len(),
        start >= 0,
    ensures
        start <= placement(segments.take(i), start).end <= placement(segments, start).end,
        placement(segments.take(i), start).offsets.len() == i,
        placement(segments.take(i), start).body.len() == placement(segments.take(i), start).end
            - start,
    decreases segments.len() - i,
{
    if i < segments.len() {
        lemma_placement_bounds(segments, start, i + 1);
        assert(segments.take(i + 1).drop_last() =~= segments.take(i));
    } else {
        assert(segments.take(i) =~= segments);
        lemma_placement_grows(segments, start);
    }
}

/// A placement never ends before it starts, has one offset per segment, and
/// its body spans from the start to the end.
proof fn lemma_placement_grows(segments: Seq<SegmentView>, start: int)
    requires
        start >= 0,
    ensures
        start <= placement(segments, start).end,
        placement(segments, start).offsets.len() == segments.len(),
        placement(segments, start).body.len() == placement(segments, start).end - start,
    decreases segments.len(),
{
    if segments.len() > 0 {
        lemma_placement_grows(segments.drop_last(), start);
    }
}

/// Stores a segment's bytes in the file body from the next page boundary.
fn place_segment(segment: &Segment, offset: &mut usize, bytes: &mut Vec<u8>) -> (r: usize)
    requires
        ceiling(*old(offset) as int) + payload(segment@).len() + PAGE_SIZE <= usize::MAX,
    ensures
        r == ceiling(*old(offset) as int),
        *final(offset) == r + payload(segment@).len(),
        final(bytes)@ == old(bytes)@ + zeros(r - *old(offset)) + payload(segment@),
{
    proof {
        assert(ceiling(*offset as int) >= *offset);
    }
    fill_page(offset, bytes);
    let placed = *offset;
    match &segment.kind {
        SegmentKind::Text(data) | SegmentKind::Data(data) => {
            let ghost chunks = chunks_view(data@);
            let ghost head = bytes@;
            let n = data.len();
            let mut j: usize = 0;
            proof {
                assert(chunks.take(0) =~= Seq::<Seq<u8>>::empty());
                assert(bytes@ =~= head + flatten(chunks.take(0)));
                lemma_flatten_length(chunks);
            }
            while j < n
                invariant
                    n == data@.len(),
                    chunks == chunks_view(data@),
                    j <= n,
                    bytes@ == head + flatten(chunks.take(j as int)),
                    *offset == placed + flatten(chunks.take(j as int)).len(),
                    placed + flatten(chunks).len() + PAGE_SIZE <= usize::MAX,
                decreases n - j,
            {
                proof {
                    assert(chunks.take(j + 1).drop_last() =~= chunks.take(j as int));
                    assert(chunks.take(j + 1).last() == data@[j as int]@);
                    lemma_flatten_prefix(chunks, j as int + 1);
                }
                append_copy(bytes, &data[j]);
                *offset = *offset + data[j].len();
                proof {
                    assert(bytes@ =~= head + flatten(chunks.take(j + 1)));
                }
                j = j + 1;
            }
            proof {
                assert(chunks.take(n as int) =~= chunks);
            }
        },
        SegmentKind::Reserve(_) => {
            assert(bytes@ =~= bytes@ + Seq::<u8>::empty());
        },
    }
    placed
}

/// Joined prefixes of buffers are no longer than all of them joined.
proof fn lemma_flatten_prefix(chunks: Seq<Seq<u8>>, i: int)
    requires
        0 <= i <= chunks.len(),
    ensures
        flatten(chunks.take(i)).len() <= flatten(chunks).len(),
    decreases chunks.len() - i,
{
    if i < chunks.len() {
        lemma_flatten_prefix(chunks, i + 1);
        assert(chunks.take(i + 1).drop_last() =~= chunks.take(i));
    } else {
        assert(chunks.take(i) =~= chunks);
    }
}

/// The bytes of commands placed one by one are the placed commands of the
/// segments.
proof fn lemma_placed_commands(commands: Seq<SegmentCommand>, segments: Seq<SegmentView>, offsets: Seq<int>)
    requires
        commands.len() == segments.len(),
        offsets.len() == segments.len(),
        forall|i: int| 0 <= i < commands.len() ==> command_of(#[trigger] commands[i], segments[i], offsets[i]),
    ensures
        commands_concat(commands) == placed_commands(segments, offsets),
    decreases commands.len(),
{
    if commands.len() > 0 {
        let n = commands.len() - 1;
        assert forall|i: int| 0 <= i < commands.drop_last().len() implies command_of(
            #[trigger] commands.drop_last()[i],
            segments.drop_last()[i],
            offsets.drop_last()[i],
        ) by {
            assert(command_of(commands[i], segments[i], offsets[i]));
        }
        lemma_placed_commands(commands.drop_last(), segments.drop_last(), offsets.drop_last());
        assert(command_of(commands[n], segments[n], offsets[n]));
        assert(segment_command_bytes(commands.last()) =~= segment_bytes(segments.last(), offsets.last()));
    }
}

} // verus!

verus! {

/// Writes the executable Mach-O image of the segments for x86-64, starting
/// execution at address `0x100000`: see `image` for the layout.
#[verifier::spinoff_prover]
#[verifier::rlimit(40)]
pub fn compile(segments: Vec<Segment>) -> (r: Vec<u8>)
    requires
        compilable(segments_view(segments@)),
    ensures
        r@ == image(segments_view(segments@)),
{
    let ghost views = segments_view(segments@);
    let n = segments.len();
    let ghost length = commands_length(n as int);
    let ghost start = 32 + length;
    proof {
        lemma_placement_grows(views, start);
        assert forall|i: int| 0 <= i < views.len() implies match #[trigger] views[i].kind {
            KindView::Text(chunks) => chunk_total(chunks) <= usize::MAX,
            KindView::Data(chunks) => chunk_total(chunks) <= usize::MAX,
            KindView::Reserve(_) => true,
        } by {
            lemma_placement_bounds(views, start, i);
            lemma_placement_bounds(views, start, i + 1);
            assert(views.take(i + 1).drop_last() =~= views.take(i));
            assert(views.take(i + 1).last() == views[i]);
            match views[i].kind {
                KindView::Text(chunks) => lemma_flatten_length(chunks),
                KindView::Data(chunks) => lemma_flatten_length(chunks),
                KindView::Reserve(_) => {},
            }
        }
    }
    let entry: u64 = 1024 * 1024;
    let thread = UnixThreadCommand::new(entry);
    let binary_segments = self::segments(&segments);
    let mut commands = LoadCommands::new(binary_segments, thread);
    proof {
        lemma_commands_size_all(commands.segments@);
    }
    let (size, command_count) = commands.size_count();
    let mut bytes: Vec<u8> = Vec::new();
    let mut offset: usize = sizeof_header_64() + size as usize;
    commands.header.filesize = offset as u64;
    commands.header.vmsize = offset as u64;
    let mut offsets: Vec<usize> = Vec::new();
    let mut i: usize = 0;
    proof {
        assert(views.take(0) =~= Seq::<SegmentView>::empty());
        assert(bytes@ =~= placement(views.take(0), start).body);
    }
    while i < n
        invariant
            n == segments@.len(),
            views == segments_view(segments@),
            i <= n,
            start == 32 + commands_length(n as int),
            placement(views, start).end + PAGE_SIZE <= usize::MAX,
            bytes@ == placement(views.take(i as int), start).body,
            offset == placement(views.take(i as int), start).end,
            offsets@.len() == i,
            forall|j: int|
                0 <= j < i ==> #[trigger] offsets@[j] == placement(views.take(i as int), start).offsets[j],
        decreases n - i,
    {
        proof {
            lemma_placement_bounds(views, start, i as int);
            lemma_placement_bounds(views, start, i as int + 1);
            assert(views.take(i + 1).drop_last() =~= views.take(i as int));
            assert(views.take(i + 1).last() == segments@[i as int]@);
        }
        let placed = place_segment(&segments[i], &mut offset, &mut bytes);
        offsets.push(placed);
        proof {
            let p = placement(views.take(i as int), start);
            let q = placement(views.take(i + 1), start);
            assert(bytes@ =~= q.body);
            assert forall|j: int| 0 <= j < i + 1 implies #[trigger] offsets@[j] == q.offsets[j] by {
                if j < i {
                    assert(q.offsets[j] == p.offsets[j]);
                }
            }
        }
        i = i + 1;
    }
    proof {
        assert(views.take(n as int) =~= views);
        lemma_placement_grows(views, start);
    }
    let ghost placed_end = offset;
    let ghost body = bytes@;
    fill_page(&mut offset, &mut bytes);
    let mut placed_commands: Vec<SegmentCommand> = Vec::new();
    let mut k: usize = 0;
    while k < n
        invariant
            n == commands.segments@.len(),
            n == offsets@.len(),
            n == views.len(),
            k <= n,
            placed_commands@.len() == k,
            forall|j: int|
                #![trigger commands.segments@[j]]
                0 <= j < n ==> command_of(commands.segments@[j], views[j], 0),
            forall|j: int| 0 <= j < n ==> #[trigger] offsets@[j] == placement(views, start).offsets[j],
            forall|j: int|
                0 <= j < k ==> command_of(
                    #[trigger] placed_commands@[j],
                    views[j],
                    placement(views, start).offsets[j],
                ),
        decreases n - k,
    {
        let mut command = commands.segments[k];
        command.fileoff = offsets[k] as u64;
        proof {
            assert(command_of(commands.segments@[k as int], views[k as int], 0));
        }
        placed_commands.push(command);
        k = k + 1;
    }
    commands.segments = placed_commands;
    proof {
        lemma_placed_commands(commands.segments@, views, placement(views, start).offsets);
    }
    let header = MachHeader {
        magic: mh_magic_64(),
        cputype: cpu_type_x86_64(),
        cpusubtype: cpu_subtype_x86_64_all(),
        filetype: mh_execute(),
        ncmds: command_count as u32,
        sizeofcmds: size,
        flags: mh_noundefs(),
        reserved: 0,
    };
    let mut target = encode_header(&header);
    let ghost thread_view = commands.thread;
    let ghost zero = commands.zero;
    let ghost text = commands.header;
    commands.write(&mut target);
    target.append(&mut bytes);
    proof {
        assert(segment_command_bytes(zero) =~= command_bytes(pagezero_name(), 0, PAGE_SIZE as u64, 0, 0, 0));
        assert(segment_command_bytes(text) =~= command_bytes(text_name(), PAGE_SIZE as u64, start as u64, 0, start as u64, 5));
        assert(thread_command_bytes(thread_view) =~= le32(0x5) + le32(184) + le32(4) + le32(42)
            + state_bytes(thread_state(entry_address())));
        assert(target@ =~= image(views));
    }
    target
}

/// Every command of the list is a segment command of 72 bytes.
proof fn lemma_commands_size_all(commands: Seq<SegmentCommand>)
    requires
        forall|i: int| 0 <= i < commands.len() ==> (#[trigger] commands[i]).cmdsize == 72,
    ensures
        commands_size(commands) == 72 * commands.len(),
    decreases commands.len(),
{
    if commands.len() > 0 {
        lemma_commands_size_all(commands.drop_last());
    }
}

} // verus!

verus! {

use crate::binary::lemma_le_bytes_len;

/// The registers of a thread state take eight bytes each.
proof fn lemma_state_bytes_len(state: Seq<u64>)
    ensures
        state_bytes(state).len() == 8 * state.len(),
    decreases state.len(),
{
    if state.len() > 0 {
        lemma_state_bytes_len(state.drop_last());
        lemma_le_bytes_len(state.last() as nat, 8);
    }
}

/// A segment command takes 72 bytes.
proof fn lemma_command_bytes_len(
    name: Seq<u8>,
    vmaddr: u64,
    vmsize: u64,
    fileoff: u64,
    filesize: u64,
    protections: u32,
)
    requires
        name.len() <= 16,
    ensures
        command_bytes(name, vmaddr, vmsize, fileoff, filesize, protections).len() == 72,
{
    lemma_le_bytes_len(0x19, 4);
    lemma_le_bytes_len(72, 4);
    lemma_le_bytes_len(vmaddr as nat, 8);
    lemma_le_bytes_len(vmsize as nat, 8);
    lemma_le_bytes_len(fileoff as nat, 8);
    lemma_le_bytes_len(filesize as nat, 8);
    lemma_le_bytes_len(protections as nat, 4);
    lemma_le_bytes_len(0, 4);
}

/// The load commands of the segments take 72 bytes each.
proof fn lemma_placed_commands_len(segments: Seq<SegmentView>, offsets: Seq<int>)
    requires
        offsets.len() == segments.len(),
    ensures
        placed_commands(segments, offsets).len() == 72 * segments.len(),
    decreases segments.len(),
{
    if segments.len() > 0 {
        lemma_placed_commands_len(segments.drop_last(), offsets.drop_last());
        let s = segments.last();
        let o = offsets.last();
        match s.kind {
            KindView::Text(c) => lemma_command_bytes_len(text_name(), s.address as u64, chunk_total(c) as u64, o as u64, chunk_total(c) as u64, 5),
            KindView::Data(c) => lemma_command_bytes_len(data_name(), s.address as u64, chunk_total(c) as u64, o as u64, chunk_total(c) as u64, 3),
            KindView::Reserve(n) => lemma_command_bytes_len(data_name(), s.address as u64, n as u64, o as u64, 0, 3),
        }
    }
}

/// Everything before the file body of the image: the header and the load
/// commands, which end where the body starts.
pub open spec fn image_head(segments: Seq<SegmentView>) -> Seq<u8> {
    let size = commands_length(segments.len() as int);
    let start = 32 + size;
    let placed = placement(segments, start);
    let header = MachHeader {
        magic: 0xfeed_facf,
        cputype: 0x0100_0007,
        cpusubtype: 3,
        filetype: 2,
        ncmds: (segments.len() + 3) as u32,
        sizeofcmds: size as u32,
        flags: 1,
        reserved: 0,
    };
    header_bytes(header) + command_bytes(pagezero_name(), 0, PAGE_SIZE as u64, 0, 0, 0)
        + command_bytes(text_name(), PAGE_SIZE as u64, start as u64, 0, start as u64, 5)
        + placed_commands(segments, placed.offsets) + le32(0x5) + le32(184) + le32(4) + le32(42)
        + state_bytes(thread_state(entry_address()))
}

/// The header and load commands of an image take exactly the room that the
/// header declares for them: the header's 32 bytes and the size of the
/// commands; the segments' bytes follow right after.
pub proof fn lemma_image_head_len(segments: Seq<SegmentView>)
    ensures
        image_head(segments).len() == 32 + commands_length(segments.len() as int),
        image(segments) == image_head(segments) + placement(
            segments,
            32 + commands_length(segments.len() as int),
        ).body + zeros(
            ceiling(placement(segments, 32 + commands_length(segments.len() as int)).end)
                - placement(segments, 32 + commands_length(segments.len() as int)).end,
        ),
{
    let size = commands_length(segments.len() as int);
    let start = 32 + size;
    let placed = placement(segments, start);
    lemma_placement_grows(segments, start);
    lemma_le_bytes_len(0xfeed_facf, 4);
    lemma_le_bytes_len(0x0100_0007, 4);
    lemma_le_bytes_len(3, 4);
    lemma_le_bytes_len(2, 4);
    lemma_le_bytes_len(((segments.len() + 3) as u32) as nat, 4);
    lemma_le_bytes_len((size as u32) as nat, 4);
    lemma_le_bytes_len(1, 4);
    lemma_le_bytes_len(0, 4);
    lemma_le_bytes_len(0x5, 4);
    lemma_le_bytes_len(184, 4);
    lemma_le_bytes_len(4, 4);
    lemma_le_bytes_len(42, 4);
    lemma_command_bytes_len(pagezero_name(), 0, PAGE_SIZE as u64, 0, 0, 0);
    lemma_command_bytes_len(text_name(), PAGE_SIZE as u64, start as u64, 0, start as u64, 5);
    lemma_placed_commands_len(segments, placed.offsets);
    lemma_state_bytes_len(thread_state(entry_address()));
}

/// A page boundary is at or after the offset and less than a page past it.
proof fn lemma_ceiling(offset: int)
    requires
        offset >= 0,
    ensures
        offset <= ceiling(offset) < offset + PAGE_SIZE,
        ceiling(offset) % (PAGE_SIZE as int) == 0,
{
}

/// Placing a prefix of the segments places them where the whole placement
/// does: its offsets and its body are prefixes of the whole one's.
proof fn lemma_placement_prefix(segments: Seq<SegmentView>, start: int, i: int)
    requires
        0 <= i <= segments.len(),
        start >= 0,
    ensures
        placement(segments.take(i), start).offsets == placement(segments, start).offsets.take(i),
        placement(segments.take(i), start).body.len() <= placement(segments, start).body.len(),
        placement(segments.take(i), start).body == placement(segments, start).body.take(
            placement(segments.take(i), start).body.len() as int,
        ),
    decreases segments.len(),
{
    let p = placement(segments.take(i), start);
    let w = placement(segments, start);
    lemma_placement_grows(segments, start);
    lemma_placement_grows(segments.take(i), start);
    if i == segments.len() {
        assert(segments.take(i) =~= segments);
        assert(w.offsets.take(i) =~= w.offsets);
        assert(w.body.take(w.body.len() as int) =~= w.body);
    } else {
        let rest = segments.drop_last();
        lemma_placement_prefix(rest, start, i);
        assert(rest.take(i) =~= segments.take(i));
        let r = placement(rest, start);
        lemma_placement_grows(rest, start);
        assert(w.offsets.take(i) =~= r.offsets.take(i));
        assert(w.body.take(p.body.len() as int) =~= r.body.take(p.body.len() as int));
    }
}

/// The image is a whole number of pages; every segment stored in the file
/// starts at a page boundary, and the image holds the segment's bytes
/// there: reading the image at a segment's file offset gives back what the
/// segment stores.
pub proof fn lemma_image_layout(segments: Seq<SegmentView>, i: int)
    requires
        0 <= i < segments.len(),
    ensures
        image(segments).len() as int % (PAGE_SIZE as int) == 0,
        ({
            let offset = placement(segments, 32 + commands_length(segments.len() as int)).offsets[i];
            &&& offset % (PAGE_SIZE as int) == 0
            &&& image(segments).subrange(offset, offset + payload(segments[i]).len()) == payload(
                segments[i],
            )
        }),
{
    let start = 32 + commands_length(segments.len() as int);
    let whole = placement(segments, start);
    lemma_image_head_len(segments);
    lemma_placement_grows(segments, start);
    lemma_ceiling(whole.end);
    lemma_placement_prefix(segments, start, i + 1);
    lemma_placement_grows(segments.take(i), start);
    assert(segments.take(i + 1).drop_last() =~= segments.take(i));
    assert(segments.take(i + 1).last() == segments[i]);
    let p = placement(segments.take(i), start);
    let q = placement(segments.take(i + 1), start);
    lemma_ceiling(p.end);
    let offset = whole.offsets[i];
    assert(q.offsets[i] == whole.offsets.take(i + 1)[i]);
    assert(offset == ceiling(p.end));
    let data = payload(segments[i]);
    let head = image_head(segments);
    let image_bytes = image(segments);
    assert(image_bytes == head + whole.body + zeros(ceiling(whole.end) - whole.end));
    assert forall|k: int| 0 <= k < data.len() implies image_bytes[offset + k] == data[k] by {
        let at = offset - start + k;
        assert(q.body[at] == data[k]);
        assert(whole.body[at] == whole.body.take(q.body.len() as int)[at]);
        assert(image_bytes[offset + k] == whole.body[at]);
    }
    assert(image_bytes.subrange(offset, offset + data.len()) =~= data);
}

} // verus!

//! The Mach-O on-disk structures, with bit-exact little-endian serializers.

use vstd::prelude::*;

verus! {

/// The four bytes of `x` in little-endian order.
pub open spec fn le4(x: u32) -> Seq<u8> {
    seq![
        (x & 0xff) as u8,
        ((x >> 8) & 0xff) as u8,
        ((x >> 16) & 0xff) as u8,
        ((x >> 24) & 0xff) as u8,
    ]
}

/// The eight bytes of `x` in little-endian order.
pub open spec fn le8(x: u64) -> Seq<u8> {
    seq![
        (x & 0xff) as u8,
        ((x >> 8) & 0xff) as u8,
        ((x >> 16) & 0xff) as u8,
        ((x >> 24) & 0xff) as u8,
        ((x >> 32) & 0xff) as u8,
        ((x >> 40) & 0xff) as u8,
        ((x >> 48) & 0xff) as u8,
        ((x >> 56) & 0xff) as u8,
    ]
}

/// Appends the four bytes of `x` in little-endian order.
pub fn put_u32(out: &mut Vec<u8>, x: u32)
    ensures
        final(out)@ == old(out)@ + le4(x),
{
    let b0: u8 = (x & 0xff) as u8;
    let b1: u8 = ((x >> 8) & 0xff) as u8;
    let b2: u8 = ((x >> 16) & 0xff) as u8;
    let b3: u8 = ((x >> 24) & 0xff) as u8;
    out.push(b0);
    out.push(b1);
    out.push(b2);
    out.push(b3);
    proof {
        assert(out@ =~= old(out)@ + le4(x));
    }
}

/// Appends the eight bytes of `x` in little-endian order.
pub fn put_u64(out: &mut Vec<u8>, x: u64)
    ensures
        final(out)@ == old(out)@ + le8(x),
{
    let b0: u8 = (x & 0xff) as u8;
    let b1: u8 = ((x >> 8) & 0xff) as u8;
    let b2: u8 = ((x >> 16) & 0xff) as u8;
    let b3: u8 = ((x >> 24) & 0xff) as u8;
    let b4: u8 = ((x >> 32) & 0xff) as u8;
    let b5: u8 = ((x >> 40) & 0xff) as u8;
    let b6: u8 = ((x >> 48) & 0xff) as u8;
    let b7: u8 = ((x >> 56) & 0xff) as u8;
    out.push(b0);
    out.push(b1);
    out.push(b2);
    out.push(b3);
    out.push(b4);
    out.push(b5);
    out.push(b6);
    out.push(b7);
    proof {
        assert(out@ =~= old(out)@ + le8(x));
    }
}

/// Appends a 16-byte name field.
pub fn put_name(out: &mut Vec<u8>, name: &[u8; 16])
    ensures
        final(out)@ == old(out)@ + name@,
        final(out)@.len() == old(out)@.len() + 16,
{
    let mut i: usize = 0;
    while i < 16
        invariant
            0 <= i <= 16,
            name@.len() == 16,
            out@ == old(out)@ + name@.take(i as int),
        decreases 16 - i,
    {
        out.push(name[i]);
        proof {
            assert(out@ =~= old(out)@ + name@.take(i + 1));
        }
        i += 1;
    }
    proof {
        assert(name@.take(16) =~= name@);
    }
}

/// The magic number telling the loader this is a Mach-O file, by word size.
#[derive(Debug, Clone, Copy, PartialEq, Eq, Structural)]
pub enum Magic {
    /// 32-bit architecture.
    X32,
    /// 64-bit architecture.
    X64,
}

impl Magic {
    pub open spec fn value_spec(self) -> u32 {
        match self {
            Magic::X32 => 0xfeedface,
            Magic::X64 => 0xfeedfacf,
        }
    }

    pub fn value(self) -> (r: u32)
        ensures
            r == self.value_spec(),
    {
        match self {
            Magic::X32 => 0xfeedface,
            Magic::X64 => 0xfeedfacf,
        }
    }
}

#[derive(Debug, Clone, Copy, PartialEq, Eq, Structural)]
pub enum CpuType {
    Arm64,
}

impl CpuType {
    pub open spec fn value_spec(self) -> u32 {
        0x0100000c
    }

    pub fn value(self) -> (r: u32)
        ensures
            r == self.value_spec(),
    {
        0x0100000c
    }
}

#[derive(Debug, Clone, Copy, PartialEq, Eq, Structural)]
pub enum CpuSubtype {
    Arm,
}

impl CpuSubtype {
    pub open spec fn value_spec(self) -> u32 {
        0
    }

    pub fn value(self) -> (r: u32)
        ensures
            r == self.value_spec(),
    {
        0
    }
}

#[derive(Debug, Clone, Copy, PartialEq, Eq, Structural)]
pub enum FileType {
    Execute,
}

impl FileType {
    pub open spec fn value_spec(self) -> u32 {
        2
    }

    pub fn value(self) -> (r: u32)
        ensures
            r == self.value_spec(),
    {
        2
    }
}

/// The load-command tags the builder uses.
#[derive(Debug, Clone, Copy, PartialEq, Eq, Structural)]
pub enum LoadCommand {
    Segment,
    EntryPoint,
    LoadDyLinker,
    CodeSignature,
    SymTab,
    DySymTab,
}

impl LoadCommand {
    pub open spec fn value_spec(self) -> u32 {
        match self {
            LoadCommand::Segment => 0x19,
            LoadCommand::EntryPoint => 0x80000028,
            LoadCommand::LoadDyLinker => 0xe,
            LoadCommand::CodeSignature => 0x1d,
            LoadCommand::SymTab => 0x2,
            LoadCommand::DySymTab => 0xb,
        }
    }

    pub fn value(self) -> (r: u32)
        ensures
            r == self.value_spec(),
    {
        match self {
            LoadCommand::Segment => 0x19,
            LoadCommand::EntryPoint => 0x80000028,
            LoadCommand::LoadDyLinker => 0xe,
            LoadCommand::CodeSignature => 0x1d,
            LoadCommand::SymTab => 0x2,
            LoadCommand::DySymTab => 0xb,
        }
    }
}

/// Header flag bits, combined by addition of disjoint powers of two.
#[derive(Debug, Clone, Copy, PartialEq, Eq, Structural)]
pub struct HeaderFlags(pub u32);

/// The dynamic linker is required.
pub const FLAG_DYLD_LINK: u32 = 0x4;

/// Position-independent executable.
pub const FLAG_PIE: u32 = 0x200000;

/// Segment permission bits.
#[derive(Debug, Clone, Copy, PartialEq, Eq, Structural)]
pub struct MemoryPermissions(pub u32);

pub const PROT_READ: u32 = 0x1;

pub const PROT_WRITE: u32 = 0x2;

pub const PROT_EXECUTE: u32 = 0x4;

pub const CSMAGIC_EMBEDDED_SIGNATURE: u32 = 0xfade0cc0;

/// The Mach-O header, located at the top.
#[derive(Debug, Clone, Copy)]
pub struct Header {
    pub magic: Magic,
    pub cpu_type: CpuType,
    pub cpu_subtype: CpuSubtype,
    pub file_type: FileType,
    pub load_cmd_count: u32,
    pub load_cmd_size: u32,
    pub flags: HeaderFlags,
    pub reserved: u32,
}

impl Header {
    /// The exact bytes this structure serializes to.
    pub open spec fn bytes_spec(self) -> Seq<u8> {
        le4(self.magic.value_spec()) + le4(self.cpu_type.value_spec()) + le4(self.cpu_subtype.value_spec()) + le4(self.file_type.value_spec()) + le4(self.load_cmd_count) + le4(self.load_cmd_size) + le4(self.flags.0) + le4(self.reserved)
    }

    /// Appends this structure's bytes.
    pub fn put(&self, out: &mut Vec<u8>)
        ensures
            final(out)@ == old(out)@ + self.bytes_spec(),
    {
        put_u32(out, self.magic.value());
        put_u32(out, self.cpu_type.value());
        put_u32(out, self.cpu_subtype.value());
        put_u32(out, self.file_type.value());
        put_u32(out, self.load_cmd_count);
        put_u32(out, self.load_cmd_size);
        put_u32(out, self.flags.0);
        put_u32(out, self.reserved);
        proof {
            assert(out@ =~= old(out)@ + self.bytes_spec());
        }
    }
}

/// A 64-bit segment load command.
#[derive(Debug, Clone, Copy)]
pub struct SegmentCommand {
    pub command: LoadCommand,
    pub command_size: u32,
    pub segment_name: [u8; 16],
    pub vmaddr: u64,
    pub vmsize: u64,
    pub file_offset: u64,
    pub file_size: u64,
    pub max_prot: MemoryPermissions,
    pub init_prot: MemoryPermissions,
    pub section_count: u32,
    pub flags: u32,
}

impl SegmentCommand {
    /// The exact bytes this structure serializes to.
    pub open spec fn bytes_spec(self) -> Seq<u8> {
        le4(self.command.value_spec()) + le4(self.command_size) + self.segment_name@ + le8(self.vmaddr) + le8(self.vmsize) + le8(self.file_offset) + le8(self.file_size) + le4(self.max_prot.0) + le4(self.init_prot.0) + le4(self.section_count) + le4(self.flags)
    }

    /// Appends this structure's bytes.
    pub fn put(&self, out: &mut Vec<u8>)
        ensures
            final(out)@ == old(out)@ + self.bytes_spec(),
    {
        put_u32(out, self.command.value());
        put_u32(out, self.command_size);
        put_name(out, &self.segment_name);
        put_u64(out, self.vmaddr);
        put_u64(out, self.vmsize);
        put_u64(out, self.file_offset);
        put_u64(out, self.file_size);
        put_u32(out, self.max_prot.0);
        put_u32(out, self.init_prot.0);
        put_u32(out, self.section_count);
        put_u32(out, self.flags);
        proof {
            assert(out@ =~= old(out)@ + self.bytes_spec());
        }
    }
}

/// A 64-bit section header inside a segment.
#[derive(Debug, Clone, Copy)]
pub struct SectionHeader {
    pub section_name: [u8; 16],
    pub segment_name: [u8; 16],
    pub addr: u64,
    pub size: u64,
    pub offset: u32,
    pub align: u32,
    pub reloff: u32,
    pub nreloc: u32,
    pub flags: u32,
    pub reserved1: u32,
    pub reserved2: u32,
    pub reserved3: u32,
}

impl SectionHeader {
    /// The exact bytes this structure serializes to.
    pub open spec fn bytes_spec(self) -> Seq<u8> {
        self.section_name@ + self.segment_name@ + le8(self.addr) + le8(self.size) + le4(self.offset) + le4(self.align) + le4(self.reloff) + le4(self.nreloc) + le4(self.flags) + le4(self.reserved1) + le4(self.reserved2) + le4(self.reserved3)
    }

    /// Appends this structure's bytes.
    pub fn put(&self, out: &mut Vec<u8>)
        ensures
            final(out)@ == old(out)@ + self.bytes_spec(),
    {
        put_name(out, &self.section_name);
        put_name(out, &self.segment_name);
        put_u64(out, self.addr);
        put_u64(out, self.size);
        put_u32(out, self.offset);
        put_u32(out, self.align);
        put_u32(out, self.reloff);
        put_u32(out, self.nreloc);
        put_u32(out, self.flags);
        put_u32(out, self.reserved1);
        put_u32(out, self.reserved2);
        put_u32(out, self.reserved3);
        proof {
            assert(out@ =~= old(out)@ + self.bytes_spec());
        }
    }
}

/// The `LC_MAIN` command: where execution starts.
#[derive(Debug, Clone, Copy)]
pub struct EntryPointCommand {
    pub command: LoadCommand,
    pub command_size: u32,
    pub main_offset: u64,
    pub stack_size: u64,
}

impl EntryPointCommand {
    /// The exact bytes this structure serializes to.
    pub open spec fn bytes_spec(self) -> Seq<u8> {
        le4(self.command.value_spec()) + le4(self.command_size) + le8(self.main_offset) + le8(self.stack_size)
    }

    /// Appends this structure's bytes.
    pub fn put(&self, out: &mut Vec<u8>)
        ensures
            final(out)@ == old(out)@ + self.bytes_spec(),
    {
        put_u32(out, self.command.value());
        put_u32(out, self.command_size);
        put_u64(out, self.main_offset);
        put_u64(out, self.stack_size);
        proof {
            assert(out@ =~= old(out)@ + self.bytes_spec());
        }
    }
}

/// The dynamic-linker command; the path string follows it.
#[derive(Debug, Clone, Copy)]
pub struct DyLinkerCommand {
    pub command: LoadCommand,
    pub command_size: u32,
    pub path_str_offset: u32,
}

impl DyLinkerCommand {
    /// The exact bytes this structure serializes to.
    pub open spec fn bytes_spec(self) -> Seq<u8> {
        le4(self.command.value_spec()) + le4(self.command_size) + le4(self.path_str_offset)
    }

    /// Appends this structure's bytes.
    pub fn put(&self, out: &mut Vec<u8>)
        ensures
            final(out)@ == old(out)@ + self.bytes_spec(),
    {
        put_u32(out, self.command.value());
        put_u32(out, self.command_size);
        put_u32(out, self.path_str_offset);
        proof {
            assert(out@ =~= old(out)@ + self.bytes_spec());
        }
    }
}

/// A link-edit data command, used for the code signature.
#[derive(Debug, Clone, Copy)]
pub struct LinkEditDataCommand {
    pub command: LoadCommand,
    pub command_size: u32,
    pub data_offset: u32,
    pub data_size: u32,
}

impl LinkEditDataCommand {
    /// The exact bytes this structure serializes to.
    pub open spec fn bytes_spec(self) -> Seq<u8> {
        le4(self.command.value_spec()) + le4(self.command_size) + le4(self.data_offset) + le4(self.data_size)
    }

    /// Appends this structure's bytes.
    pub fn put(&self, out: &mut Vec<u8>)
        ensures
            final(out)@ == old(out)@ + self.bytes_spec(),
    {
        put_u32(out, self.command.value());
        put_u32(out, self.command_size);
        put_u32(out, self.data_offset);
        put_u32(out, self.data_size);
        proof {
            assert(out@ =~= old(out)@ + self.bytes_spec());
        }
    }
}

/// The symbol-table command.
#[derive(Debug, Clone, Copy)]
pub struct SymTabCommand {
    pub command: LoadCommand,
    pub command_size: u32,
    pub symoff: u32,
    pub nsyms: u32,
    pub stroff: u32,
    pub strsize: u32,
}

impl SymTabCommand {
    /// The exact bytes this structure serializes to.
    pub open spec fn bytes_spec(self) -> Seq<u8> {
        le4(self.command.value_spec()) + le4(self.command_size) + le4(self.symoff) + le4(self.nsyms) + le4(self.stroff) + le4(self.strsize)
    }

    /// Appends this structure's bytes.
    pub fn put(&self, out: &mut Vec<u8>)
        ensures
            final(out)@ == old(out)@ + self.bytes_spec(),
    {
        put_u32(out, self.command.value());
        put_u32(out, self.command_size);
        put_u32(out, self.symoff);
        put_u32(out, self.nsyms);
        put_u32(out, self.stroff);
        put_u32(out, self.strsize);
        proof {
            assert(out@ =~= old(out)@ + self.bytes_spec());
        }
    }
}

/// The dynamic symbol-table command.
#[derive(Debug, Clone, Copy)]
pub struct DySymTabCommand {
    pub command: LoadCommand,
    pub command_size: u32,
    pub ilocalsym: u32,
    pub nlocalsym: u32,
    pub iextdefsym: u32,
    pub nextdefsym: u32,
    pub iundefsym: u32,
    pub nundefsym: u32,
    pub tocoff: u32,
    pub ntoc: u32,
    pub modtaboff: u32,
    pub nmodtab: u32,
    pub extrefsymoff: u32,
    pub nextrefsyms: u32,
    pub indirectsymoff: u32,
    pub nindirectsyms: u32,
    pub extreloff: u32,
    pub nextrel: u32,
    pub locreloff: u32,
    pub nlocrel: u32,
}

impl DySymTabCommand {
    /// The exact bytes this structure serializes to.
    pub open spec fn bytes_spec(self) -> Seq<u8> {
        le4(self.command.value_spec()) + le4(self.command_size) + le4(self.ilocalsym) + le4(self.nlocalsym) + le4(self.iextdefsym) + le4(self.nextdefsym) + le4(self.iundefsym) + le4(self.nundefsym) + le4(self.tocoff) + le4(self.ntoc) + le4(self.modtaboff) + le4(self.nmodtab) + le4(self.extrefsymoff) + le4(self.nextrefsyms) + le4(self.indirectsymoff) + le4(self.nindirectsyms) + le4(self.extreloff) + le4(self.nextrel) + le4(self.locreloff) + le4(self.nlocrel)
    }

    /// Appends this structure's bytes.
    pub fn put(&self, out: &mut Vec<u8>)
        ensures
            final(out)@ == old(out)@ + self.bytes_spec(),
    {
        put_u32(out, self.command.value());
        put_u32(out, self.command_size);
        put_u32(out, self.ilocalsym);
        put_u32(out, self.nlocalsym);
        put_u32(out, self.iextdefsym);
        put_u32(out, self.nextdefsym);
        put_u32(out, self.iundefsym);
        put_u32(out, self.nundefsym);
        put_u32(out, self.tocoff);
        put_u32(out, self.ntoc);
        put_u32(out, self.modtaboff);
        put_u32(out, self.nmodtab);
        put_u32(out, self.extrefsymoff);
        put_u32(out, self.nextrefsyms);
        put_u32(out, self.indirectsymoff);
        put_u32(out, self.nindirectsyms);
        put_u32(out, self.extreloff);
        put_u32(out, self.nextrel);
        put_u32(out, self.locreloff);
        put_u32(out, self.nlocrel);
        proof {
            assert(out@ =~= old(out)@ + self.bytes_spec());
        }
    }
}

} // verus!

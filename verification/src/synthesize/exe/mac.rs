//! The Mach-O executable image for Apple silicon.
//!
//! The layout is fixed: header, `__PAGEZERO`, `__TEXT` with one `__text`
//! section, `LC_MAIN`, the dynamic-linker command, `__LINKEDIT`, the
//! code-signature command, the two symbol-table commands, then the machine
//! code at byte 504, padding to a page boundary, and a minimal signature
//! superblob. Code signing proper and writing the file to disk happen
//! outside the verified core.

use vstd::prelude::*;

use crate::synthesize::arch::MachineCode;
use crate::synthesize::exe::mac::mach_o::{
    le8, put_u32, CpuSubtype, CpuType, DyLinkerCommand, DySymTabCommand, EntryPointCommand,
    FileType, Header, HeaderFlags, LinkEditDataCommand, LoadCommand, Magic, MemoryPermissions,
    SectionHeader, SegmentCommand, SymTabCommand, CSMAGIC_EMBEDDED_SIGNATURE, FLAG_DYLD_LINK,
    FLAG_PIE, PROT_EXECUTE, PROT_READ,
};

pub mod mach_o;

verus! {

/// The byte offset of the machine code inside the image: the header plus
/// the eight load commands.
pub const TEXT_DATA_OFFSET: usize = 504;

/// Rounds up to a multiple of `alignment`.
pub fn align(num: u64, alignment: u64) -> (r: u64)
    requires
        alignment > 0,
        num + alignment <= u64::MAX,
    ensures
        r % alignment == 0,
        num <= r < num + alignment,
{
    let overshoot = num % alignment;
    if overshoot == 0 {
        num
    } else {
        let r = num + (alignment - overshoot);
        proof {
            assert(r % alignment == 0) by (nonlinear_arith)
                requires
                    alignment > 0,
                    overshoot == num % alignment,
                    overshoot != 0,
                    r == num + (alignment - overshoot),
            ;
        }
        r
    }
}

/// Rounds up to a 16-KiB page boundary.
pub fn page_align(addr: u64) -> (r: u64)
    requires
        addr + 0x4000 <= u64::MAX,
    ensures
        r % 0x4000 == 0,
        addr <= r < addr + 0x4000,
{
    align(addr, 0x4000)
}

/// Builds Mach-O executable images. The identifier names the binary for
/// the signer that runs outside the verified core.
pub struct AppleExecutable {
    pub binary_identifier: Option<String>,
}

impl AppleExecutable {
    pub fn new(binary_identifier: Option<String>) -> (r: AppleExecutable)
        ensures
            r.binary_identifier == binary_identifier,
    {
        AppleExecutable { binary_identifier }
    }

    /// Lays out the whole unsigned executable image around the machine
    /// code: the code sits at its fixed offset, and the entry-point
    /// command points at the program entry within it.
    #[verifier::rlimit(100)]
    #[verifier::spinoff_prover]
    pub fn image(&self, code: &MachineCode) -> (r: Vec<u8>)
        requires
            code.instructions@.len() <= 0x10000000,
            code.entry_point_offset < 0x10000000,
        ensures
            r@.len() >= TEXT_DATA_OFFSET + code.instructions@.len() + 16,
            r@.len() % 0x4000 == 16,
            r@.subrange(
                TEXT_DATA_OFFSET as int,
                TEXT_DATA_OFFSET + code.instructions@.len(),
            ) == code.instructions@,
            r@.subrange(264, 272) == le8(
                (code.entry_point_offset + TEXT_DATA_OFFSET) as u64,
            ),
    {
        let code_len: u64 = code.instructions.len() as u64;
        let text_end: u64 = page_align(TEXT_DATA_OFFSET as u64 + code_len);
        let pagezero = SegmentCommand {
            command: LoadCommand::Segment,
            command_size: 72,
            segment_name: [
                95u8, 95u8, 80u8, 65u8, 71u8, 69u8, 90u8, 69u8, 82u8, 79u8, 0u8, 0u8, 0u8, 0u8,
                0u8, 0u8,
            ],
            vmaddr: 0x0,  // located at zero to catch null pointers
            vmsize: 0x100000000,  // blocks the lower 32-bit address space
            file_offset: 0x0,
            file_size: 0x0,
            max_prot: MemoryPermissions(0),
            init_prot: MemoryPermissions(0),
            section_count: 0,
            flags: 0,
        };
        let text_segment = SegmentCommand {
            command: LoadCommand::Segment,
            command_size: 152,
            segment_name: [
                95u8, 95u8, 84u8, 69u8, 88u8, 84u8, 0u8, 0u8, 0u8, 0u8, 0u8, 0u8, 0u8, 0u8, 0u8,
                0u8,
            ],
            vmaddr: 0x100000000,
            vmsize: text_end,
            file_offset: 0x0,
            file_size: text_end,
            max_prot: MemoryPermissions(PROT_READ | PROT_EXECUTE),
            init_prot: MemoryPermissions(PROT_READ | PROT_EXECUTE),
            section_count: 1,
            flags: 0,
        };
        let text_section = SectionHeader {
            section_name: [
                95u8, 95u8, 116u8, 101u8, 120u8, 116u8, 0u8, 0u8, 0u8, 0u8, 0u8, 0u8, 0u8, 0u8,
                0u8, 0u8,
            ],
            segment_name: [
                95u8, 95u8, 84u8, 69u8, 88u8, 84u8, 0u8, 0u8, 0u8, 0u8, 0u8, 0u8, 0u8, 0u8, 0u8,
                0u8,
            ],
            addr: 0x100000000,
            size: code_len,
            offset: TEXT_DATA_OFFSET as u32,
            align: 0x2,
            reloff: 0,
            nreloc: 0,
            flags: 0,
            reserved1: 0,
            reserved2: 0,
            reserved3: 0,
        };
        let entry_point = EntryPointCommand {
            command: LoadCommand::EntryPoint,
            command_size: 24,
            main_offset: code.entry_point_offset + TEXT_DATA_OFFSET as u64,
            stack_size: 0,
        };
        let dylinker = DyLinkerCommand {
            command: LoadCommand::LoadDyLinker,
            command_size: 32,
            path_str_offset: 12,
        };
        let linkedit = SegmentCommand {
            command: LoadCommand::Segment,
            command_size: 72,
            segment_name: [
                95u8, 95u8, 76u8, 73u8, 78u8, 75u8, 69u8, 68u8, 73u8, 84u8, 0u8, 0u8, 0u8, 0u8,
                0u8, 0u8,
            ],
            vmaddr: 0x100000000 + text_end,
            vmsize: 0x4000,
            file_offset: text_end,
            file_size: 16,
            max_prot: MemoryPermissions(0),
            init_prot: MemoryPermissions(0),
            section_count: 0,
            flags: 0,
        };
        let code_sig = LinkEditDataCommand {
            command: LoadCommand::CodeSignature,
            command_size: 16,
            data_offset: text_end as u32,
            data_size: 16,
        };
        let dysymtab = DySymTabCommand {
            command: LoadCommand::DySymTab,
            command_size: 80,
            ilocalsym: 0,
            nlocalsym: 0,
            iextdefsym: 0,
            nextdefsym: 0,
            iundefsym: 0,
            nundefsym: 0,
            tocoff: 0,
            ntoc: 0,
            modtaboff: 0,
            nmodtab: 0,
            extrefsymoff: 0,
            nextrefsyms: 0,
            indirectsymoff: 0,
            nindirectsyms: 0,
            extreloff: 0,
            nextrel: 0,
            locreloff: 0,
            nlocrel: 0,
        };
        let symtab = SymTabCommand {
            command: LoadCommand::SymTab,
            command_size: 24,
            symoff: 0,
            nsyms: 0,
            stroff: 0,
            strsize: 0,
        };
        let header = Header {
            magic: Magic::X64,
            cpu_type: CpuType::Arm64,
            cpu_subtype: CpuSubtype::Arm,
            file_type: FileType::Execute,
            load_cmd_count: 8,
            load_cmd_size: 472,
            flags: HeaderFlags(FLAG_PIE | FLAG_DYLD_LINK),
            reserved: 0,
        };
        let mut out: Vec<u8> = Vec::new();
        header.put(&mut out);
        pagezero.put(&mut out);
        text_segment.put(&mut out);
        text_section.put(&mut out);
        entry_point.put(&mut out);
        dylinker.put(&mut out);
        // "/usr/lib/dyld" padded to the command's 20 remaining bytes
        let path: [u8; 16] = [
            47u8, 117u8, 115u8, 114u8, 47u8, 108u8, 105u8, 98u8, 47u8, 100u8, 121u8, 108u8,
            100u8, 0u8, 0u8, 0u8,
        ];
        mach_o::put_name(&mut out, &path);
        put_u32(&mut out, 0);
        linkedit.put(&mut out);
        code_sig.put(&mut out);
        dysymtab.put(&mut out);
        symtab.put(&mut out);
        proof {
            assert(out@.len() == 504);
            assert(out@.subrange(264, 272) =~= le8(
                (code.entry_point_offset + TEXT_DATA_OFFSET) as u64,
            ));
        }
        let ghost commands = out@;
        // the machine code itself
        let ncode = code.instructions.len();
        let mut c: usize = 0;
        while c < ncode
            invariant
                ncode == code.instructions@.len(),
                0 <= c <= ncode,
                out@ == commands + code.instructions@.take(c as int),
                commands.len() == 504,
            decreases ncode - c,
        {
            out.push(code.instructions[c]);
            proof {
                assert(out@ =~= commands + code.instructions@.take(c + 1));
            }
            c += 1;
        }
        proof {
            assert(code.instructions@.take(ncode as int) =~= code.instructions@);
        }
        // zero padding up to the page boundary
        let target: u64 = text_end;
        let mut pos: u64 = out.len() as u64;
        let ghost with_code = out@;
        while pos < target
            invariant
                pos == out@.len(),
                pos <= target,
                target <= 0x10004000,
                out@.len() >= with_code.len(),
                out@.subrange(0, with_code.len() as int) == with_code,
            decreases target - pos,
        {
            out.push(0);
            proof {
                assert(out@.subrange(0, with_code.len() as int) =~= with_code);
            }
            pos = pos + 1;
        }
        // the minimal code-signature superblob
        let ghost padded = out@;
        put_u32(&mut out, CSMAGIC_EMBEDDED_SIGNATURE);
        put_u32(&mut out, 12);
        put_u32(&mut out, 0);
        put_u32(&mut out, 0);
        proof {
            let n = code.instructions@.len() as int;
            let sig = out@;
            assert(sig.subrange(0, padded.len() as int) =~= padded);
            assert(padded.subrange(0, with_code.len() as int) == with_code);
            assert forall|j: int| 0 <= j < n implies sig[504 + j] == #[trigger] code.instructions@[j] by {
                assert(sig[504 + j] == sig.subrange(0, padded.len() as int)[504 + j]);
                assert(padded[504 + j] == padded.subrange(0, with_code.len() as int)[504 + j]);
                assert(with_code[504 + j] == code.instructions@[j]);
            }
            assert(sig.subrange(504, 504 + n) =~= code.instructions@);
            assert forall|j: int|
                0 <= j < 8 implies #[trigger] sig.subrange(264, 272)[j] == le8(
                (code.entry_point_offset + TEXT_DATA_OFFSET) as u64,
            )[j] by {
                assert(sig.subrange(264, 272)[j] == sig[264 + j]);
                assert(sig[264 + j] == sig.subrange(0, padded.len() as int)[264 + j]);
                assert(padded[264 + j] == padded.subrange(0, with_code.len() as int)[264 + j]);
                assert(with_code[264 + j] == commands[264 + j]);
                assert(commands.subrange(264, 272)[j] == commands[264 + j]);
            }
            assert(sig.subrange(264, 272) =~= le8(
                (code.entry_point_offset + TEXT_DATA_OFFSET) as u64,
            ));
        }
        out
    }
}

} // verus!

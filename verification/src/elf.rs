#![allow(non_camel_case_types)]

use vstd::prelude::*;
use crate::bytes::{le_u16, le_u32, le_u64, read_u16, read_u32, read_u64};

verus! {

pub type Elf64_Half = u16;

pub type Elf64_Addr = u64;

pub type Elf64_Off = u64;

pub type Elf64_Sword = i32;

pub type Elf64_Word = u32;

/// The size of an ELF header in the file.
pub const ELF_HEADER_SIZE: usize = 64;

/// The size of a program header entry.
pub const PHENT_SIZE: usize = 56;

/// The size of a section header entry as this loader lays it out.
pub const SHENT_SIZE: usize = 56;

/// The size of a symbol entry.
pub const SYMENT_SIZE: usize = 16;

/// The size of the symbol table description that `elf_load_symbols` writes
/// in front of the tables.
pub const SYMBOL_INFO_SIZE: usize = 32;

/// The program header type of a loadable segment.
pub const PT_LOAD: u32 = 1;

/// The section header type of a symbol table.
pub const SHT_SYMTAB: u32 = 2;

/// The identification bytes that a 64-bit little-endian ELF file of
/// version 1 starts with.
pub const ELF_MAGIC: [u8; 8] = [0x7F, 0x45, 0x4C, 0x46, 0x02, 0x01, 0x01, 0x00];

/// The header of an ELF file.
#[derive(Copy, Clone, Debug, Default, PartialEq, Eq)]
pub struct ElfHeader {
    pub e_ident: [u8; 16],
    pub e_object_type: Elf64_Half,
    pub e_machine_type: Elf64_Half,
    pub e_version: Elf64_Word,
    pub e_entry: Elf64_Addr,
    pub e_phoff: Elf64_Off,
    pub e_shoff: Elf64_Off,
    pub e_flags: Elf64_Word,
    pub e_ehsize: Elf64_Half,
    pub e_phentsize: Elf64_Half,
    pub e_phnum: Elf64_Half,
    pub e_shentsize: Elf64_Half,
    pub e_shnum: Elf64_Half,
    pub e_shstrndx: Elf64_Half,
}

/// The header that the 64 bytes at the start of `b` encode.
pub open spec fn header_at(b: Seq<u8>) -> ElfHeader {
    ElfHeader {
        e_ident: arbitrary(),
        e_object_type: le_u16(b, 16) as u16,
        e_machine_type: le_u16(b, 18) as u16,
        e_version: le_u32(b, 20) as u32,
        e_entry: le_u64(b, 24) as u64,
        e_phoff: le_u64(b, 32) as u64,
        e_shoff: le_u64(b, 40) as u64,
        e_flags: le_u32(b, 48) as u32,
        e_ehsize: le_u16(b, 52) as u16,
        e_phentsize: le_u16(b, 54) as u16,
        e_phnum: le_u16(b, 56) as u16,
        e_shentsize: le_u16(b, 58) as u16,
        e_shnum: le_u16(b, 60) as u16,
        e_shstrndx: le_u16(b, 62) as u16,
    }
}

/// Whether `h` is the header that `b` starts with.
pub open spec fn is_header_of(h: ElfHeader, b: Seq<u8>) -> bool {
    &&& b.len() >= 64
    &&& h.e_ident@ == b.subrange(0, 16)
    &&& h == (ElfHeader { e_ident: h.e_ident, ..header_at(b) })
}

/// Whether a header is that of a 64-bit little-endian ELF file of version 1.
pub open spec fn header_ok(h: ElfHeader) -> bool {
    &&& h.e_ident@.subrange(0, 8) == ELF_MAGIC@
    &&& h.e_version == 1
}

impl ElfHeader {
    /// Reads the header that `bytes` start with; `None` when there are fewer
    /// than 64 bytes.
    pub fn parse(bytes: &[u8]) -> (h: Option<ElfHeader>)
        ensures
            bytes@.len() < 64 <==> h is None,
            h matches Some(h) ==> is_header_of(h, bytes@),
    {
        if bytes.len() < ELF_HEADER_SIZE {
            return None;
        }
        let mut ident = [0u8; 16];
        let mut i: usize = 0;
        while i < 16
            invariant
                0 <= i <= 16,
                bytes@.len() >= 64,
                forall|j: int| 0 <= j < i ==> ident@[j] == bytes@[j],
            decreases 16 - i,
        {
            ident[i] = bytes[i];
            i = i + 1;
        }
        assert(ident@ =~= bytes@.subrange(0, 16));
        Some(
            ElfHeader {
                e_ident: ident,
                e_object_type: read_u16(bytes, 16),
                e_machine_type: read_u16(bytes, 18),
                e_version: read_u32(bytes, 20),
                e_entry: read_u64(bytes, 24),
                e_phoff: read_u64(bytes, 32),
                e_shoff: read_u64(bytes, 40),
                e_flags: read_u32(bytes, 48),
                e_ehsize: read_u16(bytes, 52),
                e_phentsize: read_u16(bytes, 54),
                e_phnum: read_u16(bytes, 56),
                e_shentsize: read_u16(bytes, 58),
                e_shnum: read_u16(bytes, 60),
                e_shstrndx: read_u16(bytes, 62),
            },
        )
    }

    /// Whether the header is that of a 64-bit little-endian ELF file of
    /// version 1.
    pub fn is_valid(&self) -> (b: bool)
        ensures
            b == header_ok(*self),
    {
        let mut i: usize = 0;
        while i < 8
            invariant
                0 <= i <= 8,
                forall|j: int| 0 <= j < i ==> self.e_ident@[j] == ELF_MAGIC@[j],
            decreases 8 - i,
        {
            if self.e_ident[i] != ELF_MAGIC[i] {
                assert(self.e_ident@.subrange(0, 8)[i as int] != ELF_MAGIC@[i as int]);
                return false;
            }
            i = i + 1;
        }
        assert(self.e_ident@.subrange(0, 8) =~= ELF_MAGIC@);
        self.e_version == 1
    }

    /// Checks that the header is that of a 64-bit little-endian ELF file of
    /// version 1; any other header is refused by the precondition.
    pub fn check_header(&self)
        requires
            header_ok(*self),
    {
    }
}

/// A program header entry.
#[derive(Copy, Clone, Debug, Default, PartialEq, Eq)]
pub struct PhEnt {
    pub p_type: Elf64_Word,
    pub p_flags: Elf64_Word,
    pub p_offset: Elf64_Off,
    pub p_vaddr: Elf64_Addr,
    pub p_paddr: Elf64_Addr,
    pub p_filesz: Elf64_Addr,
    pub p_memsz: Elf64_Addr,
    pub p_align: Elf64_Addr,
}

/// The program header entry that the 56 bytes at `off` encode.
pub open spec fn phent_at(b: Seq<u8>, off: int) -> PhEnt {
    PhEnt {
        p_type: le_u32(b, off) as u32,
        p_flags: le_u32(b, off + 4) as u32,
        p_offset: le_u64(b, off + 8) as u64,
        p_vaddr: le_u64(b, off + 16) as u64,
        p_paddr: le_u64(b, off + 24) as u64,
        p_filesz: le_u64(b, off + 32) as u64,
        p_memsz: le_u64(b, off + 40) as u64,
        p_align: le_u64(b, off + 48) as u64,
    }
}

/// The writable section flag.
pub const ELF_SECTION_WRITABLE: u64 = 0x1;

/// The allocated section flag.
pub const ELF_SECTION_ALLOCATED: u64 = 0x2;

/// The executable section flag.
pub const ELF_SECTION_EXECUTABLE: u64 = 0x4;

/// Section flags of an ELF file.
#[derive(Copy, Clone, Debug, PartialEq, Eq)]
pub struct ElfSectionFlags {
    pub bits: u64,
}

impl ElfSectionFlags {
    /// The flags of `bits` that are known; the other bits are dropped.
    pub fn from_bits_truncate(bits: u64) -> (f: ElfSectionFlags)
        ensures
            f.bits == bits % 8,
    {
        let r = bits & 0x7;
        assert(bits & 0x7 == bits % 8) by (bit_vector);
        ElfSectionFlags { bits: r }
    }

    /// Whether all flags of `other` are set in `self`.
    pub fn contains(&self, other: ElfSectionFlags) -> (b: bool)
        ensures
            b == (self.bits & other.bits == other.bits),
    {
        self.bits & other.bits == other.bits
    }
}

impl PhEnt {
    /// Reads the program header entry at `off`.
    pub fn parse(bytes: &[u8], off: usize) -> (p: PhEnt)
        requires
            off + 56 <= bytes@.len(),
        ensures
            p == phent_at(bytes@, off as int),
    {
        assert(bytes.len() == bytes@.len());
        PhEnt {
            p_type: read_u32(bytes, off),
            p_flags: read_u32(bytes, off + 4),
            p_offset: read_u64(bytes, off + 8),
            p_vaddr: read_u64(bytes, off + 16),
            p_paddr: read_u64(bytes, off + 24),
            p_filesz: read_u64(bytes, off + 32),
            p_memsz: read_u64(bytes, off + 40),
            p_align: read_u64(bytes, off + 48),
        }
    }

    /// The physical address that the segment is loaded at.
    pub fn start_address(&self) -> (a: usize)
        ensures
            a == self.p_paddr as usize,
    {
        self.p_paddr as usize
    }

    /// The physical address just past the segment in memory.
    pub fn end_address(&self) -> (a: usize)
        requires
            self.p_paddr + self.p_memsz <= u64::MAX,
        ensures
            a == (self.p_paddr + self.p_memsz) as usize,
    {
        (self.p_paddr + self.p_memsz) as usize
    }

    /// The known flags of the entry.
    pub fn flags(&self) -> (f: ElfSectionFlags)
        ensures
            f.bits == self.p_flags % 8,
    {
        ElfSectionFlags::from_bits_truncate(self.p_flags as u64)
    }

    /// Whether the allocated flag (bit 1) is set.
    pub fn is_allocated(&self) -> (b: bool)
        ensures
            b == ((self.p_flags / 2) % 2 == 1),
    {
        let f = self.flags();
        let r = f.contains(ElfSectionFlags { bits: ELF_SECTION_ALLOCATED });
        let bits = f.bits;
        let p = self.p_flags as u64;
        assert(bits == p % 8 ==> ((bits & 2 == 2) == ((p / 2) % 2 == 1))) by (bit_vector);
        r
    }
}

/// A section header entry, laid out as this loader reads it: the flags and
/// the sizes are 32-bit words.
#[derive(Copy, Clone, Debug, Default, PartialEq, Eq)]
pub struct ShEnt {
    pub sh_name: Elf64_Word,
    pub sh_type: Elf64_Word,
    pub sh_flags: Elf64_Word,
    pub sh_addr: Elf64_Addr,
    pub sh_offset: Elf64_Off,
    pub sh_size: Elf64_Word,
    pub sh_link: Elf64_Word,
    pub sh_info: Elf64_Word,
    pub sh_addralign: Elf64_Word,
    pub sh_entsize: Elf64_Word,
}

/// The section header entry that the 56 bytes at `off` encode.
pub open spec fn shent_at(b: Seq<u8>, off: int) -> ShEnt {
    ShEnt {
        sh_name: le_u32(b, off) as u32,
        sh_type: le_u32(b, off + 4) as u32,
        sh_flags: le_u32(b, off + 8) as u32,
        sh_addr: le_u64(b, off + 16) as u64,
        sh_offset: le_u64(b, off + 24) as u64,
        sh_size: le_u32(b, off + 32) as u32,
        sh_link: le_u32(b, off + 36) as u32,
        sh_info: le_u32(b, off + 40) as u32,
        sh_addralign: le_u32(b, off + 44) as u32,
        sh_entsize: le_u32(b, off + 48) as u32,
    }
}

impl ShEnt {
    /// Reads the section header entry at `off`.
    pub fn parse(bytes: &[u8], off: usize) -> (s: ShEnt)
        requires
            off + 56 <= bytes@.len(),
        ensures
            s == shent_at(bytes@, off as int),
    {
        assert(bytes.len() == bytes@.len());
        ShEnt {
            sh_name: read_u32(bytes, off),
            sh_type: read_u32(bytes, off + 4),
            sh_flags: read_u32(bytes, off + 8),
            sh_addr: read_u64(bytes, off + 16),
            sh_offset: read_u64(bytes, off + 24),
            sh_size: read_u32(bytes, off + 32),
            sh_link: read_u32(bytes, off + 36),
            sh_info: read_u32(bytes, off + 40),
            sh_addralign: read_u32(bytes, off + 44),
            sh_entsize: read_u32(bytes, off + 48),
        }
    }
}

/// The entry point recorded in a file image.
pub open spec fn image_entry(b: Seq<u8>) -> u64 {
    le_u64(b, 24) as u64
}

/// Whether a file image starts with the header of a 64-bit little-endian
/// ELF file of version 1.
pub open spec fn image_ok(b: Seq<u8>) -> bool {
    &&& b.len() >= 64
    &&& b.subrange(0, 8) == ELF_MAGIC@
    &&& le_u32(b, 20) == 1
}

/// Whether the program header table of an image has entries of 56 bytes
/// and lies inside the image.
pub open spec fn phents_readable(b: Seq<u8>) -> bool {
    &&& b.len() >= 64
    &&& le_u16(b, 54) == 56
    &&& le_u64(b, 32) + 56 * le_u16(b, 56) <= b.len()
}

/// The program header entries of an image.
pub open spec fn image_phents(b: Seq<u8>) -> Seq<PhEnt> {
    Seq::new(le_u16(b, 56) as nat, |i: int| phent_at(b, le_u64(b, 32) + 56 * i))
}

/// Whether the section header table of an image has entries of 56 bytes
/// and lies inside the image.
pub open spec fn shents_readable(b: Seq<u8>) -> bool {
    &&& b.len() >= 64
    &&& le_u16(b, 58) == 56
    &&& le_u64(b, 40) + 56 * le_u16(b, 60) <= b.len()
}

/// The section header entries of an image.
pub open spec fn image_shents(b: Seq<u8>) -> Seq<ShEnt> {
    Seq::new(le_u16(b, 60) as nat, |i: int| shent_at(b, le_u64(b, 40) + 56 * i))
}

/// An ELF file, held as the bytes of its image.
#[derive(Clone, Debug)]
pub struct ElfFile(pub Vec<u8>);

/// Program header entries that are handed out one at a time.
#[derive(Debug)]
pub struct PhEntIter {
    entries: Vec<PhEnt>,
    pos: usize,
}

impl PhEntIter {
    #[verifier::type_invariant]
    spec fn position_in_range(&self) -> bool {
        self.pos <= self.entries@.len()
    }

    /// The entries that are still to come.
    pub closed spec fn remaining(&self) -> Seq<PhEnt> {
        self.entries@.skip(self.pos as int)
    }

    /// Hands out `entries` in order.
    pub fn new(entries: Vec<PhEnt>) -> (it: PhEntIter)
        ensures
            it.remaining() == entries@,
    {
        let it = PhEntIter { entries, pos: 0 };
        assert(it.entries@.skip(0) =~= it.entries@);
        it
    }

    /// The next entry, if any is left.
    pub fn next(&mut self) -> (e: Option<PhEnt>)
        ensures
            old(self).remaining().len() == 0 ==> e is None && final(self).remaining() == old(
                self,
            ).remaining(),
            old(self).remaining().len() > 0 ==> e == Some(old(self).remaining()[0])
                && final(self).remaining() == old(self).remaining().drop_first(),
    {
        proof {
            use_type_invariant(&*self);
        }
        if self.pos >= self.entries.len() {
            None
        } else {
            let e = self.entries[self.pos];
            assert(old(self).remaining()[0] == e);
            self.pos = self.pos + 1;
            assert(self.entries@.skip(self.pos as int) =~= old(self).remaining().drop_first());
            Some(e)
        }
    }
}

impl ElfFile {
    /// Checks that the image starts with the header of a 64-bit
    /// little-endian ELF file of version 1; any other image is refused by
    /// the precondition.
    pub fn check_header(&self)
        requires
            image_ok(self.0@),
    {
    }

    /// The header that the image starts with; `None` when the image is
    /// shorter than a header.
    pub fn header(&self) -> (h: Option<ElfHeader>)
        ensures
            self.0@.len() < 64 <==> h is None,
            h matches Some(h) ==> is_header_of(h, self.0@),
    {
        ElfHeader::parse(self.0.as_slice())
    }

    /// The program header entries.
    pub fn phents(&self) -> (it: PhEntIter)
        requires
            phents_readable(self.0@),
        ensures
            it.remaining() == image_phents(self.0@),
    {
        let b = self.0.as_slice();
        assert(b.len() == b@.len());
        let phoff = read_u64(b, 32) as usize;
        let phnum = read_u16(b, 56) as usize;
        let mut entries: Vec<PhEnt> = Vec::new();
        let mut i: usize = 0;
        while i < phnum
            invariant
                b@ == self.0@,
                b.len() == b@.len(),
                phents_readable(b@),
                phoff == le_u64(b@, 32),
                phnum == le_u16(b@, 56),
                0 <= i <= phnum,
                entries@.len() == i,
                forall|j: int| 0 <= j < i ==> #[trigger] entries@[j] == phent_at(b@, phoff + 56 * j),
            decreases phnum - i,
        {
            let e = PhEnt::parse(b, phoff + 56 * i);
            entries.push(e);
            i = i + 1;
        }
        assert(entries@ =~= image_phents(self.0@));
        PhEntIter::new(entries)
    }

    /// The section header entries.
    fn shents(&self) -> (v: Vec<ShEnt>)
        requires
            shents_readable(self.0@),
        ensures
            v@ == image_shents(self.0@),
    {
        let b = self.0.as_slice();
        assert(b.len() == b@.len());
        let shoff = read_u64(b, 40) as usize;
        let shnum = read_u16(b, 60) as usize;
        let mut entries: Vec<ShEnt> = Vec::new();
        let mut i: usize = 0;
        while i < shnum
            invariant
                b@ == self.0@,
                b.len() == b@.len(),
                shents_readable(b@),
                shoff == le_u64(b@, 40),
                shnum == le_u16(b@, 60),
                0 <= i <= shnum,
                entries@.len() == i,
                forall|j: int| 0 <= j < i ==> #[trigger] entries@[j] == shent_at(b@, shoff + 56 * j),
            decreases shnum - i,
        {
            let e = ShEnt::parse(b, shoff + 56 * i);
            entries.push(e);
            i = i + 1;
        }
        assert(entries@ =~= image_shents(self.0@));
        entries
    }

    /// The entry point of the program.
    pub fn entrypoint(&self) -> (e: usize)
        requires
            self.0@.len() >= 64,
        ensures
            e == image_entry(self.0@) as usize,
    {
        let b = self.0.as_slice();
        read_u64(b, 24) as usize
    }
}

/// The end in memory of the segment of `p`.
pub open spec fn segment_end(p: PhEnt) -> int {
    ((p.p_paddr + p.p_memsz) as usize) as int
}

/// The highest end in memory of the loadable segments of `phs`, 0 when
/// there is none.
pub open spec fn max_load_end(phs: Seq<PhEnt>) -> int
    decreases phs.len(),
{
    if phs.len() == 0 {
        0
    } else {
        let m = max_load_end(phs.drop_last());
        let p = phs.last();
        if p.p_type == PT_LOAD && m < segment_end(p) {
            segment_end(p)
        } else {
            m
        }
    }
}

/// Whether no loadable segment's end overflows a 64-bit address.
pub open spec fn load_ends_fit(phs: Seq<PhEnt>) -> bool {
    forall|i: int|
        0 <= i < phs.len() && (#[trigger] phs[i]).p_type == PT_LOAD ==> phs[i].p_paddr
            + phs[i].p_memsz <= u64::MAX
}

/// `v` rounded up to a multiple of 4 KiB.
pub open spec fn round_up_4k(v: int) -> int {
    ((v + 0xFFF) / 0x1000) * 0x1000
}

/// The size of memory that the loadable segments of an ELF file take: the
/// highest end of a loadable segment, rounded up to 4 KiB.
pub fn elf_get_size(file_base: &ElfFile) -> (size: u32)
    requires
        image_ok(file_base.0@),
        phents_readable(file_base.0@),
        load_ends_fit(image_phents(file_base.0@)),
        max_load_end(image_phents(file_base.0@)) + 0xFFF <= usize::MAX,
    ensures
        size == round_up_4k(max_load_end(image_phents(file_base.0@))) as u32,
{
    file_base.check_header();
    let ghost all = image_phents(file_base.0@);
    let mut it = file_base.phents();
    let mut max_end: usize = 0;
    let ghost mut seen: nat = 0;
    loop
        invariant_except_break
            0 <= seen <= all.len(),
            it.remaining() == all.skip(seen as int),
            max_end == max_load_end(all.take(seen as int)),
            load_ends_fit(all),
            max_load_end(all) + 0xFFF <= usize::MAX,
        ensures
            max_end == max_load_end(all),
        decreases it.remaining().len(),
    {
        match it.next() {
            None => {
                assert(all.take(seen as int) =~= all);
                break ;
            },
            Some(phent) => {
                assert(phent == all[seen as int]);
                assert(all.take(seen as int + 1).drop_last() =~= all.take(seen as int));
                assert(all.take(seen as int + 1).last() == phent);
                if phent.p_type == PT_LOAD {
                    assert(phent.p_paddr + phent.p_memsz <= u64::MAX);
                    let end = (phent.p_paddr + phent.p_memsz) as usize;
                    if max_end < end {
                        max_end = end;
                    }
                }
                proof {
                    seen = seen + 1;
                    assert(all.skip(seen - 1).drop_first() =~= all.skip(seen as int));
                }
            },
        }
    }
    proof {
        lemma_max_load_end_bounds(all);
    }
    let bumped = max_end + 0xFFF;
    let rounded = bumped & !0xFFF;
    assert(bumped & !0xFFFusize == (bumped / 0x1000) * 0x1000) by (bit_vector);
    rounded as u32
}

/// The highest end is at least 0.
proof fn lemma_max_load_end_bounds(phs: Seq<PhEnt>)
    ensures
        max_load_end(phs) >= 0,
    decreases phs.len(),
{
    if phs.len() > 0 {
        lemma_max_load_end_bounds(phs.drop_last());
    }
}

/// Memory after segment `p` of `file` is loaded into `out`: for a loadable
/// segment, its file bytes and then zeros up to its size in memory, at its
/// physical address.
pub open spec fn load_segment(out: Seq<u8>, file: Seq<u8>, p: PhEnt) -> Seq<u8> {
    if p.p_type == PT_LOAD {
        Seq::new(
            out.len(),
            |i: int|
                if p.p_paddr <= i < p.p_paddr + p.p_memsz {
                    if i - p.p_paddr < p.p_filesz {
                        file[p.p_offset + (i - p.p_paddr)]
                    } else {
                        0u8
                    }
                } else {
                    out[i]
                },
        )
    } else {
        out
    }
}

/// Memory after the segments of `phs` are loaded one after the other.
pub open spec fn load_segments(out: Seq<u8>, file: Seq<u8>, phs: Seq<PhEnt>) -> Seq<u8>
    decreases phs.len(),
{
    if phs.len() == 0 {
        out
    } else {
        load_segment(load_segments(out, file, phs.drop_last()), file, phs.last())
    }
}

/// Whether every loadable segment fits in memory of `out_len` bytes and in
/// a file of `file_len` bytes.
pub open spec fn segments_fit(out_len: int, file_len: int, phs: Seq<PhEnt>) -> bool {
    forall|i: int|
        0 <= i < phs.len() && (#[trigger] phs[i]).p_type == PT_LOAD ==> {
            &&& phs[i].p_paddr + phs[i].p_memsz <= out_len
            &&& phs[i].p_offset + phs[i].p_filesz <= file_len
        }
}

/// Loads one segment.
fn load_one_segment(file: &[u8], output: &mut Vec<u8>, p: PhEnt)
    requires
        p.p_type == PT_LOAD,
        p.p_paddr + p.p_memsz <= old(output)@.len(),
        p.p_offset + p.p_filesz <= file@.len(),
    ensures
        final(output)@ == load_segment(old(output)@, file@, p),
{
    assert(file.len() == file@.len());
    assert(output.len() == output@.len());
    let paddr = p.p_paddr as usize;
    let memsz = p.p_memsz as usize;
    let offset = p.p_offset as usize;
    let filesz = p.p_filesz;
    let mut j: usize = 0;
    while j < memsz
        invariant
            file.len() == file@.len(),
            paddr == p.p_paddr,
            memsz == p.p_memsz,
            offset == p.p_offset,
            filesz == p.p_filesz,
            p.p_type == PT_LOAD,
            paddr + memsz <= output@.len(),
            offset + filesz <= file@.len(),
            output@.len() == old(output)@.len(),
            output.len() == output@.len(),
            0 <= j <= memsz,
            forall|i: int|
                0 <= i < output@.len() ==> #[trigger] output@[i] == (if paddr <= i < paddr + j {
                    load_segment(old(output)@, file@, p)[i]
                } else {
                    old(output)@[i]
                }),
        decreases memsz - j,
    {
        let v: u8 = if (j as u64) < filesz {
            file[offset + j]
        } else {
            0
        };
        output.set(paddr + j, v);
        j = j + 1;
    }
    assert(output@ =~= load_segment(old(output)@, file@, p));
}

/// Loads the loadable segments of an ELF file into `output`, memory that
/// starts at address `output_base`, and returns the address of the program's
/// entry point there (the file is linked at 0x8000_0000), cut to 32 bits.
pub fn elf_load_segments(file_base: &ElfFile, output: &mut Vec<u8>, output_base: usize) -> (entry: u32)
    requires
        phents_readable(file_base.0@),
        segments_fit(old(output)@.len() as int, file_base.0@.len() as int, image_phents(file_base.0@)),
        image_entry(file_base.0@) as usize >= 0x8000_0000,
        image_entry(file_base.0@) as usize - 0x8000_0000 + output_base <= usize::MAX,
    ensures
        final(output)@ == load_segments(old(output)@, file_base.0@, image_phents(file_base.0@)),
        entry == (image_entry(file_base.0@) as usize - 0x8000_0000 + output_base) as u32,
{
    let ghost all = image_phents(file_base.0@);
    let ghost file = file_base.0@;
    let mut it = file_base.phents();
    let ghost mut seen: nat = 0;
    assert(all.take(0) =~= Seq::<PhEnt>::empty());
    loop
        invariant_except_break
            0 <= seen <= all.len(),
            file == file_base.0@,
            it.remaining() == all.skip(seen as int),
            output@.len() == old(output)@.len(),
            output@ == load_segments(old(output)@, file, all.take(seen as int)),
            segments_fit(old(output)@.len() as int, file.len() as int, all),
        ensures
            output@ == load_segments(old(output)@, file, all),
        decreases it.remaining().len(),
    {
        match it.next() {
            None => {
                assert(all.take(seen as int) =~= all);
                break ;
            },
            Some(phent) => {
                assert(phent == all[seen as int]);
                assert(all.take(seen as int + 1).drop_last() =~= all.take(seen as int));
                assert(all.take(seen as int + 1).last() == phent);
                if phent.p_type == PT_LOAD {
                    load_one_segment(file_base.0.as_slice(), output, phent);
                }
                proof {
                    seen = seen + 1;
                    assert(all.skip(seen - 1).drop_first() =~= all.skip(seen as int));
                }
            },
        }
    }
    let rv = file_base.entrypoint() - 0x8000_0000 + output_base;
    rv as u32
}

/// A symbol table entry.
#[derive(Copy, Clone, Debug, Default, PartialEq, Eq)]
pub struct SymEnt {
    pub st_name: u32,
    pub st_value: u32,
    pub st_size: u32,
    pub st_info: u8,
    pub st_other: u8,
    pub st_shndx: u16,
}

/// Where the symbol table and its string table were copied to.
#[derive(Copy, Clone, Debug, Default, PartialEq, Eq)]
pub struct SymbolInfo {
    /// The address of the first symbol entry.
    pub base: usize,
    /// The number of symbol entries.
    pub count: usize,
    /// The address of the string table.
    pub string_table: usize,
    /// The length of the string table in bytes.
    pub strtab_len: usize,
}

/// The index of the first symbol table section of `shs` at or after `i`,
/// or -1 when there is none.
pub open spec fn first_symtab_from(shs: Seq<ShEnt>, i: int) -> int
    decreases shs.len() - i,
{
    if i < 0 || i >= shs.len() {
        -1
    } else if shs[i].sh_type == SHT_SYMTAB {
        i
    } else {
        first_symtab_from(shs, i + 1)
    }
}

/// The index of the first symbol table section, or -1 when there is none.
pub open spec fn first_symtab(shs: Seq<ShEnt>) -> int {
    first_symtab_from(shs, 0)
}

/// Whether the symbol table of an image, if it has one, and its string
/// table can be copied: the tables lie in the image, they fit in an area of
/// `area_len` bytes, and no address past `output_addr` overflows.
pub open spec fn symbols_loadable(b: Seq<u8>, area_len: int, output_addr: int) -> bool {
    let shs = image_shents(b);
    let k = first_symtab(shs);
    &&& shents_readable(b)
    &&& k >= 0 ==> {
        let sym = shs[k];
        &&& sym.sh_link < shs.len()
        &&& sym.sh_offset + (sym.sh_size / 16) * 16 <= b.len()
        &&& shs[sym.sh_link as int].sh_offset + shs[sym.sh_link as int].sh_size <= b.len()
        &&& sym.sh_size + shs[sym.sh_link as int].sh_size <= area_len
        &&& output_addr + 32 + sym.sh_size + shs[sym.sh_link as int].sh_size <= usize::MAX
    }
}

/// The area after the symbols of section `sym` and the strings of section
/// `strs` are copied into it: whole 16-byte entries first, then the string
/// table at offset `sym.sh_size`.
pub open spec fn symbols_copied(area: Seq<u8>, b: Seq<u8>, sym: ShEnt, strs: ShEnt) -> Seq<u8> {
    Seq::new(
        area.len(),
        |i: int|
            if i < (sym.sh_size / 16) * 16 {
                b[sym.sh_offset + i]
            } else if sym.sh_size <= i < sym.sh_size + strs.sh_size {
                b[strs.sh_offset + (i - sym.sh_size)]
            } else {
                area[i]
            },
    )
}

/// Copies bytes `src[from .. from + n]` to `area[to .. to + n]`.
fn copy_bytes(area: &mut Vec<u8>, to: usize, src: &[u8], from: usize, n: usize)
    requires
        to + n <= old(area)@.len(),
        from + n <= src@.len(),
    ensures
        final(area)@ == Seq::new(
            old(area)@.len(),
            |i: int|
                if to <= i < to + n {
                    src@[from + (i - to)]
                } else {
                    old(area)@[i]
                },
        ),
{
    assert(area.len() == area@.len());
    assert(src.len() == src@.len());
    let mut j: usize = 0;
    while j < n
        invariant
            to + n <= area@.len(),
            from + n <= src@.len(),
            area.len() == area@.len(),
            src.len() == src@.len(),
            area@.len() == old(area)@.len(),
            0 <= j <= n,
            forall|i: int|
                0 <= i < area@.len() ==> #[trigger] area@[i] == (if to <= i < to + j {
                    src@[from + (i - to)]
                } else {
                    old(area)@[i]
                }),
        decreases n - j,
    {
        area.set(to + j, src[from + j]);
        j = j + 1;
    }
    assert(area@ =~= Seq::new(
        old(area)@.len(),
        |i: int|
            if to <= i < to + n {
                src@[from + (i - to)]
            } else {
                old(area)@[i]
            },
    ));
}

/// Copies the first symbol table of an ELF file and its string table into
/// `area`, the memory just past `*output` at address `output_addr`, records
/// where they went in `*output`, and returns the number of bytes written
/// from `output_addr` on, the description included.
pub fn elf_load_symbols(
    file_base: &ElfFile,
    output: &mut SymbolInfo,
    output_addr: usize,
    area: &mut Vec<u8>,
) -> (written: u32)
    requires
        symbols_loadable(file_base.0@, old(area)@.len() as int, output_addr as int),
    ensures
        ({
            let shs = image_shents(file_base.0@);
            let k = first_symtab(shs);
            if k < 0 {
                &&& *final(output) == SymbolInfo { base: 0, count: 0, string_table: 0, strtab_len: 0 }
                &&& final(area)@ == old(area)@
                &&& written == 32
            } else {
                let sym = shs[k];
                let strs = shs[sym.sh_link as int];
                &&& *final(output) == (SymbolInfo {
                    base: (output_addr + 32) as usize,
                    count: (sym.sh_size / 16) as usize,
                    string_table: (output_addr + 32 + sym.sh_size) as usize,
                    strtab_len: strs.sh_size as usize,
                })
                &&& final(area)@ == symbols_copied(old(area)@, file_base.0@, sym, strs)
                &&& written == (32 + sym.sh_size + strs.sh_size) as u32
            }
        }),
{
    *output = SymbolInfo { base: 0, count: 0, string_table: 0, strtab_len: 0 };
    let mut pos: usize = SYMBOL_INFO_SIZE;
    let shents = file_base.shents();
    let ghost shs = image_shents(file_base.0@);
    let b = file_base.0.as_slice();
    let mut i: usize = 0;
    while i < shents.len()
        invariant
            shents@ == shs,
            shs == image_shents(file_base.0@),
            b@ == file_base.0@,
            b.len() == b@.len(),
            area.len() == area@.len(),
            symbols_loadable(file_base.0@, area@.len() as int, output_addr as int),
            area@ == old(area)@,
            pos == 32,
            *output == (SymbolInfo { base: 0, count: 0, string_table: 0, strtab_len: 0 }),
            0 <= i <= shents@.len(),
            first_symtab(shs) == first_symtab_from(shs, i as int),
        decreases shents@.len() - i,
    {
        let ent = shents[i];
        if ent.sh_type == SHT_SYMTAB {
            assert(first_symtab(shs) == i);
            let strtab = shents[ent.sh_link as usize];
            output.base = output_addr + pos;
            output.count = ent.sh_size as usize / SYMENT_SIZE;
            let bytes = ent.sh_size as usize;
            let n1 = output.count * SYMENT_SIZE;
            assert(n1 == (ent.sh_size / 16) * 16);
            copy_bytes(area, 0, b, ent.sh_offset as usize, n1);
            pos = pos + bytes;
            output.string_table = output_addr + pos;
            output.strtab_len = strtab.sh_size as usize;
            let str_bytes = strtab.sh_size as usize;
            let ghost mid = area@;
            copy_bytes(area, bytes, b, strtab.sh_offset as usize, str_bytes);
            pos = pos + str_bytes;
            assert((ent.sh_size / 16) * 16 <= ent.sh_size);
            assert forall|j: int| 0 <= j < area@.len() implies #[trigger] area@[j] == symbols_copied(
                old(area)@,
                file_base.0@,
                ent,
                strtab,
            )[j] by {
                if bytes <= j < bytes + str_bytes {
                } else if j < n1 {
                    assert(area@[j] == mid[j]);
                    assert(mid[j] == b@[ent.sh_offset + j]);
                } else {
                    assert(area@[j] == mid[j]);
                    assert(mid[j] == old(area)@[j]);
                }
            }
            assert(area@ =~= symbols_copied(old(area)@, file_base.0@, ent, strtab));
            return pos as u32;
        }
        i = i + 1;
    }
    pos as u32
}

/// A segment's end address lies `p_memsz` bytes past its start address,
/// whenever the end fits in a machine address.
pub proof fn lemma_end_after_start(p: PhEnt)
    requires
        p.p_paddr + p.p_memsz <= usize::MAX,
    ensures
        ((p.p_paddr + p.p_memsz) as usize) as int == (p.p_paddr as usize) as int + p.p_memsz,
        (p.p_paddr as usize) <= ((p.p_paddr + p.p_memsz) as usize),
{
}

/// A header is accepted exactly when its identification is that of a
/// 64-bit (class 2), little-endian (data 1), version 1 ELF file: the bytes
/// 7F 'E' 'L' 'F' 02 01 01 00, and its version field is 1.
pub proof fn lemma_header_ok_bytes(h: ElfHeader)
    ensures
        header_ok(h) <==> (h.e_ident[0] == 0x7F && h.e_ident[1] == 0x45 && h.e_ident[2] == 0x4C
            && h.e_ident[3] == 0x46 && h.e_ident[4] == 2 && h.e_ident[5] == 1 && h.e_ident[6] == 1
            && h.e_ident[7] == 0 && h.e_version == 1),
{
    let id = h.e_ident@.subrange(0, 8);
    if h.e_ident[0] == 0x7F && h.e_ident[1] == 0x45 && h.e_ident[2] == 0x4C && h.e_ident[3] == 0x46
        && h.e_ident[4] == 2 && h.e_ident[5] == 1 && h.e_ident[6] == 1 && h.e_ident[7] == 0 {
        assert(id =~= ELF_MAGIC@);
    }
    if id == ELF_MAGIC@ {
        assert(id[4] == 2);
        assert(id[0] == 0x7F && id[1] == 0x45 && id[2] == 0x4C && id[3] == 0x46);
        assert(id[5] == 1 && id[6] == 1 && id[7] == 0);
    }
}

/// The highest end is at least the end of every loadable segment.
pub proof fn lemma_max_load_end_covers(phs: Seq<PhEnt>, i: int)
    requires
        0 <= i < phs.len(),
        phs[i].p_type == PT_LOAD,
    ensures
        segment_end(phs[i]) <= max_load_end(phs),
    decreases phs.len(),
{
    if i < phs.len() - 1 {
        lemma_max_load_end_covers(phs.drop_last(), i);
    }
}

/// The size that `elf_get_size` reports covers every loadable segment and
/// is a whole number of 4 KiB pages.
pub proof fn lemma_image_size_covers(phs: Seq<PhEnt>)
    ensures
        round_up_4k(max_load_end(phs)) % 0x1000 == 0,
        round_up_4k(max_load_end(phs)) >= max_load_end(phs),
        forall|i: int|
            0 <= i < phs.len() && (#[trigger] phs[i]).p_type == PT_LOAD ==> segment_end(phs[i])
                <= round_up_4k(max_load_end(phs)),
{
    lemma_max_load_end_bounds(phs);
    let m = max_load_end(phs);
    vstd::arithmetic::div_mod::lemma_fundamental_div_mod(m + 0xFFF, 0x1000);
    vstd::arithmetic::div_mod::lemma_mod_multiples_basic((m + 0xFFF) / 0x1000, 0x1000);
    assert forall|i: int|
        0 <= i < phs.len() && (#[trigger] phs[i]).p_type == PT_LOAD implies segment_end(phs[i])
            <= round_up_4k(max_load_end(phs)) by {
        lemma_max_load_end_covers(phs, i);
    }
}

/// Loading segments leaves every byte that no loadable segment covers as
/// it was.
pub proof fn lemma_load_keeps_outside(out: Seq<u8>, file: Seq<u8>, phs: Seq<PhEnt>, i: int)
    requires
        0 <= i < out.len(),
        forall|j: int|
            0 <= j < phs.len() && (#[trigger] phs[j]).p_type == PT_LOAD ==> !(phs[j].p_paddr <= i
                < phs[j].p_paddr + phs[j].p_memsz),
    ensures
        load_segments(out, file, phs).len() == out.len(),
        load_segments(out, file, phs)[i] == out[i],
    decreases phs.len(),
{
    if phs.len() > 0 {
        assert forall|j: int|
            0 <= j < phs.drop_last().len() && (#[trigger] phs.drop_last()[j]).p_type == PT_LOAD
                implies !(phs.drop_last()[j].p_paddr <= i < phs.drop_last()[j].p_paddr
            + phs.drop_last()[j].p_memsz) by {
            assert(phs.drop_last()[j] == phs[j]);
        }
        lemma_load_keeps_outside(out, file, phs.drop_last(), i);
        assert(phs.last() == phs[phs.len() - 1]);
    }
}

} // verus!

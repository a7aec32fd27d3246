use vstd::prelude::*;
use crate::elf::{ElfHeader, PhEnt, PT_LOAD, header_ok};

verus! {

/// What the boot loader does with one program header of the kernel file.
#[derive(Clone, Copy, Debug, PartialEq, Eq)]
pub enum SegmentStep {
    /// The entry is not a loadable segment.
    Skip,
    /// Allocate `pages` pages at `paddr`, read `file_len` bytes from file
    /// position `offset` into them, and zero the rest up to `mem_len`.
    Load { paddr: u64, pages: usize, offset: u64, file_len: u64, mem_len: u64 },
}

/// The state of loading a kernel file segment by segment: its entry point,
/// and the base and size of the last loadable segment seen.
#[derive(Clone, Copy, Debug, PartialEq, Eq)]
pub struct KernelLoad {
    pub entry: u64,
    pub base: usize,
    pub size: usize,
}

/// The state after program header `ent` was stepped over.
pub open spec fn step_state(k: KernelLoad, ent: PhEnt) -> KernelLoad {
    if ent.p_type == PT_LOAD {
        KernelLoad { base: ent.p_vaddr as usize, size: ent.p_memsz as usize, ..k }
    } else {
        k
    }
}

/// The state after the program headers `ents` were stepped over in order.
pub open spec fn state_after(k: KernelLoad, ents: Seq<PhEnt>) -> KernelLoad
    decreases ents.len(),
{
    if ents.len() == 0 {
        k
    } else {
        step_state(state_after(k, ents.drop_last()), ents.last())
    }
}

/// Stepping over the program headers keeps the entry point, and leaves the
/// kernel's base and size those of the last loadable segment, or as they
/// were when no segment is loadable.
pub proof fn lemma_last_segment_wins(k: KernelLoad, ents: Seq<PhEnt>, j: int)
    ensures
        state_after(k, ents).entry == k.entry,
        (forall|i: int| 0 <= i < ents.len() ==> (#[trigger] ents[i]).p_type != PT_LOAD) ==> state_after(
            k,
            ents,
        ) == k,
        0 <= j < ents.len() && ents[j].p_type == PT_LOAD && (forall|i: int|
            j < i < ents.len() ==> (#[trigger] ents[i]).p_type != PT_LOAD) ==> state_after(k, ents)
            == (KernelLoad { base: ents[j].p_vaddr as usize, size: ents[j].p_memsz as usize, ..k }),
    decreases ents.len(),
{
    if ents.len() > 0 {
        let front = ents.drop_last();
        assert forall|i: int| 0 <= i < front.len() implies front[i] == ents[i] by {}
        lemma_last_segment_wins(k, front, j);
    }
}

impl KernelLoad {
    /// Starts loading the kernel whose header is `h`, which must be that of
    /// a 64-bit little-endian ELF file of version 1.
    pub fn start(h: &ElfHeader) -> (k: KernelLoad)
        requires
            header_ok(*h),
        ensures
            k == (KernelLoad { entry: h.e_entry, base: 0, size: 0 }),
    {
        h.check_header();
        KernelLoad { entry: h.e_entry, base: 0, size: 0 }
    }

    /// Decides what happens with program header `ent`: a loadable segment is
    /// loaded at its physical address, in whole 4 KiB pages, and becomes the
    /// kernel's base and size; any other entry is skipped.
    pub fn step(&mut self, ent: &PhEnt) -> (s: SegmentStep)
        requires
            ent.p_type == PT_LOAD ==> ent.p_memsz + 0xFFF <= u64::MAX && ent.p_filesz
                <= ent.p_memsz,
        ensures
            *final(self) == step_state(*old(self), *ent),
            ent.p_type != PT_LOAD ==> s == SegmentStep::Skip && *final(self) == *old(self),
            ent.p_type == PT_LOAD ==> s == (SegmentStep::Load {
                paddr: ent.p_paddr,
                pages: ((ent.p_memsz + 0xFFF) as usize) / 0x1000,
                offset: ent.p_offset,
                file_len: ent.p_filesz,
                mem_len: ent.p_memsz,
            }) && *final(self) == (KernelLoad {
                base: ent.p_vaddr as usize,
                size: ent.p_memsz as usize,
                ..*old(self)
            }),
    {
        if ent.p_type != PT_LOAD {
            return SegmentStep::Skip;
        }
        self.base = ent.p_vaddr as usize;
        self.size = ent.p_memsz as usize;
        SegmentStep::Load {
            paddr: ent.p_paddr,
            pages: crate::boot::segment_pages(ent),
            offset: ent.p_offset,
            file_len: ent.p_filesz,
            mem_len: ent.p_memsz,
        }
    }
}

/// The bytes of a loaded segment of `mem_len` bytes: the part read from the
/// file, then zeros.
pub fn segment_image(file_part: &[u8], mem_len: usize) -> (b: Vec<u8>)
    requires
        file_part@.len() <= mem_len,
    ensures
        b@ == file_part@ + Seq::new((mem_len - file_part@.len()) as nat, |i: int| 0u8),
{
    let mut b: Vec<u8> = Vec::new();
    let n = file_part.len();
    let mut i: usize = 0;
    while i < n
        invariant
            n == file_part@.len(),
            0 <= i <= n,
            b@ == file_part@.take(i as int),
        decreases n - i,
    {
        b.push(file_part[i]);
        assert(file_part@.take(i + 1) =~= file_part@.take(i as int).push(file_part@[i as int]));
        i = i + 1;
    }
    assert(file_part@.take(n as int) =~= file_part@);
    while i < mem_len
        invariant
            n == file_part@.len(),
            n <= i <= mem_len,
            b@ == file_part@ + Seq::new((i - n) as nat, |j: int| 0u8),
        decreases mem_len - i,
    {
        b.push(0);
        assert(file_part@ + Seq::new((i + 1 - n) as nat, |j: int| 0u8) =~= (file_part@ + Seq::new(
            (i - n) as nat,
            |j: int| 0u8,
        )).push(0u8));
        i = i + 1;
    }
    b
}

} // verus!

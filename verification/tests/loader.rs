use snowflake::elf::{ElfHeader, PhEnt, ELF_MAGIC};
use snowflake::loader::{segment_image, KernelLoad, SegmentStep};

fn header() -> ElfHeader {
    let mut ident = [0u8; 16];
    ident[..8].copy_from_slice(&ELF_MAGIC);
    ElfHeader { e_ident: ident, e_version: 1, e_entry: 0x10_0040, ..ElfHeader::default() }
}

#[test]
fn kernel_load_steps_over_segments() {
    let mut k = KernelLoad::start(&header());
    assert_eq!(k, KernelLoad { entry: 0x10_0040, base: 0, size: 0 });
    let note = PhEnt { p_type: 4, p_flags: 0, p_offset: 0x40, p_vaddr: 7, p_paddr: 7, p_filesz: 8, p_memsz: 8, p_align: 0 };
    assert_eq!(k.step(&note), SegmentStep::Skip);
    assert_eq!(k, KernelLoad { entry: 0x10_0040, base: 0, size: 0 });
    let text = PhEnt { p_type: 1, p_flags: 5, p_offset: 0x1000, p_vaddr: 0xFFFF_8000_0010_0000, p_paddr: 0x10_0000, p_filesz: 0x1800, p_memsz: 0x2001, p_align: 0x1000 };
    assert_eq!(
        k.step(&text),
        SegmentStep::Load { paddr: 0x10_0000, pages: 3, offset: 0x1000, file_len: 0x1800, mem_len: 0x2001 }
    );
    let data = PhEnt { p_vaddr: 0xFFFF_8000_0020_0000, p_paddr: 0x20_0000, p_memsz: 0x1000, p_filesz: 0x10, ..text };
    assert_eq!(k.step(&data), SegmentStep::Load { paddr: 0x20_0000, pages: 1, offset: 0x1000, file_len: 0x10, mem_len: 0x1000 });
    assert_eq!(k.step(&note), SegmentStep::Skip);
    assert_eq!(k, KernelLoad { entry: 0x10_0040, base: 0xFFFF_8000_0020_0000, size: 0x1000 });
}

#[test]
fn segment_image_zero_fills() {
    assert_eq!(segment_image(&[1, 2, 3], 6), vec![1, 2, 3, 0, 0, 0]);
    assert_eq!(segment_image(&[9], 1), vec![9]);
    assert_eq!(segment_image(&[], 2), vec![0, 0]);
}

use snowflake::elf::{
    elf_get_size, elf_load_segments, elf_load_symbols, ElfFile, ElfHeader, ElfSectionFlags, PhEnt,
    PhEntIter, ShEnt, SymbolInfo, ELF_SECTION_ALLOCATED,
};

fn put16(b: &mut Vec<u8>, off: usize, v: u16) {
    b[off..off + 2].copy_from_slice(&v.to_le_bytes());
}
fn put32(b: &mut Vec<u8>, off: usize, v: u32) {
    b[off..off + 4].copy_from_slice(&v.to_le_bytes());
}
fn put64(b: &mut Vec<u8>, off: usize, v: u64) {
    b[off..off + 8].copy_from_slice(&v.to_le_bytes());
}

/// An image with a valid header, program headers at 64, and room after.
fn image(entry: u64, phents: &[(u32, u64, u64, u64, u64)], extra: usize) -> Vec<u8> {
    let mut b = vec![0u8; 64 + 56 * phents.len() + extra];
    b[..8].copy_from_slice(&[0x7F, b'E', b'L', b'F', 2, 1, 1, 0]);
    put32(&mut b, 20, 1);
    put64(&mut b, 24, entry);
    put64(&mut b, 32, 64);
    put16(&mut b, 54, 56);
    put16(&mut b, 56, phents.len() as u16);
    for (i, &(ty, off, paddr, filesz, memsz)) in phents.iter().enumerate() {
        let o = 64 + 56 * i;
        put32(&mut b, o, ty);
        put64(&mut b, o + 8, off);
        put64(&mut b, o + 24, paddr);
        put64(&mut b, o + 32, filesz);
        put64(&mut b, o + 40, memsz);
    }
    b
}

#[test]
fn header_parses_fields() {
    let b = image(0x8000_1234, &[(1, 0, 0, 0, 0)], 0);
    let h = ElfHeader::parse(&b).unwrap();
    assert_eq!(h.e_entry, 0x8000_1234);
    assert_eq!(h.e_phoff, 64);
    assert_eq!(h.e_phentsize, 56);
    assert_eq!(h.e_phnum, 1);
    assert_eq!(h.e_version, 1);
    assert!(h.is_valid());
    h.check_header();
    assert!(ElfHeader::parse(&b[..63]).is_none());
}

#[test]
fn header_with_bad_magic_is_invalid() {
    let mut b = image(0, &[], 0);
    b[1] = b'X';
    assert!(!ElfHeader::parse(&b).unwrap().is_valid());
    let mut c = image(0, &[], 0);
    put32(&mut c, 20, 2);
    assert!(!ElfHeader::parse(&c).unwrap().is_valid());
}

#[test]
fn phent_addresses_and_flags() {
    let p = PhEnt { p_type: 1, p_flags: 0xE, p_offset: 0, p_vaddr: 0, p_paddr: 0x1000, p_filesz: 0, p_memsz: 0x234, p_align: 0 };
    assert_eq!(p.start_address(), 0x1000);
    assert_eq!(p.end_address(), 0x1234);
    assert_eq!(p.end_address() - p.start_address(), p.p_memsz as usize);
    assert_eq!(p.flags(), ElfSectionFlags { bits: 6 });
    assert!(p.is_allocated());
    let q = PhEnt { p_flags: 0x5, ..p };
    assert!(!q.is_allocated());
    assert!(ElfSectionFlags::from_bits_truncate(0xFF).contains(ElfSectionFlags { bits: ELF_SECTION_ALLOCATED }));
}

#[test]
fn phents_come_in_order() {
    let f = ElfFile(image(0, &[(1, 1, 2, 3, 4), (2, 5, 6, 7, 8)], 0));
    let mut it: PhEntIter = f.phents();
    let a = it.next().unwrap();
    let b = it.next().unwrap();
    assert_eq!((a.p_type, a.p_offset, a.p_paddr, a.p_filesz, a.p_memsz), (1, 1, 2, 3, 4));
    assert_eq!((b.p_type, b.p_offset, b.p_paddr, b.p_filesz, b.p_memsz), (2, 5, 6, 7, 8));
    assert!(it.next().is_none());
    assert!(it.next().is_none());
}

#[test]
fn size_rounds_highest_load_end() {
    let f = ElfFile(image(0, &[(1, 0, 0x1000, 0, 0x1801), (2, 0, 0x9000, 0, 0x10), (1, 0, 0, 0, 0x10)], 0));
    assert_eq!(elf_get_size(&f), 0x3000);
    let g = ElfFile(image(0, &[(1, 0, 0x2000, 0, 0)], 0));
    assert_eq!(elf_get_size(&g), 0x2000);
    let none = ElfFile(image(0, &[(2, 0, 0x2000, 0, 0x10)], 0));
    assert_eq!(elf_get_size(&none), 0);
}

#[test]
fn load_copies_file_bytes_then_zeros() {
    let mut b = image(0x8000_0010, &[(1, 176, 2, 3, 5), (4, 176, 0, 3, 3)], 8);
    b[176..179].copy_from_slice(&[7, 8, 9]);
    let f = ElfFile(b);
    let mut out = vec![0xAAu8; 10];
    let entry = elf_load_segments(&f, &mut out, 0x100);
    assert_eq!(out, vec![0xAA, 0xAA, 7, 8, 9, 0, 0, 0xAA, 0xAA, 0xAA]);
    assert_eq!(entry, 0x110);
}

#[test]
fn later_segments_overwrite_earlier() {
    let mut b = image(0x8000_0000, &[(1, 176, 0, 2, 2), (1, 178, 1, 2, 2)], 4);
    b[176..180].copy_from_slice(&[1, 2, 3, 4]);
    let f = ElfFile(b);
    let mut out = vec![0u8; 4];
    assert_eq!(elf_load_segments(&f, &mut out, 0), 0);
    assert_eq!(out, vec![1, 3, 4, 0]);
}

/// An image whose section table (56-byte entries) has a symbol table and its
/// string table.
fn image_with_symbols() -> Vec<u8> {
    let mut b = image(0, &[], 0);
    let shoff = b.len();
    b.resize(shoff + 3 * 56 + 64, 0);
    put64(&mut b, 40, shoff as u64);
    put16(&mut b, 58, 56);
    put16(&mut b, 60, 3);
    let data = shoff + 3 * 56;
    // entry 1: the symbol table, 40 bytes (two whole entries), strings in 2
    put32(&mut b, shoff + 56 + 4, 2);
    put64(&mut b, shoff + 56 + 24, data as u64);
    put32(&mut b, shoff + 56 + 32, 40);
    put32(&mut b, shoff + 56 + 36, 2);
    // entry 2: the string table, 5 bytes
    put32(&mut b, shoff + 112 + 4, 3);
    put64(&mut b, shoff + 112 + 24, (data + 48) as u64);
    put32(&mut b, shoff + 112 + 32, 5);
    for i in 0..48 {
        b[data + i] = i as u8 + 1;
    }
    b[data + 48..data + 53].copy_from_slice(b"\0ab\0c");
    b
}

#[test]
fn symbols_are_copied_after_the_description() {
    let f = ElfFile(image_with_symbols());
    let mut info = SymbolInfo { base: 9, count: 9, string_table: 9, strtab_len: 9 };
    let mut area = vec![0xEEu8; 50];
    let written = elf_load_symbols(&f, &mut info, 0x1000, &mut area);
    assert_eq!(written, 32 + 40 + 5);
    assert_eq!(info, SymbolInfo { base: 0x1020, count: 2, string_table: 0x1048, strtab_len: 5 });
    let expected: Vec<u8> = (1..=32).collect();
    assert_eq!(&area[..32], &expected[..]);
    assert_eq!(&area[32..40], &[0xEE; 8]);
    assert_eq!(&area[40..45], b"\0ab\0c");
    assert_eq!(&area[45..], &[0xEE; 5]);
}

#[test]
fn no_symbol_table_writes_only_the_description() {
    let mut b = image(0, &[], 0);
    let shoff = b.len();
    b.resize(shoff + 56, 0);
    put64(&mut b, 40, shoff as u64);
    put16(&mut b, 58, 56);
    put16(&mut b, 60, 1);
    let f = ElfFile(b);
    let mut info = SymbolInfo { base: 9, count: 9, string_table: 9, strtab_len: 9 };
    let mut area = vec![1u8; 4];
    assert_eq!(elf_load_symbols(&f, &mut info, 0x1000, &mut area), 32);
    assert_eq!(info, SymbolInfo::default());
    assert_eq!(area, vec![1u8; 4]);
}

#[test]
fn section_entries_parse() {
    let b = image_with_symbols();
    let s = ShEnt::parse(&b, 64 + 56);
    assert_eq!((s.sh_type, s.sh_size, s.sh_link), (2, 40, 2));
}

#[test]
fn entrypoint_reads_header() {
    let f = ElfFile(image(0x8012_3456, &[], 0));
    assert_eq!(f.entrypoint(), 0x8012_3456);
    f.check_header();
    assert_eq!(f.header().unwrap().e_entry, 0x8012_3456);
}

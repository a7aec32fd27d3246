use snowflake::paging::boot_page_tables;

fn translate(t: &[u64], va: u64) -> Option<u64> {
    let table = |e: u64| ((e & !0xFFF) - 0x70000) / 0x1000;
    let e4 = t[((va >> 39) & 511) as usize];
    if e4 & 1 == 0 {
        return None;
    }
    let e3 = t[(table(e4) * 512 + ((va >> 30) & 511)) as usize];
    if e3 & 1 == 0 {
        return None;
    }
    let e2 = t[(table(e3) * 512 + ((va >> 21) & 511)) as usize];
    if e2 & 1 == 0 || e2 & 0x80 == 0 {
        return None;
    }
    Some((e2 & !0x1F_FFFF) + (va & 0x1F_FFFF))
}

#[test]
fn tables_have_expected_entries() {
    let t = boot_page_tables();
    assert_eq!(t.len(), 3072);
    assert_eq!(t[0], 0x71003);
    assert_eq!(t[510], 0x71003);
    assert_eq!(t[511], 0x70003);
    assert_eq!(t[1], 0);
    assert_eq!(&t[512..516], &[0x72003, 0x73003, 0x74003, 0x75003]);
    assert_eq!(t[516], 0);
    assert_eq!(t[1024], 0x83);
    assert_eq!(t[1025], 0x200083);
    assert_eq!(t[3071], 0x83 + 2047 * 0x200000);
}

#[test]
fn low_four_gib_map_to_themselves() {
    let t = boot_page_tables();
    for va in [0u64, 0x1234, 0x20_0000, 0x7FFF_FFFF, 0xC000_1000, 0xFFFF_FFFF] {
        assert_eq!(translate(&t, va), Some(va));
        assert_eq!(translate(&t, 510 * 0x80_0000_0000 + va), Some(va));
    }
    assert_eq!(translate(&t, 0x1_0000_0000), None);
}

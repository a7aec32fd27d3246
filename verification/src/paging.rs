use vstd::prelude::*;

verus! {

/// The physical address of the boot page tables.
pub const PT_BASE: u64 = 0x70000;

/// The number of entries in one page table.
pub const ENTRIES: usize = 512;

/// The number of page tables built at boot: one PML4, one PDP and four page
/// directories.
pub const TABLES: usize = 6;

/// Entry flags: present, writable, and (in a page directory) a 2 MiB page.
pub const PRESENT: u64 = 0x1;

pub const WRITABLE: u64 = 0x2;

pub const HUGE_PAGE: u64 = 0x80;

/// The size of a page that a page directory entry maps.
pub const HUGE_PAGE_SIZE: u64 = 0x20_0000;

/// Entry `i` of the boot page tables, counting the six 512-entry tables one
/// after the other: the PML4 links its first and its next-to-last slot to
/// the PDP and its last slot to itself; the PDP links its first four slots
/// to the four page directories; the page directories map the first 4 GiB
/// with writable 2 MiB pages, each to itself.
pub open spec fn boot_entry(i: int) -> u64 {
    if i == 0 || i == 510 {
        (0x71000 + 3) as u64
    } else if i == 511 {
        (0x70000 + 3) as u64
    } else if 512 <= i < 516 {
        (0x72000 + (i - 512) * 0x1000 + 3) as u64
    } else if 1024 <= i < 3072 {
        (0x83 + (i - 1024) * 0x20_0000) as u64
    } else {
        0
    }
}

/// Builds the boot page tables, entry after entry.
pub fn boot_page_tables() -> (t: Vec<u64>)
    ensures
        t@.len() == 3072,
        forall|i: int| 0 <= i < 3072 ==> #[trigger] t@[i] == boot_entry(i),
{
    let mut t: Vec<u64> = Vec::new();
    let mut n: usize = 0;
    while n < TABLES * ENTRIES
        invariant
            n <= 3072,
            t@.len() == n,
            forall|i: int| 0 <= i < n ==> #[trigger] t@[i] == 0,
        decreases 3072 - n,
    {
        t.push(0);
        n = n + 1;
    }
    // Link the first and the next-to-last PML4 slot to the PDP, the last to the PML4.
    t.set(0, 0x71000 | WRITABLE | PRESENT);
    t.set(510, 0x71000 | WRITABLE | PRESENT);
    t.set(511, 0x70000 | WRITABLE | PRESENT);
    // Link the first four PDP slots to the page directories.
    let base: usize = ENTRIES;
    t.set(base, 0x72000 | WRITABLE | PRESENT);
    t.set(base + 1, 0x73000 | WRITABLE | PRESENT);
    t.set(base + 2, 0x74000 | WRITABLE | PRESENT);
    t.set(base + 3, 0x75000 | WRITABLE | PRESENT);
    assert(0x71000u64 | 2 | 1 == 0x71003) by (bit_vector);
    assert(0x70000u64 | 2 | 1 == 0x70003) by (bit_vector);
    assert(0x72000u64 | 2 | 1 == 0x72003) by (bit_vector);
    assert(0x73000u64 | 2 | 1 == 0x73003) by (bit_vector);
    assert(0x74000u64 | 2 | 1 == 0x74003) by (bit_vector);
    assert(0x75000u64 | 2 | 1 == 0x75003) by (bit_vector);
    // Map the first 4 GiB with 2 MiB pages.
    let pd: usize = 2 * ENTRIES;
    let mut entry: u64 = HUGE_PAGE | WRITABLE | PRESENT;
    assert(0x80u64 | 2 | 1 == 0x83) by (bit_vector);
    let mut i: usize = 0;
    while i < 4 * ENTRIES
        invariant
            t@.len() == 3072,
            pd == 1024,
            i <= 2048,
            entry == 0x83 + i * 0x20_0000,
            forall|j: int| 0 <= j < 1024 + i ==> #[trigger] t@[j] == boot_entry(j),
            forall|j: int| 1024 + i <= j < 3072 ==> #[trigger] t@[j] == 0,
        decreases 2048 - i,
    {
        t.set(pd + i, entry);
        entry = entry + HUGE_PAGE_SIZE;
        i = i + 1;
    }
    t
}

/// The PML4 slot that virtual address `va` goes through.
pub open spec fn pml4_slot(va: int) -> int {
    (va / 0x80_0000_0000) % 512
}

/// The PDP slot that `va` goes through.
pub open spec fn pdp_slot(va: int) -> int {
    (va / 0x4000_0000) % 512
}

/// The page directory slot that `va` goes through.
pub open spec fn pd_slot(va: int) -> int {
    (va / 0x20_0000) % 512
}

/// Which of the boot tables an entry points to, by its address.
pub open spec fn table_of(entry: u64) -> int {
    ((entry / 0x1000) * 0x1000 - PT_BASE) / 0x1000
}

/// Whether an entry is present.
pub open spec fn present(entry: u64) -> bool {
    entry % 2 == 1
}

/// Whether a page directory entry maps a 2 MiB page.
pub open spec fn huge(entry: u64) -> bool {
    (entry / 0x80) % 2 == 1
}

/// The physical address that the tables `t` (the six boot tables, one
/// after the other) give to virtual address `va` through 2 MiB pages, or
/// `None` when the walk ends early.
pub open spec fn translate(t: Seq<u64>, va: int) -> Option<int> {
    let e4 = t[pml4_slot(va)];
    if !present(e4) || !(0 <= table_of(e4) < 6) {
        None
    } else {
        let e3 = t[table_of(e4) * 512 + pdp_slot(va)];
        if !present(e3) || !(0 <= table_of(e3) < 6) {
            None
        } else {
            let e2 = t[table_of(e3) * 512 + pd_slot(va)];
            if !present(e2) || !huge(e2) {
                None
            } else {
                Some((e2 / 0x20_0000) * 0x20_0000 + va % 0x20_0000)
            }
        }
    }
}

/// `(a * 0x1000 + r) / 0x1000 == a` for a small remainder.
proof fn lemma_page_of(a: int, r: int)
    requires
        0 <= r < 0x1000,
    ensures
        (a * 0x1000 + r) / 0x1000 == a,
{
    vstd::arithmetic::div_mod::lemma_fundamental_div_mod_converse(a * 0x1000 + r, 0x1000, a, r);
}

/// Splits an address below 4 GiB into its PDP slot, its page directory slot
/// and its offset in a 2 MiB page.
proof fn lemma_split_low(va: int)
    requires
        0 <= va < 0x1_0000_0000,
    ensures
        pml4_slot(va) == 0,
        0 <= pdp_slot(va) < 4,
        0 <= pd_slot(va) < 512,
        va == (pdp_slot(va) * 512 + pd_slot(va)) * 0x20_0000 + va % 0x20_0000,
{
    let q = va / 0x20_0000;
    let r = va % 0x20_0000;
    vstd::arithmetic::div_mod::lemma_fundamental_div_mod(va, 0x20_0000);
    vstd::arithmetic::div_mod::lemma_fundamental_div_mod(q, 512);
    vstd::arithmetic::div_mod::lemma_div_denominator(va, 0x20_0000, 512);
    assert(0x20_0000 * 512 == 0x4000_0000);
    assert(va / 0x4000_0000 < 4);
    assert(va / 0x80_0000_0000 == 0);
}

/// The boot tables map every address below 4 GiB to itself, and map the
/// same 4 GiB a second time from the next-to-last 512 GiB slot on.
pub proof fn lemma_boot_tables_map(t: Seq<u64>, a: int)
    requires
        t.len() == 3072,
        forall|i: int| 0 <= i < 3072 ==> #[trigger] t[i] == boot_entry(i),
        0 <= a < 0x1_0000_0000,
    ensures
        translate(t, a) == Some(a),
        translate(t, 510 * 0x80_0000_0000 + a) == Some(a),
{
    lemma_split_low(a);
    let l3 = pdp_slot(a);
    let l2 = pd_slot(a);
    let off = a % 0x20_0000;
    let hi = 510 * 0x80_0000_0000 + a;
    // The high address goes through the same slots below the PML4.
    vstd::arithmetic::div_mod::lemma_fundamental_div_mod_converse(hi, 0x80_0000_0000, 510, a);
    assert(pml4_slot(hi) == 510);
    vstd::arithmetic::div_mod::lemma_fundamental_div_mod_converse(
        hi,
        0x4000_0000,
        510 * 512 + l3,
        a % 0x4000_0000,
    );
    vstd::arithmetic::div_mod::lemma_fundamental_div_mod(a, 0x4000_0000);
    assert(pdp_slot(hi) == l3) by {
        vstd::arithmetic::div_mod::lemma_fundamental_div_mod_converse(510 * 512 + l3, 512, 510, l3);
    }
    vstd::arithmetic::div_mod::lemma_fundamental_div_mod(a, 0x20_0000);
    vstd::arithmetic::div_mod::lemma_fundamental_div_mod_converse(
        hi,
        0x20_0000,
        510 * 0x40000 + a / 0x20_0000,
        off,
    );
    assert(pd_slot(hi) == l2) by {
        vstd::arithmetic::div_mod::lemma_fundamental_div_mod(a / 0x20_0000, 512);
        vstd::arithmetic::div_mod::lemma_fundamental_div_mod_converse(
            510 * 0x40000 + a / 0x20_0000,
            512,
            510 * 512 + (a / 0x20_0000) / 512,
            (a / 0x20_0000) % 512,
        );
    }
    assert(hi % 0x20_0000 == off);
    // Walk: PML4 -> PDP (table 1) -> page directory 2 + l3 -> 2 MiB page.
    let e4 = t[0];
    assert(e4 == 0x71003);
    assert(t[510] == 0x71003);
    assert(table_of(e4) == 1);
    let e3 = t[512 + l3];
    assert(e3 == 0x72003 + l3 * 0x1000);
    lemma_page_of(0x72 + l3, 3);
    assert(table_of(e3) == 2 + l3);
    let idx = (2 + l3) * 512 + l2;
    assert(1024 <= idx < 3072);
    let k = l3 * 512 + l2;
    let e2 = t[idx];
    assert(e2 == 0x83 + k * 0x20_0000);
    vstd::arithmetic::div_mod::lemma_fundamental_div_mod_converse(e2 as int, 0x20_0000, k, 0x83);
    vstd::arithmetic::div_mod::lemma_fundamental_div_mod_converse(e2 as int, 2, k * 0x10_0000 + 0x41, 1);
    vstd::arithmetic::div_mod::lemma_fundamental_div_mod_converse(e2 as int, 0x80, k * 0x4000 + 1, 3);
    vstd::arithmetic::div_mod::lemma_fundamental_div_mod_converse(k * 0x4000 + 1, 2, k * 0x2000, 1);
    assert(present(e2) && huge(e2));
}

} // verus!

use vstd::prelude::*;

verus! {

pub const IA32_APIC_BASE: u32 = 0x1b;

pub const IA32_X2APIC_SIVR: u32 = 0x80f;

pub const IA32_X2APIC_APICID: u32 = 0x802;

pub const IA32_X2APIC_VERSION: u32 = 0x803;

pub const IA32_X2APIC_EOI: u32 = 0x80b;

pub const IA32_X2APIC_ICR: u32 = 0x830;

/// The memory-mapped registers of the local APIC, by offset.
pub const APIC_ID: u32 = 0x20;

pub const APIC_VERSION: u32 = 0x30;

pub const APIC_EOI: u32 = 0xB0;

pub const APIC_SIVR: u32 = 0xF0;

pub const APIC_ICR_LOW: u32 = 0x300;

pub const APIC_ICR_HIGH: u32 = 0x310;

/// The delivery status bit of the low interrupt command register: set while
/// an interrupt is being sent.
pub const ICR_PENDING: u32 = 1 << 12;

/// The local APIC: where its registers are mapped, and whether it runs in
/// x2APIC mode (registers reached through model-specific registers).
#[derive(Clone, Copy, Debug, PartialEq, Eq)]
pub struct Apic {
    pub address: usize,
    pub x2: bool,
}

/// The interrupt command that sends a fixed interrupt 0x40 to the APIC
/// `apic_id`, asserted: the destination field is bits 32 and up in x2APIC
/// mode and bits 56 and up otherwise.
pub open spec fn ipi_command(x2: bool, apic_id: usize) -> u64 {
    0x4040u64 | ((apic_id as u64) << (if x2 { 32u64 } else { 56u64 }))
}

/// The 64-bit interrupt command made of the high and the low register.
pub open spec fn icr_of(high: u32, low: u32) -> int {
    high * 0x1_0000_0000 + low
}

impl Apic {
    /// The address that the APIC registers are mapped at: the 64 KiB-aligned
    /// physical base from the APIC base register, moved up by the kernel's
    /// base.
    pub fn base_address(msr: u64, kernel_base: usize) -> (a: usize)
        requires
            ((msr as usize) / 0x1_0000) % 0x1_0000 * 0x1_0000 + kernel_base <= usize::MAX,
        ensures
            a == ((msr as usize) / 0x1_0000) % 0x1_0000 * 0x1_0000 + kernel_base,
    {
        let m = msr as usize;
        let masked = m & 0xFFFF_0000;
        assert(m & 0xFFFF_0000 == (m / 0x1_0000) % 0x1_0000 * 0x1_0000) by (bit_vector);
        masked + kernel_base
    }

    /// The APIC base register value that enables x2APIC mode (bit 10).
    pub fn x2_enable(base: u64) -> (v: u64)
        ensures
            v == base | 0x400,
    {
        let v = base | (1u64 << 10u64);
        assert(base | (1u64 << 10u64) == base | 0x400) by (bit_vector);
        v
    }

    /// The interrupt command that sends an interrupt to APIC `apic_id`.
    pub fn ipi(&self, apic_id: usize) -> (icr: u64)
        ensures
            icr == ipi_command(self.x2, apic_id),
    {
        let mut icr: u64 = 0x4040;
        if self.x2 {
            icr = icr | ((apic_id as u64) << 32u64);
        } else {
            icr = icr | ((apic_id as u64) << 56u64);
        }
        icr
    }

    /// The interrupt command held by the high and the low register.
    pub fn icr_from_registers(high: u32, low: u32) -> (icr: u64)
        ensures
            icr == icr_of(high, low),
    {
        let v = (high as u64) << 32 | low as u64;
        assert((high as u64) << 32 | low as u64 == (high as u64) * 0x1_0000_0000 + (low as u64))
            by (bit_vector);
        v
    }

    /// The high and the low register that hold an interrupt command.
    pub fn icr_to_registers(value: u64) -> (r: (u32, u32))
        ensures
            icr_of(r.0, r.1) == value,
            r.0 == value / 0x1_0000_0000,
            r.1 == value % 0x1_0000_0000,
    {
        let high = (value >> 32) as u32;
        let low = #[verifier::truncate] (value as u32);
        assert((value >> 32) as u32 == value / 0x1_0000_0000) by (bit_vector);
        assert((value as u32) == value % 0x1_0000_0000) by (bit_vector);
        (high, low)
    }

    /// Whether the low interrupt command register says that an interrupt is
    /// still being sent.
    pub fn icr_pending(low: u32) -> (b: bool)
        ensures
            b == ((low / 0x1000) % 2 == 1),
    {
        let r = low & ICR_PENDING == ICR_PENDING;
        assert((low & (1u32 << 12) == (1u32 << 12)) == ((low / 0x1000) % 2 == 1)) by (bit_vector);
        r
    }
}

/// Splitting an interrupt command into its two registers and joining them
/// again gives the command back, and the other way round.
pub proof fn lemma_icr_round_trip(value: u64, high: u32, low: u32)
    ensures
        icr_of((value / 0x1_0000_0000) as u32, (value % 0x1_0000_0000) as u32) == value,
        icr_of(high, low) / 0x1_0000_0000 == high,
        icr_of(high, low) % 0x1_0000_0000 == low,
{
    vstd::arithmetic::div_mod::lemma_fundamental_div_mod_converse(
        icr_of(high, low),
        0x1_0000_0000,
        high as int,
        low as int,
    );
    vstd::arithmetic::div_mod::lemma_fundamental_div_mod(value as int, 0x1_0000_0000);
}

/// The interrupt command of an inter-processor interrupt keeps the vector
/// 0x40 and the assert bit, whatever the destination.
pub proof fn lemma_ipi_vector(x2: bool, apic_id: usize)
    ensures
        ipi_command(x2, apic_id) & 0xFFFF == 0x4040,
{
    let id = apic_id as u64;
    assert(((0x4040u64 | (id << 32u64)) & 0xFFFF) == 0x4040) by (bit_vector);
    assert(((0x4040u64 | (id << 56u64)) & 0xFFFF) == 0x4040) by (bit_vector);
}

} // verus!

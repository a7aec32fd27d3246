use vstd::prelude::*;

verus! {

/// The command that acknowledges an interrupt (end of interrupt).
pub const PIC_EOI: u8 = 0x20;

/// The I/O ports of one 8259 programmable interrupt controller.
#[derive(Clone, Copy, Debug, PartialEq, Eq)]
pub struct Pic {
    pub cmd: u16,
    pub data: u16,
}

/// Which controller an action goes to.
#[derive(Clone, Copy, Debug, PartialEq, Eq)]
pub enum PicChip {
    Master,
    Slave,
}

/// A step of handling an interrupt at the controllers.
#[derive(Clone, Copy, Debug, PartialEq, Eq)]
pub enum PicAction {
    /// Mask line `irq` (0 to 7) of a controller.
    MaskSet(PicChip, u8),
    /// Acknowledge the interrupt at a controller.
    Ack(PicChip),
}

/// The mask after line `irq` is masked.
pub open spec fn mask_with(mask: u8, irq: u8) -> u8 {
    mask | ((1u8 << irq) as u8)
}

/// The mask after line `irq` is unmasked.
pub open spec fn mask_without(mask: u8, irq: u8) -> u8 {
    mask & !((1u8 << irq) as u8)
}

/// What the controllers are told when interrupt `irq` fires: a line of the
/// slave (8 to 15) is masked there and both controllers are acknowledged; a
/// line of the master (0 to 7) is masked and acknowledged there; other
/// interrupts do not concern them.
pub open spec fn trigger_plan(irq: u8) -> Seq<PicAction> {
    if irq < 16 {
        if irq >= 8 {
            seq![
                PicAction::MaskSet(PicChip::Slave, (irq - 8) as u8),
                PicAction::Ack(PicChip::Master),
                PicAction::Ack(PicChip::Slave),
            ]
        } else {
            seq![PicAction::MaskSet(PicChip::Master, irq), PicAction::Ack(PicChip::Master)]
        }
    } else {
        seq![]
    }
}

impl Pic {
    /// The controller whose command port is `port` and data port the next.
    pub fn new(port: u16) -> (p: Pic)
        requires
            port < 0xFFFF,
        ensures
            p.cmd == port,
            p.data == port + 1,
    {
        Pic { cmd: port, data: port + 1 }
    }

    /// The data port value that masks line `irq` on top of `mask`.
    pub fn mask_set(mask: u8, irq: u8) -> (m: u8)
        requires
            irq < 8,
        ensures
            m == mask_with(mask, irq),
    {
        mask | (1u8 << irq)
    }

    /// The data port value that unmasks line `irq` from `mask`.
    pub fn mask_clear(mask: u8, irq: u8) -> (m: u8)
        requires
            irq < 8,
        ensures
            m == mask_without(mask, irq),
    {
        mask & !(1u8 << irq)
    }
}

/// The master controller.
pub fn master() -> (p: Pic)
    ensures
        p == (Pic { cmd: 0x20, data: 0x21 }),
{
    Pic::new(0x20)
}

/// The slave controller.
pub fn slave() -> (p: Pic)
    ensures
        p == (Pic { cmd: 0xA0, data: 0xA1 }),
{
    Pic::new(0xA0)
}

/// The writes, port and value, that initialise the two controllers: mask
/// everything, start initialisation, set the vector offsets 0x20 and 0x28,
/// set up the cascade, choose 8086 mode, unmask everything, and acknowledge
/// what is pending.
pub open spec fn init_writes() -> Seq<(u16, u8)> {
    seq![
        (0x21u16, 0xffu8),
        (0xA1u16, 0xffu8),
        (0x20u16, 0x11u8),
        (0xA0u16, 0x11u8),
        (0x21u16, 0x20u8),
        (0xA1u16, 0x28u8),
        (0x21u16, 0x04u8),
        (0xA1u16, 0x02u8),
        (0x21u16, 0x01u8),
        (0xA1u16, 0x01u8),
        (0x21u16, 0x00u8),
        (0xA1u16, 0x00u8),
        (0x20u16, 0x20u8),
        (0xA0u16, 0x20u8),
    ]
}

/// The port writes that initialise the controllers, in order.
pub fn init() -> (w: Vec<(u16, u8)>)
    ensures
        w@ == init_writes(),
{
    let m = master();
    let s = slave();
    let mut w: Vec<(u16, u8)> = Vec::new();
    w.push((m.data, 0xff));
    w.push((s.data, 0xff));
    w.push((m.cmd, 0x11));
    w.push((s.cmd, 0x11));
    w.push((m.data, 0x20));
    w.push((s.data, 0x28));
    w.push((m.data, 0x4));
    w.push((s.data, 0x2));
    w.push((m.data, 0x1));
    w.push((s.data, 0x1));
    w.push((m.data, 0x0));
    w.push((s.data, 0x0));
    w.push((m.cmd, PIC_EOI));
    w.push((s.cmd, PIC_EOI));
    assert(w@ =~= init_writes());
    w
}

/// What the controllers are told when interrupt `irq` fires.
pub fn trigger(irq: u8) -> (plan: Vec<PicAction>)
    ensures
        plan@ == trigger_plan(irq),
{
    let mut plan: Vec<PicAction> = Vec::new();
    if irq < 16 {
        if irq >= 8 {
            plan.push(PicAction::MaskSet(PicChip::Slave, irq - 8));
            plan.push(PicAction::Ack(PicChip::Master));
            plan.push(PicAction::Ack(PicChip::Slave));
        } else {
            plan.push(PicAction::MaskSet(PicChip::Master, irq));
            plan.push(PicAction::Ack(PicChip::Master));
        }
    }
    assert(plan@ =~= trigger_plan(irq));
    plan
}

/// The vector that interrupt line `irq` (0 to 15) arrives as once the
/// controllers are initialised: the vector offset written to the master's
/// data port plus the line, or the one written to the slave's plus the line
/// less 8.
pub open spec fn irq_vector(irq: int) -> int {
    if irq < 8 {
        init_writes()[4].1 + irq
    } else {
        init_writes()[5].1 + (irq - 8)
    }
}

/// Initialisation moves the interrupts of the two controllers past the 32
/// processor exception vectors without overlap: after both controllers are
/// told to start initialisation (0x11 on command ports 0x20 and 0xA0), the
/// master's data port 0x21 gets vector offset 0x20 and the slave's data port
/// 0xA1 gets 0x28, eight above it, so lines 0 to 15 arrive as vectors 0x20
/// to 0x2F. The slave is cascaded on the master's line 2 (mask 0x04, slave
/// identity 2), both run in 8086 mode, everything is unmasked, and both are
/// acknowledged last.
pub proof fn lemma_init_vectors()
    ensures
        init_writes().len() == 14,
        init_writes()[0] == (0x21u16, 0xFFu8) && init_writes()[1] == (0xA1u16, 0xFFu8),
        init_writes()[2] == (0x20u16, 0x11u8) && init_writes()[3] == (0xA0u16, 0x11u8),
        init_writes()[4].0 == 0x21 && init_writes()[5].0 == 0xA1,
        init_writes()[4].1 == 0x20 && init_writes()[5].1 == 0x28,
        init_writes()[4].1 >= 32 && init_writes()[4].1 % 8 == 0,
        init_writes()[5].1 == init_writes()[4].1 + 8,
        forall|irq: int| 0 <= irq < 16 ==> 32 <= #[trigger] irq_vector(irq) == 0x20 + irq,
        init_writes()[6] == (0x21u16, 0x04u8) && init_writes()[7] == (0xA1u16, 0x02u8),
        init_writes()[8] == (0x21u16, 0x01u8) && init_writes()[9] == (0xA1u16, 0x01u8),
        init_writes()[10] == (0x21u16, 0x00u8) && init_writes()[11] == (0xA1u16, 0x00u8),
        init_writes()[12] == (0x20u16, PIC_EOI) && init_writes()[13] == (0xA0u16, PIC_EOI),
        PIC_EOI == 0x20,
{
}

/// Masking a line sets its bit and keeps the others; unmasking clears it
/// and keeps the others; so unmasking undoes masking a line that was clear.
pub proof fn lemma_mask_bits(mask: u8, irq: u8)
    requires
        irq < 8,
    ensures
        mask_with(mask, irq) & ((1u8 << irq) as u8) != 0,
        mask_without(mask, irq) & ((1u8 << irq) as u8) == 0,
        mask & ((1u8 << irq) as u8) == 0 ==> mask_without(mask_with(mask, irq), irq) == mask,
        mask_without(mask_with(mask, irq), irq) == mask_without(mask, irq),
{
    assert(irq < 8 ==> (mask | (1u8 << irq)) & (1u8 << irq) != 0) by (bit_vector);
    assert(irq < 8 ==> (mask & !(1u8 << irq)) & (1u8 << irq) == 0) by (bit_vector);
    assert(irq < 8 && mask & (1u8 << irq) == 0 ==> (mask | (1u8 << irq)) & !(1u8 << irq) == mask)
        by (bit_vector);
    assert(irq < 8 ==> (mask | (1u8 << irq)) & !(1u8 << irq) == mask & !(1u8 << irq))
        by (bit_vector);
}

} // verus!

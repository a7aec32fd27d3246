use vstd::prelude::*;
use crate::elf::{ElfHeader, PhEnt};

verus! {

/// The value that the boot loader hands to the kernel to show that the
/// boot information follows.
pub const BOOT_MAGIC: usize = 0x71FF0EF1;

/// The physical address of the kernel stack and its size.
pub const STACK_BASE: usize = 0x80000;

pub const STACK_SIZE: usize = 0x1F000;

/// A key stroke read from the firmware console.
#[derive(Clone, Copy, Debug, Default, PartialEq, Eq)]
pub struct InputKey {
    pub scan_code: u16,
    pub unicode_char: u16,
}

/// Why the firmware allocator refused an allocation.
#[derive(Clone, Copy, Debug, PartialEq, Eq)]
pub enum AllocErr {
    /// The firmware only hands out memory aligned to 8 bytes.
    Unsupported,
    /// The firmware had no memory left.
    Exhausted,
}

/// The UTF-16 code units of a character.
pub open spec fn utf16_units(c: char) -> Seq<u16> {
    let v = c as u32;
    if v < 0x1_0000 {
        seq![v as u16]
    } else {
        let u = v - 0x1_0000;
        seq![(0xD800 + u / 0x400) as u16, (0xDC00 + u % 0x400) as u16]
    }
}

/// Encodes a character as a NUL-terminated UTF-16 string of three units,
/// the way the firmware console takes it.
pub fn utf16_nul(c: char) -> (b: [u16; 3])
    ensures
        b@.take(utf16_units(c).len() as int) == utf16_units(c),
        forall|i: int| utf16_units(c).len() <= i < 3 ==> b@[i] == 0,
{
    let v = c as u32;
    proof {
        vstd::utf8::char_is_scalar(c);
    }
    let mut b = [0u16; 3];
    if v < 0x1_0000 {
        b[0] = v as u16;
    } else {
        let u = v - 0x1_0000;
        b[0] = (0xD800 + u / 0x400) as u16;
        b[1] = (0xDC00 + u % 0x400) as u16;
    }
    assert(b@.take(utf16_units(c).len() as int) =~= utf16_units(c));
    b
}

/// The number of 10 ms timer ticks in `timeout` seconds.
pub fn wait_ticks(timeout: u64) -> (t: u64)
    requires
        timeout * 100 <= u64::MAX,
    ensures
        t == timeout * 100,
{
    timeout * 100
}

/// Whether a key ends the wait before booting: the `r` key.
pub fn is_resume_key(key: InputKey) -> (b: bool)
    ensures
        b == (key.unicode_char == 0x72),
{
    key.unicode_char == 0x72
}

/// Whether the firmware allocator can serve an alignment: at most 8 bytes.
pub fn check_alignment(align: usize) -> (r: Result<(), AllocErr>)
    ensures
        r is Ok <==> align <= 8,
        r is Err ==> r == Err::<(), AllocErr>(AllocErr::Unsupported),
{
    if align > 8 {
        Err(AllocErr::Unsupported)
    } else {
        Ok(())
    }
}

/// The number of 4 KiB pages that a segment's memory takes, rounded up.
pub fn segment_pages(ph: &PhEnt) -> (n: usize)
    requires
        ph.p_memsz + 0xFFF <= u64::MAX,
    ensures
        n == ((ph.p_memsz + 0xFFF) as usize) / 0x1000,
{
    (ph.p_memsz + 0xFFF) as usize / 0x1000
}

/// The number of pages that the loader which reads the kernel segment by
/// segment from the boot volume asks the firmware for: the segment's size in
/// memory divided by 0x4096.
pub fn loader_segment_pages(ph: &PhEnt) -> (n: usize)
    ensures
        n == (ph.p_memsz as usize) / 0x4096,
{
    ph.p_memsz as usize / 0x4096
}

/// The file position of program header entry `i`.
pub fn phent_offset(header: &ElfHeader, i: u16) -> (pos: u64)
    requires
        header.e_phoff + i * 56 <= u64::MAX,
    ensures
        pos == header.e_phoff + i * 56,
{
    header.e_phoff + (i as u64) * 56
}

/// The end of the memory that the kernel image takes, as the kernel hands
/// it to its memory manager: its base plus its size in 4 KiB pages, times
/// 4 KiB.
pub fn kernel_memory_end(kernel_base: usize, kernel_size: usize) -> (end: usize)
    requires
        kernel_size + 4095 <= usize::MAX,
        (kernel_base + (kernel_size + 4095) / 4096) * 4096 <= usize::MAX,
    ensures
        end == (kernel_base + (kernel_size + 4095) / 4096) * 4096,
{
    (kernel_base + (kernel_size + 4095) / 4096) * 4096
}

/// The kernel stack's end, as the boot loader reports it.
pub fn stack_end() -> (e: usize)
    ensures
        e == STACK_BASE + STACK_SIZE,
{
    STACK_BASE + STACK_SIZE
}

/// What the boot loader tells the kernel about the machine: where the
/// kernel lies, its stack, the number of memory map entries and the screen.
#[derive(Clone, Copy, Debug, PartialEq, Eq)]
pub struct BootRecord {
    pub kernel_base: usize,
    pub kernel_size: usize,
    pub stack_base: usize,
    /// The end of the stack, which the record carries in its size field.
    pub stack_size: usize,
    pub map_len: u32,
    pub width: u32,
    pub height: u32,
}

/// The record handed to the kernel: the kernel's place, the stack, the
/// memory map of `map_size` bytes cut into entries of `ent_size` bytes
/// (the count cut to 32 bits), and the screen's resolution.
pub fn boot_record(
    kernel_base: usize,
    kernel_size: usize,
    map_size: usize,
    ent_size: usize,
    width: u32,
    height: u32,
) -> (r: BootRecord)
    requires
        ent_size > 0,
    ensures
        r == (BootRecord {
            kernel_base,
            kernel_size,
            stack_base: STACK_BASE,
            stack_size: (STACK_BASE + STACK_SIZE) as usize,
            map_len: (map_size / ent_size) as u32,
            width,
            height,
        }),
{
    let n = map_size / ent_size;
    BootRecord {
        kernel_base,
        kernel_size,
        stack_base: STACK_BASE,
        stack_size: stack_end(),
        map_len: #[verifier::truncate] (n as u32),
        width,
        height,
    }
}

/// Where the kernel draws the frame of its start-up bar: a third of the
/// screen wide and 8 pixels high, centred on column `splash_x`, at row
/// `splash_y`.
pub fn splash_bar(resolution_w: u32, splash_x: i32, splash_y: i32) -> (b: (i32, i32, u32, u32))
    requires
        splash_x - (resolution_w / 3) / 2 >= i32::MIN,
    ensures
        b.2 == resolution_w / 3,
        b.3 == 8,
        b.0 == splash_x - (resolution_w / 3) / 2,
        b.1 == splash_y,
{
    let w = resolution_w / 3;
    let half = (w / 2) as i32;
    (splash_x - half, splash_y, w, 8)
}

/// Half of `v`, rounded toward zero.
pub open spec fn half_toward_zero(v: int) -> int {
    if v >= 0 {
        v / 2
    } else {
        -((-v) / 2)
    }
}

/// Where the boot loader writes a status message of `len` characters below
/// a splash image `splash_height` pixels high on a `width` by `height`
/// screen: the text's left end `x` (centred, 8 pixels per character) and row
/// `y` (256 pixels below the middle of the image), and the band that is
/// cleared first, from row `y - 16`, as many rows high as `y + 16` taken as
/// an unsigned 32-bit number.
pub fn status_layout(width: u32, height: u32, splash_height: u32, len: usize) -> (r: (i32, i32, i32, u32))
    requires
        width <= i32::MAX,
        height <= i32::MAX,
        splash_height <= i32::MAX,
        len * 8 <= i32::MAX,
    ensures
        r.0 == half_toward_zero(width - 8 * len),
        r.1 == half_toward_zero(height - splash_height) + 256,
        r.2 == r.1 - 16,
        r.3 == (r.1 + 16) as u32,
{
    let text_w: u64 = (len as u64) * 8;
    let x: i32 = if (width as u64) >= text_w {
        ((width as u64 - text_w) / 2) as i32
    } else {
        -(((text_w - width as u64) / 2) as i32)
    };
    let mid: i32 = if height >= splash_height {
        ((height - splash_height) / 2) as i32
    } else {
        -(((splash_height - height) / 2) as i32)
    };
    let y: i32 = mid + 256;
    let rect_h: u32 = #[verifier::truncate] ((y + 16) as u32);
    (x, y, y - 16, rect_h)
}

/// The UTF-16 units of a character give the character back: one unit is its
/// code point, and a surrogate pair joins to it.
pub proof fn lemma_utf16_round_trip(c: char)
    ensures
        utf16_units(c).len() == 1 ==> utf16_units(c)[0] == c as u32,
        utf16_units(c).len() == 2 ==> {
            let hi = utf16_units(c)[0] as int;
            let lo = utf16_units(c)[1] as int;
            &&& 0xD800 <= hi < 0xDC00
            &&& 0xDC00 <= lo < 0xE000
            &&& (hi - 0xD800) * 0x400 + (lo - 0xDC00) + 0x1_0000 == c as u32
        },
{
    vstd::utf8::char_is_scalar(c);
    let v = c as u32;
    if v >= 0x1_0000 {
        let u = v - 0x1_0000;
        vstd::arithmetic::div_mod::lemma_fundamental_div_mod(u as int, 0x400);
    }
}

/// The memory size in KiB that is reported from the two CMOS bytes of
/// registers 0x30 and 0x31: the two bytes are or-ed, then shifted up by 8.
pub fn cmos_memory_kb(low: u8, high: u8) -> (kb: isize)
    ensures
        kb == (low | high) as int * 256,
{
    let v = (low | high) as isize;
    v * 256
}

/// What the kernel prints when an interrupt reaches it: `test` for the
/// keyboard (interrupt 1), `What The` for any other.
pub fn irq_message(irq: u8) -> (m: &'static str)
    ensures
        irq == 1 ==> m@ == "test"@,
        irq != 1 ==> m@ == "What The"@,
{
    if irq == 1 {
        "test"
    } else {
        "What The"
    }
}

} // verus!

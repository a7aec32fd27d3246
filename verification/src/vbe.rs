use vstd::prelude::*;
use crate::bytes::{le_u16, le_u32, read_u16, read_u32};

verus! {

/// The VBE mode information block, as the real-mode start code leaves it.
#[derive(Clone, Copy, Debug, PartialEq, Eq)]
pub struct VbeModeInfo {
    pub attributes: u16,
    pub window_attrs: [u8; 2],
    pub granuality: u16,
    pub window_size: u16,
    pub window_segments: [u16; 2],
    pub win_pos_fcn_fptr: [u16; 2],
    pub pitch: u16,
    pub x_res: u16,
    pub y_res: u16,
    pub char_w: u8,
    pub char_h: u8,
    pub n_planes: u8,
    pub bpp: u8,
    pub n_banks: u8,
    pub memory_model: u8,
    pub bank_size: u8,
    pub n_pages: u8,
    pub _resvd: u8,
    pub red_mask: u8,
    pub red_position: u8,
    pub green_mask: u8,
    pub green_position: u8,
    pub blue_mask: u8,
    pub blue_position: u8,
    pub rsv_mask: u8,
    pub rsv_position: u8,
    pub directcolor_attributes: u8,
    pub physbase: u32,
    pub offscreen_ptr: u32,
    pub offscreen_size_kb: u16,
    pub lfb_pitch: u16,
    pub image_count_banked: u8,
    pub image_count_lfb: u8,
}

/// Whether `m` holds the fields that the 56 bytes at the start of `b` lay out.
pub open spec fn mode_info_of(m: VbeModeInfo, b: Seq<u8>) -> bool {
    &&& b.len() >= 56
    &&& m.attributes == le_u16(b, 0) as u16
    &&& m.window_attrs@ == seq![b[2], b[3]]
    &&& m.granuality == le_u16(b, 4) as u16
    &&& m.window_size == le_u16(b, 6) as u16
    &&& m.window_segments@ == seq![le_u16(b, 8) as u16, le_u16(b, 10) as u16]
    &&& m.win_pos_fcn_fptr@ == seq![le_u16(b, 12) as u16, le_u16(b, 14) as u16]
    &&& m.pitch == le_u16(b, 16) as u16
    &&& m.x_res == le_u16(b, 18) as u16
    &&& m.y_res == le_u16(b, 20) as u16
    &&& m.char_w == b[22]
    &&& m.char_h == b[23]
    &&& m.n_planes == b[24]
    &&& m.bpp == b[25]
    &&& m.n_banks == b[26]
    &&& m.memory_model == b[27]
    &&& m.bank_size == b[28]
    &&& m.n_pages == b[29]
    &&& m._resvd == b[30]
    &&& m.red_mask == b[31]
    &&& m.red_position == b[32]
    &&& m.green_mask == b[33]
    &&& m.green_position == b[34]
    &&& m.blue_mask == b[35]
    &&& m.blue_position == b[36]
    &&& m.rsv_mask == b[37]
    &&& m.rsv_position == b[38]
    &&& m.directcolor_attributes == b[39]
    &&& m.physbase == le_u32(b, 40) as u32
    &&& m.offscreen_ptr == le_u32(b, 44) as u32
    &&& m.offscreen_size_kb == le_u16(b, 48) as u16
    &&& m.lfb_pitch == le_u16(b, 50) as u16
    &&& m.image_count_banked == b[52]
    &&& m.image_count_lfb == b[53]
}
/// The VBE mode information block, packed, as the kernel reads it.
#[derive(Clone, Copy, Debug, PartialEq, Eq)]
pub struct VBEModeInfo {
    pub attributes: u16,
    pub win_a: u8,
    pub win_b: u8,
    pub granularity: u16,
    pub winsize: u16,
    pub segment_a: u16,
    pub segment_b: u16,
    pub winfuncptr: u32,
    pub bytesperscanline: u16,
    pub xresolution: u16,
    pub yresolution: u16,
    pub xcharsize: u8,
    pub ycharsize: u8,
    pub numberofplanes: u8,
    pub bitsperpixel: u8,
    pub numberofbanks: u8,
    pub memorymodel: u8,
    pub banksize: u8,
    pub numberofimagepages: u8,
    pub unused: u8,
    pub redmasksize: u8,
    pub redfieldposition: u8,
    pub greenmasksize: u8,
    pub greenfieldposition: u8,
    pub bluemasksize: u8,
    pub bluefieldposition: u8,
    pub rsvdmasksize: u8,
    pub rsvdfieldposition: u8,
    pub directcolormodeinfo: u8,
    pub physbaseptr: u32,
    pub offscreenmemoryoffset: u32,
    pub offscreenmemsize: u16,
}

/// Whether `m` holds the fields that the 50 bytes at the start of `b` lay out.
pub open spec fn packed_mode_info_of(m: VBEModeInfo, b: Seq<u8>) -> bool {
    &&& b.len() >= 50
    &&& m.attributes == le_u16(b, 0) as u16
    &&& m.win_a == b[2]
    &&& m.win_b == b[3]
    &&& m.granularity == le_u16(b, 4) as u16
    &&& m.winsize == le_u16(b, 6) as u16
    &&& m.segment_a == le_u16(b, 8) as u16
    &&& m.segment_b == le_u16(b, 10) as u16
    &&& m.winfuncptr == le_u32(b, 12) as u32
    &&& m.bytesperscanline == le_u16(b, 16) as u16
    &&& m.xresolution == le_u16(b, 18) as u16
    &&& m.yresolution == le_u16(b, 20) as u16
    &&& m.xcharsize == b[22]
    &&& m.ycharsize == b[23]
    &&& m.numberofplanes == b[24]
    &&& m.bitsperpixel == b[25]
    &&& m.numberofbanks == b[26]
    &&& m.memorymodel == b[27]
    &&& m.banksize == b[28]
    &&& m.numberofimagepages == b[29]
    &&& m.unused == b[30]
    &&& m.redmasksize == b[31]
    &&& m.redfieldposition == b[32]
    &&& m.greenmasksize == b[33]
    &&& m.greenfieldposition == b[34]
    &&& m.bluemasksize == b[35]
    &&& m.bluefieldposition == b[36]
    &&& m.rsvdmasksize == b[37]
    &&& m.rsvdfieldposition == b[38]
    &&& m.directcolormodeinfo == b[39]
    &&& m.physbaseptr == le_u32(b, 40) as u32
    &&& m.offscreenmemoryoffset == le_u32(b, 44) as u32
    &&& m.offscreenmemsize == le_u16(b, 48) as u16
}
impl VbeModeInfo {
    /// Reads the block from the 56 bytes at the start of `bytes`.
    pub fn from_bytes(bytes: &[u8]) -> (m: VbeModeInfo)
        requires
            bytes@.len() >= 56,
        ensures
            mode_info_of(m, bytes@),
    {
        VbeModeInfo {
            attributes: read_u16(bytes, 0),
            window_attrs: [bytes[2], bytes[3]],
            granuality: read_u16(bytes, 4),
            window_size: read_u16(bytes, 6),
            window_segments: [read_u16(bytes, 8), read_u16(bytes, 10)],
            win_pos_fcn_fptr: [read_u16(bytes, 12), read_u16(bytes, 14)],
            pitch: read_u16(bytes, 16),
            x_res: read_u16(bytes, 18),
            y_res: read_u16(bytes, 20),
            char_w: bytes[22],
            char_h: bytes[23],
            n_planes: bytes[24],
            bpp: bytes[25],
            n_banks: bytes[26],
            memory_model: bytes[27],
            bank_size: bytes[28],
            n_pages: bytes[29],
            _resvd: bytes[30],
            red_mask: bytes[31],
            red_position: bytes[32],
            green_mask: bytes[33],
            green_position: bytes[34],
            blue_mask: bytes[35],
            blue_position: bytes[36],
            rsv_mask: bytes[37],
            rsv_position: bytes[38],
            directcolor_attributes: bytes[39],
            physbase: read_u32(bytes, 40),
            offscreen_ptr: read_u32(bytes, 44),
            offscreen_size_kb: read_u16(bytes, 48),
            lfb_pitch: read_u16(bytes, 50),
            image_count_banked: bytes[52],
            image_count_lfb: bytes[53],
        }
    }

    /// The number of bytes per scan line.
    pub fn pitch(&self) -> (p: u16)
        ensures
            p == self.pitch,
    {
        self.pitch
    }

    /// The horizontal resolution.
    pub fn x_res(&self) -> (x: u16)
        ensures
            x == self.x_res,
    {
        self.x_res
    }

    /// The vertical resolution.
    pub fn y_res(&self) -> (y: u16)
        ensures
            y == self.y_res,
    {
        self.y_res
    }
}

impl VBEModeInfo {
    /// Reads the block from the 50 bytes at the start of `bytes`.
    pub fn from_bytes(bytes: &[u8]) -> (m: VBEModeInfo)
        requires
            bytes@.len() >= 50,
        ensures
            packed_mode_info_of(m, bytes@),
    {
        VBEModeInfo {
            attributes: read_u16(bytes, 0),
            win_a: bytes[2],
            win_b: bytes[3],
            granularity: read_u16(bytes, 4),
            winsize: read_u16(bytes, 6),
            segment_a: read_u16(bytes, 8),
            segment_b: read_u16(bytes, 10),
            winfuncptr: read_u32(bytes, 12),
            bytesperscanline: read_u16(bytes, 16),
            xresolution: read_u16(bytes, 18),
            yresolution: read_u16(bytes, 20),
            xcharsize: bytes[22],
            ycharsize: bytes[23],
            numberofplanes: bytes[24],
            bitsperpixel: bytes[25],
            numberofbanks: bytes[26],
            memorymodel: bytes[27],
            banksize: bytes[28],
            numberofimagepages: bytes[29],
            unused: bytes[30],
            redmasksize: bytes[31],
            redfieldposition: bytes[32],
            greenmasksize: bytes[33],
            greenfieldposition: bytes[34],
            bluemasksize: bytes[35],
            bluefieldposition: bytes[36],
            rsvdmasksize: bytes[37],
            rsvdfieldposition: bytes[38],
            directcolormodeinfo: bytes[39],
            physbaseptr: read_u32(bytes, 40),
            offscreenmemoryoffset: read_u32(bytes, 44),
            offscreenmemsize: read_u16(bytes, 48),
        }
    }
}

/// Reads the mode information block that the start code left in `bytes`.
pub fn load(bytes: &[u8]) -> (m: VbeModeInfo)
    requires
        bytes@.len() >= 56,
    ensures
        mode_info_of(m, bytes@),
{
    VbeModeInfo::from_bytes(bytes)
}

} // verus!

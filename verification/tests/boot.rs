use snowflake::boot::{
    boot_record, check_alignment, cmos_memory_kb, splash_bar, status_layout, BootRecord, irq_message, is_resume_key, kernel_memory_end,
    loader_segment_pages, phent_offset, segment_pages, stack_end, utf16_nul, wait_ticks, AllocErr,
    InputKey,
};
use snowflake::conf::{parse_u64, Conf};
use snowflake::elf::{ElfHeader, PhEnt};
use snowflake::modes::{
    choose_graphics_mode, choose_largest_bgrx_mode, choose_text_mode, is_full_hd, ModeInformation,
    PixelFormat,
};
use snowflake::string::{nstr, utf8_to_string, wstr};

#[test]
fn conf_reads_keys() {
    let c = Conf::parse("kernel = \\boot\\kernel.bin\nkernel_option=quiet\nboot_timeout=5\n");
    assert_eq!(c.kernel, "\\boot\\kernel.bin");
    assert_eq!(c.kernel_option, "quiet");
    assert_eq!(c.boot_timeout, 5);
}

#[test]
fn conf_later_lines_win_and_others_are_ignored() {
    let c = Conf::parse("kernel=a\nfoo=bar\nnoise\nkernel=b=c\nboot_timeout=+07");
    assert_eq!(c.kernel, "b");
    assert_eq!(c.kernel_option, "");
    assert_eq!(c.boot_timeout, 7);
}

#[test]
fn conf_empty() {
    let c = Conf::parse("");
    assert_eq!(c.kernel, "");
    assert_eq!(c.boot_timeout, 0);
}

#[test]
fn conf_keeps_carriage_return() {
    let c = Conf::parse("kernel=k\r\n");
    assert_eq!(c.kernel, "k\r");
}

#[test]
fn u64_text() {
    let t: Vec<char> = "+18446744073709551615".chars().collect();
    assert_eq!(parse_u64(&t, 0, t.len()), Some(u64::MAX));
    let o: Vec<char> = "18446744073709551616".chars().collect();
    assert_eq!(parse_u64(&o, 0, o.len()), None);
    let e: Vec<char> = "+".chars().collect();
    assert_eq!(parse_u64(&e, 0, 1), None);
    assert_eq!(parse_u64(&e, 0, 0), None);
    let m: Vec<char> = "-1".chars().collect();
    assert_eq!(parse_u64(&m, 0, 2), None);
    let x: Vec<char> = "12a".chars().collect();
    assert_eq!(parse_u64(&x, 0, 3), None);
    assert_eq!(parse_u64(&x, 0, 2), Some(12));
}

#[test]
fn wstr_terminates_with_nul() {
    assert_eq!(wstr("ab"), vec![0x61, 0x62, 0]);
    assert_eq!(wstr(""), vec![0]);
    assert_eq!(wstr("\u{1F600}"), vec![0xF600, 0]);
}

#[test]
fn nstr_reads_to_nul() {
    assert_eq!(nstr(&[0x68, 0x69, 0, 0x70]), "hi");
    assert_eq!(nstr(&[0]), "");
    assert_eq!(nstr(&[0xE9, 0]), "\u{e9}");
}

#[test]
fn utf8_decodes() {
    assert_eq!(utf8_to_string(vec![0x68, 0xC3, 0xA9]), "h\u{e9}");
    assert_eq!(utf8_to_string(vec![]), "");
}

#[test]
fn utf16_units() {
    assert_eq!(utf16_nul('A'), [0x41, 0, 0]);
    assert_eq!(utf16_nul('\u{1F600}'), [0xD83D, 0xDE00, 0]);
    let [hi, lo, _] = utf16_nul('\u{10FFFF}');
    assert_eq!((hi as u32 - 0xD800) * 0x400 + (lo as u32 - 0xDC00) + 0x10000, 0x10FFFF);
}

#[test]
fn waiting() {
    assert_eq!(wait_ticks(3), 300);
    assert!(is_resume_key(InputKey { scan_code: 0, unicode_char: 0x72 }));
    assert!(!is_resume_key(InputKey { scan_code: 0x72, unicode_char: 0x52 }));
}

#[test]
fn alignment() {
    assert_eq!(check_alignment(8), Ok(()));
    assert_eq!(check_alignment(16), Err(AllocErr::Unsupported));
}

#[test]
fn segment_page_counts() {
    let p = PhEnt { p_type: 1, p_flags: 0, p_offset: 0, p_vaddr: 0, p_paddr: 0, p_filesz: 0, p_memsz: 0x1001, p_align: 0 };
    assert_eq!(segment_pages(&p), 2);
    assert_eq!(segment_pages(&PhEnt { p_memsz: 0x1000, ..p }), 1);
    assert_eq!(loader_segment_pages(&PhEnt { p_memsz: 0x9000, ..p }), 2);
    let h = ElfHeader { e_phoff: 64, ..ElfHeader::default() };
    assert_eq!(phent_offset(&h, 3), 64 + 3 * 56);
}

#[test]
fn kernel_layout() {
    assert_eq!(kernel_memory_end(0x10, 4097), (0x10 + 2) * 4096);
    assert_eq!(stack_end(), 0x9F000);
    assert_eq!(cmos_memory_kb(0x01, 0x02), 0x300);
    assert_eq!(irq_message(1), "test");
    assert_eq!(irq_message(3), "What The");
}

fn mode(w: u32, h: u32, f: PixelFormat) -> ModeInformation {
    ModeInformation { horizontal_resolution: w, vertical_resolution: h, pixel_format: f }
}

#[test]
fn graphics_mode_prefers_1080p() {
    let modes = vec![
        mode(800, 600, PixelFormat::BGRX),
        mode(1920, 1080, PixelFormat::RGBX),
        mode(1280, 1024, PixelFormat::BGRX),
    ];
    assert_eq!(choose_graphics_mode(&modes), 1);
}

#[test]
fn graphics_mode_skips_large_and_unusable() {
    let modes = vec![
        mode(800, 600, PixelFormat::BGRX),
        mode(2560, 1440, PixelFormat::BGRX),
        mode(1024, 768, PixelFormat::BltOnly),
        mode(2560, 1000, PixelFormat::RGBX),
    ];
    assert_eq!(choose_graphics_mode(&modes), 3);
    assert_eq!(choose_graphics_mode(&vec![mode(1, 1, PixelFormat::BitMask)]), 0);
    assert_eq!(choose_graphics_mode(&vec![]), 0);
}

#[test]
fn largest_bgrx_mode() {
    let modes = vec![
        Some(mode(800, 600, PixelFormat::BGRX)),
        None,
        Some(mode(1920, 1080, PixelFormat::RGBX)),
        Some(mode(1024, 768, PixelFormat::BGRX)),
        Some(mode(1024, 700, PixelFormat::BGRX)),
    ];
    assert_eq!(choose_largest_bgrx_mode(&modes), Some(3));
    assert_eq!(choose_largest_bgrx_mode(&vec![None]), None);
}

#[test]
fn largest_text_mode() {
    let modes = vec![Some((80, 25)), Some((80, 50)), None, Some((100, 31)), Some((132, 60))];
    assert_eq!(choose_text_mode(&modes), Some(4));
    assert_eq!(choose_text_mode(&vec![Some((80, 25)), Some((100, 20))]), Some(0));
    assert_eq!(choose_text_mode(&vec![None]), None);
}

#[test]
fn conf_text_checks() {
    assert!(Conf::text_ok("kernel=k\nboot_timeout = 3\nnoise\n"));
    assert!(Conf::text_ok(""));
    assert!(!Conf::text_ok("kernel\n"));
    assert!(!Conf::text_ok("boot_timeout=soon"));
    assert!(!Conf::text_ok("boot_timeout="));
    assert!(Conf::text_ok("other"));
}

#[test]
fn nstr_reads_back_wstr() {
    assert_eq!(nstr(&wstr("boot2snow \u{e9}")), "boot2snow \u{e9}");
    assert_eq!(nstr(&wstr("")), "");
}

#[test]
fn boot_record_fields() {
    let r = boot_record(0x10_0000, 0x5000, 48 * 10 + 7, 48, 1024, 768);
    assert_eq!(
        r,
        BootRecord {
            kernel_base: 0x10_0000,
            kernel_size: 0x5000,
            stack_base: 0x80000,
            stack_size: 0x9F000,
            map_len: 10,
            width: 1024,
            height: 768,
        }
    );
}

#[test]
fn splash_bar_is_centred() {
    assert_eq!(splash_bar(1024, 512, 400), (512 - 170, 400, 341, 8));
    assert_eq!(splash_bar(0, 5, 6), (5, 6, 0, 8));
}

#[test]
fn status_message_layout() {
    // "Boot2Snow 0.1.0" on 1024x768 below a 100-pixel image
    assert_eq!(status_layout(1024, 768, 100, 15), (452, 590, 574, 606));
    // wider than the screen: centred to the left of column 0
    assert_eq!(status_layout(10, 768, 100, 3), (-7, 590, 574, 606));
    // image taller than the screen
    assert_eq!(status_layout(8, 100, 1000, 1), (0, -194, -210, (-178i32) as u32));
}

#[test]
fn full_hd_settles_the_choice() {
    assert!(is_full_hd(&mode(1920, 1080, PixelFormat::BGRX)));
    assert!(is_full_hd(&mode(1920, 1080, PixelFormat::RGBX)));
    assert!(!is_full_hd(&mode(1920, 1080, PixelFormat::BitMask)));
    assert!(!is_full_hd(&mode(1920, 1200, PixelFormat::BGRX)));
}

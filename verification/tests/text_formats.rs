use chumod_loader::crash_report::{
    crash_body, exception_name, frame_line, layout, listing_dir_line, listing_file_line,
    module_line, panic_report, registers_text, report_head, report_without_exception,
    symbol_text, timestamp, unhandled_decision, vectored_decision, wide, Registers,
};
use chumod_loader::fmt::{decimal_string, hex_string, hex_upper, i32_string};
use chumod_loader::log::{banner_lines, formatted_len, log_info, os_version_text, LocalTime};

#[test]
fn decimal_and_hex_padding() {
    assert_eq!(decimal_string(7, 3), "007");
    assert_eq!(decimal_string(12345, 2), "12345");
    assert_eq!(decimal_string(0, 0), "0");
    assert_eq!(hex_string(255, 4, true), "00FF");
    assert_eq!(hex_string(0xdead, 0, false), "dead");
    assert_eq!(hex_string(u64::MAX, 16, false), "ffffffffffffffff");
}

#[test]
fn signed_decimal() {
    assert_eq!(i32_string(-42), "-42");
    assert_eq!(i32_string(0), "0");
    assert_eq!(i32_string(i32::MIN), "-2147483648");
    assert_eq!(i32_string(i32::MAX), "2147483647");
}

#[test]
fn log_line_format() {
    let t = LocalTime { hour: 9, minute: 5, second: 3, millis: 7 };
    assert_eq!(log_info(&t, "hi"), "[09:05:03.007] [loader] hi\n");
}

#[test]
fn formatter_length_is_clamped() {
    assert_eq!(formatted_len(-1), 0);
    assert_eq!(formatted_len(10), 10);
    assert_eq!(formatted_len(479), 479);
    assert_eq!(formatted_len(1000), 479);
}

#[test]
fn os_version_names() {
    assert_eq!(os_version_text(true, 10, 22631), "Windows 11 (build 22631)");
    assert_eq!(os_version_text(true, 10, 19045), "Windows 10 (build 19045)");
    assert_eq!(os_version_text(true, 6, 9600), "Windows (build 9600)");
    assert_eq!(os_version_text(false, 10, 22631), "Windows (unknown)");
}

#[test]
fn exception_names() {
    assert_eq!(exception_name(0xC000_0005), "ACCESS_VIOLATION");
    assert_eq!(exception_name(0xC000_001D), "ILLEGAL_INSTRUCTION");
    assert_eq!(exception_name(0xC000_0094), "INT_DIVIDE_BY_ZERO");
    assert_eq!(exception_name(0xC000_00FD), "STACK_OVERFLOW");
    assert_eq!(exception_name(0x8000_0003), "BREAKPOINT");
    assert_eq!(exception_name(0xC000_0025), "NONCONTINUABLE_EXCEPTION");
    assert_eq!(exception_name(1), "unknown");
}

#[test]
fn report_lines() {
    assert_eq!(
        report_head(0xC000_0005, 0x40_1000),
        "=== Chusan Crash Report Nya... (>_<) ===\n\nexception_code: 0xC0000005 (ACCESS_VIOLATION)\nexception_address: 0x00401000\n"
    );
    assert_eq!(
        report_without_exception(),
        "=== Chusan Crash Report Nya... (>_<) ===\n\nexception: <null> (unknown reason Nya...)\n"
    );
    assert_eq!(module_line("game.exe", 0x1A2B), "exception_module: game.exe+0x1A2B\n");
    assert_eq!(frame_line(3, 0x401000, "f+0x10"), "  #03 0x00401000 f+0x10\n");
    assert_eq!(
        panic_report("chumod_init", "demo"),
        "=== Chusan Panic Nya... (>_<) ===\n\nscope: chumod_init\nmod:   demo\n"
    );
}

#[test]
fn crash_file_timestamp() {
    assert_eq!(timestamp(2024, 1, 2, 3, 4, 5, 6), "20240102_030405_006");
}

#[test]
fn crash_window_body() {
    let expected = format!(
        "Chusan has crashed Nya...! (>_<)\r\n{}\r\n\r\na\r\nb\r\n\r\nA crash report was saved to:\r\n  C:\\x\r\n\r\nPlease send this zip if you need help Nya~\r\n  z.zip",
        "-".repeat(60)
    );
    assert_eq!(crash_body("a\nb", "C:\\x", Some("z.zip")), expected);
    let without_zip = format!(
        "Chusan has crashed Nya...! (>_<)\r\n{}\r\n\r\n\r\n\r\nA crash report was saved to:\r\n  d",
        "-".repeat(60)
    );
    assert_eq!(crash_body("", "d", None), without_zip);
}

#[test]
fn wide_strings_end_with_nul() {
    assert_eq!(wide(""), vec![0]);
    assert_eq!(wide("A\u{20AC}\u{1F600}"), vec![0x41, 0x20AC, 0xD83D, 0xDE00, 0]);
}

#[test]
fn window_layout() {
    let l = layout(760, 560);
    assert_eq!(l.text, (16, 16, 728, 476));
    assert_eq!(l.button_y, 508);
    assert_eq!(l.button_x, (16, 158, 300));
}

#[test]
fn handlers_take_only_stack_overflow_first() {
    assert_eq!(vectored_decision(0xC000_00FD, false), (true, 1));
    assert_eq!(vectored_decision(0xC000_00FD, true), (false, 0));
    assert_eq!(vectored_decision(0xC000_0005, false), (false, 0));
    assert_eq!(unhandled_decision(false), (true, 1));
    assert_eq!(unhandled_decision(true), (false, 1));
}

#[test]
fn listing_lines() {
    assert_eq!(
        listing_file_line("C:\\a.dll", 1234, 0xabc),
        "C:\\a.dll\t1234 bytes\t0000000000000abc\n"
    );
    assert_eq!(listing_dir_line("C:\\mods"), "C:\\mods\\\n");
}

#[test]
fn digest_in_upper_hex() {
    assert_eq!(hex_upper(&[0x00, 0x0F, 0xA5, 0xFF]), "000FA5FF");
    assert_eq!(hex_upper(&[]), "");
    let digest = [0xABu8; 32];
    assert_eq!(hex_upper(&digest), "AB".repeat(32));
}

#[test]
fn console_banner() {
    let rule = "-".repeat(60);
    let lines = banner_lines("1.0.0", "Windows 11 (build 22631)", "unknown", true);
    assert_eq!(
        lines,
        vec![
            rule.clone(),
            "ChuModLoader v1.0.0 Nya~ ".to_string(),
            "OS: Windows 11 (build 22631)".to_string(),
            "Hash Code: unknown".to_string(),
            rule.clone(),
            "Game: CHUNITHM (SDHD)".to_string(),
            "Game Arch: x86".to_string(),
            rule,
        ]
    );
    assert_eq!(banner_lines("2", "Windows", "AB", false)[6], "Game Arch: x64");
}

#[test]
fn register_block_and_symbols() {
    let regs = Registers {
        eax: 1,
        ebx: 0xDEADBEEF,
        ecx: 0,
        edx: 0x10,
        esi: 2,
        edi: 3,
        ebp: 0x0019_FF00,
        esp: 0x0019_FEF0,
        eip: 0x0040_1000,
        eflags: 0x246,
    };
    assert_eq!(
        registers_text(&regs),
        "\nregisters:\n  EAX=0x00000001 EBX=0xDEADBEEF ECX=0x00000000 EDX=0x00000010\n  \
         ESI=0x00000002 EDI=0x00000003 EBP=0x0019FF00 ESP=0x0019FEF0\n  EIP=0x00401000 EFLAGS=0x00000246\n"
    );
    assert_eq!(symbol_text("chusanApp.exe", 0x1A2B), "chusanApp.exe+0x1A2B");
    assert_eq!(symbol_text("main", 0), "main+0x0");
}

#[test]
fn layout_at_the_smallest_sizes() {
    let l = layout(i32::MIN + 32, i32::MIN + 84);
    assert_eq!(l.text.2, i32::MIN);
    assert_eq!(l.text.3, i32::MIN);
    assert_eq!(l.button_y, i32::MIN + 32);
}

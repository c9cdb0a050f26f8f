//! The texts of a crash: the report, its file names, the crash window's body and
//! layout, and which exceptions the handlers take.
use vstd::prelude::*;
use vstd::string::StringExecFns;
use crate::fmt::{decimal, decimal_string, hex, hex_string};
use crate::text::{chars_of, push_char, string_from_chars};

verus! {

pub const EXCEPTION_EXECUTE_HANDLER: i32 = 1;

pub const EXCEPTION_CONTINUE_SEARCH: i32 = 0;

pub const EXCEPTION_STACK_OVERFLOW: u32 = 0xC00000FD;

/// The name of an exception code, as the report gives it.
pub open spec fn spec_exception_name(code: u32) -> Seq<char> {
    if code == 0xC0000005 {
        "ACCESS_VIOLATION"@
    } else if code == 0xC000001D {
        "ILLEGAL_INSTRUCTION"@
    } else if code == 0xC0000094 {
        "INT_DIVIDE_BY_ZERO"@
    } else if code == 0xC00000FD {
        "STACK_OVERFLOW"@
    } else if code == 0x80000003 {
        "BREAKPOINT"@
    } else if code == 0xC0000025 {
        "NONCONTINUABLE_EXCEPTION"@
    } else {
        "unknown"@
    }
}

/// `exception_name`: the name of the exception `code`; "unknown" for codes the
/// report does not name.
pub fn exception_name(code: u32) -> (r: &'static str)
    ensures
        r@ == spec_exception_name(code),
{
    if code == 0xC0000005 {
        "ACCESS_VIOLATION"
    } else if code == 0xC000001D {
        "ILLEGAL_INSTRUCTION"
    } else if code == 0xC0000094 {
        "INT_DIVIDE_BY_ZERO"
    } else if code == 0xC00000FD {
        "STACK_OVERFLOW"
    } else if code == 0x80000003 {
        "BREAKPOINT"
    } else if code == 0xC0000025 {
        "NONCONTINUABLE_EXCEPTION"
    } else {
        "unknown"
    }
}

/// The report's title and the blank line after it.
pub open spec fn report_title() -> Seq<char> {
    "=== Chusan Crash Report Nya... (>_<) ===\n\n"@
}

/// The start of a report on the exception `code` raised at `address`.
pub open spec fn spec_report_head(code: u32, address: u32) -> Seq<char> {
    report_title() + "exception_code: 0x"@ + hex(code as nat, 8, true) + " ("@
        + spec_exception_name(code) + ")\n"@ + "exception_address: 0x"@ + hex(
        address as nat,
        8,
        true,
    ) + "\n"@
}

/// `build_crash_text`'s opening lines for the exception `code` at `address`.
pub fn report_head(code: u32, address: u32) -> (r: String)
    ensures
        r@ == spec_report_head(code, address),
{
    let mut out = String::from_str("=== Chusan Crash Report Nya... (>_<) ===\n\n");
    out.append("exception_code: 0x");
    let c = hex_string(code as u64, 8, true);
    out.append(c.as_str());
    out.append(" (");
    out.append(exception_name(code));
    out.append(")\n");
    out.append("exception_address: 0x");
    let a = hex_string(address as u64, 8, true);
    out.append(a.as_str());
    out.append("\n");
    out
}

/// `build_crash_text` when there is no exception record.
pub fn report_without_exception() -> (r: String)
    ensures
        r@ == report_title() + "exception: <null> (unknown reason Nya...)\n"@,
{
    let mut out = String::from_str("=== Chusan Crash Report Nya... (>_<) ===\n\n");
    out.append("exception: <null> (unknown reason Nya...)\n");
    out
}

/// The report line that names the module of the faulting address and the offset
/// into it.
pub fn module_line(module: &str, offset: u32) -> (r: String)
    ensures
        r@ == "exception_module: "@ + module@ + "+0x"@ + hex(offset as nat, 0, true) + "\n"@,
{
    let mut out = String::from_str("exception_module: ");
    out.append(module);
    out.append("+0x");
    let h = hex_string(offset as u64, 0, true);
    out.append(h.as_str());
    out.append("\n");
    out
}

/// One line of the stack trace: the frame's index, its address and what is known
/// of it.
pub fn frame_line(index: u32, address: u32, symbol: &str) -> (r: String)
    ensures
        r@ == "  #"@ + decimal(index as nat, 2) + " 0x"@ + hex(address as nat, 8, true) + " "@
            + symbol@ + "\n"@,
{
    let mut out = String::from_str("  #");
    let i = decimal_string(index as u64, 2);
    out.append(i.as_str());
    out.append(" 0x");
    let a = hex_string(address as u64, 8, true);
    out.append(a.as_str());
    out.append(" ");
    out.append(symbol);
    out.append("\n");
    out
}

/// A code address as the stack trace names it: `name+0x` and the offset in
/// upper-case hexadecimal.
pub fn symbol_text(name: &str, offset: u64) -> (r: String)
    ensures
        r@ == name@ + "+0x"@ + hex(offset as nat, 0, true),
{
    let mut out = String::from_str(name);
    out.append("+0x");
    let h = hex_string(offset, 0, true);
    out.append(h.as_str());
    out
}

/// The registers of the faulting thread that the report lists.
pub struct Registers {
    pub eax: u32,
    pub ebx: u32,
    pub ecx: u32,
    pub edx: u32,
    pub esi: u32,
    pub edi: u32,
    pub ebp: u32,
    pub esp: u32,
    pub eip: u32,
    pub eflags: u32,
}

/// One register of the report: `name=0x` and the value in eight upper-case
/// hexadecimal digits.
pub open spec fn reg_text(name: Seq<char>, v: u32) -> Seq<char> {
    name + "=0x"@ + hex(v as nat, 8, true)
}

/// The report's register block: a blank line, a heading, and the registers in three
/// rows.
pub open spec fn spec_registers_text(r: Registers) -> Seq<char> {
    "\nregisters:\n  "@ + reg_text("EAX"@, r.eax) + " "@ + reg_text("EBX"@, r.ebx) + " "@
        + reg_text("ECX"@, r.ecx) + " "@ + reg_text("EDX"@, r.edx) + "\n  "@ + reg_text(
        "ESI"@,
        r.esi,
    ) + " "@ + reg_text("EDI"@, r.edi) + " "@ + reg_text("EBP"@, r.ebp) + " "@ + reg_text(
        "ESP"@,
        r.esp,
    ) + "\n  "@ + reg_text("EIP"@, r.eip) + " "@ + reg_text("EFLAGS"@, r.eflags) + "\n"@
}

fn push_reg(out: &mut String, sep: &str, name: &str, v: u32)
    ensures
        final(out)@ == old(out)@ + sep@ + reg_text(name@, v),
{
    out.append(sep);
    out.append(name);
    out.append("=0x");
    let h = hex_string(v as u64, 8, true);
    out.append(h.as_str());
}

/// `append_registers`: the register block of the report.
pub fn registers_text(regs: &Registers) -> (r: String)
    ensures
        r@ == spec_registers_text(*regs),
{
    let mut out = String::from_str("\nregisters:\n");
    push_reg(&mut out, "  ", "EAX", regs.eax);
    push_reg(&mut out, " ", "EBX", regs.ebx);
    push_reg(&mut out, " ", "ECX", regs.ecx);
    push_reg(&mut out, " ", "EDX", regs.edx);
    push_reg(&mut out, "\n  ", "ESI", regs.esi);
    push_reg(&mut out, " ", "EDI", regs.edi);
    push_reg(&mut out, " ", "EBP", regs.ebp);
    push_reg(&mut out, " ", "ESP", regs.esp);
    push_reg(&mut out, "\n  ", "EIP", regs.eip);
    push_reg(&mut out, " ", "EFLAGS", regs.eflags);
    out.append("\n");
    proof {
        reveal_strlit("\nregisters:\n");
        reveal_strlit("  ");
        reveal_strlit(" ");
        reveal_strlit("\n  ");
        reveal_strlit("\n");
        reveal_strlit("\nregisters:\n  ");
    }
    assert(out@ =~= spec_registers_text(*regs));
    out
}

/// The time stamp in crash file names: `YYYYMMDD_hhmmss_mmm`.
pub open spec fn spec_timestamp(
    year: u16,
    month: u16,
    day: u16,
    hour: u16,
    minute: u16,
    second: u16,
    millis: u16,
) -> Seq<char> {
    decimal(year as nat, 4) + decimal(month as nat, 2) + decimal(day as nat, 2) + "_"@ + decimal(
        hour as nat,
        2,
    ) + decimal(minute as nat, 2) + decimal(second as nat, 2) + "_"@ + decimal(millis as nat, 3)
}

/// `timestamp`: the local time as crash file names carry it.
pub fn timestamp(
    year: u16,
    month: u16,
    day: u16,
    hour: u16,
    minute: u16,
    second: u16,
    millis: u16,
) -> (r: String)
    ensures
        r@ == spec_timestamp(year, month, day, hour, minute, second, millis),
{
    let mut out = decimal_string(year as u64, 4);
    out.append(decimal_string(month as u64, 2).as_str());
    out.append(decimal_string(day as u64, 2).as_str());
    out.append("_");
    out.append(decimal_string(hour as u64, 2).as_str());
    out.append(decimal_string(minute as u64, 2).as_str());
    out.append(decimal_string(second as u64, 2).as_str());
    out.append("_");
    out.append(decimal_string(millis as u64, 3).as_str());
    out
}

/// `log_panic_context`'s report for a panic caught in `scope` while running the
/// mod `name`.
pub fn panic_report(scope: &str, name: &str) -> (r: String)
    ensures
        r@ == "=== Chusan Panic Nya... (>_<) ===\n\nscope: "@ + scope@ + "\nmod:   "@ + name@
            + "\n"@,
{
    let mut out = String::from_str("=== Chusan Panic Nya... (>_<) ===\n\nscope: ");
    out.append(scope);
    out.append("\nmod:   ");
    out.append(name);
    out.append("\n");
    out
}

/// `s` with every line feed turned into a carriage return and a line feed.
pub open spec fn crlf(s: Seq<char>) -> Seq<char>
    decreases s.len(),
{
    if s.len() == 0 {
        Seq::empty()
    } else if s.last() == '\n' {
        crlf(s.drop_last()) + seq!['\r', '\n']
    } else {
        crlf(s.drop_last()).push(s.last())
    }
}

/// `n` dashes.
pub open spec fn dashes(n: nat) -> Seq<char> {
    Seq::new(n, |i: int| '-')
}

/// The body of the crash window for `report`, saved in `crash_dir`, zipped to
/// `zip_path` when that worked.
pub open spec fn spec_crash_body(report: Seq<char>, crash_dir: Seq<char>, zip_path: Option<
    Seq<char>,
>) -> Seq<char> {
    let head = "Chusan has crashed Nya...! (>_<)\r\n"@ + dashes(60) + "\r\n\r\n"@ + crlf(report)
        + "\r\n\r\nA crash report was saved to:\r\n  "@ + crash_dir;
    match zip_path {
        Some(z) => head + "\r\n\r\nPlease send this zip if you need help Nya~\r\n  "@ + z,
        None => head,
    }
}

/// `show`'s text: the body of the crash window.
pub fn crash_body(report: &str, crash_dir: &str, zip_path: Option<&str>) -> (r: String)
    ensures
        r@ == spec_crash_body(
            report@,
            crash_dir@,
            match zip_path {
                Some(z) => Some(z@),
                None => None,
            },
        ),
{
    let mut chars: Vec<char> = Vec::new();
    let mut k: usize = 0;
    while k < 60
        invariant
            k <= 60,
            chars@ == dashes(k as nat),
        decreases 60 - k,
    {
        chars.push('-');
        assert(chars@ =~= dashes((k + 1) as nat));
        k = k + 1;
    }
    let rule = string_from_chars(&chars);
    let src = chars_of(report);
    let mut converted: Vec<char> = Vec::new();
    let mut i: usize = 0;
    while i < src.len()
        invariant
            i <= src@.len(),
            src@ == report@,
            converted@ == crlf(src@.subrange(0, i as int)),
        decreases src.len() - i,
    {
        assert(src@.subrange(0, i + 1).drop_last() =~= src@.subrange(0, i as int));
        if src[i] == '\n' {
            converted.push('\r');
            converted.push('\n');
            assert(converted@ =~= crlf(src@.subrange(0, i + 1)));
        } else {
            converted.push(src[i]);
        }
        i = i + 1;
    }
    assert(src@.subrange(0, src@.len() as int) =~= src@);
    let report_crlf = string_from_chars(&converted);
    let mut out = String::from_str("Chusan has crashed Nya...! (>_<)\r\n");
    out.append(rule.as_str());
    out.append("\r\n\r\n");
    out.append(report_crlf.as_str());
    out.append("\r\n\r\nA crash report was saved to:\r\n  ");
    out.append(crash_dir);
    if let Some(z) = zip_path {
        out.append("\r\n\r\nPlease send this zip if you need help Nya~\r\n  ");
        out.append(z);
    }
    out
}

/// The UTF-16 code units of `s`.
pub open spec fn utf16(s: Seq<char>) -> Seq<u16>
    decreases s.len(),
{
    if s.len() == 0 {
        Seq::empty()
    } else {
        let c = s.last() as u32;
        let units = if c < 0x10000 {
            seq![c as u16]
        } else {
            seq![(0xD800 + (c - 0x10000) / 1024) as u16, (0xDC00 + (c - 0x10000) % 1024) as u16]
        };
        utf16(s.drop_last()) + units
    }
}

/// `wide`: `text` in UTF-16 with a terminating NUL, as the wide Windows calls take
/// it.
pub fn wide(text: &str) -> (r: Vec<u16>)
    ensures
        r@ == utf16(text@).push(0),
{
    let src = chars_of(text);
    let mut out: Vec<u16> = Vec::new();
    let mut i: usize = 0;
    while i < src.len()
        invariant
            i <= src@.len(),
            src@ == text@,
            out@ == utf16(src@.subrange(0, i as int)),
        decreases src.len() - i,
    {
        assert(src@.subrange(0, i + 1).drop_last() =~= src@.subrange(0, i as int));
        #[verifier::truncate]
        let c = src[i] as u32;
        if c < 0x10000 {
            out.push(c as u16);
        } else {
            let v: u32 = c - 0x10000;
            #[verifier::truncate]
            let high = (0xD800 + v / 1024) as u16;
            out.push(high);
            out.push((0xDC00 + v % 1024) as u16);
        }
        assert(out@ =~= utf16(src@.subrange(0, i + 1)));
        i = i + 1;
    }
    assert(src@.subrange(0, src@.len() as int) =~= src@);
    out.push(0);
    out
}

pub const MARGIN: i32 = 16;

pub const BTN_H: i32 = 36;

pub const BTN_GAP: i32 = 12;

pub const BTN_W: i32 = 130;

/// Where the crash window's controls go in a client area of `w` by `h`: the text
/// box (x, y, width, height) and the left edge of each of the three buttons, which
/// share a top edge, a width and a height.
pub struct WindowLayout {
    pub text: (i32, i32, i32, i32),
    pub button_x: (i32, i32, i32),
    pub button_y: i32,
}

/// `layout`: the text box fills the window above a row of three buttons, with
/// margins around both.
pub fn layout(w: i32, h: i32) -> (r: WindowLayout)
    requires
        w >= i32::MIN + 2 * MARGIN,
        h >= i32::MIN + BTN_H + 3 * MARGIN,
    ensures
        r.text.0 == MARGIN && r.text.1 == MARGIN,
        r.text.2 == w - 2 * MARGIN,
        r.text.3 == h - BTN_H - 3 * MARGIN,
        r.button_y == h - MARGIN - BTN_H,
        r.button_x.0 == MARGIN,
        r.button_x.1 == MARGIN + BTN_W + BTN_GAP,
        r.button_x.2 == MARGIN + 2 * (BTN_W + BTN_GAP),
{
    let text_h = h - BTN_H - MARGIN * 3;
    let btn_y = h - MARGIN - BTN_H;
    let x0 = MARGIN;
    let x1 = x0 + BTN_W + BTN_GAP;
    let x2 = x1 + BTN_W + BTN_GAP;
    WindowLayout {
        text: (MARGIN, MARGIN, w - MARGIN * 2, text_h),
        button_x: (x0, x1, x2),
        button_y: btn_y,
    }
}

/// What the vectored handler does with an exception: whether it handles the crash
/// itself, and what it answers.
pub open spec fn spec_vectored(code: u32, already_handling: bool) -> (bool, i32) {
    if code != EXCEPTION_STACK_OVERFLOW || already_handling {
        (false, EXCEPTION_CONTINUE_SEARCH)
    } else {
        (true, EXCEPTION_EXECUTE_HANDLER)
    }
}

/// `vectored_handler`'s decision: only a stack overflow is handled there (when no
/// crash is being handled yet); every other exception is passed on.
pub fn vectored_decision(code: u32, already_handling: bool) -> (r: (bool, i32))
    ensures
        r == spec_vectored(code, already_handling),
{
    if code != EXCEPTION_STACK_OVERFLOW || already_handling {
        (false, EXCEPTION_CONTINUE_SEARCH)
    } else {
        (true, EXCEPTION_EXECUTE_HANDLER)
    }
}

/// `unhandled_exception_filter`'s decision: it handles the crash unless one is
/// being handled already; it always answers that the exception was handled.
pub fn unhandled_decision(already_handling: bool) -> (r: (bool, i32))
    ensures
        r == (!already_handling, EXCEPTION_EXECUTE_HANDLER),
{
    (!already_handling, EXCEPTION_EXECUTE_HANDLER)
}

/// A file line of the crash archive's directory listings: path, size and FNV-1a
/// fingerprint.
pub fn listing_file_line(path: &str, size: u64, hash: u64) -> (r: String)
    ensures
        r@ == path@ + "\t"@ + decimal(size as nat, 0) + " bytes\t"@ + hex(hash as nat, 16, false)
            + "\n"@,
{
    let mut out = String::from_str(path);
    out.append("\t");
    out.append(decimal_string(size, 0).as_str());
    out.append(" bytes\t");
    out.append(hex_string(hash, 16, false).as_str());
    out.append("\n");
    out
}

/// A directory line of the crash archive's directory listings.
pub fn listing_dir_line(path: &str) -> (r: String)
    ensures
        r@ == path@ + "\\\n"@,
{
    let mut out = String::from_str(path);
    out.append("\\\n");
    out
}

} // verus!

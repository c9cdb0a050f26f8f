//! The loader's log lines.
use vstd::prelude::*;
use vstd::string::StringExecFns;
use crate::fmt::{decimal, decimal_string};

verus! {

/// The local time of day a log line is stamped with.
pub struct LocalTime {
    pub hour: u16,
    pub minute: u16,
    pub second: u16,
    pub millis: u16,
}

/// The log line for `msg` at `time`: `[hh:mm:ss.mmm] [loader] msg` and a line feed.
pub open spec fn spec_log_line(time: LocalTime, msg: Seq<char>) -> Seq<char> {
    "["@ + decimal(time.hour as nat, 2) + ":"@ + decimal(time.minute as nat, 2) + ":"@ + decimal(
        time.second as nat,
        2,
    ) + "."@ + decimal(time.millis as nat, 3) + "] [loader] "@ + msg + "\n"@
}

/// `log_info` (`write_log_inner`'s formatting): the line written to the log file
/// and the console for `msg` at `time`.
pub fn log_info(time: &LocalTime, msg: &str) -> (r: String)
    ensures
        r@ == spec_log_line(*time, msg@),
{
    let mut out = String::from_str("[");
    out.append(decimal_string(time.hour as u64, 2).as_str());
    out.append(":");
    out.append(decimal_string(time.minute as u64, 2).as_str());
    out.append(":");
    out.append(decimal_string(time.second as u64, 2).as_str());
    out.append(".");
    out.append(decimal_string(time.millis as u64, 3).as_str());
    out.append("] [loader] ");
    out.append(msg);
    out.append("\n");
    out
}

/// The size of the buffer a mod's formatted log message is written into.
pub const LOG_BUFFER_LEN: usize = 480;

/// `write_log_variadic`: how many bytes of the buffer hold the message, given what
/// the formatter returned (negative on error; the buffer keeps a NUL at its end).
pub fn formatted_len(written: i32) -> (r: usize)
    ensures
        r == if written < 0 {
            0
        } else if written > LOG_BUFFER_LEN - 1 {
            (LOG_BUFFER_LEN - 1) as int
        } else {
            written as int
        },
{
    if written < 0 {
        0
    } else if written > 479 {
        479
    } else {
        written as usize
    }
}

/// The name of a Windows release, from its major version and build number.
pub open spec fn spec_os_name(major: u32, build: u32) -> Seq<char> {
    if major == 10 && build >= 22000 {
        "Windows 11"@
    } else if major == 10 {
        "Windows 10"@
    } else {
        "Windows"@
    }
}

/// `os_version`'s text: the release and its build, or "Windows (unknown)" when the
/// version could not be read (`read` is false).
pub fn os_version_text(read: bool, major: u32, build: u32) -> (r: String)
    ensures
        r@ == if read {
            spec_os_name(major, build) + " (build "@ + crate::fmt::decimal(build as nat, 0) + ")"@
        } else {
            "Windows (unknown)"@
        },
{
    if !read {
        return String::from_str("Windows (unknown)");
    }
    let mut out = if major == 10 && build >= 22000 {
        String::from_str("Windows 11")
    } else if major == 10 {
        String::from_str("Windows 10")
    } else {
        String::from_str("Windows")
    };
    out.append(" (build ");
    out.append(decimal_string(build as u64, 0).as_str());
    out.append(")");
    out
}

/// The rule between the parts of the console banner.
pub open spec fn banner_rule() -> Seq<char> {
    Seq::new(60, |i: int| '-')
}

/// The console banner, line by line: the loader's version, the OS, the hash of the
/// loader DLL, the game and its architecture (x86 or x64), between rules.
pub open spec fn spec_banner(version: Seq<char>, os: Seq<char>, hash: Seq<char>, x86: bool) -> Seq<
    Seq<char>,
> {
    seq![
        banner_rule(),
        "ChuModLoader v"@ + version + " Nya~ "@,
        "OS: "@ + os,
        "Hash Code: "@ + hash,
        banner_rule(),
        "Game: CHUNITHM (SDHD)"@,
        "Game Arch: "@ + if x86 {
            "x86"@
        } else {
            "x64"@
        },
        banner_rule(),
    ]
}

/// `print_banner`'s lines, in order.
pub fn banner_lines(version: &str, os: &str, hash: &str, x86: bool) -> (r: Vec<String>)
    ensures
        r@.len() == 8,
        forall|i: int| 0 <= i < 8 ==> #[trigger] r@[i]@ == spec_banner(version@, os@, hash@, x86)[i],
{
    let mut rule = String::from_str("");
    proof {
        reveal_strlit("");
        assert(rule@ =~= Seq::new(0, |i: int| '-'));
    }
    let mut k: usize = 0;
    while k < 60
        invariant
            k <= 60,
            rule@ == Seq::new(k as nat, |i: int| '-'),
        decreases 60 - k,
    {
        crate::text::push_char(&mut rule, '-');
        assert(rule@ =~= Seq::new((k + 1) as nat, |i: int| '-'));
        k = k + 1;
    }
    let mut title = String::from_str("ChuModLoader v");
    title.append(version);
    title.append(" Nya~ ");
    let mut os_line = String::from_str("OS: ");
    os_line.append(os);
    let mut hash_line = String::from_str("Hash Code: ");
    hash_line.append(hash);
    let mut arch = String::from_str("Game Arch: ");
    arch.append(if x86 {
        "x86"
    } else {
        "x64"
    });
    let mut r: Vec<String> = Vec::new();
    r.push(rule.clone());
    r.push(title);
    r.push(os_line);
    r.push(hash_line);
    r.push(rule.clone());
    r.push(String::from_str("Game: CHUNITHM (SDHD)"));
    r.push(arch);
    r.push(rule);
    r
}

} // verus!

//! The entry-point hijack: decoding enough x86 instructions to move them aside,
//! and the bytes of the jumps, stub and trampoline that redirect the game's entry.
use vstd::prelude::*;
use crate::bytes::{address_at, le32, le_bytes4, push_all, push_u32_le, read_u32, wrap_address};

verus! {

/// Bytes a `jmp rel32` or `call rel32` occupies.
pub const JMP_REL32_LEN: usize = 5;

/// The most bytes the hijack moves aside from the entry point.
pub const HIJACK_ORIGINAL_LEN: usize = 16;

/// Bytes reserved for the entry stub.
pub const ENTRY_STUB_LEN: usize = 16;

/// Bytes the trampoline needs beyond the instructions it carries.
pub const TRAMPOLINE_EXTRA_LEN: usize = 5;

/// The state of the entry-point hijack.
pub struct EntryHijack {
    pub game_base: usize,
    pub entry: usize,
    pub overwritten_len: usize,
    pub original: [u8; 16],
    pub trampoline: usize,
    pub stub: usize,
    pub installed: bool,
}

impl EntryHijack {
    /// Nothing installed, no addresses known.
    pub fn new() -> (r: EntryHijack)
        ensures
            r.game_base == 0,
            r.entry == 0,
            r.overwritten_len == 0,
            forall|i: int| 0 <= i < 16 ==> r.original@[i] == 0,
            r.trampoline == 0,
            r.stub == 0,
            !r.installed,
    {
        EntryHijack {
            game_base: 0,
            entry: 0,
            overwritten_len: 0,
            original: [0u8; 16],
            trampoline: 0,
            stub: 0,
            installed: false,
        }
    }
}

/// A legacy or segment prefix byte (`es cs ss ds fs gs`, operand and address
/// size, `lock`, `repne`, `rep`).
pub open spec fn is_prefix_byte(b: u8) -> bool {
    b == 0x26 || b == 0x2E || b == 0x36 || b == 0x3E || b == 0x64 || b == 0x65 || b == 0x66
        || b == 0x67 || b == 0xF0 || b == 0xF2 || b == 0xF3
}

/// The prefixes of the instruction at `at` end at `p`: every byte in `[at, p)` is a
/// prefix and the byte at `p`, if there is one, is not.
pub open spec fn prefixes_end(code: Seq<u8>, at: int, p: int) -> bool {
    &&& at <= p <= code.len()
    &&& forall|k: int| at <= k < p ==> is_prefix_byte(#[trigger] code[k])
    &&& p < code.len() ==> !is_prefix_byte(code[p])
}

/// One-byte opcodes followed by a ModRM byte.
pub open spec fn takes_modrm(op: u8) -> bool {
    ||| 0x00 <= op <= 0x03
    ||| 0x08 <= op <= 0x0B
    ||| 0x10 <= op <= 0x13
    ||| 0x18 <= op <= 0x1B
    ||| 0x20 <= op <= 0x23
    ||| 0x28 <= op <= 0x2B
    ||| 0x30 <= op <= 0x33
    ||| 0x38 <= op <= 0x3B
    ||| op == 0x62 || op == 0x63 || op == 0x69 || op == 0x6B
    ||| 0x84 <= op <= 0x8F
    ||| op == 0xC0 || op == 0xC1 || op == 0xC4 || op == 0xC5
    ||| 0xD0 <= op <= 0xD3
    ||| op == 0xF6 || op == 0xF7 || op == 0xFE || op == 0xFF
}

/// The immediate that follows the ModRM operand of a `takes_modrm` opcode.
pub open spec fn modrm_imm_len(op: u8) -> int {
    if op == 0x69 {
        4
    } else if op == 0x6B || op == 0xC0 || op == 0xC1 {
        1
    } else {
        0
    }
}

/// One-byte opcodes with an 8-bit immediate and no ModRM.
pub open spec fn takes_imm8(op: u8) -> bool {
    ||| op == 0x04 || op == 0x0C || op == 0x14 || op == 0x1C || op == 0x24 || op == 0x2C
    ||| op == 0x34 || op == 0x3C || op == 0x6A || op == 0xA8
    ||| 0xB0 <= op <= 0xB7
    ||| op == 0xC2 || op == 0xCA || op == 0xCD || op == 0xD4 || op == 0xD5
    ||| 0xE0 <= op <= 0xE3
    ||| op == 0xEB
}

/// One-byte opcodes with a 32-bit immediate (`0xC7` has a ModRM operand before it).
pub open spec fn takes_imm32(op: u8) -> bool {
    ||| op == 0x05 || op == 0x0D || op == 0x15 || op == 0x1D || op == 0x25 || op == 0x2D
    ||| op == 0x35 || op == 0x3D || op == 0x68
    ||| 0xA0 <= op <= 0xA3
    ||| op == 0xA9
    ||| 0xB8 <= op <= 0xBF
    ||| op == 0xC7 || op == 0xE8 || op == 0xE9
}

/// One-byte opcodes with no operand bytes.
pub open spec fn takes_nothing(op: u8) -> bool {
    ||| 0x90 <= op <= 0x9F
    ||| 0x50 <= op <= 0x5F
    ||| 0x6C <= op <= 0x6F
    ||| 0xA4 <= op <= 0xA7
    ||| 0xAA <= op <= 0xAF
    ||| op == 0xC3 || op == 0xC9 || op == 0xCB || op == 0xCC || op == 0xCE || op == 0xCF
    ||| op == 0xF4 || op == 0xF5
    ||| 0xF8 <= op <= 0xFD
}

/// Second bytes of `0x0F` opcodes followed by a ModRM byte.
pub open spec fn two_byte_takes_modrm(op: u8) -> bool {
    ||| 0x90 <= op <= 0x9F
    ||| 0xA3 <= op <= 0xA5
    ||| op == 0xAB || op == 0xAD || op == 0xAF
    ||| 0xB0 <= op <= 0xB7
    ||| 0xBA <= op <= 0xC1
}

/// The bytes taken by a ModRM byte at `p` with its SIB byte and displacement;
/// `None` when a byte that must be read (the ModRM or the SIB) lies past the end.
pub open spec fn spec_modrm_len(code: Seq<u8>, p: int) -> Option<int> {
    if p < 0 || p >= code.len() {
        None
    } else {
        let mode = code[p] / 64;
        let rm = code[p] % 8;
        let has_sib = mode != 3 && rm == 4;
        if has_sib && p + 1 >= code.len() {
            None
        } else {
            let sib_len: int = if has_sib {
                if mode == 0 && code[p + 1] % 8 == 5 {
                    5
                } else {
                    1
                }
            } else {
                0
            };
            let disp_len: int = if mode == 0 && rm == 5 {
                4
            } else if mode == 1 {
                1
            } else if mode == 2 {
                4
            } else {
                0
            };
            Some(1 + sib_len + disp_len)
        }
    }
}

/// Where the instruction whose opcode is at `p` ends; `None` for an unknown
/// two-byte opcode or when a byte that must be read lies past the end.
pub open spec fn spec_insn_end(code: Seq<u8>, p: int) -> Option<int> {
    let op = code[p];
    if takes_modrm(op) {
        match spec_modrm_len(code, p + 1) {
            Some(m) => Some(p + 1 + m + modrm_imm_len(op)),
            None => None,
        }
    } else if takes_imm8(op) {
        Some(p + 2)
    } else if takes_imm32(op) {
        if op == 0xC7 {
            match spec_modrm_len(code, p + 1) {
                Some(m) => Some(p + 1 + m + 4),
                None => None,
            }
        } else {
            Some(p + 5)
        }
    } else if 0x70 <= op <= 0x7F {
        Some(p + 2)
    } else if takes_nothing(op) {
        Some(p + 1)
    } else if op == 0x0F {
        if p + 1 >= code.len() {
            None
        } else {
            let second = code[p + 1];
            if 0x80 <= second <= 0x8F {
                Some(p + 6)
            } else if two_byte_takes_modrm(second) {
                let imm: int = if second == 0xA4 || second == 0xAC || second == 0xBA {
                    1
                } else {
                    0
                };
                match spec_modrm_len(code, p + 2) {
                    Some(m) => Some(p + 2 + m + imm),
                    None => None,
                }
            } else {
                None
            }
        }
    } else {
        Some(p + 1)
    }
}

/// The length of the instruction that starts at `at`; `None` when the decoder does
/// not know it or the bytes end before a byte it must read.
pub open spec fn spec_instruction_len(code: Seq<u8>, at: int) -> Option<int> {
    if at < 0 || at > code.len() {
        None
    } else {
        let p = choose|p: int| prefixes_end(code, at, p);
        if p >= code.len() {
            None
        } else {
            match spec_insn_end(code, p) {
                Some(e) => Some(e - at),
                None => None,
            }
        }
    }
}

/// The prefixes end at exactly one place.
proof fn lemma_prefixes_end_unique(code: Seq<u8>, at: int, p: int)
    requires
        prefixes_end(code, at, p),
    ensures
        (choose|q: int| prefixes_end(code, at, q)) == p,
{
    let q = choose|q: int| prefixes_end(code, at, q);
    assert(prefixes_end(code, at, q));
    if q < p {
        assert(is_prefix_byte(code[q]));
    } else if p < q {
        assert(is_prefix_byte(code[p]));
    }
}

fn is_prefix(b: u8) -> (r: bool)
    ensures
        r == is_prefix_byte(b),
{
    b == 0x26 || b == 0x2E || b == 0x36 || b == 0x3E || b == 0x64 || b == 0x65 || b == 0x66
        || b == 0x67 || b == 0xF0 || b == 0xF2 || b == 0xF3
}

/// `modrm_len`: the bytes taken by the ModRM byte at `p`, its SIB byte and its
/// displacement.
pub fn modrm_len(code: &[u8], p: usize) -> (r: Option<usize>)
    ensures
        match r {
            Some(n) => spec_modrm_len(code@, p as int) == Some(n as int),
            None => spec_modrm_len(code@, p as int) is None,
        },
{
    if p >= code.len() {
        return None;
    }
    let modrm = code[p];
    let mode = modrm / 64;
    let rm = modrm % 8;
    let mut len: usize = 1;
    if mode != 3 && rm == 4 {
        if p + 1 >= code.len() {
            return None;
        }
        let sib = code[p + 1];
        len = len + 1;
        if mode == 0 && sib % 8 == 5 {
            len = len + 4;
        }
    }
    if mode == 0 && rm == 5 {
        len = len + 4;
    } else if mode == 1 {
        len = len + 1;
    } else if mode == 2 {
        len = len + 4;
    }
    Some(len)
}

/// The length of the instruction starting at `at` in `code`.
fn instruction_len_at(code: &[u8], at: usize) -> (r: Option<usize>)
    requires
        at <= code@.len(),
        code@.len() + 16 <= usize::MAX,
    ensures
        match r {
            Some(n) => spec_instruction_len(code@, at as int) == Some(n as int),
            None => spec_instruction_len(code@, at as int) is None,
        },
{
    let mut p = at;
    while p < code.len() && is_prefix(code[p])
        invariant
            at <= p <= code@.len(),
            forall|k: int| at <= k < p ==> is_prefix_byte(#[trigger] code@[k]),
        decreases code.len() - p,
    {
        p = p + 1;
    }
    proof {
        assert(prefixes_end(code@, at as int, p as int));
        lemma_prefixes_end_unique(code@, at as int, p as int);
    }
    if p >= code.len() {
        return None;
    }
    let op = code[p];
    let end: usize;
    if (op <= 0x03) || (0x08 <= op && op <= 0x0B) || (0x10 <= op && op <= 0x13) || (0x18 <= op
        && op <= 0x1B) || (0x20 <= op && op <= 0x23) || (0x28 <= op && op <= 0x2B) || (0x30 <= op
        && op <= 0x33) || (0x38 <= op && op <= 0x3B) || op == 0x62 || op == 0x63 || op == 0x69
        || op == 0x6B || (0x84 <= op && op <= 0x8F) || op == 0xC0 || op == 0xC1 || op == 0xC4
        || op == 0xC5 || (0xD0 <= op && op <= 0xD3) || op == 0xF6 || op == 0xF7 || op == 0xFE
        || op == 0xFF {
        let imm: usize = if op == 0x69 {
            4
        } else if op == 0x6B || op == 0xC0 || op == 0xC1 {
            1
        } else {
            0
        };
        match modrm_len(code, p + 1) {
            Some(m) => {
                end = p + 1 + m + imm;
            },
            None => {
                return None;
            },
        }
    } else if op == 0x04 || op == 0x0C || op == 0x14 || op == 0x1C || op == 0x24 || op == 0x2C
        || op == 0x34 || op == 0x3C || op == 0x6A || op == 0xA8 || (0xB0 <= op && op <= 0xB7)
        || op == 0xC2 || op == 0xCA || op == 0xCD || op == 0xD4 || op == 0xD5 || (0xE0 <= op && op
        <= 0xE3) || op == 0xEB {
        end = p + 2;
    } else if op == 0x05 || op == 0x0D || op == 0x15 || op == 0x1D || op == 0x25 || op == 0x2D
        || op == 0x35 || op == 0x3D || op == 0x68 || (0xA0 <= op && op <= 0xA3) || op == 0xA9 || (
    0xB8 <= op && op <= 0xBF) || op == 0xC7 || op == 0xE8 || op == 0xE9 {
        if op == 0xC7 {
            match modrm_len(code, p + 1) {
                Some(m) => {
                    end = p + 1 + m + 4;
                },
                None => {
                    return None;
                },
            }
        } else {
            end = p + 5;
        }
    } else if 0x70 <= op && op <= 0x7F {
        end = p + 2;
    } else if (0x90 <= op && op <= 0x9F) || (0x50 <= op && op <= 0x5F) || (0x6C <= op && op
        <= 0x6F) || (0xA4 <= op && op <= 0xA7) || (0xAA <= op && op <= 0xAF) || op == 0xC3 || op
        == 0xC9 || op == 0xCB || op == 0xCC || op == 0xCE || op == 0xCF || op == 0xF4 || op == 0xF5
        || (0xF8 <= op && op <= 0xFD) {
        end = p + 1;
    } else if op == 0x0F {
        if p + 1 >= code.len() {
            return None;
        }
        let second = code[p + 1];
        if 0x80 <= second && second <= 0x8F {
            end = p + 6;
        } else if (0x90 <= second && second <= 0x9F) || (0xA3 <= second && second <= 0xA5)
            || second == 0xAB || second == 0xAD || second == 0xAF || (0xB0 <= second && second
            <= 0xB7) || (0xBA <= second && second <= 0xC1) {
            let imm: usize = if second == 0xA4 || second == 0xAC || second == 0xBA {
                1
            } else {
                0
            };
            match modrm_len(code, p + 2) {
                Some(m) => {
                    end = p + 2 + m + imm;
                },
                None => {
                    return None;
                },
            }
        } else {
            return None;
        }
    } else {
        end = p + 1;
    }
    Some(end - at)
}

/// `instruction_len`: the length of the x86 instruction at the start of `code`,
/// prefixes included; `None` when the decoder does not know it or `code` ends
/// before a byte the decoder must read.
pub fn instruction_len(code: &[u8]) -> (r: Option<usize>)
    requires
        code@.len() + 16 <= usize::MAX,
    ensures
        match r {
            Some(n) => spec_instruction_len(code@, 0) == Some(n as int),
            None => spec_instruction_len(code@, 0) is None,
        },
{
    instruction_len_at(code, 0)
}

/// Whole instructions from `total` on, until at least `min_len` bytes are covered;
/// `None` when an instruction cannot be decoded or the span would pass 16 bytes.
pub open spec fn spec_span_from(code: Seq<u8>, total: int, min_len: int) -> Option<int>
    decreases 16 - total,
{
    if total >= min_len {
        Some(total)
    } else if total < 0 || total > 16 {
        None
    } else {
        match spec_instruction_len(code, total) {
            Some(len) => if len <= 0 || total + len > 16 {
                None
            } else {
                spec_span_from(code, total + len, min_len)
            },
            None => None,
        }
    }
}

/// `instruction_span`: how many bytes of whole instructions at the start of `code`
/// cover at least `min_len` bytes; `None` when an instruction cannot be decoded or
/// the span would pass 16 bytes.
pub fn instruction_span(code: &[u8], min_len: usize) -> (r: Option<usize>)
    requires
        code@.len() + 16 <= usize::MAX,
    ensures
        match r {
            Some(n) => spec_span_from(code@, 0, min_len as int) == Some(n as int),
            None => spec_span_from(code@, 0, min_len as int) is None,
        },
{
    let mut total: usize = 0;
    while total < min_len
        invariant
            total <= 16,
            code@.len() + 16 <= usize::MAX,
            spec_span_from(code@, 0, min_len as int) == spec_span_from(
                code@,
                total as int,
                min_len as int,
            ),
        decreases 16 - total,
    {
        if total > code.len() {
            return None;
        }
        let len = match instruction_len_at(code, total) {
            Some(len) => len,
            None => {
                return None;
            },
        };
        if len == 0 || total + len > 16 {
            return None;
        }
        total = total + len;
    }
    Some(total)
}

/// The entry point of the PE image mapped at `module_base` whose headers are
/// `header`, with the address wrapping as pointer arithmetic does.
pub open spec fn spec_image_entry_point(header: Seq<u8>, module_base: int) -> Option<int> {
    if header.len() < 64 {
        None
    } else {
        let magic = header[0] + 256 * header[1];
        let lfanew = le32(header, 0x3C);
        if magic != 0x5A4D || lfanew >= 0x8000_0000 {
            None
        } else if lfanew + 44 > header.len() {
            None
        } else if le32(header, lfanew) != 0x4550 {
            None
        } else {
            let rva = le32(header, lfanew + 40);
            if rva == 0 {
                None
            } else {
                Some(wrap_address(module_base, rva))
            }
        }
    }
}

/// `image_entry_point`: the address of the entry point of the PE image mapped at
/// `module_base`, read from its headers `header`; `None` when the DOS or NT
/// signature is wrong, `e_lfanew` is negative, the entry RVA is 0, or the headers
/// end before a field that is read.
pub fn image_entry_point(header: &[u8], module_base: usize) -> (r: Option<usize>)
    ensures
        match r {
            Some(a) => spec_image_entry_point(header@, module_base as int) == Some(a as int),
            None => spec_image_entry_point(header@, module_base as int) is None,
        },
{
    if header.len() < 64 {
        return None;
    }
    let magic = header[0] as u32 + (header[1] as u32) * 256;
    let lfanew = read_u32(header, 0x3C);
    if magic != 0x5A4D || lfanew >= 0x8000_0000 {
        return None;
    }
    let nt = lfanew as usize;
    if nt > header.len() || header.len() - nt < 44 {
        return None;
    }
    if read_u32(header, nt) != 0x4550 {
        return None;
    }
    let rva = read_u32(header, nt + 40);
    if rva == 0 {
        return None;
    }
    let r = address_at(module_base, rva);
    Some(r)
}


/// The rel32 operand of a jump or call whose next instruction is at `next` and
/// whose target is `target`: the distance, modulo 2^32.
pub open spec fn rel32(next: int, target: int) -> int {
    (target - next) % 0x1_0000_0000
}

/// The bytes of `jmp rel32` placed at `at`, jumping to `target`.
pub open spec fn jmp_bytes(at: int, target: int) -> Seq<u8> {
    seq![0xE9u8] + le_bytes4(rel32(at + 5, target))
}

/// The bytes of `call rel32` placed at `at`, calling `target`.
pub open spec fn call_bytes(at: int, target: int) -> Seq<u8> {
    seq![0xE8u8] + le_bytes4(rel32(at + 5, target))
}

/// `write_rel32`: the operand, as a 32-bit value, of a jump or call from `next` to
/// `target`.
pub fn rel32_operand(next: usize, target: usize) -> (r: u32)
    ensures
        r as int == rel32(next as int, target as int),
{
    let m: u64 = 0x1_0000_0000;
    let t: u64 = (target as u64) % m;
    let n: u64 = (next as u64) % m;
    let d: u64 = (t + m - n) % m;
    proof {
        vstd::arithmetic::div_mod::lemma_sub_mod_noop(target as int, next as int, m as int);
        vstd::arithmetic::div_mod::lemma_mod_multiples_vanish(1, t - n, m as int);
    }
    d as u32
}

/// `write_rel32_jmp_unprotected`: the bytes of a `jmp rel32` at `at` to `target`.
pub fn jmp_rel32(at: usize, target: usize) -> (r: Vec<u8>)
    requires
        at + 5 <= usize::MAX,
    ensures
        r@ == jmp_bytes(at as int, target as int),
{
    let mut out: Vec<u8> = Vec::new();
    out.push(0xE9);
    push_u32_le(&mut out, rel32_operand(at + 5, target));
    assert(out@ =~= jmp_bytes(at as int, target as int));
    out
}

/// `write_rel32_call`: the bytes of a `call rel32` at `at` to `target`.
pub fn call_rel32(at: usize, target: usize) -> (r: Vec<u8>)
    requires
        at + 5 <= usize::MAX,
    ensures
        r@ == call_bytes(at as int, target as int),
{
    let mut out: Vec<u8> = Vec::new();
    out.push(0xE8);
    push_u32_le(&mut out, rel32_operand(at + 5, target));
    assert(out@ =~= call_bytes(at as int, target as int));
    out
}

/// The entry stub placed at `stub`: `pushad; pushfd; call bootstrap; popfd; popad;
/// jmp entry`.
pub open spec fn spec_entry_stub(stub: int, bootstrap: int, entry: int) -> Seq<u8> {
    seq![0x60u8, 0x9Cu8] + call_bytes(stub + 2, bootstrap) + seq![0x9Du8, 0x61u8] + jmp_bytes(
        stub + 9,
        entry,
    )
}

/// `build_entry_stub`: the code of the entry stub placed at `stub`, which saves the
/// registers and flags, calls `bootstrap`, restores them and jumps to `entry`.
pub fn entry_stub(stub: usize, bootstrap: usize, entry: usize) -> (r: Vec<u8>)
    requires
        stub + ENTRY_STUB_LEN <= usize::MAX,
    ensures
        r@ == spec_entry_stub(stub as int, bootstrap as int, entry as int),
        r@.len() <= ENTRY_STUB_LEN,
{
    let mut out: Vec<u8> = Vec::new();
    out.push(0x60);
    out.push(0x9C);
    let call = call_rel32(stub + 2, bootstrap);
    push_all(&mut out, call.as_slice());
    out.push(0x9D);
    out.push(0x61);
    let jmp = jmp_rel32(stub + 9, entry);
    push_all(&mut out, jmp.as_slice());
    assert(out@ =~= spec_entry_stub(stub as int, bootstrap as int, entry as int));
    out
}

/// `build_trampoline`: the code of the trampoline placed at `trampoline`: the
/// instructions moved aside from the entry point, then a jump back to the first
/// instruction after them.
pub fn trampoline_code(original: &[u8], trampoline: usize, entry: usize) -> (r: Vec<u8>)
    requires
        trampoline + original@.len() + 5 <= usize::MAX,
        entry + original@.len() <= usize::MAX,
    ensures
        r@ == original@ + jmp_bytes(
            trampoline + original@.len(),
            entry + original@.len(),
        ),
{
    let mut out: Vec<u8> = Vec::new();
    push_all(&mut out, original);
    let len = original.len();
    let jmp = jmp_rel32(trampoline + len, entry + len);
    push_all(&mut out, jmp.as_slice());
    out
}

/// The decoder gives the x86 lengths of common unprefixed instructions, as the
/// encoding defines them: `mov r32, imm32` (`B8`-`BF`), `push imm32`, `call rel32`
/// and `jmp rel32` take an opcode and a 4-byte immediate (5 bytes); `mov r8, imm8`
/// (`B0`-`B7`), `push imm8`, `jmp rel8` and `jcc rel8` an opcode and one byte (2);
/// `push`/`pop r32`, `nop`, `ret` and `int3` the opcode alone (1); and `mov` between
/// a register and a ModRM operand (`88`-`8B`) takes 2 bytes plus what the ModRM byte
/// asks for: nothing for a register (mod 3) or `[reg]`, a SIB byte for rm 4, a
/// 4-byte address for `[disp32]` (mod 0, rm 5), and an 8-bit or 32-bit displacement
/// for mod 1 or 2.
pub proof fn law_x86_reference_lengths(code: Seq<u8>)
    ensures
        code.len() >= 5 && 0xB8 <= code[0] <= 0xBF ==> spec_instruction_len(code, 0) == Some(5int),
        code.len() >= 5 && (code[0] == 0x68 || code[0] == 0xE8 || code[0] == 0xE9)
            ==> spec_instruction_len(code, 0) == Some(5int),
        code.len() >= 2 && (0xB0 <= code[0] <= 0xB7 || code[0] == 0x6A || code[0] == 0xEB || 0x70
            <= code[0] <= 0x7F) ==> spec_instruction_len(code, 0) == Some(2int),
        code.len() >= 1 && (0x50 <= code[0] <= 0x5F || code[0] == 0x90 || code[0] == 0xC3
            || code[0] == 0xCC) ==> spec_instruction_len(code, 0) == Some(1int),
        code.len() >= 2 && 0x88 <= code[0] <= 0x8B ==> {
            let mode = code[1] / 64;
            let rm = code[1] % 8;
            &&& mode == 3 ==> spec_instruction_len(code, 0) == Some(2int)
            &&& mode == 0 && rm != 4 && rm != 5 ==> spec_instruction_len(code, 0) == Some(2int)
            &&& mode == 0 && rm == 5 ==> spec_instruction_len(code, 0) == Some(6int)
            &&& mode == 1 && rm != 4 ==> spec_instruction_len(code, 0) == Some(3int)
            &&& mode == 2 && rm != 4 ==> spec_instruction_len(code, 0) == Some(6int)
            &&& code.len() >= 3 && mode == 1 && rm == 4 ==> spec_instruction_len(code, 0) == Some(
                4int,
            )
        },
{
    if code.len() >= 1 && !is_prefix_byte(code[0]) {
        assert(prefixes_end(code, 0, 0));
        lemma_prefixes_end_unique(code, 0, 0);
    }
}

/// A jump or call encoded with `rel32` lands on its target: the next instruction's
/// address plus the operand is the target, modulo 2^32.
pub proof fn law_rel32_reaches_target(next: int, target: int)
    ensures
        (next + rel32(next, target)) % 0x1_0000_0000 == target % 0x1_0000_0000,
{
    let m: int = 0x1_0000_0000;
    vstd::arithmetic::div_mod::lemma_add_mod_noop(next, target - next, m);
    vstd::arithmetic::div_mod::lemma_mod_twice(next, m);
    vstd::arithmetic::div_mod::lemma_add_mod_noop(next, rel32(next, target), m);
    vstd::arithmetic::div_mod::lemma_mod_twice(target - next, m);
}

/// The span that `instruction_span` finds covers at least `min_len` bytes and at
/// most 16, whatever the code.
pub proof fn law_span_bounds(code: Seq<u8>, total: int, min_len: int)
    requires
        0 <= total <= 16,
    ensures
        match spec_span_from(code, total, min_len) {
            Some(n) => min_len <= n && total <= n && (n <= 16 || n == total),
            None => true,
        },
    decreases 16 - total,
{
    if total < min_len {
        match spec_instruction_len(code, total) {
            Some(len) => {
                if len > 0 && total + len <= 16 {
                    law_span_bounds(code, total + len, min_len);
                }
            },
            None => {},
        }
    }
}

} // verus!

//! Finding the import-address-table slot of an imported function in a PE32 image.
use vstd::prelude::*;
use vstd::string::StringSliceAdditionalSpecFns;
use crate::bytes::{le16, le32, read_u16, read_u32};

verus! {

pub open spec fn lower_byte(b: u8) -> u8 {
    if 65 <= b <= 90 {
        (b + 32) as u8
    } else {
        b
    }
}

/// The NUL-terminated string at `at` in `img` is `t` (compared byte for byte, or
/// ignoring ASCII case).
pub open spec fn cstr_matches(img: Seq<u8>, at: int, t: Seq<u8>, ignore_case: bool) -> bool {
    &&& 0 <= at
    &&& at + t.len() < img.len()
    &&& forall|i: int|
        0 <= i < t.len() ==> img[at + i] != 0 && if ignore_case {
            lower_byte(#[trigger] img[at + i]) == lower_byte(t[i])
        } else {
            img[at + i] == t[i]
        }
    &&& img[at + t.len()] == 0
}

/// Whether the NUL-terminated string at `at` is `t`.
fn cstr_equals(img: &[u8], at: usize, t: &[u8], ignore_case: bool) -> (r: bool)
    ensures
        r == cstr_matches(img@, at as int, t@, ignore_case),
{
    let mut i: usize = 0;
    while i < t.len()
        invariant
            i <= t@.len(),
            forall|k: int|
                0 <= k < i ==> at + k < img@.len() && img@[at + k] != 0 && if ignore_case {
                    lower_byte(#[trigger] img@[at + k]) == lower_byte(t@[k])
                } else {
                    img@[at + k] == t@[k]
                },
        decreases t.len() - i,
    {
        if at >= img.len() || img.len() - at <= i {
            return false;
        }
        let b = img[at + i];
        if b == 0 {
            return false;
        }
        let same = if ignore_case {
            let lb: u8 = if 65 <= b && b <= 90 {
                b + 32
            } else {
                b
            };
            let c = t[i];
            let lc: u8 = if 65 <= c && c <= 90 {
                c + 32
            } else {
                c
            };
            lb == lc
        } else {
            b == t[i]
        };
        if !same {
            return false;
        }
        i = i + 1;
    }
    if at >= img.len() || img.len() - at <= t.len() {
        return false;
    }
    img[at + t.len()] == 0
}

/// The slot the thunks from number `j` on give for `func`: the first lookup entry,
/// before the terminating 0, that imports by name a function named `func`; its
/// slot is at `iat + 4 * j` for the same `j`. `None` when there is none, or the
/// lookup table runs past the end of `img`.
pub open spec fn thunk_slot(img: Seq<u8>, lookup: int, iat: int, j: nat, func: Seq<u8>) -> Option<
    int,
>
    decreases img.len() - (lookup + 4 * j),
{
    if lookup < 0 || lookup + 4 * j + 4 > img.len() {
        None
    } else {
        let v = le32(img, lookup + 4 * j);
        if v == 0 {
            None
        } else if v < 0x8000_0000 && cstr_matches(img, v + 2, func, false) {
            Some(iat + 4 * j)
        } else {
            thunk_slot(img, lookup, iat, j + 1, func)
        }
    }
}

/// The slot the import descriptor at `d` gives for `func` (`hook_import`).
pub open spec fn descriptor_slot(img: Seq<u8>, d: int, func: Seq<u8>) -> Option<int> {
    let original_first_thunk = le32(img, d);
    let first_thunk = le32(img, d + 16);
    let lookup = if original_first_thunk != 0 {
        original_first_thunk
    } else {
        first_thunk
    };
    if lookup == 0 || first_thunk == 0 {
        None
    } else {
        thunk_slot(img, lookup, first_thunk, 0, func)
    }
}

/// The slots for `func` in the descriptors of `dll` from descriptor `k` of the
/// table at `table` on, in order; the table ends at a descriptor whose name is 0 or
/// at the end of `img`.
pub open spec fn slots_from(img: Seq<u8>, table: int, k: nat, dll: Seq<u8>, func: Seq<u8>) -> Seq<
    int,
>
    decreases img.len() - (table + 20 * k),
{
    let d = table + 20 * k;
    if table < 0 || d + 20 > img.len() || le32(img, d + 12) == 0 {
        Seq::empty()
    } else {
        let here = if cstr_matches(img, le32(img, d + 12), dll, true) {
            match descriptor_slot(img, d, func) {
                Some(s) => seq![s],
                None => Seq::empty(),
            }
        } else {
            Seq::empty()
        };
        here + slots_from(img, table, k + 1, dll, func)
    }
}

/// Where the import table of the PE32 image `img` starts; `None` when the DOS or NT
/// signature is wrong, `e_lfanew` is negative, there is no import directory, or the
/// headers end early.
pub open spec fn import_table(img: Seq<u8>) -> Option<int> {
    if img.len() < 64 || le16(img, 0) != 0x5A4D || le32(img, 0x3C) >= 0x8000_0000 {
        None
    } else {
        let nt = le32(img, 0x3C);
        if nt + 136 > img.len() || le32(img, nt) != 0x4550 || le32(img, nt + 116) <= 1 {
            None
        } else if le32(img, nt + 128) == 0 {
            None
        } else {
            Some(le32(img, nt + 128))
        }
    }
}

/// The IAT slots (as offsets into the image) that hooking `func` imported from
/// `dll` would try, in order.
pub open spec fn spec_import_slots(img: Seq<u8>, dll: Seq<u8>, func: Seq<u8>) -> Seq<int> {
    match import_table(img) {
        Some(t) => slots_from(img, t, 0, dll, func),
        None => Seq::empty(),
    }
}

fn descriptor_slot_exec(img: &[u8], d: usize, func: &[u8]) -> (r: Option<u64>)
    requires
        d + 20 <= img@.len(),
        img@.len() <= 0xFFFF_FFFF,
    ensures
        match r {
            Some(s) => descriptor_slot(img@, d as int, func@) == Some(s as int),
            None => descriptor_slot(img@, d as int, func@) is None,
        },
{
    let oft = read_u32(img, d) as usize;
    let ft = read_u32(img, d + 16) as u64;
    if ft == 0 {
        return None;
    }
    let lookup = if oft != 0 {
        oft
    } else {
        ft as usize
    };
    let ghost g = img@;
    let mut j: usize = 0;
    let mut at = lookup;
    let mut slot = ft;
    while at <= img.len() && img.len() - at >= 4
        invariant
            g == img@,
            at == lookup + 4 * j,
            slot == ft + 4 * j,
            lookup < 0x1_0000_0000,
            ft < 0x1_0000_0000,
            at <= lookup + img@.len(),
            img@.len() <= 0xFFFF_FFFF,
            j <= img@.len(),
            descriptor_slot(g, d as int, func@) == thunk_slot(
                g,
                lookup as int,
                ft as int,
                j as nat,
                func@,
            ),
        decreases img@.len() - at,
    {
        let v = read_u32(img, at);
        proof {
            assert(thunk_slot(g, lookup as int, ft as int, j as nat, func@) == if v == 0 {
                None
            } else if v < 0x8000_0000 && cstr_matches(g, v + 2, func@, false) {
                Some(ft + 4 * j)
            } else {
                thunk_slot(g, lookup as int, ft as int, (j + 1) as nat, func@)
            });
        }
        if v == 0 {
            return None;
        }
        if v < 0x8000_0000 && cstr_equals(img, v as usize + 2, func, false) {
            return Some(slot);
        }
        j = j + 1;
        at = at + 4;
        slot = slot + 4;
    }
    None
}

/// `hook_iat` / `hook_import`: the IAT slots, as offsets into the image `img`, that
/// hooking `func_name` imported from `dll_name` (DLL names compared ignoring ASCII
/// case) would try, in order: in each import descriptor of that DLL, the slot of
/// the first by-name import of that function. Empty when the image base or the
/// new function is 0 (`module_base`, `new_func`), or the image has no import table.
pub fn import_slots(img: &[u8], module_base: usize, new_func: usize, dll_name: &str, func_name: &str) -> (r:
    Vec<u64>)
    requires
        img@.len() <= 0xFFFF_FFFF,
    ensures
        module_base == 0 || new_func == 0 ==> r@.len() == 0,
        module_base != 0 && new_func != 0 ==> r@.map_values(|s: u64| s as int)
            == spec_import_slots(img@, dll_name.spec_bytes(), func_name.spec_bytes()),
{
    let mut out: Vec<u64> = Vec::new();
    if module_base == 0 || new_func == 0 {
        return out;
    }
    let dll = dll_name.as_bytes();
    let func = func_name.as_bytes();
    let ghost g = img@;
    if img.len() < 64 || read_u16(img, 0) != 0x5A4D {
        assert(out@.map_values(|s: u64| s as int) =~= Seq::<int>::empty());
        return out;
    }
    let lfanew = read_u32(img, 0x3C);
    if lfanew >= 0x8000_0000 {
        assert(out@.map_values(|s: u64| s as int) =~= Seq::<int>::empty());
        return out;
    }
    let nt = lfanew as usize;
    if nt > img.len() || img.len() - nt < 136 || read_u32(img, nt) != 0x4550 || read_u32(
        img,
        nt + 116,
    ) <= 1 {
        assert(out@.map_values(|s: u64| s as int) =~= Seq::<int>::empty());
        return out;
    }
    let table = read_u32(img, nt + 128) as usize;
    if table == 0 {
        assert(out@.map_values(|s: u64| s as int) =~= Seq::<int>::empty());
        return out;
    }
    let mut k: usize = 0;
    let mut d = table;
    while d <= img.len() && img.len() - d >= 20 && read_u32(img, d + 12) != 0
        invariant
            g == img@,
            dll@ == dll_name.spec_bytes(),
            func@ == func_name.spec_bytes(),
            table < 0x1_0000_0000,
            d == table + 20 * k,
            d <= table + img@.len() + 20,
            import_table(g) == Some(table as int),
            img@.len() <= 0xFFFF_FFFF,
            slots_from(g, table as int, 0, dll@, func@) == out@.map_values(|s: u64| s as int)
                + slots_from(g, table as int, k as nat, dll@, func@),
        decreases img@.len() + 20 - (d - table),
    {
        let name = read_u32(img, d + 12) as usize;
        let ghost before = out@.map_values(|s: u64| s as int);
        if cstr_equals(img, name, dll, true) {
            match descriptor_slot_exec(img, d, func) {
                Some(s) => {
                    out.push(s);
                    assert(out@.map_values(|s: u64| s as int) =~= before + seq![s as int]);
                },
                None => {},
            }
        }
        k = k + 1;
        d = d + 20;
    }
    out
}

} // verus!

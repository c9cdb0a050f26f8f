//! What the loader reads of the game's PE image and version resource, and the
//! directory it runs from.
use vstd::prelude::*;
use vstd::string::StringExecFns;
use crate::bytes::{address_at, le16, le32, read_u16, read_u32, wrap_address};
use crate::fmt::{hex, hex_string};
use crate::text::{chars_of, string_from_range, trim, trim_bounds};

verus! {

/// The section header at `s` is named ".text" (its first five bytes).
pub open spec fn is_text_section(h: Seq<u8>, s: int) -> bool {
    h[s] == 0x2E && h[s + 1] == 0x74 && h[s + 2] == 0x65 && h[s + 3] == 0x78 && h[s + 4] == 0x74
}

/// The section header at `s` is named ".rdata" (its first six bytes).
pub open spec fn is_rdata_section(h: Seq<u8>, s: int) -> bool {
    h[s] == 0x2E && h[s + 1] == 0x72 && h[s + 2] == 0x64 && h[s + 3] == 0x61 && h[s + 4] == 0x74
        && h[s + 5] == 0x61
}

/// The `.text` base and size and the `.rdata` base and size after the first `k`
/// section headers from `first`: a later section of a name overrides an earlier
/// one; 0 where none was seen.
pub open spec fn scan_sections(h: Seq<u8>, first: int, k: nat, base: int) -> (int, int, int, int)
    decreases k,
{
    if k == 0 {
        (0, 0, 0, 0)
    } else {
        let prev = scan_sections(h, first, (k - 1) as nat, base);
        let s = first + 40 * (k - 1);
        let text = if is_text_section(h, s) {
            (wrap_address(base, le32(h, s + 12)), le32(h, s + 8))
        } else {
            (prev.0, prev.1)
        };
        let rdata = if is_rdata_section(h, s) {
            (wrap_address(base, le32(h, s + 12)), le32(h, s + 8))
        } else {
            (prev.2, prev.3)
        };
        (text.0, text.1, rdata.0, rdata.1)
    }
}

/// Where the NT headers start.
pub open spec fn nt_offset(h: Seq<u8>) -> int {
    le32(h, 0x3C)
}

/// Where the section table starts.
pub open spec fn first_section(h: Seq<u8>) -> int {
    nt_offset(h) + 24 + le16(h, nt_offset(h) + 20)
}

/// How many section headers there are.
pub open spec fn section_count(h: Seq<u8>) -> nat {
    le16(h, nt_offset(h) + 6) as nat
}

/// The headers `h` hold every field that `parse_game_info` reads.
pub open spec fn game_headers_fit(h: Seq<u8>) -> bool {
    &&& h.len() >= 64
    &&& nt_offset(h) + 84 <= h.len()
    &&& first_section(h) + 40 * section_count(h) <= h.len()
}

/// The image size, `.text` base and size, and `.rdata` base and size of the image
/// mapped at `base` whose headers are `h`.
pub open spec fn spec_game_info(h: Seq<u8>, base: int) -> (int, int, int, int, int) {
    let scan = scan_sections(h, first_section(h), section_count(h), base);
    (le32(h, nt_offset(h) + 80), scan.0, scan.1, scan.2, scan.3)
}

/// `parse_game_info`: the image size, `.text` base and size, and `.rdata` base and
/// size of the game image mapped at `base`, read from its headers `header`; `None`
/// when `header` ends before a field that is read.
pub fn parse_game_info(header: &[u8], base: usize) -> (r: Option<(u32, usize, u32, usize, u32)>)
    ensures
        match r {
            Some(t) => game_headers_fit(header@) && spec_game_info(header@, base as int) == (
                t.0 as int,
                t.1 as int,
                t.2 as int,
                t.3 as int,
                t.4 as int,
            ),
            None => !game_headers_fit(header@),
        },
{
    let ghost h = header@;
    if header.len() < 64 {
        return None;
    }
    let nt = read_u32(header, 0x3C) as usize;
    if nt > header.len() || header.len() - nt < 84 {
        return None;
    }
    let game_size = read_u32(header, nt + 80);
    let count = read_u16(header, nt + 6) as usize;
    let opt_size = read_u16(header, nt + 20) as usize;
    if opt_size > header.len() - nt - 24 {
        return None;
    }
    let first = nt + 24 + opt_size;
    if (header.len() - first) / 40 < count {
        proof {
            if first <= h.len() {
                assert((h.len() - first) / 40 < count ==> first + 40 * count > h.len()) by (
                nonlinear_arith);
            }
        }
        return None;
    }
    proof {
        assert(first + 40 * count <= h.len()) by (nonlinear_arith)
            requires
                first <= h.len(),
                (h.len() - first) / 40 >= count,
        ;
    }
    let mut text_base: usize = 0;
    let mut text_size: u32 = 0;
    let mut rdata_base: usize = 0;
    let mut rdata_size: u32 = 0;
    let mut i: usize = 0;
    let mut s = first;
    while i < count
        invariant
            h == header@,
            first + 40 * count <= h.len(),
            i <= count,
            s == first + 40 * i,
            scan_sections(h, first as int, i as nat, base as int) == (
                text_base as int,
                text_size as int,
                rdata_base as int,
                rdata_size as int,
            ),
        decreases count - i,
    {
        if header[s] == 0x2E && header[s + 1] == 0x74 && header[s + 2] == 0x65 && header[s + 3]
            == 0x78 && header[s + 4] == 0x74 {
            text_base = address_at(base, read_u32(header, s + 12));
            text_size = read_u32(header, s + 8);
        }
        if header[s] == 0x2E && header[s + 1] == 0x72 && header[s + 2] == 0x64 && header[s + 3]
            == 0x61 && header[s + 4] == 0x74 && header[s + 5] == 0x61 {
            rdata_base = address_at(base, read_u32(header, s + 12));
            rdata_size = read_u32(header, s + 8);
        }
        i = i + 1;
        s = s + 40;
    }
    Some((game_size, text_base, text_size, rdata_base, rdata_size))
}

/// The position of the last `c` in `s`, if there is one.
pub open spec fn last_index_of(s: Seq<char>, c: char) -> Option<int> {
    if exists|i: int| 0 <= i < s.len() && s[i] == c {
        Some(choose|i: int| 0 <= i < s.len() && s[i] == c && forall|j: int| i < j < s.len() ==> #[trigger] s[j] != c)
    } else {
        None
    }
}

/// The directory part of `path`: everything before its last backslash, or else
/// before its last slash; `None` when it has neither.
pub open spec fn spec_parent_dir(path: Seq<char>) -> Option<Seq<char>> {
    match last_index_of(path, '\\') {
        Some(i) => Some(path.subrange(0, i)),
        None => match last_index_of(path, '/') {
            Some(i) => Some(path.subrange(0, i)),
            None => None,
        },
    }
}

/// The position of the last `c` among `chars`.
fn rfind(chars: &Vec<char>, c: char) -> (r: Option<usize>)
    ensures
        match r {
            Some(i) => i < chars@.len() && last_index_of(chars@, c) == Some(i as int),
            None => last_index_of(chars@, c) is None,
        },
{
    let ghost s = chars@;
    let mut k = chars.len();
    while k > 0
        invariant
            s == chars@,
            k <= s.len(),
            forall|j: int| k <= j < s.len() ==> #[trigger] s[j] != c,
        decreases k,
    {
        if chars[k - 1] == c {
            proof {
                let i = (k - 1) as int;
                assert(0 <= i < s.len() && s[i] == c && forall|j: int|
                    i < j < s.len() ==> #[trigger] s[j] != c);
                let w = choose|w: int|
                    0 <= w < s.len() && s[w] == c && forall|j: int| w < j < s.len() ==> #[trigger] s[j] != c;
                if w < i {
                    assert(s[i] != c);
                } else if w > i {
                    assert(s[w] != c);
                }
            }
            return Some(k - 1);
        }
        k = k - 1;
    }
    None
}

/// `get_self_base_dir`'s path handling: the directory of the module file `path`.
pub fn parent_dir(path: &str) -> (r: Option<String>)
    ensures
        match r {
            Some(d) => spec_parent_dir(path@) == Some(d@),
            None => spec_parent_dir(path@) is None,
        },
{
    let chars = chars_of(path);
    match rfind(&chars, '\\') {
        Some(i) => Some(string_from_range(&chars, 0, i)),
        None => match rfind(&chars, '/') {
            Some(i) => Some(string_from_range(&chars, 0, i)),
            None => None,
        },
    }
}

/// The version `read_game_version` reports: the first of the file version and the
/// product version whose trimmed text is not empty, trimmed.
pub open spec fn spec_select_version(file_version: Option<Seq<char>>, product_version: Option<
    Seq<char>,
>) -> Option<Seq<char>> {
    if file_version is Some && trim(file_version->0).len() > 0 {
        Some(trim(file_version->0))
    } else if product_version is Some && trim(product_version->0).len() > 0 {
        Some(trim(product_version->0))
    } else {
        None
    }
}

fn trimmed_nonempty(v: &Option<String>) -> (r: Option<String>)
    ensures
        match *v {
            Some(s) => if trim(s@).len() > 0 {
                r is Some && r->0@ == trim(s@)
            } else {
                r is None
            },
            None => r is None,
        },
{
    match v {
        Some(s) => {
            let chars = chars_of(s.as_str());
            let (a, b) = trim_bounds(&chars);
            if a == b {
                None
            } else {
                Some(string_from_range(&chars, a, b))
            }
        },
        None => None,
    }
}

/// `read_game_version`'s choice among the values read from the version resource
/// (`None` for a value that could not be read).
pub fn select_version(file_version: Option<String>, product_version: Option<String>) -> (r: Option<
    String,
>)
    ensures
        match r {
            Some(v) => spec_select_version(
                match file_version {
                    Some(s) => Some(s@),
                    None => None,
                },
                match product_version {
                    Some(s) => Some(s@),
                    None => None,
                },
            ) == Some(v@),
            None => spec_select_version(
                match file_version {
                    Some(s) => Some(s@),
                    None => None,
                },
                match product_version {
                    Some(s) => Some(s@),
                    None => None,
                },
            ) is None,
        },
{
    match trimmed_nonempty(&file_version) {
        Some(v) => Some(v),
        None => trimmed_nonempty(&product_version),
    }
}

/// The version-resource query for `key` in the language and code page of the
/// translation `(lang, codepage)`.
pub open spec fn spec_version_query(lang: u16, codepage: u16, key: Seq<char>) -> Seq<char> {
    "\\StringFileInfo\\"@ + hex(lang as nat, 4, false) + hex(codepage as nat, 4, false) + "\\"@
        + key
}

/// `read_game_version`'s query path for `key`: `\StringFileInfo\llllcccc\key`.
pub fn version_query(lang: u16, codepage: u16, key: &str) -> (r: String)
    ensures
        r@ == spec_version_query(lang, codepage, key@),
{
    let mut out = String::from_str("\\StringFileInfo\\");
    let l = hex_string(lang as u64, 4, false);
    out.append(l.as_str());
    let c = hex_string(codepage as u64, 4, false);
    out.append(c.as_str());
    out.append("\\");
    out.append(key);
    out
}

/// The language and code page of the first translation of a version resource,
/// from the bytes of its `\VarFileInfo\Translation` value; `None` when it is
/// shorter than 4 bytes.
pub fn translation(value: &[u8]) -> (r: Option<(u16, u16)>)
    ensures
        match r {
            Some(p) => value@.len() >= 4 && p.0 == le16(value@, 0) && p.1 == le16(value@, 2),
            None => value@.len() < 4,
        },
{
    if value.len() < 4 {
        None
    } else {
        Some((read_u16(value, 0), read_u16(value, 2)))
    }
}

} // verus!

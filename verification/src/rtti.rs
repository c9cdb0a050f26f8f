//! Finding a class's vtable through the MSVC RTTI records in the game's `.rdata`.
use vstd::prelude::*;
use crate::bytes::{le32, read_u32};

verus! {

/// Where the game's `.rdata` and `.text` sections lie.
pub struct RttiInfo {
    pub rdata_base: usize,
    pub rdata_size: usize,
    pub text_base: usize,
}

impl RttiInfo {
    /// No sections known yet.
    pub fn new() -> (r: RttiInfo)
        ensures
            r.rdata_base == 0,
            r.rdata_size == 0,
            r.text_base == 0,
    {
        RttiInfo { rdata_base: 0, rdata_size: 0, text_base: 0 }
    }
}

/// Records where `.rdata` and `.text` lie, for later vtable searches.
pub fn set_rtti_info(info: &mut RttiInfo, rdata_base: usize, rdata_size: usize, text_base: usize)
    ensures
        final(info).rdata_base == rdata_base,
        final(info).rdata_size == rdata_size,
        final(info).text_base == text_base,
{
    info.rdata_base = rdata_base;
    info.rdata_size = rdata_size;
    info.text_base = text_base;
}

/// The name followed by a NUL stands at offset `o` of `.rdata` (which starts at
/// `rs` in `img` and is `rsize` bytes long), with the NUL inside `.rdata`.
pub open spec fn name_here(img: Seq<u8>, rs: int, rsize: int, name: Seq<u8>, o: int) -> bool {
    &&& 0 <= o
    &&& o + name.len() < rsize
    &&& forall|t: int| 0 <= t < name.len() ==> img[rs + o + t] == name[t]
    &&& img[rs + o + name.len()] == 0
}

/// `(o, i, j)` is a way to the vtable: the type descriptor's name is at `o`; its
/// first field points into `.rdata`; `.rdata` offset `i` refers to the type
/// descriptor from a complete object locator at `i - 12` whose signature is 0; and
/// `.rdata` offset `j` refers to that locator from just before a vtable whose first
/// entry lies at or above `.text`.
pub open spec fn candidate(
    img: Seq<u8>,
    image_base: int,
    rb: int,
    rsize: int,
    tb: int,
    name: Seq<u8>,
    o: int,
    i: int,
    j: int,
) -> bool {
    let rs = rb - image_base;
    &&& name_here(img, rs, rsize, name, o)
    &&& le32(img, rs + o - 8) >= rb
    &&& 12 <= i
    &&& i + 4 <= rsize
    &&& le32(img, rs + i) == rb + o - 8
    &&& le32(img, rs + i - 12) == 0
    &&& 0 <= j
    &&& j + 4 <= rsize
    &&& le32(img, rs + j) == rb + i - 12
    &&& le32(img, rs + j + 4) >= tb
}

pub open spec fn lex_lt(a: (int, int, int), b: (int, int, int)) -> bool {
    ||| a.0 < b.0
    ||| (a.0 == b.0 && a.1 < b.1)
    ||| (a.0 == b.0 && a.1 == b.1 && a.2 < b.2)
}

/// `t` is the first way found: no way comes before it in the search order.
pub open spec fn first_candidate(
    img: Seq<u8>,
    image_base: int,
    rb: int,
    rsize: int,
    tb: int,
    name: Seq<u8>,
    t: (int, int, int),
) -> bool {
    &&& candidate(img, image_base, rb, rsize, tb, name, t.0, t.1, t.2)
    &&& forall|o: int, i: int, j: int|
        #[trigger] candidate(img, image_base, rb, rsize, tb, name, o, i, j) ==> !lex_lt(
            (o, i, j),
            t,
        )
}

/// The memory that a search reads lies inside `img` (which starts at `image_base`):
/// `.rdata` with 12 bytes before it and 4 after, all below 4 GiB.
pub open spec fn search_fits(img: Seq<u8>, image_base: int, info: RttiInfo) -> bool {
    &&& image_base + img.len() <= 0x1_0000_0000
    &&& image_base + 12 <= info.rdata_base
    &&& info.rdata_base + info.rdata_size + 4 <= image_base + img.len()
}

/// The address of the vtable of the class whose type-descriptor name is exactly
/// `name`, or 0.
pub open spec fn spec_find_exact(img: Seq<u8>, image_base: int, info: RttiInfo, name: Seq<u8>) -> int {
    let rb = info.rdata_base as int;
    let rsize = info.rdata_size as int;
    let tb = info.text_base as int;
    if name.len() == 0 || rb == 0 || rsize == 0 || tb == 0 {
        0
    } else if exists|t: (int, int, int)| first_candidate(img, image_base, rb, rsize, tb, name, t) {
        let t = choose|t: (int, int, int)| first_candidate(img, image_base, rb, rsize, tb, name, t);
        rb + t.2 + 4
    } else {
        0
    }
}

/// The type-descriptor name MSVC gives the class `name`: `.?AV`, the name, `@@`.
pub open spec fn decorated(name: Seq<u8>) -> Seq<u8> {
    seq![0x2Eu8, 0x3Fu8, 0x41u8, 0x56u8] + name + seq![0x40u8, 0x40u8]
}

/// The vtable that `rtti_find_vtable` finds for `name`, a decorated type-descriptor
/// name (`.?AVFoo@@`) or a plain class name (`Foo`): the vtable of the class whose
/// descriptor is named `name` itself; when there is none, that of the class whose
/// descriptor is named `decorated(name)`; 0 when neither is found or `name` is empty.
pub open spec fn spec_find_vtable(img: Seq<u8>, image_base: int, info: RttiInfo, name: Seq<u8>) -> int {
    let exact = spec_find_exact(img, image_base, info, name);
    if exact != 0 || name.len() == 0 {
        exact
    } else {
        spec_find_exact(img, image_base, info, decorated(name))
    }
}

/// The offsets `i` in `bytes[start..start + size]` (with `i + 4 <= size`) where the
/// little-endian 32-bit value equals `value`, in increasing order.
fn find_pattern_u32(bytes: &[u8], start: usize, size: usize, value: u32) -> (r: Vec<usize>)
    requires
        start + size <= bytes@.len(),
    ensures
        forall|a: int, b: int| 0 <= a < b < r@.len() ==> r@[a] < r@[b],
        forall|a: int|
            0 <= a < r@.len() ==> r@[a] + 4 <= size && le32(bytes@, start + #[trigger] r@[a])
                == value,
        forall|p: int|
            0 <= p && p + 4 <= size && le32(bytes@, start + p) == value ==> #[trigger] r@.contains(
                p as usize,
            ),
{
    let mut results: Vec<usize> = Vec::new();
    let mut i: usize = 0;
    assert(bytes@.len() == bytes.len());
    while i <= size && size - i >= 4
        invariant
            start + size <= bytes@.len(),
            bytes@.len() == bytes.len(),
            forall|a: int, b: int| 0 <= a < b < results@.len() ==> results@[a] < results@[b],
            forall|a: int| 0 <= a < results@.len() ==> results@[a] < i,
            forall|a: int|
                0 <= a < results@.len() ==> results@[a] + 4 <= size && le32(
                    bytes@,
                    start + #[trigger] results@[a],
                ) == value,
            forall|p: int|
                0 <= p < i && p + 4 <= size && le32(bytes@, start + p) == value
                    ==> #[trigger] results@.contains(p as usize),
        decreases size - i,
    {
        let ghost old_results = results@;
        if read_u32(bytes, start + i) == value {
            results.push(i);
            proof {
                assert forall|p: int|
                    0 <= p < i + 1 && p + 4 <= size && le32(bytes@, start + p) == value
                        implies #[trigger] results@.contains(p as usize) by {
                    if p < i {
                        assert(old_results.contains(p as usize));
                        let a = choose|a: int| 0 <= a < old_results.len() && old_results[a] == p as usize;
                        assert(results@[a] == p as usize);
                    } else {
                        assert(results@[old_results.len() as int] == i);
                    }
                }
            }
        }
        i = i + 1;
    }
    results
}

/// Whether `name` followed by a NUL stands at offset `o` of the section at `rs`.
fn name_at(img: &[u8], rs: usize, rsize: usize, name: &[u8], o: usize) -> (r: bool)
    requires
        o + name@.len() < rsize,
        rs + rsize <= img@.len(),
    ensures
        r == name_here(img@, rs as int, rsize as int, name@, o as int),
{
    let mut t: usize = 0;
    assert(img@.len() == img.len());
    while t < name.len()
        invariant
            img@.len() == img.len(),
            o + name@.len() < rsize,
            rs + rsize <= img@.len(),
            t <= name@.len(),
            forall|q: int| 0 <= q < t ==> img@[rs + o + q] == name@[q],
        decreases name.len() - t,
    {
        if img[rs + o + t] != name[t] {
            return false;
        }
        t = t + 1;
    }
    img[rs + o + name.len()] == 0
}

/// At most one way is the first: `lex_lt` orders ways totally.
proof fn lemma_first_candidate_unique(
    img: Seq<u8>,
    image_base: int,
    rb: int,
    rsize: int,
    tb: int,
    name: Seq<u8>,
    t: (int, int, int),
)
    requires
        first_candidate(img, image_base, rb, rsize, tb, name, t),
    ensures
        (choose|u: (int, int, int)| first_candidate(img, image_base, rb, rsize, tb, name, u)) == t,
{
    let u = choose|u: (int, int, int)| first_candidate(img, image_base, rb, rsize, tb, name, u);
    assert(first_candidate(img, image_base, rb, rsize, tb, name, u));
    assert(candidate(img, image_base, rb, rsize, tb, name, u.0, u.1, u.2));
    assert(candidate(img, image_base, rb, rsize, tb, name, t.0, t.1, t.2));
    assert(!lex_lt((u.0, u.1, u.2), t));
    assert(!lex_lt((t.0, t.1, t.2), u));
}

/// `api_rtti_find_vtable`: the vtable of the class named `name`, searched in `img`
/// (the game image, mapped at `image_base`). `name` is a type-descriptor name
/// (`.?AVFoo@@`) or a plain class name (`Foo`, looked up as `.?AVFoo@@` when no
/// descriptor is named `Foo` itself). 0 when the sections are unknown, the name is
/// empty, or no vtable is found.
pub fn find_vtable(img: &[u8], image_base: usize, info: &RttiInfo, name: &[u8]) -> (r: usize)
    requires
        name@.len() > 0 && info.rdata_base != 0 && info.rdata_size != 0 && info.text_base != 0
            ==> search_fits(img@, image_base as int, *info),
    ensures
        r == spec_find_vtable(img@, image_base as int, *info, name@),
{
    let exact = find_exact(img, image_base, info, name);
    if exact != 0 || name.len() == 0 {
        return exact;
    }
    let mut full: Vec<u8> = Vec::new();
    full.push(0x2E);
    full.push(0x3F);
    full.push(0x41);
    full.push(0x56);
    let mut k: usize = 0;
    while k < name.len()
        invariant
            k <= name@.len(),
            full@ == seq![0x2Eu8, 0x3Fu8, 0x41u8, 0x56u8] + name@.subrange(0, k as int),
        decreases name.len() - k,
    {
        full.push(name[k]);
        assert(name@.subrange(0, k + 1) =~= name@.subrange(0, k as int).push(name@[k as int]));
        k = k + 1;
    }
    full.push(0x40);
    full.push(0x40);
    assert(name@.subrange(0, name@.len() as int) =~= name@);
    assert(full@ =~= decorated(name@));
    find_exact(img, image_base, info, full.as_slice())
}

/// The vtable of the class whose type-descriptor name is exactly `name`: the
/// address of the first vtable found in search order, or 0.
#[verifier::loop_isolation(false)]
fn find_exact(img: &[u8], image_base: usize, info: &RttiInfo, name: &[u8]) -> (r: usize)
    requires
        name@.len() > 0 && info.rdata_base != 0 && info.rdata_size != 0 && info.text_base != 0
            ==> search_fits(img@, image_base as int, *info),
    ensures
        r == spec_find_exact(img@, image_base as int, *info, name@),
{
    if name.len() == 0 || info.rdata_base == 0 || info.rdata_size == 0 || info.text_base == 0 {
        return 0;
    }
    let ghost g = img@;
    let ghost ib = image_base as int;
    let ghost rb = info.rdata_base as int;
    let ghost rsz = info.rdata_size as int;
    let ghost tb = info.text_base as int;
    let ghost nm = name@;
    assert(img@.len() == img.len());
    let rs = info.rdata_base - image_base;
    let rsize = info.rdata_size;
    let len = name.len();
    let mut offset: usize = 0;
    while offset < rsize && rsize - offset > len
        invariant
            offset <= rsize,
            forall|o: int, i: int, j: int|
                #[trigger] candidate(g, ib, rb, rsz, tb, nm, o, i, j) ==> o >= offset,
        decreases rsize - offset,
    {
        if name_at(img, rs, rsize, name, offset) {
            let td = info.rdata_base + offset - 8;
            let pvf = read_u32(img, rs + offset - 8);
            if pvf as usize >= info.rdata_base {
                let refs = find_pattern_u32(img, rs, rsize, td as u32);
                let mut k: usize = 0;
                while k < refs.len()
                    invariant
                        k <= refs@.len(),
                        forall|o: int, i: int, j: int|
                            #[trigger] candidate(g, ib, rb, rsz, tb, nm, o, i, j) ==> o > offset || (
                            o == offset && forall|a: int| 0 <= a < k ==> i != refs@[a]),
                    decreases refs.len() - k,
                {
                    let i = refs[k];
                    if i >= 12 && read_u32(img, rs + i - 12) == 0 && read_u32(img, rs + i) as usize
                        == td {
                        let col_va = info.rdata_base + i - 12;
                        let col_refs = find_pattern_u32(img, rs, rsize, col_va as u32);
                        let mut c: usize = 0;
                        while c < col_refs.len()
                            invariant
                                c <= col_refs@.len(),
                                forall|a: int|
                                    0 <= a < c ==> le32(g, rs + #[trigger] col_refs@[a] + 4) < tb,
                            decreases col_refs.len() - c,
                        {
                            let j = col_refs[c];
                            let first_entry = read_u32(img, rs + j + 4);
                            if first_entry as usize >= info.text_base {
                                let r = info.rdata_base + j + 4;
                                proof {
                                    let t = (offset as int, i as int, j as int);
                                    assert(candidate(g, ib, rb, rsz, tb, nm, t.0, t.1, t.2));
                                    assert forall|o2: int, i2: int, j2: int|
                                        #[trigger] candidate(g, ib, rb, rsz, tb, nm, o2, i2, j2)
                                        implies !lex_lt((o2, i2, j2), t) by {
                                        if lex_lt((o2, i2, j2), t) {
                                            assert(refs@.contains(i2 as usize));
                                            let a = choose|a: int|
                                                0 <= a < refs@.len() && refs@[a] == i2 as usize;
                                            if i2 < i {
                                                assert(a < k);
                                            } else {
                                                assert(col_refs@.contains(j2 as usize));
                                                let b = choose|b: int|
                                                    0 <= b < col_refs@.len() && col_refs@[b]
                                                        == j2 as usize;
                                                assert(b < c);
                                            }
                                        }
                                    }
                                    assert(first_candidate(g, ib, rb, rsz, tb, nm, t));
                                    lemma_first_candidate_unique(g, ib, rb, rsz, tb, nm, t);
                                }
                                return r;
                            }
                            c = c + 1;
                        }
                        proof {
                            assert forall|o2: int, i2: int, j2: int|
                                #[trigger] candidate(g, ib, rb, rsz, tb, nm, o2, i2, j2)
                                    && o2 == offset implies i2 != i by {
                                if i2 == i {
                                    assert(col_refs@.contains(j2 as usize));
                                }
                            }
                        }
                    }
                    k = k + 1;
                }
                proof {
                    assert forall|o2: int, i2: int, j2: int|
                        #[trigger] candidate(g, ib, rb, rsz, tb, nm, o2, i2, j2) implies o2
                            >= offset + 1 by {
                        if o2 == offset {
                            assert(refs@.contains(i2 as usize));
                        }
                    }
                }
            }
        }
        offset = offset + 1;
    }
    0
}

} // verus!

//! The crash-report archive: a stored (uncompressed) ZIP writer, its CRC-32, and the
//! FNV-1a fingerprint that the file listings carry.
use vstd::prelude::*;
use crate::bytes::{le_bytes2, le_bytes4, push_all, push_u16_le, push_u32_le};
use vstd::string::StringSliceAdditionalSpecFns;

verus! {

pub const FNV_OFFSET: u64 = 0xcbf2_9ce4_8422_2325;

pub const FNV_PRIME: u64 = 0x0000_0100_0000_01b3;

/// One FNV-1a step: xor in the byte, multiply by the prime modulo 2^64.
pub open spec fn fnv1a_step(hash: u64, byte: u8) -> u64 {
    (((hash ^ (byte as u64)) as nat * FNV_PRIME as nat) % 0x1_0000_0000_0000_0000nat) as u64
}

/// The 64-bit FNV-1a hash of `data`.
pub open spec fn spec_fnv1a(data: Seq<u8>) -> u64
    decreases data.len(),
{
    if data.len() == 0 {
        FNV_OFFSET
    } else {
        fnv1a_step(spec_fnv1a(data.drop_last()), data.last())
    }
}

/// `fnv1a`: the 64-bit FNV-1a hash of `data`, a light file fingerprint.
pub fn fnv1a(data: &[u8]) -> (r: u64)
    ensures
        r == spec_fnv1a(data@),
{
    let mut hash: u64 = FNV_OFFSET;
    let mut i: usize = 0;
    while i < data.len()
        invariant
            i <= data@.len(),
            hash == spec_fnv1a(data@.subrange(0, i as int)),
        decreases data.len() - i,
    {
        assert(data@.subrange(0, i + 1).drop_last() == data@.subrange(0, i as int));
        hash = (hash ^ (data[i] as u64)).wrapping_mul(FNV_PRIME);
        i = i + 1;
    }
    assert(data@.subrange(0, data@.len() as int) == data@);
    hash
}

/// One bit of the reflected CRC-32 (polynomial 0xEDB88320).
pub open spec fn crc_shift(c: u32) -> u32 {
    if c & 1 != 0 {
        (c >> 1) ^ 0xEDB8_8320
    } else {
        c >> 1
    }
}

/// `n` bits of the CRC-32.
pub open spec fn crc_shift_n(c: u32, n: nat) -> u32
    decreases n,
{
    if n == 0 {
        c
    } else {
        crc_shift_n(crc_shift(c), (n - 1) as nat)
    }
}

/// The CRC-32 register after `data`, starting from all ones.
pub open spec fn crc_register(data: Seq<u8>) -> u32
    decreases data.len(),
{
    if data.len() == 0 {
        0xFFFF_FFFF
    } else {
        crc_shift_n(crc_register(data.drop_last()) ^ (data.last() as u32), 8)
    }
}

/// The CRC-32 of `data`, as ZIP records it.
pub open spec fn spec_crc32(data: Seq<u8>) -> u32 {
    !crc_register(data)
}

/// `crc32`: the CRC-32 (ZIP polynomial 0xEDB88320) of `data`.
pub fn crc32(data: &[u8]) -> (r: u32)
    ensures
        r == spec_crc32(data@),
{
    let mut crc: u32 = 0xFFFF_FFFF;
    let mut i: usize = 0;
    while i < data.len()
        invariant
            i <= data@.len(),
            crc == crc_register(data@.subrange(0, i as int)),
        decreases data.len() - i,
    {
        assert(data@.subrange(0, i + 1).drop_last() == data@.subrange(0, i as int));
        let start = crc ^ (data[i] as u32);
        crc = start;
        let mut k: u32 = 0;
        while k < 8
            invariant
                k <= 8,
                crc_shift_n(start, 8) == crc_shift_n(crc, (8 - k) as nat),
            decreases 8 - k,
        {
            crc = if crc & 1 != 0 {
                (crc >> 1) ^ 0xEDB8_8320
            } else {
                crc >> 1
            };
            k = k + 1;
        }
        i = i + 1;
    }
    assert(data@.subrange(0, data@.len() as int) == data@);
    !crc
}

/// What the central directory records of one stored file.
pub struct CentralEntry {
    name: Vec<u8>,
    crc: u32,
    size: u32,
    offset: u32,
}

/// A minimal ZIP writer: files are stored uncompressed, one after another, and
/// `finish` appends the central directory.
pub struct ZipWriter {
    buffer: Vec<u8>,
    entries: Vec<CentralEntry>,
}

/// The local file header of a stored file named `name` holding `data` (the sizes
/// and the name length truncated to their fields, as the format has them).
pub open spec fn local_header(name: Seq<u8>, data: Seq<u8>) -> Seq<u8> {
    le_bytes4(0x0403_4b50) + le_bytes2(20) + le_bytes2(0) + le_bytes2(0) + le_bytes2(0)
        + le_bytes2(0) + le_bytes4(spec_crc32(data) as int) + le_bytes4(data.len() as u32 as int)
        + le_bytes4(data.len() as u32 as int) + le_bytes2(name.len() as u16 as int) + le_bytes2(0)
}

/// The central directory record of one file, `e` being its name's bytes, CRC-32,
/// size and the offset of its local header.
pub open spec fn central_record(e: (Seq<u8>, u32, u32, u32)) -> Seq<u8> {
    le_bytes4(0x0201_4b50) + le_bytes2(20) + le_bytes2(20) + le_bytes2(0) + le_bytes2(0)
        + le_bytes2(0) + le_bytes2(0) + le_bytes4(e.1 as int) + le_bytes4(e.2 as int)
        + le_bytes4(e.2 as int) + le_bytes2(e.0.len() as u16 as int) + le_bytes2(0)
        + le_bytes2(0) + le_bytes2(0) + le_bytes2(0) + le_bytes4(0) + le_bytes4(e.3 as int)
        + e.0
}

/// The central directory records of `entries`, in order.
pub open spec fn central_directory(entries: Seq<(Seq<u8>, u32, u32, u32)>) -> Seq<u8>
    decreases entries.len(),
{
    if entries.len() == 0 {
        Seq::empty()
    } else {
        central_directory(entries.drop_last()) + central_record(entries.last())
    }
}

/// The end-of-central-directory record for `count` files whose directory of
/// `cd_size` bytes starts at `cd_start`.
pub open spec fn end_record(count: int, cd_size: u32, cd_start: u32) -> Seq<u8> {
    le_bytes4(0x0605_4b50) + le_bytes2(0) + le_bytes2(0) + le_bytes2(count as u16 as int)
        + le_bytes2(count as u16 as int) + le_bytes4(cd_size as int) + le_bytes4(cd_start as int)
        + le_bytes2(0)
}

/// The complete archive for files written into `buffer` and described by
/// `entries`.
pub open spec fn spec_archive(buffer: Seq<u8>, entries: Seq<(Seq<u8>, u32, u32, u32)>) -> Seq<u8> {
    let cd = central_directory(entries);
    let cd_start = buffer.len() as u32;
    let cd_end = (buffer.len() + cd.len()) as u32;
    let cd_size = vstd::wrapping::u32_specs::wrapping_sub(cd_end, cd_start);
    buffer + cd + end_record(entries.len() as int, cd_size, cd_start)
}

/// Each recorded file's local header starts at its recorded offset: the header's
/// signature is there and the file's name follows the 30-byte header.
pub open spec fn headers_at_offsets(written: Seq<u8>, entries: Seq<(Seq<u8>, u32, u32, u32)>) -> bool {
    forall|k: int|
        0 <= k < entries.len() ==> {
            let at = #[trigger] entries[k].3 as int;
            &&& at + 30 + entries[k].0.len() <= written.len()
            &&& written.subrange(at, at + 4) == le_bytes4(0x0403_4b50)
            &&& written.subrange(at + 30, at + 30 + entries[k].0.len()) == entries[k].0
        }
}

/// An empty archive has nothing to point at.
pub proof fn law_empty_archive_headers()
    ensures
        headers_at_offsets(Seq::<u8>::empty(), Seq::<(Seq<u8>, u32, u32, u32)>::empty()),
{
}

/// Adding a file keeps every central-directory offset pointing at its file's local
/// header, as long as the archive stays under 4 GiB (where the 32-bit offsets of
/// the format still hold the position).
pub proof fn law_add_keeps_headers_at_offsets(
    written: Seq<u8>,
    entries: Seq<(Seq<u8>, u32, u32, u32)>,
    name: Seq<u8>,
    data: Seq<u8>,
)
    requires
        headers_at_offsets(written, entries),
        written.len() < 0x1_0000_0000,
    ensures
        headers_at_offsets(
            written + local_header(name, data) + name + data,
            entries.push((name, spec_crc32(data), data.len() as u32, written.len() as u32)),
        ),
{
    let after = written + local_header(name, data) + name + data;
    let new_entries = entries.push((name, spec_crc32(data), data.len() as u32, written.len() as u32));
    assert(local_header(name, data).len() == 30);
    assert forall|k: int| 0 <= k < new_entries.len() implies {
        let at = #[trigger] new_entries[k].3 as int;
        &&& at + 30 + new_entries[k].0.len() <= after.len()
        &&& after.subrange(at, at + 4) == le_bytes4(0x0403_4b50)
        &&& after.subrange(at + 30, at + 30 + new_entries[k].0.len()) == new_entries[k].0
    } by {
        if k < entries.len() {
            let at = entries[k].3 as int;
            assert(new_entries[k] == entries[k]);
            assert(after.subrange(at, at + 4) =~= written.subrange(at, at + 4));
            assert(after.subrange(at + 30, at + 30 + entries[k].0.len()) =~= written.subrange(
                at + 30,
                at + 30 + entries[k].0.len(),
            ));
        } else {
            let at = written.len() as int;
            assert((written.len() as u32) as int == at);
            assert(after.subrange(at, at + 4) =~= le_bytes4(0x0403_4b50));
            assert(after.subrange(at + 30, at + 30 + name.len()) =~= name);
        }
    }
}

/// The bytes that `add` writes for one file: its local header, name and data.
#[verifier::opaque]
pub open spec fn file_bytes(name: Seq<u8>, data: Seq<u8>) -> Seq<u8> {
    local_header(name, data) + name + data
}

proof fn lemma_file_bytes(name: Seq<u8>, data: Seq<u8>)
    ensures
        file_bytes(name, data) == local_header(name, data) + name + data,
        local_header(name, data).len() == 30,
        file_bytes(name, data).len() == 30 + name.len() + data.len(),
{
    reveal(file_bytes);
}

proof fn lemma_central_record_len(e: (Seq<u8>, u32, u32, u32))
    ensures
        central_record(e).len() == 46 + e.0.len(),
{
}

/// The bytes that adding `files` (name and data, in order) to a new writer writes
/// before the central directory.
pub open spec fn zip_written(files: Seq<(Seq<u8>, Seq<u8>)>) -> Seq<u8>
    decreases files.len(),
{
    if files.len() == 0 {
        Seq::empty()
    } else {
        zip_written(files.drop_last()) + file_bytes(files.last().0, files.last().1)
    }
}

/// What the central directory records after adding `files` to a new writer.
pub open spec fn zip_entries(files: Seq<(Seq<u8>, Seq<u8>)>) -> Seq<(Seq<u8>, u32, u32, u32)>
    decreases files.len(),
{
    if files.len() == 0 {
        Seq::empty()
    } else {
        let f = files.last();
        zip_entries(files.drop_last()).push(
            (f.0, spec_crc32(f.1), f.1.len() as u32, zip_written(files.drop_last()).len() as u32),
        )
    }
}

/// The size of the archive of `files` without its 22-byte end record: per file a
/// 30-byte local header and a 46-byte central record, the name twice, the data once.
pub open spec fn zip_size(files: Seq<(Seq<u8>, Seq<u8>)>) -> int
    decreases files.len(),
{
    if files.len() == 0 {
        0
    } else {
        zip_size(files.drop_last()) + 76 + 2 * files.last().0.len() + files.last().1.len()
    }
}

/// A new writer is the writer of no files, and `add(name, data)` turns the writer of
/// `files` into the writer of `files` followed by `(name, data)`: what `new` and
/// `add` state, over the archive of a whole list of files.
pub proof fn law_zip_files_step(files: Seq<(Seq<u8>, Seq<u8>)>, name: Seq<u8>, data: Seq<u8>)
    ensures
        zip_written(Seq::empty()) == Seq::<u8>::empty(),
        zip_entries(Seq::empty()) == Seq::<(Seq<u8>, u32, u32, u32)>::empty(),
        zip_written(files.push((name, data))) == zip_written(files) + local_header(name, data) + name
            + data,
        zip_entries(files.push((name, data))) == zip_entries(files).push(
            (name, spec_crc32(data), data.len() as u32, zip_written(files).len() as u32),
        ),
{
    assert(files.push((name, data)).drop_last() =~= files);
    lemma_file_bytes(name, data);
}

proof fn lemma_zip_prefix(files: Seq<(Seq<u8>, Seq<u8>)>, j: int)
    requires
        0 <= j <= files.len(),
    ensures
        zip_written(files.take(j)).len() <= zip_written(files).len(),
        zip_written(files).subrange(0, zip_written(files.take(j)).len() as int) == zip_written(
            files.take(j),
        ),
        zip_entries(files).len() == files.len(),
        zip_entries(files.take(j)) == zip_entries(files).take(j),
    decreases files.len(),
{
    if j == files.len() {
        assert(files.take(j) =~= files);
        if files.len() > 0 {
            lemma_zip_prefix(files.drop_last(), 0);
        }
        assert(zip_entries(files).take(j) =~= zip_entries(files));
        assert(zip_written(files).subrange(0, zip_written(files).len() as int) =~= zip_written(
            files,
        ));
    } else {
        let d = files.drop_last();
        assert(files.take(j) =~= d.take(j));
        lemma_zip_prefix(d, j);
        let w = zip_written(files);
        let wd = zip_written(d);
        let wj = zip_written(d.take(j));
        assert(w.subrange(0, wj.len() as int) =~= wd.subrange(0, wj.len() as int));
        assert(zip_entries(files).take(j) =~= zip_entries(d).take(j));
    }
}

proof fn lemma_written_step(files: Seq<(Seq<u8>, Seq<u8>)>, i: int)
    requires
        0 <= i < files.len(),
    ensures
        zip_written(files.take(i + 1)) == zip_written(files.take(i)) + file_bytes(files[i].0, files[i].1),
{
    let t = files.take(i + 1);
    assert(t.drop_last() =~= files.take(i));
    assert(t.last() == files[i]);
}

proof fn lemma_entry_at(files: Seq<(Seq<u8>, Seq<u8>)>, i: int)
    requires
        0 <= i < files.len(),
    ensures
        zip_entries(files)[i] == (
            files[i].0,
            spec_crc32(files[i].1),
            files[i].1.len() as u32,
            zip_written(files.take(i)).len() as u32,
        ),
{
    lemma_zip_prefix(files, i + 1);
    let t = files.take(i + 1);
    let ti = files.take(i);
    lemma_zip_prefix(ti, 0);
    assert(t.drop_last() =~= ti);
    assert(t.last() == files[i]);
    let e = (files[i].0, spec_crc32(files[i].1), files[i].1.len() as u32, zip_written(ti).len() as u32);
    assert(zip_entries(t) == zip_entries(ti).push(e));
    assert(zip_entries(t)[i] == e);
    assert(zip_entries(files).take(i + 1)[i] == zip_entries(files)[i]);
}

proof fn lemma_cd_prefix(es: Seq<(Seq<u8>, u32, u32, u32)>, j: int)
    requires
        0 <= j <= es.len(),
    ensures
        central_directory(es.take(j)).len() <= central_directory(es).len(),
        central_directory(es).subrange(0, central_directory(es.take(j)).len() as int)
            == central_directory(es.take(j)),
    decreases es.len(),
{
    if j == es.len() {
        assert(es.take(j) =~= es);
        assert(central_directory(es).subrange(0, central_directory(es).len() as int)
            =~= central_directory(es));
    } else {
        let d = es.drop_last();
        assert(es.take(j) =~= d.take(j));
        lemma_cd_prefix(d, j);
        let c = central_directory(es);
        let cj = central_directory(d.take(j));
        assert(c.subrange(0, cj.len() as int) =~= central_directory(d).subrange(0, cj.len() as int));
    }
}

proof fn lemma_cd_at(es: Seq<(Seq<u8>, u32, u32, u32)>, i: int)
    requires
        0 <= i < es.len(),
    ensures
        central_directory(es.take(i + 1)) == central_directory(es.take(i)) + central_record(es[i]),
{
    assert(es.take(i + 1).drop_last() =~= es.take(i));
}

proof fn lemma_zip_size(files: Seq<(Seq<u8>, Seq<u8>)>)
    ensures
        zip_written(files).len() + central_directory(zip_entries(files)).len() == zip_size(files),
    decreases files.len(),
{
    if files.len() > 0 {
        let d = files.drop_last();
        lemma_zip_size(d);
        let f = files.last();
        let e = (f.0, spec_crc32(f.1), f.1.len() as u32, zip_written(d).len() as u32);
        assert(zip_entries(files).drop_last() =~= zip_entries(d));
        lemma_file_bytes(f.0, f.1);
        lemma_central_record_len(e);
    }
}

proof fn lemma_file_reads_back(files: Seq<(Seq<u8>, Seq<u8>)>, i: int)
    requires
        0 <= i < files.len(),
        spec_archive(zip_written(files), zip_entries(files)).len() < 0x1_0000_0000,
    ensures
        file_reads_back(files, i),
{
    let z = spec_archive(zip_written(files), zip_entries(files));
    let w = zip_written(files);
    let es = zip_entries(files);
    let cd = central_directory(es);
    let n = files[i].0;
    let d = files[i].1;
    let off = zip_written(files.take(i)).len() as int;
    lemma_written_step(files, i);
    lemma_entry_at(files, i);
    lemma_file_bytes(n, d);
    lemma_zip_prefix(files, i + 1);
    lemma_zip_prefix(files, i);
    let wi1 = zip_written(files.take(i + 1));
    assert(z.subrange(0, wi1.len() as int) =~= wi1);
    assert(z.subrange(off, off + 30) =~= wi1.subrange(off, off + 30));
    assert(wi1.subrange(off, off + 30) =~= local_header(n, d));
    assert(z.subrange(off + 30, off + 30 + n.len()) =~= wi1.subrange(off + 30, off + 30 + n.len()));
    assert(wi1.subrange(off + 30, off + 30 + n.len()) =~= n);
    assert(z.subrange(off + 30 + n.len(), off + 30 + n.len() + d.len()) =~= wi1.subrange(
        off + 30 + n.len(),
        off + 30 + n.len() + d.len(),
    ));
    assert(wi1.subrange(off + 30 + n.len(), off + 30 + n.len() + d.len()) =~= d);
    lemma_cd_at(es, i);
    lemma_cd_prefix(es, i + 1);
    assert(zip_entries(files.take(i)) == es.take(i));
    let ci = central_directory(es.take(i));
    let ci1 = central_directory(es.take(i + 1));
    let e = es[i];
    lemma_central_record_len(e);
    let rec = (w.len() + ci.len()) as int;
    assert(z.subrange(w.len() as int, (w.len() + cd.len()) as int) =~= cd);
    assert(cd.subrange(0, ci1.len() as int) =~= ci1);
    assert(z.subrange(rec, rec + 46 + n.len()) =~= ci1.subrange(ci.len() as int, ci1.len() as int));
    assert(ci1.subrange(ci.len() as int, ci1.len() as int) =~= central_record(e));
}

/// File `i` of `files` reads back from their archive: its local header, name and
/// exactly its data stand at its offset (which fits the 32-bit field), and its
/// central record, at its place in the central directory, holds its name, the CRC-32
/// of its data, its size and that offset.
pub open spec fn file_reads_back(files: Seq<(Seq<u8>, Seq<u8>)>, i: int) -> bool {
    let z = spec_archive(zip_written(files), zip_entries(files));
    let w = zip_written(files);
    let n = files[i].0;
    let d = files[i].1;
    let off = zip_written(files.take(i)).len() as int;
    let rec = (w.len() + central_directory(zip_entries(files.take(i))).len()) as int;
    &&& off < 0x1_0000_0000
    &&& z.subrange(off, off + 30) == local_header(n, d)
    &&& z.subrange(off + 30, off + 30 + n.len()) == n
    &&& z.subrange(off + 30 + n.len(), off + 30 + n.len() + d.len()) == d
    &&& z.subrange(rec, rec + 46 + n.len()) == central_record(
        (n, spec_crc32(d), d.len() as u32, off as u32),
    )
}

/// Reading back the archive of `files` (what `finish` returns after `new` and an
/// `add` of each file in order): it is `22 + zip_size(files)` bytes long; its last 22
/// bytes are the end record for `files.len()` entries and the central directory that
/// follows the files; and for each file `i` the local header, the name and exactly
/// the data stand at the offset that its central record gives, and that record holds
/// the name, the CRC-32 of the data and its size. This holds while the counts and
/// names fit the format's 16-bit fields and the archive stays under 4 GiB.
pub proof fn law_zip_read_back(files: Seq<(Seq<u8>, Seq<u8>)>)
    requires
        files.len() < 0x1_0000,
        forall|i: int| 0 <= i < files.len() ==> #[trigger] files[i].0.len() < 0x1_0000,
        spec_archive(zip_written(files), zip_entries(files)).len() < 0x1_0000_0000,
    ensures
        ({
            let z = spec_archive(zip_written(files), zip_entries(files));
            let w = zip_written(files);
            let cd = central_directory(zip_entries(files));
            &&& z.len() == 22 + zip_size(files)
            &&& z.subrange(z.len() - 22, z.len() as int) == end_record(
                files.len() as int,
                cd.len() as u32,
                w.len() as u32,
            )
            &&& forall|i: int| 0 <= i < files.len() ==> #[trigger] file_reads_back(files, i)
        }),
{
    let z = spec_archive(zip_written(files), zip_entries(files));
    let w = zip_written(files);
    let es = zip_entries(files);
    let cd = central_directory(es);
    lemma_zip_size(files);
    lemma_zip_prefix(files, 0);
    let cd_start = w.len() as u32;
    let cd_end = (w.len() + cd.len()) as u32;
    assert(vstd::wrapping::u32_specs::wrapping_sub(cd_end, cd_start) == cd.len() as u32);
    assert(z.subrange(z.len() - 22, z.len() as int) =~= end_record(
        files.len() as int,
        cd.len() as u32,
        w.len() as u32,
    ));
    assert forall|i: int| 0 <= i < files.len() implies #[trigger] file_reads_back(files, i) by {
        lemma_file_reads_back(files, i);
    }
}

impl CentralEntry {
    pub closed spec fn info(&self) -> (Seq<u8>, u32, u32, u32) {
        (self.name@, self.crc, self.size, self.offset)
    }
}

/// Appends the central directory record of `entry`.
fn push_central_record(buffer: &mut Vec<u8>, entry: &CentralEntry)
    ensures
        final(buffer)@ == old(buffer)@ + central_record(entry.info()),
{
    push_u32_le(buffer, 0x0201_4b50);
    push_u16_le(buffer, 20);
    push_u16_le(buffer, 20);
    push_u16_le(buffer, 0);
    push_u16_le(buffer, 0);
    push_u16_le(buffer, 0);
    push_u16_le(buffer, 0);
    push_u32_le(buffer, entry.crc);
    push_u32_le(buffer, entry.size);
    push_u32_le(buffer, entry.size);
    #[verifier::truncate]
    let name_len = entry.name.len() as u16;
    push_u16_le(buffer, name_len);
    push_u16_le(buffer, 0);
    push_u16_le(buffer, 0);
    push_u16_le(buffer, 0);
    push_u16_le(buffer, 0);
    push_u32_le(buffer, 0);
    push_u32_le(buffer, entry.offset);
    push_all(buffer, entry.name.as_slice());
    assert(buffer@ =~= old(buffer)@ + central_record(entry.info()));
}

impl ZipWriter {
    /// The bytes written so far: the local headers and the files' data.
    pub closed spec fn written(&self) -> Seq<u8> {
        self.buffer@
    }

    /// What the central directory will record, one item per file, in order: the
    /// name's bytes, CRC-32, size and the offset of the local header.
    pub closed spec fn entries(&self) -> Seq<(Seq<u8>, u32, u32, u32)> {
        Seq::new(self.entries@.len(), |i: int| self.entries@[i].info())
    }

    /// An empty archive.
    pub fn new() -> (r: ZipWriter)
        ensures
            r.written() == Seq::<u8>::empty(),
            r.entries() == Seq::<(Seq<u8>, u32, u32, u32)>::empty(),
    {
        let r = ZipWriter { buffer: Vec::new(), entries: Vec::new() };
        assert(r.entries() =~= Seq::<(Seq<u8>, u32, u32, u32)>::empty());
        r
    }

    /// Stores `data` under `name`: its local header, name and data are written, and
    /// the central directory will record its CRC-32, size and header offset.
    pub fn add(&mut self, name: &str, data: &[u8])
        ensures
            final(self).written() == old(self).written() + local_header(name.spec_bytes(), data@)
                + name.spec_bytes() + data@,
            final(self).entries() == old(self).entries().push(
                (
                    name.spec_bytes(),
                    spec_crc32(data@),
                    data@.len() as u32,
                    old(self).written().len() as u32,
                ),
            ),
    {
        let ghost old_entries = self.entries();
        #[verifier::truncate]
        let offset = self.buffer.len() as u32;
        let crc = crc32(data);
        #[verifier::truncate]
        let size = data.len() as u32;
        let name_bytes = name.as_bytes();
        #[verifier::truncate]
        let name_len = name_bytes.len() as u16;
        push_u32_le(&mut self.buffer, 0x0403_4b50);
        push_u16_le(&mut self.buffer, 20);
        push_u16_le(&mut self.buffer, 0);
        push_u16_le(&mut self.buffer, 0);
        push_u16_le(&mut self.buffer, 0);
        push_u16_le(&mut self.buffer, 0);
        push_u32_le(&mut self.buffer, crc);
        push_u32_le(&mut self.buffer, size);
        push_u32_le(&mut self.buffer, size);
        push_u16_le(&mut self.buffer, name_len);
        push_u16_le(&mut self.buffer, 0);
        push_all(&mut self.buffer, name_bytes);
        push_all(&mut self.buffer, data);
        let mut stored_name: Vec<u8> = Vec::new();
        push_all(&mut stored_name, name_bytes);
        self.entries.push(CentralEntry { name: stored_name, crc, size, offset });
        assert(self.entries() =~= old_entries.push(
            (
                name.spec_bytes(),
                spec_crc32(data@),
                data@.len() as u32,
                old(self).written().len() as u32,
            ),
        ));
        assert(self.written() =~= old(self).written() + local_header(name.spec_bytes(), data@)
            + name.spec_bytes() + data@);
    }

    /// The finished archive: what was written, the central directory, and the end
    /// record.
    pub fn finish(self) -> (r: Vec<u8>)
        ensures
            r@ == spec_archive(self.written(), self.entries()),
    {
        let ghost entries = self.entries();
        let ghost start = self.buffer@;
        let mut buffer = self.buffer;
        #[verifier::truncate]
        let cd_start = buffer.len() as u32;
        let mut k: usize = 0;
        while k < self.entries.len()
            invariant
                k <= self.entries@.len(),
                entries == self.entries(),
                buffer@ == start + central_directory(entries.subrange(0, k as int)),
            decreases self.entries.len() - k,
        {
            let entry = &self.entries[k];
            let ghost before = buffer@;
            push_central_record(&mut buffer, entry);
            proof {
                assert(entries[k as int] == entry.info());
                assert(entries.subrange(0, k + 1).drop_last() =~= entries.subrange(0, k as int));
            }
            k = k + 1;
        }
        assert(entries.subrange(0, entries.len() as int) =~= entries);
        #[verifier::truncate]
        let cd_end = buffer.len() as u32;
        let cd_size = cd_end.wrapping_sub(cd_start);
        #[verifier::truncate]
        let count = self.entries.len() as u16;
        let ghost before_end = buffer@;
        push_u32_le(&mut buffer, 0x0605_4b50);
        push_u16_le(&mut buffer, 0);
        push_u16_le(&mut buffer, 0);
        push_u16_le(&mut buffer, count);
        push_u16_le(&mut buffer, count);
        push_u32_le(&mut buffer, cd_size);
        push_u32_le(&mut buffer, cd_start);
        push_u16_le(&mut buffer, 0);
        assert(buffer@ =~= before_end + end_record(entries.len() as int, cd_size, cd_start));
        buffer
    }
}

} // verus!

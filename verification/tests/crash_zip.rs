use chumod_loader::crash_zip::{crc32, fnv1a, ZipWriter};

fn le32(b: &[u8], at: usize) -> u32 {
    u32::from_le_bytes([b[at], b[at + 1], b[at + 2], b[at + 3]])
}

fn le16(b: &[u8], at: usize) -> u16 {
    u16::from_le_bytes([b[at], b[at + 1]])
}

#[test]
fn crc32_known_values() {
    assert_eq!(crc32(b""), 0);
    assert_eq!(crc32(b"123456789"), 0xCBF4_3926);
    assert_eq!(crc32(b"hi"), 0xD893_2AAC);
}

#[test]
fn fnv1a_known_values() {
    assert_eq!(fnv1a(b""), 0xcbf2_9ce4_8422_2325);
    assert_eq!(fnv1a(b"a"), 0xaf63_dc4c_8601_ec8c);
    assert_eq!(fnv1a(b"hello"), 0xa430_d846_80aa_bd0b);
}

#[test]
fn empty_archive_is_an_end_record() {
    let bytes = ZipWriter::new().finish();
    assert_eq!(bytes.len(), 22);
    assert_eq!(le32(&bytes, 0), 0x0605_4b50);
    assert_eq!(le16(&bytes, 8), 0);
    assert_eq!(le16(&bytes, 10), 0);
    assert_eq!(le32(&bytes, 12), 0);
    assert_eq!(le32(&bytes, 16), 0);
}

#[test]
fn stored_file_layout() {
    let mut zip = ZipWriter::new();
    zip.add("a.txt", b"hi");
    let bytes = zip.finish();
    assert_eq!(bytes.len(), 30 + 5 + 2 + 46 + 5 + 22);
    // local header
    assert_eq!(le32(&bytes, 0), 0x0403_4b50);
    assert_eq!(le16(&bytes, 4), 20);
    assert_eq!(le16(&bytes, 8), 0);
    assert_eq!(le32(&bytes, 14), 0xD893_2AAC);
    assert_eq!(le32(&bytes, 18), 2);
    assert_eq!(le32(&bytes, 22), 2);
    assert_eq!(le16(&bytes, 26), 5);
    assert_eq!(&bytes[30..35], b"a.txt");
    assert_eq!(&bytes[35..37], b"hi");
    // central directory
    let cd = 37;
    assert_eq!(le32(&bytes, cd), 0x0201_4b50);
    assert_eq!(le32(&bytes, cd + 16), 0xD893_2AAC);
    assert_eq!(le16(&bytes, cd + 28), 5);
    assert_eq!(le32(&bytes, cd + 42), 0);
    assert_eq!(&bytes[cd + 46..cd + 51], b"a.txt");
    // end record
    let end = cd + 51;
    assert_eq!(le32(&bytes, end), 0x0605_4b50);
    assert_eq!(le16(&bytes, end + 8), 1);
    assert_eq!(le16(&bytes, end + 10), 1);
    assert_eq!(le32(&bytes, end + 12), 51);
    assert_eq!(le32(&bytes, end + 16), 37);
}

#[test]
fn central_offsets_point_at_local_headers() {
    let mut zip = ZipWriter::new();
    zip.add("one", b"first");
    zip.add("two", b"second!");
    let bytes = zip.finish();
    let second_header = 30 + 3 + 5;
    assert_eq!(le32(&bytes, second_header), 0x0403_4b50);
    assert_eq!(&bytes[second_header + 30..second_header + 33], b"two");
    let cd_start = le32(&bytes, bytes.len() - 6) as usize;
    let first_record = cd_start;
    let second_record = cd_start + 46 + 3;
    assert_eq!(le32(&bytes, first_record + 42), 0);
    assert_eq!(le32(&bytes, second_record + 42) as usize, second_header);
    assert_eq!(le16(&bytes, bytes.len() - 12), 2);
}

#[test]
fn archive_reads_back_each_file() {
    let files: Vec<(&str, Vec<u8>)> = vec![
        ("crash.log", b"boom\n".to_vec()),
        ("empty.txt", Vec::new()),
        ("mods_listing.txt", (0u8..=255).collect()),
    ];
    let mut w = ZipWriter::new();
    for (name, data) in &files {
        w.add(name, data);
    }
    let z = w.finish();
    let expected_len: usize =
        22 + files.iter().map(|(n, d)| 76 + 2 * n.len() + d.len()).sum::<usize>();
    assert_eq!(z.len(), expected_len);
    let eocd = z.len() - 22;
    assert_eq!(le32(&z, eocd), 0x0605_4b50);
    assert_eq!(le16(&z, eocd + 10) as usize, files.len());
    let mut at = le32(&z, eocd + 16) as usize;
    for (name, data) in &files {
        assert_eq!(le32(&z, at), 0x0201_4b50);
        let crc = le32(&z, at + 16);
        let size = le32(&z, at + 20) as usize;
        let name_len = le16(&z, at + 28) as usize;
        let offset = le32(&z, at + 42) as usize;
        assert_eq!(&z[at + 46..at + 46 + name_len], name.as_bytes());
        assert_eq!(crc, crc32(data));
        assert_eq!(size, data.len());
        assert_eq!(le32(&z, offset), 0x0403_4b50);
        assert_eq!(&z[offset + 30..offset + 30 + name_len], name.as_bytes());
        assert_eq!(&z[offset + 30 + name_len..offset + 30 + name_len + size], &data[..]);
        at += 46 + name_len;
    }
    assert_eq!(at, eocd);
}

use chumod_loader::iat::import_slots;
use chumod_loader::pe::{parent_dir, parse_game_info, select_version, translation, version_query};
use chumod_loader::rtti::{find_vtable, set_rtti_info, RttiInfo};

fn put32(b: &mut [u8], at: usize, v: u32) {
    b[at..at + 4].copy_from_slice(&v.to_le_bytes());
}

fn put16(b: &mut [u8], at: usize, v: u16) {
    b[at..at + 2].copy_from_slice(&v.to_le_bytes());
}

fn game_headers() -> Vec<u8> {
    let mut h = vec![0u8; 0x200];
    h[0] = b'M';
    h[1] = b'Z';
    put32(&mut h, 0x3C, 0x80);
    h[0x80] = b'P';
    h[0x81] = b'E';
    put16(&mut h, 0x86, 3);
    put16(&mut h, 0x94, 0xE0);
    put32(&mut h, 0x80 + 80, 0x5000);
    let first = 0x80 + 24 + 0xE0;
    let sections: [(&[u8], u32, u32); 3] = [
        (b".text\0\0\0", 0x1000, 0x1800),
        (b".rdata\0\0", 0x2000, 0x0900),
        (b".data\0\0\0", 0x3000, 0x0100),
    ];
    for (k, (name, va, size)) in sections.iter().enumerate() {
        let s = first + 40 * k;
        h[s..s + 8].copy_from_slice(name);
        put32(&mut h, s + 8, *size);
        put32(&mut h, s + 12, *va);
    }
    h
}

#[test]
fn game_sections_are_found() {
    let h = game_headers();
    assert_eq!(parse_game_info(&h, 0x40_0000), Some((0x5000, 0x40_1000, 0x1800, 0x40_2000, 0x900)));
    assert_eq!(parse_game_info(&h[..0x100], 0x40_0000), None);
    assert_eq!(parse_game_info(&h[..0x20], 0x40_0000), None);
}

#[test]
fn later_section_of_a_name_wins() {
    let mut h = game_headers();
    let first = 0x80 + 24 + 0xE0;
    h[first + 80..first + 88].copy_from_slice(b".textbss");
    assert_eq!(parse_game_info(&h, 0), Some((0x5000, 0x3000, 0x100, 0x2000, 0x900)));
}

#[test]
fn module_directory() {
    assert_eq!(parent_dir("C:\\game\\bin\\loader.dll"), Some("C:\\game\\bin".to_string()));
    assert_eq!(parent_dir("a/b/c.dll"), Some("a/b".to_string()));
    assert_eq!(parent_dir("C:\\x/y.dll"), Some("C:".to_string()));
    assert_eq!(parent_dir("loader.dll"), None);
}

#[test]
fn version_choice_and_query() {
    assert_eq!(select_version(Some(" 1.2 ".to_string()), Some("9".to_string())), Some("1.2".to_string()));
    assert_eq!(select_version(Some("  ".to_string()), Some(" 3.4\t".to_string())), Some("3.4".to_string()));
    assert_eq!(select_version(None, None), None);
    assert_eq!(select_version(Some(String::new()), Some(" ".to_string())), None);
    assert_eq!(version_query(0x0409, 0x04b0, "FileVersion"), "\\StringFileInfo\\040904b0\\FileVersion");
    assert_eq!(translation(&[0x09, 0x04, 0xb0, 0x04]), Some((0x0409, 0x04b0)));
    assert_eq!(translation(&[0x09, 0x04]), None);
}

fn rtti_image() -> (Vec<u8>, usize, RttiInfo) {
    let image_base = 0x1000usize;
    let mut img = vec![0u8; 0x200];
    let rs = 0x100;
    let rb = image_base + rs;
    let name = b".?AVFoo@@";
    let o = 0x20;
    img[rs + o..rs + o + name.len()].copy_from_slice(name);
    put32(&mut img, rs + o - 8, rb as u32);
    let td = (rb + o - 8) as u32;
    put32(&mut img, rs + 0x50, td);
    let col = (rb + 0x50 - 12) as u32;
    put32(&mut img, rs + 0x60, col);
    put32(&mut img, rs + 0x64, 0x1000);
    let mut info = RttiInfo::new();
    set_rtti_info(&mut info, rb, 0x80, 0x1000);
    (img, image_base, info)
}

#[test]
fn vtable_found_through_rtti() {
    let (img, base, info) = rtti_image();
    assert_eq!(find_vtable(&img, base, &info, b".?AVFoo@@"), 0x1164);
    assert_eq!(find_vtable(&img, base, &info, b".?AVBar@@"), 0);
    assert_eq!(find_vtable(&img, base, &info, b""), 0);
    assert_eq!(find_vtable(&img, base, &RttiInfo::new(), b".?AVFoo@@"), 0);
}

#[test]
fn vtable_found_by_plain_class_name() {
    let (img, base, info) = rtti_image();
    assert_eq!(find_vtable(&img, base, &info, b"Foo"), 0x1164);
    assert_eq!(find_vtable(&img, base, &info, b"Bar"), 0);
    assert_eq!(find_vtable(&img, base, &info, b"AVFoo"), 0);
}

#[test]
fn vtable_needs_code_entry() {
    let (mut img, base, mut info) = rtti_image();
    set_rtti_info(&mut info, 0x1100, 0x80, 0x2000);
    assert_eq!(find_vtable(&img, base, &info, b".?AVFoo@@"), 0);
    set_rtti_info(&mut info, 0x1100, 0x80, 0x1000);
    put32(&mut img, 0x100 + 0x50 - 12, 1);
    assert_eq!(find_vtable(&img, base, &info, b".?AVFoo@@"), 0);
}

fn import_image() -> Vec<u8> {
    let mut img = vec![0u8; 0x400];
    img[0] = b'M';
    img[1] = b'Z';
    put32(&mut img, 0x3C, 0x80);
    img[0x80] = b'P';
    img[0x81] = b'E';
    put32(&mut img, 0x80 + 116, 16);
    put32(&mut img, 0x80 + 128, 0x200);
    // descriptor 0: kernel32.dll, descriptor 1: D3D9.DLL, then the terminator
    let names = 0x300;
    img[names..names + 13].copy_from_slice(b"kernel32.dll\0");
    img[names + 0x20..names + 0x29].copy_from_slice(b"D3D9.DLL\0");
    img[names + 0x40 + 2..names + 0x40 + 2 + 16].copy_from_slice(b"Direct3DCreate9\0");
    img[names + 0x60 + 2..names + 0x60 + 2 + 6].copy_from_slice(b"Sleep\0");
    put32(&mut img, 0x200 + 12, names as u32);
    put32(&mut img, 0x200, 0x280);
    put32(&mut img, 0x200 + 16, 0x2A0);
    put32(&mut img, 0x280, (names + 0x60) as u32);
    put32(&mut img, 0x200 + 20 + 12, (names + 0x20) as u32);
    put32(&mut img, 0x200 + 20, 0x2C0);
    put32(&mut img, 0x200 + 20 + 16, 0x2E0);
    put32(&mut img, 0x2C0, 0x8000_0001);
    put32(&mut img, 0x2C4, (names + 0x40) as u32);
    img
}

#[test]
fn import_slot_of_direct3dcreate9() {
    let img = import_image();
    assert_eq!(import_slots(&img, 0x40_0000, 0x1234, "d3d9.dll", "Direct3DCreate9"), vec![0x2E4]);
    assert_eq!(import_slots(&img, 0x40_0000, 0x1234, "kernel32.dll", "Sleep"), vec![0x2A0]);
    assert_eq!(import_slots(&img, 0x40_0000, 0x1234, "d3d9.dll", "Sleep"), Vec::<u64>::new());
    assert_eq!(import_slots(&img, 0, 0x1234, "d3d9.dll", "Direct3DCreate9"), Vec::<u64>::new());
    assert_eq!(import_slots(&img, 0x40_0000, 0, "d3d9.dll", "Direct3DCreate9"), Vec::<u64>::new());
    assert_eq!(import_slots(&img[..0x100], 0x40_0000, 1, "d3d9.dll", "Direct3DCreate9"), Vec::<u64>::new());
}

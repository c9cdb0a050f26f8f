use chumod_loader::hijack::{
    call_rel32, entry_stub, image_entry_point, instruction_len, instruction_span, jmp_rel32,
    modrm_len, rel32_operand, trampoline_code, EntryHijack,
};

#[test]
fn one_byte_and_prefixed_instructions() {
    assert_eq!(instruction_len(&[0x55]), Some(1));
    assert_eq!(instruction_len(&[0x66, 0x90]), Some(2));
    assert_eq!(instruction_len(&[0xF3, 0x66, 0xA5]), Some(3));
    assert_eq!(instruction_len(&[0xC3]), Some(1));
}

#[test]
fn immediates_are_counted() {
    assert_eq!(instruction_len(&[0x6A, 0xFF]), Some(2));
    assert_eq!(instruction_len(&[0x68, 1, 2, 3, 4]), Some(5));
    assert_eq!(instruction_len(&[0xE9, 0, 0, 0, 0]), Some(5));
    assert_eq!(instruction_len(&[0x74, 0x10]), Some(2));
    assert_eq!(instruction_len(&[0x0F, 0x84, 1, 2, 3, 4]), Some(6));
}

#[test]
fn modrm_forms() {
    assert_eq!(instruction_len(&[0x8B, 0xEC]), Some(2));
    assert_eq!(instruction_len(&[0x8B, 0x44, 0x24, 0x04]), Some(4));
    assert_eq!(instruction_len(&[0x8B, 0x05, 1, 2, 3, 4]), Some(6));
    assert_eq!(instruction_len(&[0x8B, 0x84, 0x24, 1, 2, 3, 4]), Some(7));
    assert_eq!(instruction_len(&[0x8B, 0x04, 0x25, 1, 2, 3, 4]), Some(7));
    assert_eq!(instruction_len(&[0xC7, 0x45, 0xFC, 1, 2, 3, 4]), Some(7));
    assert_eq!(instruction_len(&[0x69, 0xC0, 1, 2, 3, 4]), Some(6));
    assert_eq!(instruction_len(&[0x0F, 0xBA, 0xE0, 0x05]), Some(4));
    assert_eq!(modrm_len(&[0x44, 0x24], 0), Some(3));
    assert_eq!(modrm_len(&[0x44], 0), None);
}

#[test]
fn unknown_opcodes() {
    assert_eq!(instruction_len(&[0x83, 0xEC, 0x10]), Some(1));
    assert_eq!(instruction_len(&[0x0F, 0x05]), None);
}

#[test]
fn truncated_code_gives_none() {
    assert_eq!(instruction_len(&[]), None);
    assert_eq!(instruction_len(&[0x66]), None);
    assert_eq!(instruction_len(&[0x8B]), None);
    assert_eq!(instruction_len(&[0x0F]), None);
}

#[test]
fn span_covers_a_jump() {
    let code = [0x55, 0x8B, 0xEC, 0x6A, 0xFF, 0x68, 0, 0, 0, 0];
    assert_eq!(instruction_span(&code, 5), Some(5));
    assert_eq!(instruction_span(&code, 0), Some(0));
    assert_eq!(instruction_span(&code, 6), Some(10));
}

#[test]
fn span_never_passes_sixteen_bytes() {
    let code = [0x68u8, 0, 0, 0, 0, 0x68, 0, 0, 0, 0, 0x68, 0, 0, 0, 0, 0x68, 0, 0, 0, 0];
    assert_eq!(instruction_span(&code, 15), Some(15));
    assert_eq!(instruction_span(&code, 16), None);
    assert_eq!(instruction_span(&[0x0F, 0x05], 5), None);
}

#[test]
fn entry_point_from_headers() {
    let mut header = vec![0u8; 0x100];
    header[0] = 0x4D;
    header[1] = 0x5A;
    header[0x3C] = 0x80;
    header[0x80] = b'P';
    header[0x81] = b'E';
    header[0xA8] = 0x34;
    header[0xA9] = 0x12;
    assert_eq!(image_entry_point(&header, 0x40_0000), Some(0x40_1234));

    let mut bad = header.clone();
    bad[0] = 0;
    assert_eq!(image_entry_point(&bad, 0x40_0000), None);
    let mut zero_entry = header.clone();
    zero_entry[0xA8] = 0;
    zero_entry[0xA9] = 0;
    assert_eq!(image_entry_point(&zero_entry, 0x40_0000), None);
    assert_eq!(image_entry_point(&header[..0x90], 0x40_0000), None);
}

#[test]
fn rel32_jumps_forward_and_back() {
    assert_eq!(jmp_rel32(0x1000, 0x2000), vec![0xE9, 0xFB, 0x0F, 0x00, 0x00]);
    assert_eq!(jmp_rel32(0x2000, 0x1000), vec![0xE9, 0xFB, 0xEF, 0xFF, 0xFF]);
    assert_eq!(call_rel32(0x1000, 0x1005), vec![0xE8, 0, 0, 0, 0]);
    assert_eq!(rel32_operand(0x2005, 0x1000), 0xFFFF_EFFB);
}

#[test]
fn stub_saves_calls_restores_and_jumps() {
    let stub = entry_stub(0x5000, 0x6000, 0x7000);
    assert_eq!(
        stub,
        vec![0x60, 0x9C, 0xE8, 0xF9, 0x0F, 0x00, 0x00, 0x9D, 0x61, 0xE9, 0xF2, 0x1F, 0x00, 0x00]
    );
}

#[test]
fn trampoline_carries_code_then_jumps_back() {
    let original = [0x55, 0x8B, 0xEC, 0x6A, 0xFF];
    let t = trampoline_code(&original, 0x9000, 0x40_1000);
    assert_eq!(t.len(), 10);
    assert_eq!(&t[..5], &original);
    let back = jmp_rel32(0x9005, 0x40_1005);
    assert_eq!(&t[5..], back.as_slice());
}

#[test]
fn hijack_starts_empty() {
    let h = EntryHijack::new();
    assert_eq!(h.game_base, 0);
    assert_eq!(h.entry, 0);
    assert_eq!(h.overwritten_len, 0);
    assert_eq!(h.original, [0u8; 16]);
    assert_eq!(h.trampoline, 0);
    assert_eq!(h.stub, 0);
    assert!(!h.installed);
}

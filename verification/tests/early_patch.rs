use chumod_loader::config_toml::appuser_bypass_enabled_in;
use chumod_loader::early_patch::find_appuser_branch;
use chumod_loader::memory::{aob_find, api_aob_scan};

const APPUSER_PATTERN: &[u8] = &[0x83, 0x7C, 0x24, 0x04, 0x00, 0x75];

#[test]
fn config_section_controls_early_patch() {
    assert!(appuser_bypass_enabled_in("[BypassAppUser]"));
    assert!(appuser_bypass_enabled_in("[BypassAppUser]\nDisabled = false"));
    assert!(!appuser_bypass_enabled_in("[BypassAppUser]\nDisabled = true"));
    assert!(!appuser_bypass_enabled_in("[DisableTLS]"));
    assert!(!appuser_bypass_enabled_in("not toml"));
}

#[test]
fn existing_aob_selects_first_matching_branch() {
    let mut image = vec![0x90; 32];
    image[3..9].copy_from_slice(APPUSER_PATTERN);
    image[20..26].copy_from_slice(APPUSER_PATTERN);

    assert_eq!(find_appuser_branch(&image), Some(8));
}

#[test]
fn appuser_branch_absent_gives_none() {
    let image = vec![0x90; 32];
    assert_eq!(find_appuser_branch(&image), None);
}

#[test]
fn appuser_branch_at_image_end() {
    let mut image = vec![0x90; 10];
    image[4..10].copy_from_slice(APPUSER_PATTERN);
    assert_eq!(find_appuser_branch(&image), Some(9));
}

#[test]
fn aob_mask_question_mark_skips_bytes() {
    let memory = [0x10, 0x20, 0x30, 0x40, 0x20, 0x99, 0x40];
    let pattern = [0x20, 0x00, 0x40];
    let mask = b"x?x";
    assert_eq!(aob_find(&memory, &pattern, mask), Some(1));
    assert_eq!(api_aob_scan(0x1000, &memory, &pattern, mask), 0x1001);
}

#[test]
fn aob_scan_without_match_gives_zero() {
    let memory = [1u8, 2, 3, 4];
    let pattern = [5u8, 6];
    assert_eq!(api_aob_scan(0x4000, &memory, &pattern, b"xx"), 0);
    assert_eq!(aob_find(&memory, &pattern, b"xx"), None);
}

#[test]
fn aob_scan_pattern_longer_than_block_gives_zero() {
    let memory = [1u8, 2];
    let pattern = [1u8, 2, 3];
    assert_eq!(api_aob_scan(0x4000, &memory, &pattern, b"xxx"), 0);
}

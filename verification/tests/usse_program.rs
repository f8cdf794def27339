use clicky_core::sys::eapp::usse::{UsseProgram, UsseVm};

#[test]
fn parses_version_and_words() {
    let mut bytes = vec![0u8; 0x220];
    bytes[0x200..0x204].copy_from_slice(&0x1234_5678u32.to_le_bytes());
    bytes.extend_from_slice(b"RenderServerVersion:RELEASE:2704\0");
    let p = UsseProgram::parse(0x1000_1038, &bytes);
    assert_eq!(p.code_start, 0x200);
    assert!(p.words.iter().any(|w| w.raw == 0x1234_5678));
    assert_eq!(p.render_server_version.as_deref(), Some("RenderServerVersion:RELEASE:2704"));
}

#[test]
fn scans_cafebabe_blocks() {
    let mut bytes = vec![0u8; 0x40];
    bytes[0x10..0x14].copy_from_slice(&0xCAFEBABEu32.to_le_bytes());
    bytes[0x14..0x18].copy_from_slice(&4u32.to_le_bytes());
    bytes[0x18..0x1c].copy_from_slice(&0x12345678u32.to_le_bytes());
    let blocks = UsseProgram::scan_runtime_blocks(0x1001_2038, &bytes);
    assert_eq!(blocks.len(), 1);
    assert_eq!(blocks[0].addr, 0x1001_2048);
    assert_eq!(blocks[0].len_words, 4);
    assert_eq!(blocks[0].words[2], 0x12345678);
}

#[test]
fn parse_without_version_keeps_whole_buffer_as_code() {
    let bytes = vec![0x11u8; 8];
    let p = UsseProgram::parse(0x2000, &bytes);
    assert!(p.render_server_version.is_none());
    assert_eq!(p.byte_len, 8);
    assert_eq!(p.code_start, 0);
    assert_eq!(p.code_end, 8);
    assert_eq!(p.words.len(), 2);
    assert_eq!(p.words[1].raw, 0x1111_1111);
}

#[test]
fn step_budgets_add_up() {
    let mut bytes = vec![0u8; 0x220];
    bytes[0x200..0x204].copy_from_slice(&0x1234_5678u32.to_le_bytes());
    let p = UsseProgram::parse(0x1000_0000, &bytes);
    let mut one = UsseVm::default();
    p.step_placeholder(&mut one, 3);
    p.step_placeholder(&mut one, 4);
    let mut two = UsseVm::default();
    p.step_placeholder(&mut two, 7);
    assert_eq!(one.executed_words, two.executed_words);
    assert_eq!(one.pc_word, two.pc_word);
    assert_eq!(one.halted, two.halted);
}

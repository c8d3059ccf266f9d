use asmdiff::decode::{
    disassemble, instruction_line, is_zero_word, word_address, DecodeError, RawInsn, WordError,
};
use asmdiff::offset::{extract_offset, split_offset, with_offset, OffsetError};
use capstone::{Arch, Capstone, Endian, Mode, NO_EXTRA_MODE};

fn insn(mnemonic: Option<&str>, operands: Option<&str>) -> RawInsn {
    RawInsn { mnemonic: mnemonic.map(|m| m.to_string()), operands: operands.map(|o| o.to_string()) }
}

fn ppc() -> Capstone {
    Capstone::new_raw(Arch::PPC, Mode::Mode32, NO_EXTRA_MODE, Some(Endian::Big)).unwrap()
}

fn mips() -> Capstone {
    Capstone::new_raw(Arch::MIPS, Mode::Mips32, NO_EXTRA_MODE, Some(Endian::Big)).unwrap()
}

#[test]
fn one_instruction_gives_mnemonic_and_operands() {
    let decoded = Some(vec![insn(Some("add"), Some("r0, r1"))]);
    assert_eq!(instruction_line(&[1, 2, 3, 4], &decoded), Ok("add r0, r1".to_string()));
}

#[test]
fn missing_operands_leave_the_space() {
    let decoded = Some(vec![insn(Some("nop"), None)]);
    assert_eq!(instruction_line(&[1, 2, 3, 4], &decoded), Ok("nop ".to_string()));
    let decoded = Some(vec![insn(Some("nop"), Some(""))]);
    assert_eq!(instruction_line(&[0, 0, 0, 0], &decoded), Ok("nop ".to_string()));
}

#[test]
fn undecodable_zero_word_gives_placeholder() {
    assert_eq!(instruction_line(&[0, 0, 0, 0], &Some(vec![])), Ok("0x00000000".to_string()));
}

#[test]
fn undecodable_nonzero_word_is_an_error() {
    assert_eq!(instruction_line(&[0, 0, 1, 0], &Some(vec![])), Err(WordError::Undecodable));
}

#[test]
fn engine_failure_is_an_error() {
    assert_eq!(instruction_line(&[0, 0, 0, 0], &None), Err(WordError::EngineFailure));
}

#[test]
fn missing_mnemonic_is_an_error() {
    let decoded = Some(vec![insn(None, Some("r0"))]);
    assert_eq!(instruction_line(&[1, 2, 3, 4], &decoded), Err(WordError::MissingMnemonic));
}

#[test]
fn more_than_one_instruction_is_an_error() {
    let decoded = Some(vec![insn(Some("nop"), None), insn(Some("nop"), None)]);
    assert_eq!(instruction_line(&[1, 2, 3, 4], &decoded), Err(WordError::UnexpectedCount));
}

#[test]
fn zero_words() {
    assert!(is_zero_word(&[0, 0, 0, 0]));
    assert!(is_zero_word(&[]));
    assert!(!is_zero_word(&[0, 0, 0, 1]));
    assert!(!is_zero_word(&[128, 0, 0, 0]));
}

#[test]
fn word_addresses_step_by_four() {
    assert_eq!(word_address(0x8001_0000, 0), 0x8001_0000);
    assert_eq!(word_address(0x8001_0000, 1), 0x8001_0004);
    assert_eq!(word_address(0x8001_0000, 3), 0x8001_000c);
    assert_eq!(word_address(0xffff_fffc, 1), 0x1_0000_0000);
}

#[test]
fn fatal_on_empty_buffer() {
    assert_eq!(disassemble(&ppc(), &[], 0x1000), Err(DecodeError::EmptyBuffer));
}

#[test]
fn unaligned_buffer_is_refused() {
    assert_eq!(
        disassemble(&ppc(), &[0x60, 0, 0, 0, 0x60], 0x1000),
        Err(DecodeError::UnalignedBuffer)
    );
    assert_eq!(disassemble(&ppc(), &[0x60], 0x1000), Err(DecodeError::UnalignedBuffer));
}

#[test]
fn disassemble_gives_one_line_per_word() {
    let buffer = [0x80, 0x20, 0x00, 0x00, 0x7c, 0x43, 0x20, 0x14, 0x60, 0x00, 0x00, 0x00];
    let lines = disassemble(&ppc(), &buffer, 0x1000).unwrap();
    assert_eq!(lines.len(), 3);
    assert!(lines[0].starts_with("lwz "));
    assert!(lines[1].starts_with("addc "));
    assert!(lines[2].starts_with("nop"));
}

#[test]
fn disassemble_decodes_each_word_at_its_address() {
    // Both branches aim at 0x1018: one from 0x1004, one from 0x1008.
    let buffer = [0x60, 0, 0, 0, 0x40, 0x82, 0x00, 0x14, 0x48, 0x00, 0x00, 0x10];
    let lines = disassemble(&ppc(), &buffer, 0x1000).unwrap();
    assert_eq!(lines, vec!["nop ".to_string(), "bne 0x1018".to_string(), "b 0x1018".to_string()]);
}

#[test]
fn disassemble_zero_word_never_fails_as_undecodable() {
    let buffer = [0x60, 0, 0, 0, 0, 0, 0, 0];
    let lines = disassemble(&ppc(), &buffer, 0).unwrap();
    assert_eq!(lines.len(), 2);
    assert_eq!(lines[1], "0x00000000");
}

#[test]
fn disassemble_decodable_zero_word_is_an_instruction() {
    let lines = disassemble(&mips(), &[0, 0, 0, 0], 0).unwrap();
    assert_eq!(lines, vec!["nop ".to_string()]);
}

#[test]
fn disassemble_reports_the_undecodable_word() {
    let buffer = [0x60, 0, 0, 0, 0, 0, 0, 1];
    assert_eq!(
        disassemble(&ppc(), &buffer, 0),
        Err(DecodeError::Word { index: 1, cause: WordError::Undecodable })
    );
}

#[test]
fn split_offset_at_first_colon() {
    assert_eq!(split_offset("rom.bin"), ("rom.bin".to_string(), None));
    assert_eq!(split_offset("rom.bin:0x40"), ("rom.bin".to_string(), Some("0x40".to_string())));
    assert_eq!(split_offset("rom.bin:"), ("rom.bin".to_string(), Some("".to_string())));
    assert_eq!(split_offset(":12"), ("".to_string(), Some("12".to_string())));
    assert_eq!(split_offset("a:1:2"), ("a".to_string(), Some("1".to_string())));
    assert_eq!(split_offset(""), ("".to_string(), None));
}

#[test]
fn with_offset_pairs_or_refuses() {
    assert_eq!(with_offset("rom.bin".to_string(), Some(64)), Ok(("rom.bin".to_string(), 64)));
    assert_eq!(with_offset("rom.bin".to_string(), None), Err(OffsetError::InvalidOffset));
}

#[test]
fn extract_offset_defaults_to_zero() {
    assert_eq!(extract_offset("rom.bin"), Ok(("rom.bin".to_string(), 0)));
}

#[test]
fn extract_offset_reads_decimal_and_hexadecimal() {
    assert_eq!(extract_offset("rom.bin:64"), Ok(("rom.bin".to_string(), 64)));
    assert_eq!(extract_offset("rom.bin:0x40"), Ok(("rom.bin".to_string(), 64)));
    assert_eq!(extract_offset("rom.bin:0X1f"), Ok(("rom.bin".to_string(), 31)));
    assert_eq!(
        extract_offset("dir/rom.bin:0xffffffffffffffff"),
        Ok(("dir/rom.bin".to_string(), u64::MAX))
    );
    assert_eq!(extract_offset("a:16:rest"), Ok(("a".to_string(), 16)));
}

#[test]
fn extract_offset_refuses_what_is_no_number() {
    assert_eq!(extract_offset("rom.bin:zz"), Err(OffsetError::InvalidOffset));
    assert_eq!(extract_offset("rom.bin:"), Err(OffsetError::InvalidOffset));
    assert_eq!(extract_offset("rom.bin:0x"), Err(OffsetError::InvalidOffset));
    assert_eq!(extract_offset("rom.bin:-1"), Err(OffsetError::InvalidOffset));
    assert_eq!(extract_offset("rom.bin:0x10000000000000000"), Err(OffsetError::InvalidOffset));
}

use rvasm::assemble::{
    asm_parser, encode_instruction, parse_s_type_operands, Diagnostic, LineError,
};
use rvasm::isa::{get_instruction_map, InstKind};
use rvasm::symbols::{resolve_labels, SymbolTable};
use rvasm::text::tokenize;

fn lines(src: &[&str]) -> Vec<String> {
    src.iter().map(|l| l.to_string()).collect()
}

fn chars(s: &str) -> Vec<char> {
    s.chars().collect()
}

fn words(bytes: &[u8]) -> Vec<u32> {
    assert_eq!(bytes.len() % 4, 0);
    bytes.chunks(4).map(|c| u32::from_le_bytes([c[0], c[1], c[2], c[3]])).collect()
}

fn diag(address: u32, error: LineError) -> Diagnostic {
    Diagnostic { address, error }
}

#[test]
fn addi_line() {
    let out = asm_parser(&lines(&["addi x5, x0, 10"]));
    assert_eq!(out.bytes, vec![0x93, 0x02, 0xA0, 0x00]);
    assert!(out.diagnostics.is_empty());
}

#[test]
fn add_line() {
    let out = asm_parser(&lines(&["add x1, x2, x3"]));
    assert_eq!(words(&out.bytes), vec![0x0031_00B3]);
}

#[test]
fn backward_branch_to_address_zero() {
    let out = asm_parser(&lines(&[
        "loop:",
        "    addi x1, x1, 1",
        "    addi x2, x2, 1",
        "    add x3, x3, x3",
        "    beq x1, x2, loop",
    ]));
    assert!(out.diagnostics.is_empty());
    let w = words(&out.bytes);
    assert_eq!(w.len(), 4);
    assert_eq!(w[3], 0xFE20_8AE3);
}

#[test]
fn unresolved_label_keeps_later_addresses() {
    let out = asm_parser(&lines(&[
        "jal x1, missing",
        "addi x5, x0, 10",
        "beq x0, x0, end",
        "addi x6, x0, 1",
        "end:",
    ]));
    assert_eq!(out.diagnostics, vec![diag(0, LineError::UnresolvedLabel)]);
    // the branch sits at address 8 though it is the second word written
    assert_eq!(words(&out.bytes), vec![0x00A0_0293, 0x0000_0463, 0x0010_0313]);
}

#[test]
fn oversized_upper_immediate() {
    let out = asm_parser(&lines(&["lui x5, 0x100000"]));
    assert!(out.bytes.is_empty());
    assert_eq!(out.diagnostics, vec![diag(0, LineError::OversizedImmediate)]);
    let out = asm_parser(&lines(&["lui x5, 1048576"]));
    assert!(out.bytes.is_empty());
    assert_eq!(out.diagnostics, vec![diag(0, LineError::OversizedImmediate)]);
}

#[test]
fn largest_upper_immediate() {
    let out = asm_parser(&lines(&["lui x5, 0xFFFFF", "auipc ra, 1"]));
    assert_eq!(words(&out.bytes), vec![0xFFFF_F2B7, 0x0000_1097]);
}

#[test]
fn every_mnemonic_carries_its_table_opcode() {
    let map = get_instruction_map();
    let cases = [
        "add", "sub", "sll", "slt", "sltu", "xor", "srl", "sra", "or", "and", "addi", "slti",
        "sltiu", "xori", "ori", "andi", "slli", "srli", "srai", "sb", "sh", "sw", "beq", "bne",
        "blt", "bge", "bltu", "bgeu", "lui", "auipc", "jal",
    ];
    for m in cases {
        let f = map.get(&chars(m)).expect("mnemonic in table");
        let line = match f.kind {
            InstKind::RType { .. } => format!("{} x1, x2, x3", m),
            InstKind::IType { .. } => format!("{} x1, x2, -7", m),
            InstKind::SType { .. } => format!("{} x1, -8(x2)", m),
            InstKind::BType { .. } => format!("{} x1, x2, here", m),
            InstKind::UType => format!("{} x1, 0x12345", m),
            InstKind::JType => format!("{} x1, here", m),
        };
        let out = asm_parser(&lines(&["here:", &line]));
        assert!(out.diagnostics.is_empty(), "{}", line);
        let w = words(&out.bytes);
        assert_eq!(w.len(), 1);
        assert_eq!(w[0] & 0x7f, f.opcode as u32, "{}", line);
    }
}

#[test]
fn repeated_runs_give_identical_bytes() {
    let src = lines(&[
        "start:",
        "addi t0, zero, 5",
        "sw t0, 4(sp)",
        "bne t0, zero, start",
        "jal ra, start",
    ]);
    let a = asm_parser(&src);
    let b = asm_parser(&src);
    assert_eq!(a.bytes, b.bytes);
    assert_eq!(a.diagnostics, b.diagnostics);
    assert_eq!(a.bytes.len(), 16);
}

#[test]
fn repeated_resolution_assigns_same_addresses() {
    let src = lines(&["# header", "", "a:", ".text", "  add x1, x2, x3  ", "b:", "jal x0, a", "c:"]);
    let (table1, first) = resolve_labels(&src);
    let (table2, second) = resolve_labels(&src);
    assert_eq!(first.len(), 2);
    assert_eq!(first.len(), second.len());
    for (x, y) in first.iter().zip(second.iter()) {
        assert_eq!(x.address, y.address);
        assert_eq!(x.text, y.text);
    }
    for name in ["a", "b", "c"] {
        assert_eq!(table1.get(&chars(name)), table2.get(&chars(name)));
    }
    assert_eq!(table1.get(&chars("a")), Some(0));
    assert_eq!(table1.get(&chars("b")), Some(4));
    assert_eq!(table1.get(&chars("c")), Some(8));
    // a second pass over the kept instruction lines gives them the same addresses
    let again: Vec<String> = first.iter().map(|p| p.text.iter().collect()).collect();
    let (_, third) = resolve_labels(&again);
    assert_eq!(third.len(), first.len());
    for (x, y) in first.iter().zip(third.iter()) {
        assert_eq!(x.address, y.address);
        assert_eq!(x.text, y.text);
    }
}

#[test]
fn pending_lines_are_trimmed_and_consecutive() {
    let (_, p) = resolve_labels(&lines(&["\t addi x1, x0, 1 ", "x:", "add x1, x1, x1"]));
    assert_eq!(p.len(), 2);
    assert_eq!(p[0].address, 0);
    assert_eq!(p[0].text, chars("addi x1, x0, 1"));
    assert_eq!(p[1].address, 4);
}

#[test]
fn empty_input() {
    let out = asm_parser(&Vec::new());
    assert!(out.bytes.is_empty());
    assert!(out.diagnostics.is_empty());
}

#[test]
fn comments_blank_lines_and_directives_take_no_address() {
    let out = asm_parser(&lines(&[
        "# a comment",
        "",
        "   ",
        ".text",
        ".globl main",
        "main:",
        "beq x0, x0, main # loop forever",
    ]));
    assert!(out.diagnostics.is_empty());
    assert_eq!(words(&out.bytes), vec![0x0000_0063]);
}

#[test]
fn later_label_definition_wins() {
    let out = asm_parser(&lines(&["dup:", "add x1, x2, x3", "dup:", "jal x0, dup"]));
    assert!(out.diagnostics.is_empty());
    // the jump at 4 targets 4, the second definition: offset 0
    assert_eq!(words(&out.bytes), vec![0x0031_00B3, 0x0000_006F]);
}

#[test]
fn label_with_several_colons() {
    let out = asm_parser(&lines(&["top::", "jal ra, top"]));
    assert!(out.diagnostics.is_empty());
    assert_eq!(words(&out.bytes), vec![0x0000_00EF]);
}

#[test]
fn forward_and_backward_jumps() {
    let out = asm_parser(&lines(&[
        "jal ra, fwd",
        "back:",
        "addi x0, x0, 0",
        "jal x0, back",
        "fwd:",
    ]));
    assert!(out.diagnostics.is_empty());
    assert_eq!(words(&out.bytes), vec![0x00C0_00EF, 0x0000_0013, 0xFFDF_F06F]);
}

#[test]
fn stores() {
    let out = asm_parser(&lines(&["sw t0, 8(sp)", "sw ra, -4(sp)", "sb x1, 0(x2)"]));
    assert!(out.diagnostics.is_empty());
    assert_eq!(words(&out.bytes), vec![0x0051_2423, 0xFE11_2E23, 0x0011_0023]);
}

#[test]
fn immediates() {
    let out = asm_parser(&lines(&[
        "addi x1, x0, -1",
        "addi x1, x0, 0x10",
        "addi x1, x0, +3",
        "addi x1, x0, -2147483648",
    ]));
    assert!(out.diagnostics.is_empty());
    assert_eq!(words(&out.bytes), vec![0xFFF0_0093, 0x0100_0093, 0x0030_0093, 0x0000_0093]);
}

#[test]
fn each_error_kind() {
    let out = asm_parser(&lines(&[
        "foo x1, x2",
        "add x1, x2",
        "add x1, x2, x99",
        "addi x1, x0, abc",
        "addi x1, x0, 2147483648",
        "beq x1, x2, nowhere",
        "lui x1, 0x100000",
        "sw x1, 8",
        "sw x1, 8(x40)",
        "sw x1, z(x2)",
        "lui x1, -1",
        "add x1 , x2, x3",
        "jal q1, here",
        "here:",
    ]));
    assert!(out.bytes.is_empty());
    assert_eq!(
        out.diagnostics,
        vec![
            diag(0, LineError::UnknownMnemonic),
            diag(4, LineError::OperandCount),
            diag(8, LineError::BadRegister),
            diag(12, LineError::BadImmediate),
            diag(16, LineError::BadImmediate),
            diag(20, LineError::UnresolvedLabel),
            diag(24, LineError::OversizedImmediate),
            diag(28, LineError::BadRegister),
            diag(32, LineError::BadRegister),
            diag(36, LineError::BadImmediate),
            diag(40, LineError::BadImmediate),
            diag(44, LineError::OperandCount),
            diag(48, LineError::BadRegister),
        ]
    );
}

#[test]
fn odd_jump_offset_is_rejected() {
    let map = get_instruction_map();
    let mut symbols = SymbolTable::new();
    symbols.insert(chars("odd"), 7);
    let toks = tokenize(&chars("jal x1, odd"));
    assert_eq!(
        encode_instruction(&map, &toks, 0, &symbols),
        Err(LineError::MisalignedOffset)
    );
    let toks = tokenize(&chars("beq x1, x2, odd"));
    assert!(encode_instruction(&map, &toks, 0, &symbols).is_ok());
}

#[test]
fn store_operand_parsing() {
    assert_eq!(parse_s_type_operands("x1", "8(sp)"), Some((2, 1, 8)));
    assert_eq!(parse_s_type_operands("ra", "-12(a0)"), Some((10, 1, -12)));
    assert_eq!(parse_s_type_operands("x1", "(sp)"), None);
    assert_eq!(parse_s_type_operands("x1", ")8(sp"), None);
    assert_eq!(parse_s_type_operands("x1", "8sp"), None);
    assert_eq!(parse_s_type_operands("bad", "8(sp)"), None);
}

#[test]
fn tokenizer_strips_comments_and_commas() {
    let toks = tokenize(&chars("add x1,, x2,\tx3 # x4, x5"));
    let expect: Vec<Vec<char>> = ["add", "x1", "x2", "x3"].iter().map(|s| chars(s)).collect();
    assert_eq!(toks, expect);
    assert!(tokenize(&chars("")).is_empty());
    assert!(tokenize(&chars("   # only a comment")).is_empty());
}

#[test]
fn unknown_mnemonic_is_case_sensitive() {
    let out = asm_parser(&lines(&["ADD x1, x2, x3", "add x1, x2, x3"]));
    assert_eq!(out.diagnostics, vec![diag(0, LineError::UnknownMnemonic)]);
    assert_eq!(words(&out.bytes), vec![0x0031_00B3]);
}

use vstd::prelude::*;

use crate::encode::{
    lemma_opcode_bits, b_word, encode_b_type, encode_i_type, encode_j_type, encode_r_type, encode_s_type,
    encode_u_type, i_word, j_word, r_word, s_word, u_word,
};
use crate::isa::{get_instruction_map, instruction_spec, lemma_table_fits, InstKind, InstructionMap, table};
use crate::number::{parse_signed, parse_unsigned, signed_imm, unsigned_imm};
use crate::register::{register_index, register_spec};
use crate::symbols::{line_views, pending_views, resolve_labels, resolve_spec, SymbolTable};
use crate::text::{chars_of, copy_range, tokenize, tokens, trim, trim_chars, views};

verus! {

/// Why an instruction line was left out of the output. None of these stops the run.
#[derive(Debug, Clone, Copy, PartialEq, Eq, Structural)]
pub enum LineError {
    /// The mnemonic is not in the instruction table.
    UnknownMnemonic,
    /// The line has more or fewer operands than its format takes.
    OperandCount,
    /// A register operand names no register, or a memory operand has no `(base)`.
    BadRegister,
    /// An immediate is no number, or does not fit 32 bits.
    BadImmediate,
    /// A branch or jump names a label that no line defines.
    UnresolvedLabel,
    /// A jump offset is odd.
    MisalignedOffset,
    /// An upper immediate is above `0xFFFFF`.
    OversizedImmediate,
}

/// A line that was left out: the address it was assigned, and why.
#[derive(Debug, Clone, Copy, PartialEq, Eq, Structural)]
pub struct Diagnostic {
    pub address: u32,
    pub error: LineError,
}

/// The index of the first `c` in `s`.
pub open spec fn first_index(s: Seq<char>, c: char) -> Option<int>
    decreases s.len(),
{
    if s.len() == 0 {
        None
    } else if s[0] == c {
        Some(0)
    } else {
        match first_index(s.drop_first(), c) {
            Some(i) => Some(i + 1),
            None => None,
        }
    }
}

/// The operands `rs2, imm(rs1)` of a store, as `(rs1, rs2, imm)`.
pub open spec fn store_operands(rs2_token: Seq<char>, offset_base: Seq<char>) -> Result<
    (u8, u8, i32),
    LineError,
> {
    match register_spec(rs2_token) {
        None => Err(LineError::BadRegister),
        Some(rs2) => match (first_index(offset_base, '('), first_index(offset_base, ')')) {
            (Some(open), Some(close)) => if close < open {
                Err(LineError::BadRegister)
            } else {
                match signed_imm(trim(offset_base.take(open))) {
                    None => Err(LineError::BadImmediate),
                    Some(imm) => match register_spec(trim(offset_base.subrange(open + 1, close))) {
                        None => Err(LineError::BadRegister),
                        Some(rs1) => Ok((rs1, rs2, imm)),
                    },
                }
            },
            _ => Err(LineError::BadRegister),
        },
    }
}

/// The offset from an instruction at `pc` to `target`, as the 32-bit signed value the encoders take.
pub open spec fn offset_to(target: u32, pc: u32) -> i32 {
    (target as int - pc as int) as i32
}

/// The address a label operand stands for.
pub open spec fn label_spec(symbols: Map<Seq<char>, u32>, label: Seq<char>) -> Option<u32> {
    if symbols.contains_key(label) {
        Some(symbols[label])
    } else {
        None
    }
}

/// An R-type line `op rd, rs1, rs2`.
pub open spec fn r_line(toks: Seq<Seq<char>>, opcode: u8, funct3: u8, funct7: u8) -> Result<
    u32,
    LineError,
> {
    if toks.len() != 4 {
        Err(LineError::OperandCount)
    } else {
        match (register_spec(toks[1]), register_spec(toks[2]), register_spec(toks[3])) {
            (Some(rd), Some(rs1), Some(rs2)) => Ok(r_word(opcode, funct3, funct7, rd, rs1, rs2)),
            _ => Err(LineError::BadRegister),
        }
    }
}

/// An I-type line `op rd, rs1, imm`.
pub open spec fn i_line(toks: Seq<Seq<char>>, opcode: u8, funct3: u8) -> Result<u32, LineError> {
    if toks.len() != 4 {
        Err(LineError::OperandCount)
    } else {
        match (register_spec(toks[1]), register_spec(toks[2])) {
            (Some(rd), Some(rs1)) => match signed_imm(toks[3]) {
                Some(imm) => Ok(i_word(opcode, funct3, rd, rs1, imm)),
                None => Err(LineError::BadImmediate),
            },
            _ => Err(LineError::BadRegister),
        }
    }
}

/// An S-type line `op rs2, imm(rs1)`.
pub open spec fn s_line(toks: Seq<Seq<char>>, opcode: u8, funct3: u8) -> Result<u32, LineError> {
    if toks.len() != 3 {
        Err(LineError::OperandCount)
    } else {
        match store_operands(toks[1], toks[2]) {
            Ok((rs1, rs2, imm)) => Ok(s_word(opcode, funct3, rs1, rs2, imm)),
            Err(e) => Err(e),
        }
    }
}

/// A B-type line `op rs1, rs2, label` at `pc`.
pub open spec fn b_line(
    toks: Seq<Seq<char>>,
    opcode: u8,
    funct3: u8,
    pc: u32,
    symbols: Map<Seq<char>, u32>,
) -> Result<u32, LineError> {
    if toks.len() != 4 {
        Err(LineError::OperandCount)
    } else {
        match (register_spec(toks[1]), register_spec(toks[2])) {
            (Some(rs1), Some(rs2)) => match label_spec(symbols, toks[3]) {
                Some(target) => Ok(b_word(opcode, funct3, rs1, rs2, offset_to(target, pc))),
                None => Err(LineError::UnresolvedLabel),
            },
            _ => Err(LineError::BadRegister),
        }
    }
}

/// A U-type line `op rd, imm`.
pub open spec fn u_line(toks: Seq<Seq<char>>, opcode: u8) -> Result<u32, LineError> {
    if toks.len() != 3 {
        Err(LineError::OperandCount)
    } else {
        match register_spec(toks[1]) {
            Some(rd) => match unsigned_imm(toks[2]) {
                Some(imm) => if imm > 0xfffff {
                    Err(LineError::OversizedImmediate)
                } else {
                    Ok(u_word(opcode, rd, imm))
                },
                None => Err(LineError::BadImmediate),
            },
            None => Err(LineError::BadRegister),
        }
    }
}

/// A J-type line `op rd, label` at `pc`.
pub open spec fn j_line(toks: Seq<Seq<char>>, opcode: u8, pc: u32, symbols: Map<Seq<char>, u32>) -> Result<
    u32,
    LineError,
> {
    if toks.len() != 3 {
        Err(LineError::OperandCount)
    } else {
        match register_spec(toks[1]) {
            Some(rd) => match label_spec(symbols, toks[2]) {
                Some(target) => if (target as int - pc as int) % 2 != 0 {
                    Err(LineError::MisalignedOffset)
                } else {
                    Ok(j_word(opcode, rd, offset_to(target, pc)))
                },
                None => Err(LineError::UnresolvedLabel),
            },
            None => Err(LineError::BadRegister),
        }
    }
}

/// The word that the tokens of an instruction at `pc` encode to, or why they encode to none.
pub open spec fn encode_spec(toks: Seq<Seq<char>>, pc: u32, symbols: Map<Seq<char>, u32>) -> Result<
    u32,
    LineError,
> {
    match instruction_spec(toks[0]) {
        None => Err(LineError::UnknownMnemonic),
        Some(f) => match f.kind {
            InstKind::RType { funct3, funct7 } => r_line(toks, f.opcode, funct3, funct7),
            InstKind::IType { funct3 } => i_line(toks, f.opcode, funct3),
            InstKind::SType { funct3 } => s_line(toks, f.opcode, funct3),
            InstKind::BType { funct3 } => b_line(toks, f.opcode, funct3, pc, symbols),
            InstKind::UType => u_line(toks, f.opcode),
            InstKind::JType => j_line(toks, f.opcode, pc, symbols),
        },
    }
}

proof fn lemma_first_index_bounds(s: Seq<char>, c: char)
    ensures
        first_index(s, c) matches Some(i) ==> 0 <= i < s.len() && s[i] == c,
    decreases s.len(),
{
    if s.len() > 0 && s[0] != c {
        lemma_first_index_bounds(s.drop_first(), c);
    }
}

/// The index of the first `c` in `v`.
fn find_char(v: &Vec<char>, c: char) -> (r: Option<usize>)
    ensures
        r matches Some(i) ==> first_index(v@, c) == Some(i as int) && i < v.len() && v@[i as int]
            == c,
        r is None ==> first_index(v@, c) is None,
{
    proof {
        lemma_first_index_bounds(v@, c);
    }
    let mut i: usize = 0;
    assert(v@.skip(0) =~= v@);
    while i < v.len()
        invariant
            i <= v.len(),
            first_index(v@, c) == (match first_index(v@.skip(i as int), c) {
                Some(j) => Some(j + i),
                None => None,
            }),
        decreases v.len() - i,
    {
        assert(v@.skip(i as int).drop_first() =~= v@.skip(i + 1));
        if v[i] == c {
            return Some(i);
        }
        i = i + 1;
    }
    None
}

/// Reads the operands `rs2, imm(rs1)` of a store.
fn store_operands_of(rs2_token: &Vec<char>, offset_base: &Vec<char>) -> (r: Result<
    (u8, u8, i32),
    LineError,
>)
    ensures
        r == store_operands(rs2_token@, offset_base@),
{
    let rs2 = match register_index(rs2_token) {
        Some(n) => n,
        None => return Err(LineError::BadRegister),
    };
    let open = match find_char(offset_base, '(') {
        Some(i) => i,
        None => return Err(LineError::BadRegister),
    };
    let close = match find_char(offset_base, ')') {
        Some(i) => i,
        None => return Err(LineError::BadRegister),
    };
    if close < open {
        return Err(LineError::BadRegister);
    }
    let imm_part = copy_range(offset_base, 0, open);
    let imm_text = trim_chars(&imm_part);
    let imm = match parse_signed(&imm_text) {
        Some(v) => v,
        None => return Err(LineError::BadImmediate),
    };
    let base_part = copy_range(offset_base, open + 1, close);
    let base_text = trim_chars(&base_part);
    match register_index(&base_text) {
        Some(rs1) => Ok((rs1, rs2, imm)),
        None => Err(LineError::BadRegister),
    }
}

/// Reads the operands `rs2` and `imm(rs1)` of a store, as `(rs1, rs2, imm)`.
pub fn parse_s_type_operands(rs2_token: &str, offset_base: &str) -> (r: Option<(u8, u8, i32)>)
    ensures
        r == (match store_operands(rs2_token@, offset_base@) {
            Ok(ops) => Some(ops),
            Err(_) => None,
        }),
{
    let a = chars_of(rs2_token);
    let b = chars_of(offset_base);
    match store_operands_of(&a, &b) {
        Ok(ops) => Some(ops),
        Err(_) => None,
    }
}

/// The offset from `pc` to `target`, truncated to 32 bits.
fn offset_between(target: u32, pc: u32) -> (r: i32)
    ensures
        r == offset_to(target, pc),
{
    let d: i64 = target as i64 - pc as i64;
    d as i32
}

fn r_line_of(toks: &Vec<Vec<char>>, opcode: u8, funct3: u8, funct7: u8) -> (r: Result<
    u32,
    LineError,
>)
    requires
        opcode < 128,
        funct3 < 8,
        funct7 < 128,
    ensures
        r == r_line(views(toks@), opcode, funct3, funct7),
{
    if toks.len() != 4 {
        return Err(LineError::OperandCount);
    }
    match (register_index(&toks[1]), register_index(&toks[2]), register_index(&toks[3])) {
        (Some(rd), Some(rs1), Some(rs2)) => Ok(encode_r_type(opcode, funct3, funct7, rd, rs1, rs2)),
        _ => Err(LineError::BadRegister),
    }
}

fn i_line_of(toks: &Vec<Vec<char>>, opcode: u8, funct3: u8) -> (r: Result<u32, LineError>)
    requires
        opcode < 128,
        funct3 < 8,
    ensures
        r == i_line(views(toks@), opcode, funct3),
{
    if toks.len() != 4 {
        return Err(LineError::OperandCount);
    }
    match (register_index(&toks[1]), register_index(&toks[2])) {
        (Some(rd), Some(rs1)) => match parse_signed(&toks[3]) {
            Some(imm) => Ok(encode_i_type(opcode, funct3, rd, rs1, imm)),
            None => Err(LineError::BadImmediate),
        },
        _ => Err(LineError::BadRegister),
    }
}

fn s_line_of(toks: &Vec<Vec<char>>, opcode: u8, funct3: u8) -> (r: Result<u32, LineError>)
    requires
        opcode < 128,
        funct3 < 8,
    ensures
        r == s_line(views(toks@), opcode, funct3),
{
    if toks.len() != 3 {
        return Err(LineError::OperandCount);
    }
    match store_operands_of(&toks[1], &toks[2]) {
        Ok((rs1, rs2, imm)) => Ok(encode_s_type(opcode, funct3, rs1, rs2, imm)),
        Err(e) => Err(e),
    }
}

fn b_line_of(toks: &Vec<Vec<char>>, opcode: u8, funct3: u8, pc: u32, symbols: &SymbolTable) -> (r:
    Result<u32, LineError>)
    requires
        opcode < 128,
        funct3 < 8,
    ensures
        r == b_line(views(toks@), opcode, funct3, pc, symbols@),
{
    if toks.len() != 4 {
        return Err(LineError::OperandCount);
    }
    match (register_index(&toks[1]), register_index(&toks[2])) {
        (Some(rs1), Some(rs2)) => match symbols.get(&toks[3]) {
            Some(target) => {
                let offset = offset_between(target, pc);
                Ok(encode_b_type(opcode, funct3, rs1, rs2, offset))
            },
            None => Err(LineError::UnresolvedLabel),
        },
        _ => Err(LineError::BadRegister),
    }
}

fn u_line_of(toks: &Vec<Vec<char>>, opcode: u8) -> (r: Result<u32, LineError>)
    requires
        opcode < 128,
    ensures
        r == u_line(views(toks@), opcode),
{
    if toks.len() != 3 {
        return Err(LineError::OperandCount);
    }
    match register_index(&toks[1]) {
        Some(rd) => match parse_unsigned(&toks[2]) {
            Some(imm) => if imm > 0xfffff {
                Err(LineError::OversizedImmediate)
            } else {
                Ok(encode_u_type(opcode, rd, imm))
            },
            None => Err(LineError::BadImmediate),
        },
        None => Err(LineError::BadRegister),
    }
}

fn j_line_of(toks: &Vec<Vec<char>>, opcode: u8, pc: u32, symbols: &SymbolTable) -> (r: Result<
    u32,
    LineError,
>)
    requires
        opcode < 128,
    ensures
        r == j_line(views(toks@), opcode, pc, symbols@),
{
    if toks.len() != 3 {
        return Err(LineError::OperandCount);
    }
    match register_index(&toks[1]) {
        Some(rd) => match symbols.get(&toks[2]) {
            Some(target) => {
                assert((target as int - pc as int) % 2 != 0 <==> target % 2 != pc % 2);
                if target % 2 != pc % 2 {
                    Err(LineError::MisalignedOffset)
                } else {
                    let offset = offset_between(target, pc);
                    Ok(encode_j_type(opcode, rd, offset))
                }
            },
            None => Err(LineError::UnresolvedLabel),
        },
        None => Err(LineError::BadRegister),
    }
}

/// Encodes the tokens of the instruction at `pc`, looking mnemonics up in `map` and labels in
/// `symbols`.
pub fn encode_instruction(
    map: &InstructionMap,
    toks: &Vec<Vec<char>>,
    pc: u32,
    symbols: &SymbolTable,
) -> (r: Result<u32, LineError>)
    requires
        map@ == table(),
        toks.len() > 0,
    ensures
        r == encode_spec(views(toks@), pc, symbols@),
{
    let f = match map.get(&toks[0]) {
        Some(f) => f,
        None => return Err(LineError::UnknownMnemonic),
    };
    proof {
        lemma_table_fits(views(toks@)[0]);
    }
    match f.kind {
        InstKind::RType { funct3, funct7 } => r_line_of(toks, f.opcode, funct3, funct7),
        InstKind::IType { funct3 } => i_line_of(toks, f.opcode, funct3),
        InstKind::SType { funct3 } => s_line_of(toks, f.opcode, funct3),
        InstKind::BType { funct3 } => b_line_of(toks, f.opcode, funct3, pc, symbols),
        InstKind::UType => u_line_of(toks, f.opcode),
        InstKind::JType => j_line_of(toks, f.opcode, pc, symbols),
    }
}

/// The four bytes of `w`, least significant first.
pub open spec fn le_bytes(w: u32) -> Seq<u8> {
    seq![(w & 0xff) as u8, ((w >> 8u32) & 0xff) as u8, ((w >> 16u32) & 0xff) as u8, (w >> 24u32) as u8]
}

/// The second pass: each instruction line in turn either adds its word to the output or, where
/// it fails, a diagnostic with its address. A line without tokens adds neither.
pub open spec fn emit_spec(pending: Seq<(u32, Seq<char>)>, symbols: Map<Seq<char>, u32>) -> (
    Seq<u8>,
    Seq<Diagnostic>,
)
    decreases pending.len(),
{
    if pending.len() == 0 {
        (Seq::empty(), Seq::empty())
    } else {
        let (bytes, diags) = emit_spec(pending.drop_last(), symbols);
        let (pc, text) = pending.last();
        let toks = tokens(text);
        if toks.len() == 0 {
            (bytes, diags)
        } else {
            match encode_spec(toks, pc, symbols) {
                Ok(w) => (bytes + le_bytes(w), diags),
                Err(e) => (bytes, diags.push(Diagnostic { address: pc, error: e })),
            }
        }
    }
}

/// Both passes over the source lines: the output bytes and the diagnostics.
pub open spec fn assemble_spec(lines: Seq<Seq<char>>) -> (Seq<u8>, Seq<Diagnostic>) {
    let (labels, pending) = resolve_spec(lines);
    emit_spec(pending, labels)
}

/// What a run produces: the machine code, and a diagnostic for each line left out of it.
pub struct Assembly {
    pub bytes: Vec<u8>,
    pub diagnostics: Vec<Diagnostic>,
}

/// Appends the four bytes of `w`, least significant first.
fn push_word(out: &mut Vec<u8>, w: u32)
    ensures
        final(out)@ == old(out)@ + le_bytes(w),
{
    out.push((w & 0xff) as u8);
    out.push(((w >> 8) & 0xff) as u8);
    out.push(((w >> 16) & 0xff) as u8);
    out.push((w >> 24) as u8);
    assert(final(out)@ =~= old(out)@ + le_bytes(w));
}

/// Assembles the source lines into little-endian machine code. A line that fails adds a
/// diagnostic and no bytes; the addresses of the lines after it do not change.
pub fn asm_parser(lines: &Vec<String>) -> (r: Assembly)
    requires
        lines.len() <= 0x3fff_ffff,
    ensures
        (r.bytes@, r.diagnostics@) == assemble_spec(line_views(lines@)),
{
    let map = get_instruction_map();
    let (labels, pending) = resolve_labels(lines);
    let ghost pv = pending_views(pending@);
    let mut bytes: Vec<u8> = Vec::new();
    let mut diagnostics: Vec<Diagnostic> = Vec::new();
    let mut i: usize = 0;
    assert(pv.take(0) =~= Seq::empty());
    while i < pending.len()
        invariant
            map@ == table(),
            i <= pending.len(),
            pv == pending_views(pending@),
            (bytes@, diagnostics@) == emit_spec(pv.take(i as int), labels@),
        decreases pending.len() - i,
    {
        assert(pv.take(i + 1).drop_last() =~= pv.take(i as int));
        let item = &pending[i];
        let toks = tokenize(&item.text);
        if toks.len() > 0 {
            match encode_instruction(&map, &toks, item.address, &labels) {
                Ok(w) => push_word(&mut bytes, w),
                Err(e) => diagnostics.push(Diagnostic { address: item.address, error: e }),
            }
        }
        i = i + 1;
    }
    assert(pv.take(i as int) =~= pv);
    Assembly { bytes, diagnostics }
}

/// Whatever a line encodes to carries, in its opcode field, the opcode that the instruction table
/// records for its mnemonic.
pub proof fn lemma_opcode_field(toks: Seq<Seq<char>>, pc: u32, symbols: Map<Seq<char>, u32>)
    requires
        toks.len() > 0,
        encode_spec(toks, pc, symbols) is Ok,
    ensures
        instruction_spec(toks[0]) is Some,
        encode_spec(toks, pc, symbols)->Ok_0 & 0x7f == instruction_spec(toks[0])->0.opcode,
{
    let f = instruction_spec(toks[0])->0;
    lemma_table_fits(toks[0]);
    match f.kind {
        InstKind::RType { funct3, funct7 } => {
            let (rd, rs1, rs2) = (
                register_spec(toks[1])->0,
                register_spec(toks[2])->0,
                register_spec(toks[3])->0,
            );
            lemma_opcode_bits(f.opcode, funct3, funct7, rd, rs1, rs2, 0, 0);
        },
        InstKind::IType { funct3 } => {
            let (rd, rs1) = (register_spec(toks[1])->0, register_spec(toks[2])->0);
            lemma_opcode_bits(f.opcode, funct3, 0, rd, rs1, 0, signed_imm(toks[3])->0, 0);
        },
        InstKind::SType { funct3 } => {
            let (rs1, rs2, imm) = store_operands(toks[1], toks[2])->Ok_0;
            lemma_opcode_bits(f.opcode, funct3, 0, 0, rs1, rs2, imm, 0);
        },
        InstKind::BType { funct3 } => {
            let (rs1, rs2) = (register_spec(toks[1])->0, register_spec(toks[2])->0);
            let target = label_spec(symbols, toks[3])->0;
            lemma_opcode_bits(f.opcode, funct3, 0, 0, rs1, rs2, offset_to(target, pc), 0);
        },
        InstKind::UType => {
            lemma_opcode_bits(f.opcode, 0, 0, register_spec(toks[1])->0, 0, 0, 0, unsigned_imm(toks[2])->0);
        },
        InstKind::JType => {
            let target = label_spec(symbols, toks[2])->0;
            lemma_opcode_bits(f.opcode, 0, 0, register_spec(toks[1])->0, 0, 0, offset_to(target, pc), 0);
        },
    }
}

/// Encoding is deterministic: the same tokens at the same address give the same result under any
/// two symbol tables that agree on the labels the line names.
pub proof fn lemma_encoding_deterministic(
    toks: Seq<Seq<char>>,
    pc: u32,
    symbols1: Map<Seq<char>, u32>,
    symbols2: Map<Seq<char>, u32>,
)
    requires
        toks.len() > 0,
        forall|i: int| 0 <= i < toks.len() ==> label_spec(symbols1, #[trigger] toks[i]) == label_spec(symbols2, toks[i]),
    ensures
        encode_spec(toks, pc, symbols1) == encode_spec(toks, pc, symbols2),
{
    if toks.len() == 4 {
        assert(label_spec(symbols1, toks[3]) == label_spec(symbols2, toks[3]));
    }
    if toks.len() == 3 {
        assert(label_spec(symbols1, toks[2]) == label_spec(symbols2, toks[2]));
    }
}

/// The output holds whole words, four bytes for each line that encoded; with a diagnostic for
/// each line that did not, they account for at most the address space of the first pass.
pub proof fn lemma_output_size(pending: Seq<(u32, Seq<char>)>, symbols: Map<Seq<char>, u32>)
    ensures
        emit_spec(pending, symbols).0.len() % 4 == 0,
        emit_spec(pending, symbols).0.len() + 4 * emit_spec(pending, symbols).1.len() <= 4
            * pending.len(),
    decreases pending.len(),
{
    if pending.len() > 0 {
        lemma_output_size(pending.drop_last(), symbols);
    }
}

} // verus!

use vstd::prelude::*;

use crate::text::{chars_of, same_chars};

verus! {

/// The encoding format of an instruction, with the sub-opcode fields that it carries.
#[derive(Debug, Clone, Copy, PartialEq, Eq, Structural)]
pub enum InstKind {
    RType { funct3: u8, funct7: u8 },
    IType { funct3: u8 },
    SType { funct3: u8 },
    BType { funct3: u8 },
    UType,
    JType,
}

/// What the table records of a mnemonic: its 7-bit major opcode and its format.
#[derive(Debug, Clone, Copy, PartialEq, Eq, Structural)]
pub struct InstFmt {
    pub opcode: u8,
    pub kind: InstKind,
}

/// The fields of `f` fit their widths: 7 bits of opcode and funct7, 3 bits of funct3.
pub open spec fn fmt_fits(f: InstFmt) -> bool {
    &&& f.opcode < 128
    &&& match f.kind {
        InstKind::RType { funct3, funct7 } => funct3 < 8 && funct7 < 128,
        InstKind::IType { funct3 } => funct3 < 8,
        InstKind::SType { funct3 } => funct3 < 8,
        InstKind::BType { funct3 } => funct3 < 8,
        InstKind::UType => true,
        InstKind::JType => true,
    }
}

/// An R-type arithmetic entry.
pub open spec fn r_fmt(funct3: u8, funct7: u8) -> InstFmt {
    InstFmt { opcode: 0x33, kind: InstKind::RType { funct3, funct7 } }
}

/// An I-type arithmetic entry.
pub open spec fn i_fmt(funct3: u8) -> InstFmt {
    InstFmt { opcode: 0x13, kind: InstKind::IType { funct3 } }
}

/// A store entry.
pub open spec fn s_fmt(funct3: u8) -> InstFmt {
    InstFmt { opcode: 0x23, kind: InstKind::SType { funct3 } }
}

/// A branch entry.
pub open spec fn b_fmt(funct3: u8) -> InstFmt {
    InstFmt { opcode: 0x63, kind: InstKind::BType { funct3 } }
}

/// The instruction table: each mnemonic of the subset with its opcode, format and sub-opcodes.
pub open spec fn table() -> Seq<(Seq<char>, InstFmt)> {
    seq![
        ("add"@, r_fmt(0, 0)),
        ("sub"@, r_fmt(0, 0x20)),
        ("sll"@, r_fmt(1, 0)),
        ("slt"@, r_fmt(2, 0)),
        ("sltu"@, r_fmt(3, 0)),
        ("xor"@, r_fmt(4, 0)),
        ("srl"@, r_fmt(5, 0)),
        ("sra"@, r_fmt(5, 0x20)),
        ("or"@, r_fmt(6, 0)),
        ("and"@, r_fmt(7, 0)),
        ("addi"@, i_fmt(0)),
        ("slti"@, i_fmt(2)),
        ("sltiu"@, i_fmt(3)),
        ("xori"@, i_fmt(4)),
        ("ori"@, i_fmt(6)),
        ("andi"@, i_fmt(7)),
        ("slli"@, i_fmt(1)),
        ("srli"@, i_fmt(5)),
        ("srai"@, i_fmt(5)),
        ("sb"@, s_fmt(0)),
        ("sh"@, s_fmt(1)),
        ("sw"@, s_fmt(2)),
        ("beq"@, b_fmt(0)),
        ("bne"@, b_fmt(1)),
        ("blt"@, b_fmt(4)),
        ("bge"@, b_fmt(5)),
        ("bltu"@, b_fmt(6)),
        ("bgeu"@, b_fmt(7)),
        ("lui"@, InstFmt { opcode: 0x37, kind: InstKind::UType }),
        ("auipc"@, InstFmt { opcode: 0x17, kind: InstKind::UType }),
        ("jal"@, InstFmt { opcode: 0x6f, kind: InstKind::JType }),
    ]
}

/// The entry that `entries` records first for `m`.
pub open spec fn first_match(entries: Seq<(Seq<char>, InstFmt)>, m: Seq<char>) -> Option<InstFmt>
    decreases entries.len(),
{
    if entries.len() == 0 {
        None
    } else if entries[0].0 == m {
        Some(entries[0].1)
    } else {
        first_match(entries.drop_first(), m)
    }
}

/// What the instruction table records for the mnemonic `m`.
pub open spec fn instruction_spec(m: Seq<char>) -> Option<InstFmt> {
    first_match(table(), m)
}

/// The instruction table, built once and only read afterwards.
pub struct InstructionMap {
    entries: Vec<(Vec<char>, InstFmt)>,
}

impl View for InstructionMap {
    type V = Seq<(Seq<char>, InstFmt)>;

    closed spec fn view(&self) -> Seq<(Seq<char>, InstFmt)> {
        self.entries@.map_values(|e: (Vec<char>, InstFmt)| (e.0@, e.1))
    }
}

impl InstructionMap {
    /// The entry for `mnemonic`, or `None` for a mnemonic outside the table.
    pub fn get(&self, mnemonic: &Vec<char>) -> (r: Option<InstFmt>)
        ensures
            r == first_match(self@, mnemonic@),
    {
        let mut i: usize = 0;
        assert(self@.skip(0) =~= self@);
        while i < self.entries.len()
            invariant
                i <= self.entries.len(),
                first_match(self@, mnemonic@) == first_match(self@.skip(i as int), mnemonic@),
            decreases self.entries.len() - i,
        {
            let ghost rest = self@.skip(i as int);
            assert(rest.drop_first() =~= self@.skip(i + 1));
            if same_chars(&self.entries[i].0, mnemonic) {
                return Some(self.entries[i].1);
            }
            i = i + 1;
        }
        None
    }

    /// Adds an entry; an earlier one for the same mnemonic stays ahead of it.
    fn add(&mut self, mnemonic: &str, fmt: InstFmt)
        ensures
            final(self)@ == old(self)@.push((mnemonic@, fmt)),
    {
        let name = chars_of(mnemonic);
        self.entries.push((name, fmt));
        assert(self@ =~= old(self)@.push((mnemonic@, fmt)));
    }
}

/// Builds the instruction table.
pub fn get_instruction_map() -> (r: InstructionMap)
    ensures
        r@ == table(),
{
    let mut m = InstructionMap { entries: Vec::new() };
    assert(m@ =~= Seq::empty());
    // R-type arithmetic, opcode 0b0110011
    m.add("add", InstFmt { opcode: 0x33, kind: InstKind::RType { funct3: 0, funct7: 0 } });
    m.add("sub", InstFmt { opcode: 0x33, kind: InstKind::RType { funct3: 0, funct7: 0x20 } });
    m.add("sll", InstFmt { opcode: 0x33, kind: InstKind::RType { funct3: 1, funct7: 0 } });
    m.add("slt", InstFmt { opcode: 0x33, kind: InstKind::RType { funct3: 2, funct7: 0 } });
    m.add("sltu", InstFmt { opcode: 0x33, kind: InstKind::RType { funct3: 3, funct7: 0 } });
    m.add("xor", InstFmt { opcode: 0x33, kind: InstKind::RType { funct3: 4, funct7: 0 } });
    m.add("srl", InstFmt { opcode: 0x33, kind: InstKind::RType { funct3: 5, funct7: 0 } });
    m.add("sra", InstFmt { opcode: 0x33, kind: InstKind::RType { funct3: 5, funct7: 0x20 } });
    m.add("or", InstFmt { opcode: 0x33, kind: InstKind::RType { funct3: 6, funct7: 0 } });
    m.add("and", InstFmt { opcode: 0x33, kind: InstKind::RType { funct3: 7, funct7: 0 } });
    // I-type arithmetic, opcode 0b0010011
    m.add("addi", InstFmt { opcode: 0x13, kind: InstKind::IType { funct3: 0 } });
    m.add("slti", InstFmt { opcode: 0x13, kind: InstKind::IType { funct3: 2 } });
    m.add("sltiu", InstFmt { opcode: 0x13, kind: InstKind::IType { funct3: 3 } });
    m.add("xori", InstFmt { opcode: 0x13, kind: InstKind::IType { funct3: 4 } });
    m.add("ori", InstFmt { opcode: 0x13, kind: InstKind::IType { funct3: 6 } });
    m.add("andi", InstFmt { opcode: 0x13, kind: InstKind::IType { funct3: 7 } });
    m.add("slli", InstFmt { opcode: 0x13, kind: InstKind::IType { funct3: 1 } });
    m.add("srli", InstFmt { opcode: 0x13, kind: InstKind::IType { funct3: 5 } });
    m.add("srai", InstFmt { opcode: 0x13, kind: InstKind::IType { funct3: 5 } });
    // stores, opcode 0b0100011
    m.add("sb", InstFmt { opcode: 0x23, kind: InstKind::SType { funct3: 0 } });
    m.add("sh", InstFmt { opcode: 0x23, kind: InstKind::SType { funct3: 1 } });
    m.add("sw", InstFmt { opcode: 0x23, kind: InstKind::SType { funct3: 2 } });
    // branches, opcode 0b1100011
    m.add("beq", InstFmt { opcode: 0x63, kind: InstKind::BType { funct3: 0 } });
    m.add("bne", InstFmt { opcode: 0x63, kind: InstKind::BType { funct3: 1 } });
    m.add("blt", InstFmt { opcode: 0x63, kind: InstKind::BType { funct3: 4 } });
    m.add("bge", InstFmt { opcode: 0x63, kind: InstKind::BType { funct3: 5 } });
    m.add("bltu", InstFmt { opcode: 0x63, kind: InstKind::BType { funct3: 6 } });
    m.add("bgeu", InstFmt { opcode: 0x63, kind: InstKind::BType { funct3: 7 } });
    // upper immediates
    m.add("lui", InstFmt { opcode: 0x37, kind: InstKind::UType });
    m.add("auipc", InstFmt { opcode: 0x17, kind: InstKind::UType });
    // jumps
    m.add("jal", InstFmt { opcode: 0x6f, kind: InstKind::JType });
    assert(m@ =~= table());
    m
}

proof fn lemma_first_match_member(entries: Seq<(Seq<char>, InstFmt)>, m: Seq<char>)
    requires
        first_match(entries, m) is Some,
    ensures
        exists|i: int| 0 <= i < entries.len() && entries[i] == (m, first_match(entries, m)->0),
    decreases entries.len(),
{
    if entries[0].0 == m {
        assert(entries[0] == (m, first_match(entries, m)->0));
    } else {
        lemma_first_match_member(entries.drop_first(), m);
        let i = choose|i: int|
            0 <= i < entries.drop_first().len() && entries.drop_first()[i] == (
                m,
                first_match(entries.drop_first(), m)->0,
            );
        assert(entries[i + 1] == (m, first_match(entries, m)->0));
    }
}

/// Every entry of the instruction table has fields that fit their widths.
pub proof fn lemma_table_fits(m: Seq<char>)
    requires
        instruction_spec(m) is Some,
    ensures
        fmt_fits(instruction_spec(m)->0),
{
    lemma_first_match_member(table(), m);
    assert forall|i: int| 0 <= i < table().len() implies fmt_fits(#[trigger] table()[i].1) by {}
}

} // verus!

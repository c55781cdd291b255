use vstd::prelude::*;

verus! {

/// R-type layout: funct7[31:25] rs2[24:20] rs1[19:15] funct3[14:12] rd[11:7] opcode[6:0].
pub open spec fn r_word(opcode: u8, funct3: u8, funct7: u8, rd: u8, rs1: u8, rs2: u8) -> u32 {
    ((funct7 as u32) << 25u32) | ((rs2 as u32) << 20u32) | ((rs1 as u32) << 15u32) | ((
    funct3 as u32) << 12u32) | ((rd as u32) << 7u32) | (opcode as u32)
}

/// I-type layout: imm[11:0] at [31:20], then rs1, funct3, rd and opcode as in R-type.
pub open spec fn i_word(opcode: u8, funct3: u8, rd: u8, rs1: u8, imm: i32) -> u32 {
    (((imm as u32) & 0xfffu32) << 20u32) | ((rs1 as u32) << 15u32) | ((funct3 as u32) << 12u32)
        | ((rd as u32) << 7u32) | (opcode as u32)
}

/// S-type layout: imm[11:5] at [31:25], rs2, rs1, funct3, imm[4:0] at [11:7], opcode.
pub open spec fn s_word(opcode: u8, funct3: u8, rs1: u8, rs2: u8, imm: i32) -> u32 {
    ((((imm as u32) >> 5u32) & 0x7fu32) << 25u32) | ((rs2 as u32) << 20u32) | ((rs1 as u32)
        << 15u32) | ((funct3 as u32) << 12u32) | (((imm as u32) & 0x1fu32) << 7u32) | (
    opcode as u32)
}

/// B-type layout: imm[12] at 31, imm[10:5] at [30:25], rs2, rs1, funct3, imm[4:1] at [11:8],
/// imm[11] at 7, opcode.
pub open spec fn b_word(opcode: u8, funct3: u8, rs1: u8, rs2: u8, offset: i32) -> u32 {
    let imm = offset as u32;
    (((imm >> 12u32) & 1u32) << 31u32) | (((imm >> 5u32) & 0x3fu32) << 25u32) | ((rs2 as u32)
        << 20u32) | ((rs1 as u32) << 15u32) | ((funct3 as u32) << 12u32) | (((imm >> 1u32)
        & 0xfu32) << 8u32) | (((imm >> 11u32) & 1u32) << 7u32) | (opcode as u32)
}

/// J-type layout: imm[20] at 31, imm[10:1] at [30:21], imm[11] at 20, imm[19:12] at [19:12],
/// rd, opcode.
pub open spec fn j_word(opcode: u8, rd: u8, offset: i32) -> u32 {
    let imm = offset as u32;
    (((imm >> 20u32) & 1u32) << 31u32) | (((imm >> 12u32) & 0xffu32) << 12u32) | (((imm
        >> 11u32) & 1u32) << 20u32) | (((imm >> 1u32) & 0x3ffu32) << 21u32) | ((rd as u32)
        << 7u32) | (opcode as u32)
}

/// U-type layout: imm[19:0] at [31:12], rd, opcode.
pub open spec fn u_word(opcode: u8, rd: u8, imm: u32) -> u32 {
    (imm << 12u32) | ((rd as u32) << 7u32) | (opcode as u32)
}

/// Packs an R-type instruction.
pub fn encode_r_type(opcode: u8, funct3: u8, funct7: u8, rd: u8, rs1: u8, rs2: u8) -> (r: u32)
    requires
        opcode < 128,
        funct3 < 8,
        funct7 < 128,
        rd < 32,
        rs1 < 32,
        rs2 < 32,
    ensures
        r == r_word(opcode, funct3, funct7, rd, rs1, rs2),
        r & 0x7f == opcode,
        (r >> 7) & 0x1f == rd,
        (r >> 12) & 0x7 == funct3,
        (r >> 15) & 0x1f == rs1,
        (r >> 20) & 0x1f == rs2,
        r >> 25 == funct7,
{
    let w = ((funct7 as u32) << 25) | ((rs2 as u32) << 20) | ((rs1 as u32) << 15) | ((
    funct3 as u32) << 12) | ((rd as u32) << 7) | (opcode as u32);
    assert({
        &&& w & 0x7f == opcode
        &&& (w >> 7) & 0x1f == rd
        &&& (w >> 12) & 0x7 == funct3
        &&& (w >> 15) & 0x1f == rs1
        &&& (w >> 20) & 0x1f == rs2
        &&& w >> 25 == funct7
    }) by (bit_vector)
        requires
            w == r_word(opcode, funct3, funct7, rd, rs1, rs2),
            opcode < 128,
            funct3 < 8,
            funct7 < 128,
            rd < 32,
            rs1 < 32,
            rs2 < 32,
    ;
    w
}

/// Packs an I-type instruction; the immediate keeps its low 12 bits.
pub fn encode_i_type(opcode: u8, funct3: u8, rd: u8, rs1: u8, imm: i32) -> (r: u32)
    requires
        opcode < 128,
        funct3 < 8,
        rd < 32,
        rs1 < 32,
    ensures
        r == i_word(opcode, funct3, rd, rs1, imm),
        r & 0x7f == opcode,
        (r >> 7) & 0x1f == rd,
        (r >> 12) & 0x7 == funct3,
        (r >> 15) & 0x1f == rs1,
        r >> 20 == (imm as u32) & 0xfff,
{
    let imm12 = (imm as u32) & 0xfff;
    let w = (imm12 << 20) | ((rs1 as u32) << 15) | ((funct3 as u32) << 12) | ((rd as u32) << 7)
        | (opcode as u32);
    let ghost iu = imm as u32;
    assert({
        &&& w & 0x7f == opcode
        &&& (w >> 7) & 0x1f == rd
        &&& (w >> 12) & 0x7 == funct3
        &&& (w >> 15) & 0x1f == rs1
        &&& w >> 20 == iu & 0xfff
    }) by (bit_vector)
        requires
            w == ((iu & 0xfff) << 20) | ((rs1 as u32) << 15) | ((funct3 as u32) << 12) | ((
            rd as u32) << 7) | (opcode as u32),
            opcode < 128,
            funct3 < 8,
            rd < 32,
            rs1 < 32,
    ;
    w
}

/// Packs an S-type (store) instruction; the offset is split at bit 5.
pub fn encode_s_type(opcode: u8, funct3: u8, rs1: u8, rs2: u8, imm: i32) -> (r: u32)
    requires
        opcode < 128,
        funct3 < 8,
        rs1 < 32,
        rs2 < 32,
    ensures
        r == s_word(opcode, funct3, rs1, rs2, imm),
        r & 0x7f == opcode,
        (r >> 7) & 0x1f == (imm as u32) & 0x1f,
        (r >> 12) & 0x7 == funct3,
        (r >> 15) & 0x1f == rs1,
        (r >> 20) & 0x1f == rs2,
        r >> 25 == ((imm as u32) >> 5) & 0x7f,
{
    let imm_u = imm as u32;
    let imm_4_0 = imm_u & 0x1f;
    let imm_11_5 = (imm_u >> 5) & 0x7f;
    let w = (imm_11_5 << 25) | ((rs2 as u32) << 20) | ((rs1 as u32) << 15) | ((funct3 as u32)
        << 12) | (imm_4_0 << 7) | (opcode as u32);
    assert({
        &&& w & 0x7f == opcode
        &&& (w >> 7) & 0x1f == imm_u & 0x1f
        &&& (w >> 12) & 0x7 == funct3
        &&& (w >> 15) & 0x1f == rs1
        &&& (w >> 20) & 0x1f == rs2
        &&& w >> 25 == (imm_u >> 5) & 0x7f
    }) by (bit_vector)
        requires
            w == (((imm_u >> 5) & 0x7f) << 25) | ((rs2 as u32) << 20) | ((rs1 as u32) << 15) | ((
            funct3 as u32) << 12) | ((imm_u & 0x1f) << 7) | (opcode as u32),
            opcode < 128,
            funct3 < 8,
            rs1 < 32,
            rs2 < 32,
    ;
    w
}

/// Packs a B-type (branch) instruction from its offset to the target.
pub fn encode_b_type(opcode: u8, funct3: u8, rs1: u8, rs2: u8, offset: i32) -> (r: u32)
    requires
        opcode < 128,
        funct3 < 8,
        rs1 < 32,
        rs2 < 32,
    ensures
        r == b_word(opcode, funct3, rs1, rs2, offset),
        r & 0x7f == opcode,
        (r >> 7) & 1 == ((offset as u32) >> 11) & 1,
        (r >> 8) & 0xf == ((offset as u32) >> 1) & 0xf,
        (r >> 12) & 0x7 == funct3,
        (r >> 15) & 0x1f == rs1,
        (r >> 20) & 0x1f == rs2,
        (r >> 25) & 0x3f == ((offset as u32) >> 5) & 0x3f,
        r >> 31 == ((offset as u32) >> 12) & 1,
{
    let imm = offset as u32;
    let imm_12 = (imm >> 12) & 0x1;
    let imm_10_5 = (imm >> 5) & 0x3f;
    let imm_4_1 = (imm >> 1) & 0xf;
    let imm_11 = (imm >> 11) & 0x1;
    let w = (imm_12 << 31) | (imm_10_5 << 25) | ((rs2 as u32) << 20) | ((rs1 as u32) << 15) | ((
    funct3 as u32) << 12) | (imm_4_1 << 8) | (imm_11 << 7) | (opcode as u32);
    assert({
        &&& w & 0x7f == opcode
        &&& (w >> 7) & 1 == (imm >> 11) & 1
        &&& (w >> 8) & 0xf == (imm >> 1) & 0xf
        &&& (w >> 12) & 0x7 == funct3
        &&& (w >> 15) & 0x1f == rs1
        &&& (w >> 20) & 0x1f == rs2
        &&& (w >> 25) & 0x3f == (imm >> 5) & 0x3f
        &&& w >> 31 == (imm >> 12) & 1
    }) by (bit_vector)
        requires
            w == (((imm >> 12) & 1) << 31) | (((imm >> 5) & 0x3f) << 25) | ((rs2 as u32) << 20)
                | ((rs1 as u32) << 15) | ((funct3 as u32) << 12) | (((imm >> 1) & 0xf) << 8) | (((
            imm >> 11) & 1) << 7) | (opcode as u32),
            opcode < 128,
            funct3 < 8,
            rs1 < 32,
            rs2 < 32,
    ;
    w
}

/// Packs a J-type (jump) instruction from its offset to the target.
pub fn encode_j_type(opcode: u8, rd: u8, offset: i32) -> (r: u32)
    requires
        opcode < 128,
        rd < 32,
    ensures
        r == j_word(opcode, rd, offset),
        r & 0x7f == opcode,
        (r >> 7) & 0x1f == rd,
        (r >> 12) & 0xff == ((offset as u32) >> 12) & 0xff,
        (r >> 20) & 1 == ((offset as u32) >> 11) & 1,
        (r >> 21) & 0x3ff == ((offset as u32) >> 1) & 0x3ff,
        r >> 31 == ((offset as u32) >> 20) & 1,
{
    let imm = offset as u32;
    let imm_20 = (imm >> 20) & 0x1;
    let imm_10_1 = (imm >> 1) & 0x3ff;
    let imm_11 = (imm >> 11) & 0x1;
    let imm_19_12 = (imm >> 12) & 0xff;
    let w = (imm_20 << 31) | (imm_19_12 << 12) | (imm_11 << 20) | (imm_10_1 << 21) | ((rd as u32)
        << 7) | (opcode as u32);
    assert({
        &&& w & 0x7f == opcode
        &&& (w >> 7) & 0x1f == rd
        &&& (w >> 12) & 0xff == (imm >> 12) & 0xff
        &&& (w >> 20) & 1 == (imm >> 11) & 1
        &&& (w >> 21) & 0x3ff == (imm >> 1) & 0x3ff
        &&& w >> 31 == (imm >> 20) & 1
    }) by (bit_vector)
        requires
            w == (((imm >> 20) & 1) << 31) | (((imm >> 12) & 0xff) << 12) | (((imm >> 11) & 1)
                << 20) | (((imm >> 1) & 0x3ff) << 21) | ((rd as u32) << 7) | (opcode as u32),
            opcode < 128,
            rd < 32,
    ;
    w
}

/// Packs a U-type instruction: the 20-bit immediate fills the upper bits.
pub fn encode_u_type(opcode: u8, rd: u8, imm: u32) -> (r: u32)
    requires
        opcode < 128,
        rd < 32,
        imm <= 0xfffff,
    ensures
        r == u_word(opcode, rd, imm),
        r & 0x7f == opcode,
        (r >> 7) & 0x1f == rd,
        r >> 12 == imm,
{
    let w = (imm << 12) | ((rd as u32) << 7) | (opcode as u32);
    assert({
        &&& w & 0x7f == opcode
        &&& (w >> 7) & 0x1f == rd
        &&& w >> 12 == imm
    }) by (bit_vector)
        requires
            w == (imm << 12) | ((rd as u32) << 7) | (opcode as u32),
            opcode < 128,
            rd < 32,
            imm <= 0xfffff,
    ;
    w
}

/// In every format the opcode occupies the low seven bits of the word.
pub proof fn lemma_opcode_bits(
    opcode: u8,
    funct3: u8,
    funct7: u8,
    rd: u8,
    rs1: u8,
    rs2: u8,
    imm: i32,
    uimm: u32,
)
    requires
        opcode < 128,
    ensures
        r_word(opcode, funct3, funct7, rd, rs1, rs2) & 0x7f == opcode,
        i_word(opcode, funct3, rd, rs1, imm) & 0x7f == opcode,
        s_word(opcode, funct3, rs1, rs2, imm) & 0x7f == opcode,
        b_word(opcode, funct3, rs1, rs2, imm) & 0x7f == opcode,
        j_word(opcode, rd, imm) & 0x7f == opcode,
        u_word(opcode, rd, uimm) & 0x7f == opcode,
{
    let iu = imm as u32;
    let o = opcode as u32;
    let f3 = funct3 as u32;
    let f7 = funct7 as u32;
    let d = rd as u32;
    let a = rs1 as u32;
    let b = rs2 as u32;
    assert(((f7 << 25u32) | (b << 20u32) | (a << 15u32) | (f3 << 12u32) | (d << 7u32) | o) & 0x7f
        == o) by (bit_vector)
        requires
            o < 128,
    ;
    assert((((iu & 0xfffu32) << 20u32) | (a << 15u32) | (f3 << 12u32) | (d << 7u32) | o) & 0x7f
        == o) by (bit_vector)
        requires
            o < 128,
    ;
    assert(((((iu >> 5u32) & 0x7fu32) << 25u32) | (b << 20u32) | (a << 15u32) | (f3 << 12u32) | ((
    iu & 0x1fu32) << 7u32) | o) & 0x7f == o) by (bit_vector)
        requires
            o < 128,
    ;
    assert(((((iu >> 12u32) & 1u32) << 31u32) | (((iu >> 5u32) & 0x3fu32) << 25u32) | (b << 20u32)
        | (a << 15u32) | (f3 << 12u32) | (((iu >> 1u32) & 0xfu32) << 8u32) | (((iu >> 11u32)
        & 1u32) << 7u32) | o) & 0x7f == o) by (bit_vector)
        requires
            o < 128,
    ;
    assert(((((iu >> 20u32) & 1u32) << 31u32) | (((iu >> 12u32) & 0xffu32) << 12u32) | (((iu
        >> 11u32) & 1u32) << 20u32) | (((iu >> 1u32) & 0x3ffu32) << 21u32) | (d << 7u32) | o)
        & 0x7f == o) by (bit_vector)
        requires
            o < 128,
    ;
    assert(((uimm << 12u32) | (d << 7u32) | o) & 0x7f == o) by (bit_vector)
        requires
            o < 128,
    ;
}

/// The branch offset that the split immediate fields of a B-type word stand for, sign-extended
/// from bit 12.
pub open spec fn b_offset_of(w: u32) -> i32 {
    let u = (((w >> 31u32) & 1u32) << 12u32) | (((w >> 7u32) & 1u32) << 11u32) | (((w >> 25u32)
        & 0x3fu32) << 5u32) | (((w >> 8u32) & 0xfu32) << 1u32);
    if u >= 0x1000 {
        (u | 0xffff_e000u32) as i32
    } else {
        u as i32
    }
}

/// The jump offset that the split immediate fields of a J-type word stand for, sign-extended
/// from bit 20.
pub open spec fn j_offset_of(w: u32) -> i32 {
    let u = (((w >> 31u32) & 1u32) << 20u32) | (((w >> 12u32) & 0xffu32) << 12u32) | (((w
        >> 20u32) & 1u32) << 11u32) | (((w >> 21u32) & 0x3ffu32) << 1u32);
    if u >= 0x10_0000 {
        (u | 0xffe0_0000u32) as i32
    } else {
        u as i32
    }
}

/// A branch word whose fields fit gives back its offset: any even offset from -4096 to 4094
/// survives the split into fields.
pub proof fn lemma_b_offset_round_trip(opcode: u8, funct3: u8, rs1: u8, rs2: u8, offset: i32)
    requires
        opcode < 128,
        funct3 < 8,
        rs1 < 32,
        rs2 < 32,
        -4096 <= offset < 4096,
        offset % 2 == 0,
    ensures
        b_offset_of(b_word(opcode, funct3, rs1, rs2, offset)) == offset,
{
    let w = b_word(opcode, funct3, rs1, rs2, offset);
    #[verifier::truncate]
    let imm = offset as u32;
    assert(imm & 1 == 0 && (imm < 0x1000 || imm >= 0xffff_f000) && imm as i32 == offset) by (bit_vector)
        requires
            imm == offset as u32,
            -4096 <= offset < 4096,
            offset % 2 == 0,
    ;
    assert(b_offset_of(w) == offset) by (bit_vector)
        requires
            w == b_word(opcode, funct3, rs1, rs2, offset),
            opcode < 128,
            funct3 < 8,
            rs1 < 32,
            rs2 < 32,
            imm == offset as u32,
            imm & 1 == 0,
            imm < 0x1000 || imm >= 0xffff_f000,
            imm as i32 == offset,
    ;
}

/// A jump word whose fields fit gives back its offset: any even offset from -2^20 to 2^20 - 2
/// survives the split into fields.
pub proof fn lemma_j_offset_round_trip(opcode: u8, rd: u8, offset: i32)
    requires
        opcode < 128,
        rd < 32,
        -0x10_0000 <= offset < 0x10_0000,
        offset % 2 == 0,
    ensures
        j_offset_of(j_word(opcode, rd, offset)) == offset,
{
    let w = j_word(opcode, rd, offset);
    #[verifier::truncate]
    let imm = offset as u32;
    assert(imm & 1 == 0 && (imm < 0x10_0000 || imm >= 0xfff0_0000) && imm as i32 == offset) by (bit_vector)
        requires
            imm == offset as u32,
            -0x10_0000 <= offset < 0x10_0000,
            offset % 2 == 0,
    ;
    assert(j_offset_of(w) == offset) by (bit_vector)
        requires
            w == j_word(opcode, rd, offset),
            opcode < 128,
            rd < 32,
            imm == offset as u32,
            imm & 1 == 0,
            imm < 0x10_0000 || imm >= 0xfff0_0000,
            imm as i32 == offset,
    ;
}

} // verus!

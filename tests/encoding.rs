use rvasm::encode::{
    encode_b_type, encode_i_type, encode_j_type, encode_r_type, encode_s_type, encode_u_type,
};

#[test]
fn addi_word() {
    assert_eq!(encode_i_type(0b0010011, 0, 5, 0, 10), 0x00A0_0293);
}

#[test]
fn add_word() {
    assert_eq!(encode_r_type(0b0110011, 0, 0, 1, 2, 3), 0x0031_00B3);
}

#[test]
fn sub_word_sets_funct7() {
    assert_eq!(encode_r_type(0b0110011, 0, 0b0100000, 1, 2, 3), 0x4031_00B3);
}

#[test]
fn i_type_keeps_low_twelve_bits() {
    assert_eq!(encode_i_type(0b0010011, 0, 1, 0, -1), 0xFFF0_0093);
    assert_eq!(encode_i_type(0b0010011, 0, 1, 0, 0x1234), 0x2340_0093);
}

#[test]
fn s_type_splits_offset() {
    assert_eq!(encode_s_type(0b0100011, 2, 2, 5, 8), 0x0051_2423);
    assert_eq!(encode_s_type(0b0100011, 2, 2, 1, -4), 0xFE11_2E23);
}

#[test]
fn b_type_backward_offset() {
    assert_eq!(encode_b_type(0b1100011, 0, 1, 2, -12), 0xFE20_8AE3);
}

#[test]
fn b_type_forward_offset() {
    assert_eq!(encode_b_type(0b1100011, 0, 0, 0, 8), 0x0000_0463);
}

#[test]
fn j_type_offsets() {
    assert_eq!(encode_j_type(0b1101111, 1, 8), 0x0080_00EF);
    assert_eq!(encode_j_type(0b1101111, 0, -4), 0xFFDF_F06F);
}

#[test]
fn u_type_upper_bits() {
    assert_eq!(encode_u_type(0b0110111, 5, 0xFFFFF), 0xFFFF_F2B7);
    assert_eq!(encode_u_type(0b0010111, 1, 1), 0x0000_1097);
}

#[test]
fn opcode_in_low_seven_bits_for_every_format() {
    for op in [0b0110011u8, 0b0010011, 0b0100011, 0b1100011, 0b0110111, 0b0010111, 0b1101111] {
        assert_eq!(encode_r_type(op, 7, 0x7f, 31, 31, 31) & 0x7f, op as u32);
        assert_eq!(encode_i_type(op, 7, 31, 31, -1) & 0x7f, op as u32);
        assert_eq!(encode_s_type(op, 7, 31, 31, -1) & 0x7f, op as u32);
        assert_eq!(encode_b_type(op, 7, 31, 31, -2) & 0x7f, op as u32);
        assert_eq!(encode_j_type(op, 31, -2) & 0x7f, op as u32);
        assert_eq!(encode_u_type(op, 31, 0xFFFFF) & 0x7f, op as u32);
    }
}

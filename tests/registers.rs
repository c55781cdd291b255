use rvasm::register::reg_to_u8;

#[test]
fn aliases_of_eight_agree() {
    assert_eq!(reg_to_u8("fp"), Some(8));
    assert_eq!(reg_to_u8("s0"), Some(8));
    assert_eq!(reg_to_u8("x8"), Some(8));
}

#[test]
fn every_abi_name_matches_its_numeric_name() {
    let names = [
        "zero", "ra", "sp", "gp", "tp", "t0", "t1", "t2", "s0", "s1", "a0", "a1", "a2", "a3",
        "a4", "a5", "a6", "a7", "s2", "s3", "s4", "s5", "s6", "s7", "s8", "s9", "s10", "s11",
        "t3", "t4", "t5", "t6",
    ];
    for (i, name) in names.iter().enumerate() {
        let numeric = format!("x{}", i);
        assert_eq!(reg_to_u8(name), Some(i as u8));
        assert_eq!(reg_to_u8(&numeric), Some(i as u8));
    }
}

#[test]
fn numeric_forms() {
    assert_eq!(reg_to_u8("x0"), Some(0));
    assert_eq!(reg_to_u8("x31"), Some(31));
    assert_eq!(reg_to_u8("x05"), Some(5));
    assert_eq!(reg_to_u8("x+5"), Some(5));
}

#[test]
fn unknown_registers() {
    assert_eq!(reg_to_u8("x32"), None);
    assert_eq!(reg_to_u8("x256"), None);
    assert_eq!(reg_to_u8("x"), None);
    assert_eq!(reg_to_u8("x-1"), None);
    assert_eq!(reg_to_u8("x0x1"), None);
    assert_eq!(reg_to_u8("s12"), None);
    assert_eq!(reg_to_u8("X1"), None);
    assert_eq!(reg_to_u8(""), None);
}

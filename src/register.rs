use vstd::prelude::*;

use crate::number::{decimal_from, decimal_value, digit_value, digits_value};
use crate::text::{chars_of, is_word};

verus! {

/// The register that an ABI name stands for.
pub open spec fn abi_register(t: Seq<char>) -> Option<u8> {
    if t == "zero"@ {
        Some(0)
    } else if t == "ra"@ {
        Some(1)
    } else if t == "sp"@ {
        Some(2)
    } else if t == "gp"@ {
        Some(3)
    } else if t == "tp"@ {
        Some(4)
    } else if t == "t0"@ {
        Some(5)
    } else if t == "t1"@ {
        Some(6)
    } else if t == "t2"@ {
        Some(7)
    } else if t == "s0"@ || t == "fp"@ {
        Some(8)
    } else if t == "s1"@ {
        Some(9)
    } else if t == "a0"@ {
        Some(10)
    } else if t == "a1"@ {
        Some(11)
    } else if t == "a2"@ {
        Some(12)
    } else if t == "a3"@ {
        Some(13)
    } else if t == "a4"@ {
        Some(14)
    } else if t == "a5"@ {
        Some(15)
    } else if t == "a6"@ {
        Some(16)
    } else if t == "a7"@ {
        Some(17)
    } else if t == "s2"@ {
        Some(18)
    } else if t == "s3"@ {
        Some(19)
    } else if t == "s4"@ {
        Some(20)
    } else if t == "s5"@ {
        Some(21)
    } else if t == "s6"@ {
        Some(22)
    } else if t == "s7"@ {
        Some(23)
    } else if t == "s8"@ {
        Some(24)
    } else if t == "s9"@ {
        Some(25)
    } else if t == "s10"@ {
        Some(26)
    } else if t == "s11"@ {
        Some(27)
    } else if t == "t3"@ {
        Some(28)
    } else if t == "t4"@ {
        Some(29)
    } else if t == "t5"@ {
        Some(30)
    } else if t == "t6"@ {
        Some(31)
    } else {
        None
    }
}

/// The register index that a token names: an ABI name, or `x` and a decimal number below 32.
pub open spec fn register_spec(t: Seq<char>) -> Option<u8> {
    match abi_register(t) {
        Some(n) => Some(n),
        None => if t.len() > 0 && t[0] == 'x' {
            match decimal_value(t.drop_first()) {
                Some(n) => if n < 32 {
                    Some(n as u8)
                } else {
                    None
                },
                None => None,
            }
        } else {
            None
        },
    }
}

/// The register index that the token `t` names, or `None` for an unknown register.
pub fn register_index(t: &Vec<char>) -> (r: Option<u8>)
    ensures
        r == register_spec(t@),
{
    if is_word(t, "zero") {
        Some(0)
    } else if is_word(t, "ra") {
        Some(1)
    } else if is_word(t, "sp") {
        Some(2)
    } else if is_word(t, "gp") {
        Some(3)
    } else if is_word(t, "tp") {
        Some(4)
    } else if is_word(t, "t0") {
        Some(5)
    } else if is_word(t, "t1") {
        Some(6)
    } else if is_word(t, "t2") {
        Some(7)
    } else if is_word(t, "s0") || is_word(t, "fp") {
        Some(8)
    } else if is_word(t, "s1") {
        Some(9)
    } else if is_word(t, "a0") {
        Some(10)
    } else if is_word(t, "a1") {
        Some(11)
    } else if is_word(t, "a2") {
        Some(12)
    } else if is_word(t, "a3") {
        Some(13)
    } else if is_word(t, "a4") {
        Some(14)
    } else if is_word(t, "a5") {
        Some(15)
    } else if is_word(t, "a6") {
        Some(16)
    } else if is_word(t, "a7") {
        Some(17)
    } else if is_word(t, "s2") {
        Some(18)
    } else if is_word(t, "s3") {
        Some(19)
    } else if is_word(t, "s4") {
        Some(20)
    } else if is_word(t, "s5") {
        Some(21)
    } else if is_word(t, "s6") {
        Some(22)
    } else if is_word(t, "s7") {
        Some(23)
    } else if is_word(t, "s8") {
        Some(24)
    } else if is_word(t, "s9") {
        Some(25)
    } else if is_word(t, "s10") {
        Some(26)
    } else if is_word(t, "s11") {
        Some(27)
    } else if is_word(t, "t3") {
        Some(28)
    } else if is_word(t, "t4") {
        Some(29)
    } else if is_word(t, "t5") {
        Some(30)
    } else if is_word(t, "t6") {
        Some(31)
    } else if t.len() > 0 && t[0] == 'x' {
        assert(t@.skip(1) =~= t@.drop_first());
        match decimal_from(t, 1) {
            Some(n) => if n < 32 {
                Some(n as u8)
            } else {
                None
            },
            None => None,
        }
    } else {
        None
    }
}

/// Resolves a register token to its index 0 to 31.
pub fn reg_to_u8(reg: &str) -> (r: Option<u8>)
    ensures
        r == register_spec(reg@),
{
    let t = chars_of(reg);
    register_index(&t)
}

/// The decimal digit character for `d`.
pub open spec fn digit_char(d: nat) -> char {
    seq!['0', '1', '2', '3', '4', '5', '6', '7', '8', '9'][d as int]
}

/// The numeric name `xN` of register `n`.
pub open spec fn numeric_name(n: nat) -> Seq<char> {
    if n < 10 {
        seq!['x', digit_char(n)]
    } else {
        seq!['x', digit_char(n / 10), digit_char(n % 10)]
    }
}

proof fn lemma_digit_char(d: nat)
    requires
        d < 10,
    ensures
        digits_value(seq![digit_char(d)], 10) == Some(d),
{
    let s = seq![digit_char(d)];
    assert(s.drop_last() =~= Seq::<char>::empty());
    assert(s.last() == digit_char(d));
    let digits = seq!['0', '1', '2', '3', '4', '5', '6', '7', '8', '9'];
    assert(digits[d as int] as nat == '0' as nat + d) by {
        assert(d == 0 || d == 1 || d == 2 || d == 3 || d == 4 || d == 5 || d == 6 || d == 7 || d
            == 8 || d == 9);
    }
    assert(digit_value(digit_char(d), 10) == Some(d));
    assert(digits_value(s.drop_last(), 10) == Some(0nat));
    assert(digits_value(s, 10) == Some(0nat * 10 + d));
}

proof fn lemma_no_abi_name_starts_with_x(t: Seq<char>)
    requires
        t.len() > 0,
        t[0] == 'x',
    ensures
        abi_register(t) is None,
{
    reveal_strlit("zero");
    reveal_strlit("ra");
    reveal_strlit("sp");
    reveal_strlit("gp");
    reveal_strlit("tp");
    reveal_strlit("t0");
    reveal_strlit("t1");
    reveal_strlit("t2");
    reveal_strlit("s0");
    reveal_strlit("fp");
    reveal_strlit("s1");
    reveal_strlit("a0");
    reveal_strlit("a1");
    reveal_strlit("a2");
    reveal_strlit("a3");
    reveal_strlit("a4");
    reveal_strlit("a5");
    reveal_strlit("a6");
    reveal_strlit("a7");
    reveal_strlit("s2");
    reveal_strlit("s3");
    reveal_strlit("s4");
    reveal_strlit("s5");
    reveal_strlit("s6");
    reveal_strlit("s7");
    reveal_strlit("s8");
    reveal_strlit("s9");
    reveal_strlit("s10");
    reveal_strlit("s11");
    reveal_strlit("t3");
    reveal_strlit("t4");
    reveal_strlit("t5");
    reveal_strlit("t6");
}

/// Every name of a register resolves to the same index as its numeric name `xN`: an ABI
/// alias and the numeric form never disagree, and every index is below 32.
pub proof fn lemma_register_aliases(t: Seq<char>)
    requires
        register_spec(t) is Some,
    ensures
        register_spec(t)->0 < 32,
        register_spec(numeric_name(register_spec(t)->0 as nat)) == register_spec(t),
{
    let n = register_spec(t)->0 as nat;
    let name = numeric_name(n);
    lemma_no_abi_name_starts_with_x(name);
    let d = name.drop_first();
    assert(d.len() > 0 && d[0] != '+');
    if n < 10 {
        assert(d =~= seq![digit_char(n)]);
        lemma_digit_char(n);
    } else {
        assert(n < 32);
        assert(d.drop_last() =~= seq![digit_char(n / 10)]);
        lemma_digit_char(n / 10);
        lemma_digit_char(n % 10);
        assert(digits_value(d.drop_last(), 10) == Some(n / 10));
        assert(digits_value(d, 10) == Some(n));
    }
}

} // verus!

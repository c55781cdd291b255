use vstd::prelude::*;

verus! {

/// The value of a digit in the given radix (10 or 16).
pub open spec fn digit_value(c: char, radix: nat) -> Option<nat> {
    if '0' <= c <= '9' && (c as nat) - ('0' as nat) < radix {
        Some((c as nat - '0' as nat) as nat)
    } else if radix == 16 && 'a' <= c <= 'f' {
        Some((c as nat - 'a' as nat + 10) as nat)
    } else if radix == 16 && 'A' <= c <= 'F' {
        Some((c as nat - 'A' as nat + 10) as nat)
    } else {
        None
    }
}

/// The value of a run of digits, most significant first; `None` if one of them is no digit.
pub open spec fn digits_value(s: Seq<char>, radix: nat) -> Option<nat>
    decreases s.len(),
{
    if s.len() == 0 {
        Some(0)
    } else {
        match (digits_value(s.drop_last(), radix), digit_value(s.last(), radix)) {
            (Some(v), Some(d)) => Some(v * radix + d),
            _ => None,
        }
    }
}

/// A numeral without sign: decimal digits, or hexadecimal digits after `0x` or `0X`; at least one digit.
pub open spec fn magnitude(s: Seq<char>) -> Option<nat> {
    if s.len() >= 3 && s[0] == '0' && (s[1] == 'x' || s[1] == 'X') {
        digits_value(s.skip(2), 16)
    } else if s.len() >= 1 {
        digits_value(s, 10)
    } else {
        None
    }
}

/// A decimal numeral with an optional `+`, as a register number is written.
pub open spec fn decimal_value(s: Seq<char>) -> Option<nat> {
    let d = if s.len() > 0 && s[0] == '+' {
        s.drop_first()
    } else {
        s
    };
    if d.len() >= 1 {
        digits_value(d, 10)
    } else {
        None
    }
}

/// An immediate without sign or with `+`, as a `u32`.
pub open spec fn unsigned_imm(s: Seq<char>) -> Option<u32> {
    let m = if s.len() > 0 && s[0] == '+' {
        magnitude(s.drop_first())
    } else {
        magnitude(s)
    };
    match m {
        Some(v) => if v <= u32::MAX {
            Some(v as u32)
        } else {
            None
        },
        None => None,
    }
}

/// An immediate with an optional sign, as an `i32`.
pub open spec fn signed_imm(s: Seq<char>) -> Option<i32> {
    if s.len() > 0 && s[0] == '-' {
        match magnitude(s.drop_first()) {
            Some(v) => if v <= 0x8000_0000 {
                Some((-v) as i32)
            } else {
                None
            },
            None => None,
        }
    } else {
        let m = if s.len() > 0 && s[0] == '+' {
            magnitude(s.drop_first())
        } else {
            magnitude(s)
        };
        match m {
            Some(v) => if v <= 0x7fff_ffff {
                Some(v as i32)
            } else {
                None
            },
            None => None,
        }
    }
}

proof fn lemma_digits_prefix(s: Seq<char>, i: int, radix: nat)
    requires
        0 <= i <= s.len(),
        radix >= 1,
        digits_value(s, radix) is Some,
    ensures
        digits_value(s.take(i), radix) is Some,
        digits_value(s.take(i), radix)->0 <= digits_value(s, radix)->0,
    decreases s.len(),
{
    if i == s.len() {
        assert(s.take(i) =~= s);
    } else {
        lemma_digits_prefix(s.drop_last(), i, radix);
        assert(s.drop_last().take(i) =~= s.take(i));
        let v = digits_value(s.drop_last(), radix)->0;
        let d = digit_value(s.last(), radix)->0;
        assert(v <= v * radix + d) by (nonlinear_arith)
            requires
                radix >= 1,
        ;
    }
}

fn digit_of(c: char, radix: u64) -> (r: Option<u64>)
    requires
        radix == 10 || radix == 16,
    ensures
        r == (match digit_value(c, radix as nat) {
            Some(d) => Some(d as u64),
            None => None,
        }),
        r matches Some(d) ==> d < radix,
{
    if '0' <= c && c <= '9' && (c as u64) - ('0' as u64) < radix {
        Some((c as u64) - ('0' as u64))
    } else if radix == 16 && 'a' <= c && c <= 'f' {
        Some((c as u64) - ('a' as u64) + 10)
    } else if radix == 16 && 'A' <= c && c <= 'F' {
        Some((c as u64) - ('A' as u64) + 10)
    } else {
        None
    }
}

/// The value of the digits of `v` from `lo` on, where it is at most `u32::MAX`.
fn digits_from(v: &Vec<char>, lo: usize, radix: u64) -> (r: Option<u64>)
    requires
        lo <= v.len(),
        radix == 10 || radix == 16,
    ensures
        r == (match digits_value(v@.skip(lo as int), radix as nat) {
            Some(n) => if n <= u32::MAX {
                Some(n as u64)
            } else {
                None
            },
            None => None,
        }),
{
    let ghost s = v@.skip(lo as int);
    let mut acc: u64 = 0;
    let mut i: usize = lo;
    assert(s.take(0) =~= Seq::<char>::empty());
    while i < v.len()
        invariant
            lo <= i <= v.len(),
            s == v@.skip(lo as int),
            radix == 10 || radix == 16,
            acc <= u32::MAX,
            digits_value(s.take(i - lo), radix as nat) == Some(acc as nat),
        decreases v.len() - i,
    {
        assert(s.take(i - lo + 1).drop_last() =~= s.take(i - lo));
        assert(s.take(i - lo + 1).last() == v@[i as int]);
        match digit_of(v[i], radix) {
            None => {
                proof {
                    if digits_value(s, radix as nat) is Some {
                        lemma_digits_prefix(s, i - lo + 1, radix as nat);
                    }
                }
                return None;
            },
            Some(d) => {
                assert(acc * radix + d <= 0xffff_ffffu64 * 16 + 15) by (nonlinear_arith)
                    requires
                        acc <= 0xffff_ffffu64,
                        radix <= 16,
                        d < radix,
                ;
                let next = acc * radix + d;
                if next > 0xffff_ffff {
                    proof {
                        if digits_value(s, radix as nat) is Some {
                            lemma_digits_prefix(s, i - lo + 1, radix as nat);
                        }
                    }
                    return None;
                }
                acc = next;
            },
        }
        i = i + 1;
    }
    assert(s.take(i - lo) =~= s);
    Some(acc)
}

/// `magnitude` of the characters of `v` from `lo` on, where it is at most `u32::MAX`.
fn magnitude_from(v: &Vec<char>, lo: usize) -> (r: Option<u64>)
    requires
        lo <= v.len(),
    ensures
        r == (match magnitude(v@.skip(lo as int)) {
            Some(n) => if n <= u32::MAX {
                Some(n as u64)
            } else {
                None
            },
            None => None,
        }),
{
    let ghost s = v@.skip(lo as int);
    if v.len() - lo >= 3 && v[lo] == '0' && (v[lo + 1] == 'x' || v[lo + 1] == 'X') {
        assert(v@.skip(lo + 2) =~= s.skip(2));
        digits_from(v, lo + 2, 16)
    } else if v.len() - lo >= 1 {
        digits_from(v, lo, 10)
    } else {
        None
    }
}

/// A decimal numeral from `lo` on, with an optional `+`, where its value is at most `u32::MAX`.
pub fn decimal_from(v: &Vec<char>, lo: usize) -> (r: Option<u64>)
    requires
        lo <= v.len(),
    ensures
        r == (match decimal_value(v@.skip(lo as int)) {
            Some(n) => if n <= u32::MAX {
                Some(n as u64)
            } else {
                None
            },
            None => None,
        }),
{
    let ghost s = v@.skip(lo as int);
    let start = if lo < v.len() && v[lo] == '+' {
        assert(v@.skip(lo + 1) =~= s.drop_first());
        lo + 1
    } else {
        lo
    };
    if start < v.len() {
        digits_from(v, start, 10)
    } else {
        None
    }
}

/// Reads an unsigned immediate: an optional `+`, then decimal digits or `0x` and hexadecimal digits.
pub fn parse_unsigned(v: &Vec<char>) -> (r: Option<u32>)
    ensures
        r == unsigned_imm(v@),
{
    assert(v@.skip(0) =~= v@);
    let start: usize = if v.len() > 0 && v[0] == '+' {
        assert(v@.skip(1) =~= v@.drop_first());
        1
    } else {
        0
    };
    match magnitude_from(v, start) {
        Some(n) => Some(n as u32),
        None => None,
    }
}

/// Reads a signed immediate: an optional `+` or `-`, then decimal digits or `0x` and hexadecimal digits.
pub fn parse_signed(v: &Vec<char>) -> (r: Option<i32>)
    ensures
        r == signed_imm(v@),
{
    assert(v@.skip(0) =~= v@);
    if v.len() > 0 && v[0] == '-' {
        assert(v@.skip(1) =~= v@.drop_first());
        match magnitude_from(v, 1) {
            Some(n) => if n <= 0x8000_0000 {
                let w = (0 - (n as i64)) as i32;
                Some(w)
            } else {
                None
            },
            None => None,
        }
    } else {
        let start: usize = if v.len() > 0 && v[0] == '+' {
            assert(v@.skip(1) =~= v@.drop_first());
            1
        } else {
            0
        };
        match magnitude_from(v, start) {
            Some(n) => if n <= 0x7fff_ffff {
                Some(n as i32)
            } else {
                None
            },
            None => None,
        }
    }
}

} // verus!

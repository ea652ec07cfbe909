//! Decimal text for 64- and 128-bit unsigned integers.
//!
//! The host platform's wire format cannot carry 64/128-bit integers
//! natively, so they cross every public boundary as decimal strings.
//! `dec_digits` is the canonical spelling of a number; `dec_value` reads
//! any digit string back.

use vstd::prelude::*;

verus! {

/// Whether `c` is a decimal digit.
pub open spec fn is_digit(c: char) -> bool {
    '0' <= c && c <= '9'
}

/// The numeric value of the digit `c`.
pub open spec fn digit_val(c: char) -> nat {
    (c as int - '0' as int) as nat
}

/// The digit spelling the value `d`.
pub open spec fn digit_char(d: nat) -> char {
    if d == 0 {
        '0'
    } else if d == 1 {
        '1'
    } else if d == 2 {
        '2'
    } else if d == 3 {
        '3'
    } else if d == 4 {
        '4'
    } else if d == 5 {
        '5'
    } else if d == 6 {
        '6'
    } else if d == 7 {
        '7'
    } else if d == 8 {
        '8'
    } else {
        '9'
    }
}

/// The canonical decimal spelling of `n`: no sign, no leading zero
/// except for zero itself.
pub open spec fn dec_digits(n: nat) -> Seq<char>
    decreases n,
{
    if n < 10 {
        seq![digit_char(n)]
    } else {
        dec_digits(n / 10).push(digit_char(n % 10))
    }
}

/// Whether every character of `s` is a decimal digit.
pub open spec fn all_digits(s: Seq<char>) -> bool {
    forall|i: int| 0 <= i < s.len() ==> is_digit(s[i])
}

/// The number a digit string denotes (most significant digit first).
pub open spec fn dec_value(s: Seq<char>) -> nat
    decreases s.len(),
{
    if s.len() == 0 {
        0
    } else {
        dec_value(s.drop_last()) * 10 + digit_val(s.last())
    }
}

/// Whether `s` is a digit string denoting a value that fits in `u128`.
pub open spec fn is_u128_digits(s: Seq<char>) -> bool {
    s.len() > 0 && all_digits(s) && dec_value(s) <= u128::MAX as nat
}

/// The value of a prefix of a digit string never exceeds the value of
/// the whole string.
pub proof fn lemma_dec_value_prefix_le(s: Seq<char>, i: int)
    requires
        all_digits(s),
        0 <= i <= s.len(),
    ensures
        dec_value(s.subrange(0, i)) <= dec_value(s),
    decreases s.len() - i,
{
    if i == s.len() {
        assert(s.subrange(0, i) =~= s);
    } else {
        let shorter = s.subrange(0, i);
        let longer = s.subrange(0, i + 1);
        assert(longer.drop_last() =~= shorter);
        assert(dec_value(shorter) * 10 >= dec_value(shorter) * 1) by (nonlinear_arith);
        lemma_dec_value_prefix_le(s, i + 1);
    }
}

/// Reading the canonical spelling of `n` back gives `n`; the spelling is
/// all digits and non-empty.
pub proof fn lemma_dec_digits_value(n: nat)
    ensures
        dec_value(dec_digits(n)) == n,
        all_digits(dec_digits(n)),
        dec_digits(n).len() > 0,
    decreases n,
{
    if n < 10 {
        let s = dec_digits(n);
        assert(s.drop_last() =~= Seq::<char>::empty());
        assert(dec_value(s.drop_last()) == 0);
        assert(dec_value(s) == digit_val(digit_char(n)));
    } else {
        lemma_dec_digits_value(n / 10);
        let s = dec_digits(n);
        assert(s.drop_last() =~= dec_digits(n / 10));
        assert(s.last() == digit_char(n % 10));
        assert(digit_val(digit_char(n % 10)) == n % 10);
        assert(dec_value(s) == (n / 10) * 10 + n % 10);
        assert(n == (n / 10) * 10 + n % 10) by (nonlinear_arith);
        assert(all_digits(s)) by {
            assert(forall|i: int|
                0 <= i < s.len() - 1 ==> s[i] == dec_digits(n / 10)[i] && is_digit(s[i]));
        }
    }
}

/// Returns the one-character string spelling the digit `d`.
fn digit_to_str(d: u64) -> (r: &'static str)
    requires
        d < 10,
    ensures
        r@ =~= seq![digit_char(d as nat)],
{
    proof {
        reveal_strlit("0");
        reveal_strlit("1");
        reveal_strlit("2");
        reveal_strlit("3");
        reveal_strlit("4");
        reveal_strlit("5");
        reveal_strlit("6");
        reveal_strlit("7");
        reveal_strlit("8");
        reveal_strlit("9");
    }
    match d {
        0 => "0",
        1 => "1",
        2 => "2",
        3 => "3",
        4 => "4",
        5 => "5",
        6 => "6",
        7 => "7",
        8 => "8",
        _ => "9",
    }
}

/// Formats `n` as its canonical decimal spelling.
pub fn u64_to_string(n: u64) -> (r: String)
    ensures
        r@ == dec_digits(n as nat),
    decreases n,
{
    let d: u64 = n % 10;
    let ds: &str = digit_to_str(d);
    if n < 10 {
        String::from_str(ds)
    } else {
        let mut s: String = u64_to_string(n / 10);
        s.append(ds);
        proof {
            assert(dec_digits((n / 10) as nat) + seq![digit_char(d as nat)]
                =~= dec_digits(n as nat));
        }
        s
    }
}

/// Formats `n` as its canonical decimal spelling.
pub fn u128_to_string(n: u128) -> (r: String)
    ensures
        r@ == dec_digits(n as nat),
    decreases n,
{
    let d: u128 = n % 10;
    let ds: &str = digit_to_str(d as u64);
    if n < 10 {
        String::from_str(ds)
    } else {
        let mut s: String = u128_to_string(n / 10);
        s.append(ds);
        proof {
            assert(dec_digits((n / 10) as nat) + seq![digit_char(d as nat)]
                =~= dec_digits(n as nat));
        }
        s
    }
}

/// Returns the value of `c` if it is a decimal digit.
fn digit_of(c: char) -> (r: Option<u64>)
    ensures
        match r {
            Some(d) => is_digit(c) && d as nat == digit_val(c) && d < 10,
            None => !is_digit(c),
        },
{
    match c {
        '0' => Some(0),
        '1' => Some(1),
        '2' => Some(2),
        '3' => Some(3),
        '4' => Some(4),
        '5' => Some(5),
        '6' => Some(6),
        '7' => Some(7),
        '8' => Some(8),
        '9' => Some(9),
        _ => None,
    }
}

/// Reads a decimal `u128` from `s`: the whole of `s` must be digits and
/// the value must fit.
pub fn parse_u128(s: &str) -> (r: Option<u128>)
    ensures
        match r {
            Some(v) => is_u128_digits(s@) && v as nat == dec_value(s@),
            None => !is_u128_digits(s@),
        },
{
    let len: usize = s.unicode_len();
    if len == 0 {
        return None;
    }
    let mut acc: u128 = 0;
    let mut i: usize = 0;
    while i < len
        invariant
            0 <= i <= len,
            len == s@.len(),
            all_digits(s@.subrange(0, i as int)),
            acc as nat == dec_value(s@.subrange(0, i as int)),
        decreases len - i,
    {
        let c: char = s.get_char(i);
        match digit_of(c) {
            None => {
                return None;
            },
            Some(d) => {
                let d128: u128 = d as u128;
                if acc > (u128::MAX - d128) / 10 {
                    proof {
                        let pre = s@.subrange(0, i as int);
                        let ext = s@.subrange(0, i as int + 1);
                        assert(ext.drop_last() =~= pre);
                        let m: int = u128::MAX as int;
                        assert(acc as int * 10 + d128 as int > m) by (nonlinear_arith)
                            requires
                                acc as int > (m - d128 as int) / 10,
                                m - d128 as int == 10 * ((m - d128 as int) / 10) + (m
                                    - d128 as int) % 10,
                                0 <= (m - d128 as int) % 10 < 10,
                        ;
                        lemma_dec_value_prefix_le(ext, i as int + 1);
                        assert(forall|j: int| 0 <= j < ext.len() ==> is_digit(ext[j]));
                        lemma_subrange_digits_imply_whole(s@, ext);
                    }
                    return None;
                }
                proof {
                    let m: int = u128::MAX as int;
                    assert(acc as int * 10 + d128 as int <= m) by (nonlinear_arith)
                        requires
                            acc as int <= (m - d128 as int) / 10,
                            m - d128 as int == 10 * ((m - d128 as int) / 10) + (m - d128 as int)
                                % 10,
                            0 <= (m - d128 as int) % 10,
                            0 <= acc as int,
                            0 <= d128 as int,
                    ;
                    let pre = s@.subrange(0, i as int);
                    let ext = s@.subrange(0, i as int + 1);
                    assert(ext.drop_last() =~= pre);
                }
                acc = acc * 10 + d128;
                i = i + 1;
            },
        }
    }
    proof {
        assert(s@.subrange(0, len as int) =~= s@);
    }
    Some(acc)
}

/// If every character of the extension `ext` of a prefix chain is a
/// digit but the whole string has value beyond `u128`, the whole string
/// cannot be `u128` digits whenever a prefix already exceeds the bound.
proof fn lemma_subrange_digits_imply_whole(s: Seq<char>, ext: Seq<char>)
    requires
        ext == s.subrange(0, ext.len() as int),
        ext.len() <= s.len(),
        dec_value(ext) > u128::MAX as nat,
    ensures
        !is_u128_digits(s),
{
    if all_digits(s) {
        lemma_dec_value_prefix_le(s, ext.len() as int);
        assert(s.subrange(0, ext.len() as int) == ext);
    }
}

} // verus!

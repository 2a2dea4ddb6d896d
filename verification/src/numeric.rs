use vstd::prelude::*;

verus! {

/// The character for one decimal digit value.
pub open spec fn digit_char(d: int) -> char {
    if d == 0 {
        '0'
    } else if d == 1 {
        '1'
    } else if d == 2 {
        '2'
    } else if d == 3 {
        '3'
    } else if d == 4 {
        '4'
    } else if d == 5 {
        '5'
    } else if d == 6 {
        '6'
    } else if d == 7 {
        '7'
    } else if d == 8 {
        '8'
    } else {
        '9'
    }
}

/// The decimal digits of a non-negative integer, most significant first,
/// without leading zeros (a single `'0'` for zero).
pub open spec fn udec_text(n: nat) -> Seq<char>
    decreases n,
{
    if n < 10 {
        seq![digit_char(n as int)]
    } else {
        udec_text(n / 10) + seq![digit_char((n % 10) as int)]
    }
}

/// The canonical decimal text of an integer: a minus sign for negative
/// values, then the digits without leading zeros.
pub open spec fn dec_text(n: int) -> Seq<char> {
    if n < 0 {
        seq!['-'] + udec_text((-n) as nat)
    } else {
        udec_text(n as nat)
    }
}

/// Whether a character is a decimal digit.
pub open spec fn is_digit(c: char) -> bool {
    '0' <= c && c <= '9'
}

/// The numeric value of a digit character.
pub open spec fn digit_val(c: char) -> int {
    c as int - '0' as int
}

/// Whether every character of a sequence is a decimal digit.
pub open spec fn all_digits(s: Seq<char>) -> bool {
    forall|i: int| 0 <= i < s.len() ==> is_digit(#[trigger] s[i])
}

/// The value of a digit sequence read in base ten (leading zeros allowed).
pub open spec fn digits_val(s: Seq<char>) -> int
    decreases s.len(),
{
    if s.len() == 0 {
        0
    } else {
        digits_val(s.drop_last()) * 10 + digit_val(s.last())
    }
}

/// What a numeric text parses to: an optional sign (`+` or `-`) followed by
/// at least one decimal digit, valuing within the signed 64-bit range;
/// anything else is no number.
pub open spec fn parse_dec(s: Seq<char>) -> Option<i64> {
    let signed = s.len() > 0 && (s[0] == '-' || s[0] == '+');
    let neg = s.len() > 0 && s[0] == '-';
    let t = if signed {
        s.skip(1)
    } else {
        s
    };
    if t.len() == 0 || !all_digits(t) {
        None
    } else {
        let v = if neg {
            -digits_val(t)
        } else {
            digits_val(t)
        };
        if i64::MIN <= v <= i64::MAX {
            Some(v as i64)
        } else {
            None
        }
    }
}

/// A digit sequence values at least zero.
proof fn lemma_digits_val_nonneg(t: Seq<char>)
    requires
        all_digits(t),
    ensures
        digits_val(t) >= 0,
    decreases t.len(),
{
    if t.len() > 0 {
        assert(all_digits(t.drop_last()));
        lemma_digits_val_nonneg(t.drop_last());
        assert(is_digit(t.last()));
    }
}

/// A digit sequence values at least any of its prefixes: appending digits
/// never shrinks the value.
proof fn lemma_digits_val_prefix_bound(t: Seq<char>, j: int)
    requires
        all_digits(t),
        0 <= j <= t.len(),
    ensures
        digits_val(t.take(j)) <= digits_val(t),
    decreases t.len() - j,
{
    if j < t.len() {
        assert(t.take(j + 1).drop_last() =~= t.take(j));
        assert(t.take(j + 1).last() == t[j]);
        assert(all_digits(t.take(j)));
        lemma_digits_val_nonneg(t.take(j));
        assert(is_digit(t[j]));
        lemma_digits_val_prefix_bound(t, j + 1);
    } else {
        assert(t.take(j) =~= t);
    }
}

/// The one-character text of a digit value.
fn digit_str(d: u64) -> (r: &'static str)
    requires
        d < 10,
    ensures
        r@ == seq![digit_char(d as int)],
{
    let r: &'static str = if d == 0 {
        "0"
    } else if d == 1 {
        "1"
    } else if d == 2 {
        "2"
    } else if d == 3 {
        "3"
    } else if d == 4 {
        "4"
    } else if d == 5 {
        "5"
    } else if d == 6 {
        "6"
    } else if d == 7 {
        "7"
    } else if d == 8 {
        "8"
    } else {
        "9"
    };
    proof {
        reveal_strlit("0");
        reveal_strlit("1");
        reveal_strlit("2");
        reveal_strlit("3");
        reveal_strlit("4");
        reveal_strlit("5");
        reveal_strlit("6");
        reveal_strlit("7");
        reveal_strlit("8");
        reveal_strlit("9");
        assert(r@ =~= seq![digit_char(d as int)]);
    }
    r
}

/// Appends the decimal digits of `n` to `s`, most significant first.
fn push_unsigned(n: u64, s: &mut String)
    ensures
        final(s)@ == old(s)@ + udec_text(n as nat),
    decreases n,
{
    if n < 10 {
        s.append(digit_str(n));
        proof {
            assert(s@ =~= old(s)@ + udec_text(n as nat));
        }
    } else {
        push_unsigned(n / 10, s);
        s.append(digit_str(n % 10));
        proof {
            assert(s@ =~= old(s)@ + udec_text(n as nat));
        }
    }
}

/// The canonical decimal text of a number: its sign, then its digits.
pub fn number_to_text(n: i64) -> (r: String)
    ensures
        r@ == dec_text(n as int),
{
    let mut s = String::new();
    if n < 0 {
        s.append("-");
        let mag: u64 = (-(n as i128)) as u64;
        proof {
            reveal_strlit("-");
            assert(s@ =~= seq!['-']);
            assert(mag as int == -(n as int));
        }
        push_unsigned(mag, &mut s);
        proof {
            assert(s@ =~= dec_text(n as int));
        }
    } else {
        push_unsigned(n as u64, &mut s);
    }
    s
}

/// Reads a numeric text: an optional sign, then decimal digits, refused
/// when malformed or outside the signed 64-bit range — exactly
/// `parse_dec`.
pub fn text_to_number(s: &str) -> (r: Option<i64>)
    ensures
        r == parse_dec(s@),
{
    let len = s.unicode_len();
    if len == 0 {
        return None;
    }
    let first = s.get_char(0);
    let neg = first == '-';
    let signed = neg || first == '+';
    let start: usize = if signed {
        1
    } else {
        0
    };
    let ghost t = if signed {
        s@.skip(1)
    } else {
        s@
    };
    if start == len {
        proof {
            assert(t.len() == 0);
        }
        return None;
    }
    let mut acc: i64 = 0;
    let mut i = start;
    while i < len
        invariant
            start <= i <= len,
            len == s@.len(),
            start == 1 <==> signed,
            start == 0 || start == 1,
            signed == (s@.len() > 0 && (s@[0] == '-' || s@[0] == '+')),
            neg == (s@.len() > 0 && s@[0] == '-'),
            t == (if signed {
                s@.skip(1)
            } else {
                s@
            }),
            t.len() == len - start,
            forall|jj: int| 0 <= jj < i - start ==> is_digit(#[trigger] t[jj]),
            acc as int == -digits_val(t.take(i - start)),
        decreases len - i,
    {
        let c = s.get_char(i);
        let cv = c as u32;
        let zero_v = '0' as u32;
        let nine_v = '9' as u32;
        if cv < zero_v || cv > nine_v {
            proof {
                assert(t[i - start] == c);
                assert(!is_digit(c));
                assert(!all_digits(t));
            }
            return None;
        }
        let d = (cv - zero_v) as i64;
        proof {
            assert(t[i - start] == c);
            assert(is_digit(c));
            assert(d as int == digit_val(c));
            assert(t.take(i + 1 - start).drop_last() =~= t.take(i - start));
            assert(t.take(i + 1 - start).last() == t[i - start]);
        }
        let next = match acc.checked_mul(10) {
            Some(a) => a.checked_sub(d),
            None => None,
        };
        acc = match next {
            Some(b) => b,
            None => {
                proof {
                    let grown = t.take(i + 1 - start);
                    assert(all_digits(grown));
                    lemma_digits_val_nonneg(grown);
                    assert(digits_val(grown) > i64::MAX as int + 1);
                    if all_digits(t) {
                        lemma_digits_val_prefix_bound(t, i + 1 - start);
                        assert(digits_val(t) > i64::MAX as int + 1);
                    }
                }
                return None;
            },
        };
        i = i + 1;
    }
    proof {
        assert(t.take(len - start) =~= t);
        assert(all_digits(t));
        lemma_digits_val_nonneg(t);
    }
    if neg {
        Some(acc)
    } else {
        if acc == i64::MIN {
            return None;
        }
        Some(-acc)
    }
}

} // verus!

//! Parsing of unsigned decimal literals written as strings, after grouping
//! separators (`_` and `,`) are stripped: an optional leading `+`, then at
//! least one decimal digit. This mirrors the standard library's unsigned
//! `from_str`, with overflow of the target width reported as failure.

use vstd::prelude::*;

verus! {

/// A grouping separator that is stripped before parsing.
pub open spec fn is_separator(c: char) -> bool {
    c == '_' || c == ','
}

/// `s` with every grouping separator removed, order kept.
pub open spec fn strip_separators(s: Seq<char>) -> Seq<char>
    decreases s.len(),
{
    if s.len() == 0 {
        Seq::empty()
    } else {
        let rest = strip_separators(s.drop_last());
        if is_separator(s.last()) {
            rest
        } else {
            rest.push(s.last())
        }
    }
}

/// An ASCII decimal digit.
pub open spec fn is_dec_digit(c: char) -> bool {
    48 <= c as u32 && c as u32 <= 57
}

/// The numeric value of a decimal digit.
pub open spec fn digit_val(c: char) -> nat {
    (c as u32 - 48) as nat
}

/// Every character of `s` is a decimal digit.
pub open spec fn all_dec_digits(s: Seq<char>) -> bool {
    forall|i: int| 0 <= i < s.len() ==> is_dec_digit(#[trigger] s[i])
}

/// The value of a digit string read as a decimal numeral.
pub open spec fn dec_value(s: Seq<char>) -> nat
    decreases s.len(),
{
    if s.len() == 0 {
        0
    } else {
        dec_value(s.drop_last()) * 10 + digit_val(s.last())
    }
}

/// What parsing yields: the numeral's value for an optional `+` followed
/// by one or more decimal digits, and nothing for any other shape.
pub open spec fn spec_parse_decimal(s: Seq<char>) -> Option<nat> {
    let digits = if s.len() > 0 && s[0] == '+' {
        s.drop_first()
    } else {
        s
    };
    if digits.len() > 0 && all_dec_digits(digits) {
        Some(dec_value(digits))
    } else {
        None
    }
}

/// A longer digit string never has a smaller value: the value of a prefix
/// is a lower bound for the value of the whole.
proof fn lemma_dec_value_take_le(s: Seq<char>, i: int)
    requires
        0 <= i <= s.len(),
    ensures
        dec_value(s.take(i)) <= dec_value(s),
    decreases s.len() - i,
{
    if i == s.len() {
        assert(s.take(i) =~= s);
    } else {
        lemma_dec_value_take_le(s, i + 1);
        assert(s.take(i + 1).drop_last() =~= s.take(i));
        assert(s.take(i + 1).last() == s[i]);
        assert(dec_value(s.take(i + 1)) == dec_value(s.take(i)) * 10 + digit_val(s[i]));
        assert(dec_value(s.take(i)) * 10 >= dec_value(s.take(i))) by (nonlinear_arith);
    }
}

/// Removes the grouping separators from `s`, keeping every other
/// character in order.
fn strip_exec(s: &str) -> (r: Vec<char>)
    ensures
        r@ == strip_separators(s@),
{
    let n = s.unicode_len();
    let mut kept: Vec<char> = Vec::new();
    let mut i: usize = 0;
    while i < n
        invariant
            n == s@.len(),
            0 <= i <= n,
            kept@ == strip_separators(s@.take(i as int)),
        decreases n - i,
    {
        let c = s.get_char(i);
        proof {
            assert(s@.take(i + 1).drop_last() =~= s@.take(i as int));
            assert(s@.take(i + 1).last() == s@[i as int]);
        }
        if !(c == '_' || c == ',') {
            kept.push(c);
        }
        i = i + 1;
    }
    proof {
        assert(s@.take(n as int) =~= s@);
    }
    kept
}

/// Parses the already-stripped characters as an unsigned decimal numeral
/// that must fit in a `u128`; yields nothing for a malformed numeral or
/// one whose value exceeds `u128::MAX`.
fn parse_stripped(digits: &Vec<char>) -> (r: Option<u128>)
    ensures
        match spec_parse_decimal(digits@) {
            Some(n) => r == (if n <= u128::MAX { Some(n as u128) } else { None::<u128> }),
            None => r is None,
        },
{
    let start: usize = if digits.len() > 0 && digits[0] == '+' {
        1
    } else {
        0
    };
    let ghost body = if start == 1 {
        digits@.drop_first()
    } else {
        digits@
    };
    proof {
        if start == 1 {
            assert(digits@.skip(1) =~= digits@.drop_first());
        } else {
            assert(digits@.skip(0) =~= digits@);
        }
        assert(body == (if digits@.len() > 0 && digits@[0] == '+' {
            digits@.drop_first()
        } else {
            digits@
        }));
    }
    if start == digits.len() {
        proof {
            assert(body.len() == 0);
            assert(spec_parse_decimal(digits@) is None);
        }
        return None;
    }
    let mut acc: u128 = 0;
    let mut i: usize = start;
    while i < digits.len()
        invariant
            start <= i <= digits@.len(),
            body == digits@.skip(start as int),
            body.len() == digits@.len() - start,
            body.len() > 0,
            body == (if digits@.len() > 0 && digits@[0] == '+' {
                digits@.drop_first()
            } else {
                digits@
            }),
            all_dec_digits(body.take(i - start)),
            acc == dec_value(body.take(i - start)),
        decreases digits@.len() - i,
    {
        let c = digits[i];
        proof {
            assert(body[i - start] == digits@[i as int]);
            assert(body.take(i - start + 1).drop_last() =~= body.take(i - start));
            assert(body.take(i - start + 1).last() == body[i - start]);
        }
        let cv = c as u32;
        if !(48 <= cv && cv <= 57) {
            proof {
                assert(!is_dec_digit(body[i - start]));
                assert(!all_dec_digits(body));
                assert(spec_parse_decimal(digits@) is None);
            }
            return None;
        }
        let d: u128 = (cv - 48) as u128;
        if acc > (u128::MAX - d) / 10 {
            proof {
                let v1 = dec_value(body.take(i - start + 1));
                assert(v1 == acc * 10 + d);
                assert(acc * 10 + d > u128::MAX) by (nonlinear_arith)
                    requires
                        acc > (u128::MAX - d) / 10,
                        d <= 9,
                ;
                if all_dec_digits(body) {
                    lemma_dec_value_take_le(body, i - start + 1);
                    assert(dec_value(body) >= v1);
                    assert(spec_parse_decimal(digits@) == Some(dec_value(body)));
                } else {
                    assert(spec_parse_decimal(digits@) is None);
                }
            }
            return None;
        }
        proof {
            assert(acc * 10 + d <= u128::MAX) by (nonlinear_arith)
                requires
                    acc <= (u128::MAX - d) / 10,
                    d <= 9,
            ;
        }
        acc = acc * 10 + d;
        i = i + 1;
    }
    proof {
        assert(body.take(i - start) =~= body);
    }
    Some(acc)
}

/// Strips grouping separators from `s` and parses the rest as an unsigned
/// decimal numeral fitting in a `u128`.
pub fn parse_decimal_str(s: &String) -> (r: Option<u128>)
    ensures
        match spec_parse_decimal(strip_separators(s@)) {
            Some(n) => r == (if n <= u128::MAX { Some(n as u128) } else { None::<u128> }),
            None => r is None,
        },
{
    let stripped = strip_exec(s.as_str());
    parse_stripped(&stripped)
}

} // verus!

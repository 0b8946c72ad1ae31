//! Numeric arguments: unsigned decimal numbers in which `_` may separate
//! digits.

use vstd::prelude::*;
use vstd::string::*;

use crate::error::{ConfigurationError, WriteError};

verus! {

/// The value of a decimal digit; none for any other character.
pub open spec fn digit_value(c: char) -> Option<nat> {
    if '0' <= c <= '9' {
        Some((c as u32 - '0' as u32) as nat)
    } else {
        None
    }
}

/// The characters of `s` other than `_`, in their order.
pub open spec fn without_separators(s: Seq<char>) -> Seq<char>
    decreases s.len(),
{
    if s.len() == 0 {
        Seq::empty()
    } else if s.last() == '_' {
        without_separators(s.drop_last())
    } else {
        without_separators(s.drop_last()).push(s.last())
    }
}

/// `s` without a `+` in front of it.
pub open spec fn unsigned_part(s: Seq<char>) -> Seq<char> {
    if s.len() > 0 && s[0] == '+' {
        s.drop_first()
    } else {
        s
    }
}

/// Whether every character of `s` is a decimal digit.
pub open spec fn is_digits(s: Seq<char>) -> bool {
    forall|k: int| 0 <= k < s.len() ==> digit_value(#[trigger] s[k]) is Some
}

/// The number that the digits of `s` write in base ten.
pub open spec fn decimal(s: Seq<char>) -> nat
    decreases s.len(),
{
    if s.len() == 0 {
        0
    } else {
        10 * decimal(s.drop_last()) + digit_value(s.last()).unwrap()
    }
}

/// The number that `text` writes: without its `_`, it is one or more decimal
/// digits, after a `+` or not. Any other text writes none.
pub open spec fn count_of(text: Seq<char>) -> Option<nat> {
    let digits = unsigned_part(without_separators(text));
    if digits.len() > 0 && is_digits(digits) {
        Some(decimal(digits))
    } else {
        None
    }
}

/// Reads an unsigned number. The text is refused where it writes no number,
/// or one that does not fit 64 bits.
pub fn parse_count(text: &str) -> (r: Result<u64, WriteError>)
    ensures
        match r {
            Ok(n) => count_of(text@) == Some(n as nat),
            Err(e) => {
                &&& e matches WriteError::Configuration(ConfigurationError::MalformedNumber(t))
                &&& t@ == text@
                &&& count_of(text@) matches Some(n) ==> n > u64::MAX
            },
        },
{
    let n: usize = text.unicode_len();
    let mut i: usize = 0;
    let mut kept: usize = 0;
    let mut digits: usize = 0;
    let mut valid: bool = true;
    let mut overflow: bool = false;
    let mut value: u64 = 0;
    while i < n
        invariant
            n == text@.len(),
            i <= n,
            kept == without_separators(text@.take(i as int)).len(),
            kept <= i,
            digits == unsigned_part(without_separators(text@.take(i as int))).len(),
            valid == is_digits(unsigned_part(without_separators(text@.take(i as int)))),
            valid && !overflow ==> value == decimal(
                unsigned_part(without_separators(text@.take(i as int))),
            ),
            valid && overflow ==> decimal(unsigned_part(without_separators(text@.take(i as int))))
                > u64::MAX,
        decreases n - i,
    {
        let c: char = text.get_char(i);
        let ghost before = without_separators(text@.take(i as int));
        let ghost body = unsigned_part(before);
        proof {
            assert(text@.take(i + 1).drop_last() =~= text@.take(i as int));
            assert(text@.take(i + 1).last() == c);
        }
        if c != '_' {
            let ghost after = before.push(c);
            assert(without_separators(text@.take(i + 1)) == after);
            if c == '+' && kept == 0 {
                assert(unsigned_part(after) =~= Seq::<char>::empty());
            } else {
                assert(unsigned_part(after) =~= body.push(c)) by {
                    if before.len() > 0 && before[0] == '+' {
                        assert(after[0] == '+');
                    }
                }
                assert(unsigned_part(after).drop_last() =~= body);
                proof {
                    if !valid {
                        let k = choose|k: int|
                            0 <= k < body.len() && !(digit_value(#[trigger] body[k]) is Some);
                        assert(unsigned_part(after)[k] == body[k]);
                    }
                }
                if c >= '0' && c <= '9' {
                    if valid && !overflow {
                        let d: u64 = (c as u32 - '0' as u32) as u64;
                        match value.checked_mul(10) {
                            Some(tens) => match tens.checked_add(d) {
                                Some(sum) => {
                                    value = sum;
                                },
                                None => {
                                    overflow = true;
                                },
                            },
                            None => {
                                overflow = true;
                            },
                        }
                    }
                    assert(valid ==> is_digits(unsigned_part(after))) by {
                        if valid {
                            assert forall|k: int| 0 <= k < unsigned_part(after).len() implies digit_value(
                                #[trigger] unsigned_part(after)[k],
                            ) is Some by {
                                if k < body.len() {
                                    assert(unsigned_part(after)[k] == body[k]);
                                }
                            }
                        }
                    }
                } else {
                    assert(!(digit_value(unsigned_part(after)[body.len() as int]) is Some));
                    valid = false;
                }
                digits = digits + 1;
            }
            kept = kept + 1;
        } else {
            assert(without_separators(text@.take(i + 1)) == before);
        }
        i += 1;
    }
    assert(text@.take(n as int) =~= text@);
    if valid && !overflow && digits > 0 {
        Ok(value)
    } else {
        Err(WriteError::Configuration(ConfigurationError::MalformedNumber(text.to_owned())))
    }
}

} // verus!

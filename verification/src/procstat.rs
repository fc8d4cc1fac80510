//! Parsing of the aggregate-CPU-time record: the first line of the
//! host's cumulative CPU-tick counter source. The line carries the
//! `cpu` label followed by space-separated decimal tick counts, one per
//! tick category; the aggregate CPU time is their sum.

use vstd::prelude::*;

verus! {

/// Why the aggregate-CPU-time line could not be parsed.
#[derive(Debug, PartialEq, Eq, Clone, Copy, Structural)]
pub enum ParseStatError {
    /// The line does not start with the aggregate record's `cpu` label.
    NoCpuLabel,
    /// A field after the label holds a character that is neither a space
    /// nor a decimal digit.
    NotNumeric,
    /// The field sum does not fit in 64 bits.
    TooLarge,
}

/// Decimal digit characters.
pub open spec fn is_digit(c: char) -> bool {
    48 <= c as int <= 57
}

/// The value of one decimal digit character.
pub open spec fn digit_val(c: char) -> nat {
    (c as int - 48) as nat
}

/// Left-to-right reading of space-separated decimal fields, summed.
///
/// `cur` is `Some(v)` while inside a field whose digits so far make `v`,
/// and `acc` is the sum of the fields already completed. The result is
/// `None` exactly when some character is neither a space nor a digit.
pub open spec fn sum_fields_from(s: Seq<char>, cur: Option<nat>, acc: nat) -> Option<nat>
    decreases s.len(),
{
    if s.len() == 0 {
        match cur {
            Some(v) => Some(acc + v),
            None => Some(acc),
        }
    } else {
        let c = s[0];
        if c == ' ' {
            match cur {
                Some(v) => sum_fields_from(s.drop_first(), None, acc + v),
                None => sum_fields_from(s.drop_first(), None, acc),
            }
        } else if is_digit(c) {
            match cur {
                Some(v) => sum_fields_from(s.drop_first(), Some(10 * v + digit_val(c)), acc),
                None => sum_fields_from(s.drop_first(), Some(digit_val(c)), acc),
            }
        } else {
            None
        }
    }
}

/// The sum of the space-separated decimal fields of `s`, or `None` if a
/// field fails to parse. A line with no fields sums to zero.
pub open spec fn sum_fields(s: Seq<char>) -> Option<nat> {
    sum_fields_from(s, None, 0)
}

/// The line starts with the aggregate record's `cpu` label.
pub open spec fn has_cpu_label(s: Seq<char>) -> bool {
    s.len() >= 3 && s[0] == 'c' && s[1] == 'p' && s[2] == 'u'
}

/// What the aggregate-CPU-time line denotes: the field sum of a line
/// with the `cpu` label, if every field parses and the sum fits.
pub open spec fn line_total(s: Seq<char>) -> Option<u64> {
    if has_cpu_label(s) {
        match sum_fields(s.skip(3)) {
            Some(n) => if n <= u64::MAX {
                Some(n as u64)
            } else {
                None
            },
            None => None,
        }
    } else {
        None
    }
}

/// Every character is a decimal digit.
pub open spec fn all_digits(s: Seq<char>) -> bool {
    forall|i: int| 0 <= i < s.len() ==> is_digit(#[trigger] s[i])
}

/// The value of a decimal digit string, most significant digit first.
pub open spec fn dec_digits(s: Seq<char>) -> nat
    decreases s.len(),
{
    if s.len() == 0 {
        0
    } else {
        10 * dec_digits(s.take(s.len() - 1)) + digit_val(s.last())
    }
}

/// What a decimal string parses to as a `u64`: its value if it is
/// non-empty, all digits, and within range; nothing otherwise.
pub open spec fn spec_parse_u64(s: Seq<char>) -> Option<u64> {
    if s.len() > 0 && all_digits(s) && dec_digits(s) <= u64::MAX {
        Some(dec_digits(s) as u64)
    } else {
        None
    }
}

/// Saturation point for the running exec-side sum: one past `u64::MAX`.
pub const TICK_SAT: u128 = 0x10000000000000000;

/// Parses a non-empty decimal string as a `u64`; rejects empty input,
/// any non-digit character, and values beyond 64 bits.
pub fn parse_u64(s: &str) -> (r: Option<u64>)
    ensures
        r == spec_parse_u64(s@),
{
    let ghost sv = s@;
    let n = s.unicode_len();
    if n == 0 {
        return None;
    }
    let mut acc: u128 = 0;
    let ghost mut gacc: nat = 0nat;
    let mut i: usize = 0;
    proof {
        assert(sv.take(0) =~= Seq::<char>::empty());
    }
    while i < n
        invariant
            i <= n,
            n == sv.len(),
            sv == s@,
            gacc == dec_digits(sv.take(i as int)),
            acc <= TICK_SAT,
            gacc <= TICK_SAT ==> acc == gacc,
            gacc > TICK_SAT ==> acc == TICK_SAT,
            forall|j: int| 0 <= j < i ==> is_digit(#[trigger] sv[j]),
        decreases n - i,
    {
        let c = s.get_char(i);
        let d = c as u32;
        if !(48 <= d && d <= 57) {
            proof {
                assert(!is_digit(sv[i as int]));
            }
            return None;
        }
        let dv = (d - 48) as u128;
        let next = 10 * acc + dv;
        acc = if next > TICK_SAT {
            TICK_SAT
        } else {
            next
        };
        proof {
            let t = sv.take(i as int + 1);
            assert(t.take(t.len() - 1) =~= sv.take(i as int));
            assert(t.last() == sv[i as int]);
            gacc = 10 * gacc + digit_val(c);
        }
        i = i + 1;
    }
    proof {
        assert(sv.take(n as int) =~= sv);
    }
    if acc > u64::MAX as u128 {
        return None;
    }
    Some(acc as u64)
}

/// Parses the first line of the aggregate-CPU-time source: checks the
/// `cpu` label, splits the remainder into space-separated decimal
/// fields, and returns their sum. Absent fields are simply not there and
/// do not error; a field with a non-digit character does. The sum is
/// exact: a sum beyond 64 bits is reported as `TooLarge`, never
/// truncated.
pub fn parse_proc_stat_line(line: &str) -> (r: Result<u64, ParseStatError>)
    ensures
        ({
            let s = line@;
            match r {
                Ok(v) => has_cpu_label(s) && sum_fields(s.skip(3)) == Some(v as nat),
                Err(ParseStatError::NoCpuLabel) => !has_cpu_label(s),
                Err(ParseStatError::NotNumeric) => has_cpu_label(s) && sum_fields(s.skip(3))
                    is None,
                Err(ParseStatError::TooLarge) => has_cpu_label(s) && (sum_fields(s.skip(3))
                    matches Some(n) && n > u64::MAX),
            }
        }),
{
    let ghost s = line@;
    let n = line.unicode_len();
    if n < 3 || line.get_char(0) != 'c' || line.get_char(1) != 'p' || line.get_char(2) != 'u' {
        return Err(ParseStatError::NoCpuLabel);
    }
    let mut i: usize = 3;
    let mut cur: Option<u128> = None;
    let mut acc: u128 = 0;
    let ghost mut gcur: Option<nat> = None;
    let ghost mut gacc: nat = 0;
    while i < n
        invariant
            3 <= i <= n,
            n == s.len(),
            s == line@,
            has_cpu_label(s),
            sum_fields(s.skip(3)) == sum_fields_from(s.skip(i as int), gcur, gacc),
            acc <= TICK_SAT,
            gacc <= TICK_SAT ==> acc == gacc,
            gacc > TICK_SAT ==> acc == TICK_SAT,
            match (cur, gcur) {
                (Some(cv), Some(gv)) => cv <= TICK_SAT && (gv <= TICK_SAT ==> cv == gv) && (gv
                    > TICK_SAT ==> cv == TICK_SAT),
                (None, None) => true,
                _ => false,
            },
        decreases n - i,
    {
        let c = line.get_char(i);
        proof {
            assert(s.skip(i as int).len() == n - i);
            assert(s.skip(i as int)[0] == s[i as int]);
            assert(s.skip(i as int).drop_first() =~= s.skip(i as int + 1));
        }
        let d = c as u32;
        if c == ' ' {
            match cur {
                Some(cv) => {
                    let sum = acc + cv;
                    acc = if sum > TICK_SAT {
                        TICK_SAT
                    } else {
                        sum
                    };
                    proof {
                        gacc = gacc + gcur->0;
                        gcur = None;
                    }
                },
                None => {
                },
            }
            cur = None;
        } else if 48 <= d && d <= 57 {
            let dv = (d - 48) as u128;
            match cur {
                Some(cv) => {
                    let next = 10 * cv + dv;
                    cur = Some(
                        if next > TICK_SAT {
                            TICK_SAT
                        } else {
                            next
                        },
                    );
                    proof {
                        gcur = Some(10 * gcur->0 + digit_val(c));
                    }
                },
                None => {
                    cur = Some(dv);
                    proof {
                        gcur = Some(digit_val(c));
                    }
                },
            }
        } else {
            proof {
                assert(!is_digit(s[i as int]));
                assert(sum_fields_from(s.skip(i as int), gcur, gacc) is None);
            }
            return Err(ParseStatError::NotNumeric);
        }
        i = i + 1;
    }
    proof {
        assert(s.skip(i as int).len() == 0);
    }
    match cur {
        Some(cv) => {
            let sum = acc + cv;
            acc = if sum > TICK_SAT {
                TICK_SAT
            } else {
                sum
            };
            proof {
                gacc = gacc + gcur->0;
                gcur = None;
            }
        },
        None => {
        },
    }
    if acc > u64::MAX as u128 {
        Err(ParseStatError::TooLarge)
    } else {
        Ok(acc as u64)
    }
}

} // verus!

use vstd::prelude::*;
use vstd::string::StrSliceExecFns;
use crate::error::WalletError;

verus! {

/// The number of sompi — the smallest, indivisible subunit of the ledger's
/// currency — in one whole spectre: eight decimal places.
pub const SOMPI_PER_SPECTRE: u64 = 100_000_000;

/// The number of decimal places a spectre amount may carry.
pub const SPECTRE_DECIMALS: usize = 8;

pub open spec fn is_decimal_digit(c: char) -> bool {
    '0' <= c && c <= '9'
}

pub open spec fn digit_value(c: char) -> int {
    c as int - '0' as int
}

pub open spec fn all_decimal_digits(s: Seq<char>) -> bool {
    forall|i: int| 0 <= i < s.len() ==> is_decimal_digit(s[i])
}

/// The number a string of decimal digits denotes, most significant first.
pub open spec fn digits_value(s: Seq<char>) -> int
    decreases s.len(),
{
    if s.len() == 0 {
        0
    } else {
        digits_value(s.drop_last()) * 10 + digit_value(s.last())
    }
}

pub open spec fn pow10(e: nat) -> int
    decreases e,
{
    if e == 0 {
        1
    } else {
        10 * pow10((e - 1) as nat)
    }
}

/// The sompi value a decimal spectre amount denotes, if it is well formed: a
/// non-empty run of digits, optionally followed by a decimal point and at
/// most eight fractional digits (an amount finer than one sompi is no whole
/// count of subunits and is rejected, not rounded).
pub open spec fn spec_parse_sompi(s: Seq<char>) -> Option<int> {
    if forall|i: int| 0 <= i < s.len() ==> s[i] != '.' {
        if s.len() > 0 && all_decimal_digits(s) {
            Some(digits_value(s) * (SOMPI_PER_SPECTRE as int))
        } else {
            None
        }
    } else {
        let dot = choose|dot: int|
            0 <= dot < s.len() && s[dot] == '.' && forall|j: int| 0 <= j < dot ==> s[j] != '.';
        let integer_part = s.subrange(0, dot);
        let fraction_part = s.subrange(dot + 1, s.len() as int);
        if integer_part.len() > 0 && all_decimal_digits(integer_part) && all_decimal_digits(
            fraction_part,
        ) && fraction_part.len() <= SPECTRE_DECIMALS {
            Some(
                digits_value(integer_part) * (SOMPI_PER_SPECTRE as int) + digits_value(
                    fraction_part,
                ) * pow10((SPECTRE_DECIMALS - fraction_part.len()) as nat),
            )
        } else {
            None
        }
    }
}

proof fn lemma_digits_value_nonneg(s: Seq<char>)
    requires
        all_decimal_digits(s),
    ensures
        digits_value(s) >= 0,
    decreases s.len(),
{
    if s.len() > 0 {
        assert(all_decimal_digits(s.drop_last()));
        lemma_digits_value_nonneg(s.drop_last());
    }
}

proof fn lemma_pow10_pos(e: nat)
    ensures
        pow10(e) >= 1,
    decreases e,
{
    if e > 0 {
        lemma_pow10_pos((e - 1) as nat);
    }
}

proof fn lemma_digits_value_bound(s: Seq<char>)
    requires
        all_decimal_digits(s),
    ensures
        digits_value(s) < pow10(s.len()),
    decreases s.len(),
{
    lemma_digits_value_nonneg(s);
    if s.len() > 0 {
        let prefix = s.drop_last();
        assert(all_decimal_digits(prefix));
        lemma_digits_value_bound(prefix);
        assert(digit_value(s.last()) <= 9);
        assert(digits_value(prefix) <= pow10(prefix.len()) - 1);
        assert(digits_value(s) <= 10 * (pow10(prefix.len()) - 1) + 9);
    }
}

proof fn lemma_pow10_mul(a: nat, b: nat)
    ensures
        pow10(a) * pow10(b) == pow10(a + b),
    decreases a,
{
    if a == 0 {
        assert(pow10(0) * pow10(b) == pow10(b));
    } else {
        lemma_pow10_mul((a - 1) as nat, b);
        assert(pow10(a) * pow10(b) == 10 * (pow10((a - 1) as nat) * pow10(b)))
            by (nonlinear_arith)
            requires
                pow10(a) == 10 * pow10((a - 1) as nat);
    }
}

/// A longer run of digits denotes at least what any prefix of it denotes.
proof fn lemma_digits_prefix_le(s: Seq<char>, i: int)
    requires
        all_decimal_digits(s),
        0 <= i <= s.len(),
    ensures
        digits_value(s.subrange(0, i)) <= digits_value(s),
    decreases s.len() - i,
{
    if i == s.len() {
        assert(s.subrange(0, i) =~= s);
    } else {
        let step = s.subrange(0, i + 1);
        assert(step.drop_last() =~= s.subrange(0, i));
        assert(step.last() == s[i]);
        assert(all_decimal_digits(s.subrange(0, i)));
        lemma_digits_value_nonneg(s.subrange(0, i));
        assert(digits_value(step) == digits_value(s.subrange(0, i)) * 10 + digit_value(s[i]));
        lemma_digits_prefix_le(s, i + 1);
    }
}

/// Parse a run of decimal digits out of `s[from..to]`, reporting its value
/// when it fits in a machine word.
fn parse_digits(s: &str, from: usize, to: usize) -> (r: Option<u64>)
    requires
        from <= to <= s@.len(),
    ensures
        (match r {
            Some(v) => all_decimal_digits(s@.subrange(from as int, to as int)) && digits_value(
                s@.subrange(from as int, to as int),
            ) == v as int,
            None => !all_decimal_digits(s@.subrange(from as int, to as int)) || digits_value(
                s@.subrange(from as int, to as int),
            ) > u64::MAX,
        }),
{
    let ghost sub = s@.subrange(from as int, to as int);
    let mut acc: u64 = 0;
    let mut i: usize = from;
    while i < to
        invariant
            from <= i <= to <= s@.len(),
            sub == s@.subrange(from as int, to as int),
            all_decimal_digits(s@.subrange(from as int, i as int)),
            acc as int == digits_value(s@.subrange(from as int, i as int)),
        decreases to - i,
    {
        let c = s.get_char(i);
        let code = c as u32;
        let ghost scanned = s@.subrange(from as int, i as int);
        let ghost extended = s@.subrange(from as int, i as int + 1);
        proof {
            assert(extended.drop_last() =~= scanned);
            assert(extended.last() == s@[i as int]);
            assert(sub[i - from] == s@[i as int]);
        }
        if code < 48 || code > 57 {
            proof {
                assert(!is_decimal_digit(s@[i as int]));
                assert(!all_decimal_digits(sub));
            }
            return None;
        }
        let digit = (code - 48) as u64;
        proof {
            assert(is_decimal_digit(s@[i as int]));
            assert(digit as int == digit_value(s@[i as int]));
            assert(digits_value(extended) == acc as int * 10 + digit as int);
        }
        if acc > (u64::MAX - digit) / 10 {
            proof {
                assert(acc as int * 10 + digit as int > u64::MAX) by (nonlinear_arith)
                    requires
                        acc as int > (u64::MAX as int - digit as int) / 10,
                        0 <= digit as int <= 9,
                        acc as int >= 0;
                if all_decimal_digits(sub) {
                    assert(extended =~= sub.subrange(0, i - from + 1));
                    assert(all_decimal_digits(extended));
                    lemma_digits_prefix_le(sub, i - from + 1);
                    assert(digits_value(sub) > u64::MAX);
                }
            }
            return None;
        }
        proof {
            assert(acc as int * 10 + digit as int <= u64::MAX) by (nonlinear_arith)
                requires
                    acc as int <= (u64::MAX as int - digit as int) / 10,
                    0 <= digit as int <= 9,
                    acc as int >= 0;
        }
        acc = acc * 10 + digit;
        i = i + 1;
        proof {
            assert(s@.subrange(from as int, i as int) =~= extended);
        }
    }
    proof {
        assert(s@.subrange(from as int, i as int) =~= sub);
    }
    Some(acc)
}

/// The position of the first decimal point, if any.
fn find_dot(s: &str) -> (r: Option<usize>)
    ensures
        (match r {
            Some(dot) => dot < s@.len() && s@[dot as int] == '.' && forall|j: int|
                0 <= j < dot ==> s@[j] != '.',
            None => forall|j: int| 0 <= j < s@.len() ==> s@[j] != '.',
        }),
{
    let n = s.unicode_len();
    let mut i: usize = 0;
    while i < n
        invariant
            i <= n,
            n == s@.len(),
            forall|j: int| 0 <= j < i ==> s@[j] != '.',
        decreases n - i,
    {
        if s.get_char(i) == '.' {
            return Some(i);
        }
        i = i + 1;
    }
    None
}

/// Parse a decimal spectre amount into sompi, requiring it to be present,
/// well formed, non-zero and within range. `"0"`, a negative or otherwise
/// non-numeric string, an amount finer than one sompi and an amount beyond
/// the machine-word range are all rejected as `InvalidAmount`.
pub fn try_parse_required_nonzero_spectre_as_sompi_u64(amount: Option<String>) -> (r: Result<
    u64,
    WalletError,
>)
    ensures
        (match amount {
            None => r == Err::<u64, WalletError>(WalletError::InvalidAmount),
            Some(s) => match spec_parse_sompi(s@) {
                None => r == Err::<u64, WalletError>(WalletError::InvalidAmount),
                Some(v) => if v == 0 || v > u64::MAX {
                    r == Err::<u64, WalletError>(WalletError::InvalidAmount)
                } else {
                    v > 0 && r == Ok::<u64, WalletError>(v as u64)
                },
            },
        }),
{
    let s = match amount {
        Some(s) => s,
        None => {
            return Err(WalletError::InvalidAmount);
        },
    };
    match parse_sompi(s.as_str()) {
        Some(v) if v > 0 => Ok(v),
        _ => Err(WalletError::InvalidAmount),
    }
}

/// Parse a well-formed decimal spectre amount into sompi, if it fits in a
/// machine word.
fn parse_sompi(s: &str) -> (r: Option<u64>)
    ensures
        (match spec_parse_sompi(s@) {
            None => r == None::<u64>,
            Some(v) => if v > u64::MAX {
                r == None::<u64>
            } else {
                v >= 0 && r == Some(v as u64)
            },
        }),
{
    let n = s.unicode_len();
    match find_dot(s) {
        None => {
            if n == 0 {
                return None;
            }
            let digits = match parse_digits(s, 0, n) {
                Some(digits) => digits,
                None => {
                    proof {
                        assert(s@.subrange(0, n as int) =~= s@);
                        no_dot_overflow(s@);
                    }
                    return None;
                },
            };
            proof {
                assert(s@.subrange(0, n as int) =~= s@);
            }
            if digits > u64::MAX / SOMPI_PER_SPECTRE {
                proof {
                    whole_overflow(digits as int);
                }
                return None;
            }
            proof {
                whole_fits(digits as int);
            }
            Some(digits * SOMPI_PER_SPECTRE)
        },
        Some(dot) => {
            let ghost integer_part = s@.subrange(0, dot as int);
            let ghost fraction_part = s@.subrange(dot as int + 1, s@.len() as int);
            proof {
                let chosen = choose|d: int|
                    0 <= d < s@.len() && s@[d] == '.' && forall|j: int| 0 <= j < d ==> s@[j] != '.';
                assert(0 <= dot < s@.len() && s@[dot as int] == '.' && forall|j: int|
                    0 <= j < dot ==> s@[j] != '.');
                if chosen < dot {
                    assert(s@[chosen] != '.');
                }
                if dot < chosen {
                    assert(s@[dot as int] != '.');
                }
                assert(chosen == dot as int);
            }
            if dot == 0 {
                return None;
            }
            let fraction_len = n - dot - 1;
            if fraction_len > SPECTRE_DECIMALS {
                return None;
            }
            let integer_digits = match parse_digits(s, 0, dot) {
                Some(digits) => digits,
                None => {
                    proof {
                        dotted_overflow(s@, dot as int);
                    }
                    return None;
                },
            };
            let fraction_digits = match parse_digits(s, dot + 1, n) {
                Some(digits) => digits,
                None => {
                    proof {
                        fraction_never_overflows(fraction_part);
                    }
                    return None;
                },
            };
            let scale = pow10_u64(SPECTRE_DECIMALS - fraction_len);
            proof {
                lemma_digits_value_bound(fraction_part);
                lemma_scaled_fraction_bound(
                    fraction_digits as int,
                    scale as int,
                    fraction_part.len(),
                );
            }
            let scaled_fraction = fraction_digits * scale;
            if integer_digits > u64::MAX / SOMPI_PER_SPECTRE {
                proof {
                    whole_overflow(integer_digits as int);
                    lemma_digits_value_nonneg(fraction_part);
                    lemma_pow10_pos((SPECTRE_DECIMALS as nat - fraction_part.len()) as nat);
                    assert(digits_value(fraction_part) * pow10(
                        (SPECTRE_DECIMALS as nat - fraction_part.len()) as nat,
                    ) >= 0) by (nonlinear_arith)
                        requires
                            digits_value(fraction_part) >= 0,
                            pow10((SPECTRE_DECIMALS as nat - fraction_part.len()) as nat) >= 1;
                }
                return None;
            }
            proof {
                whole_fits(integer_digits as int);
            }
            let base = integer_digits * SOMPI_PER_SPECTRE;
            if base > u64::MAX - scaled_fraction {
                return None;
            }
            Some(base + scaled_fraction)
        },
    }
}

/// A fractional part scaled up to sompi always stays below one whole
/// spectre.
proof fn lemma_scaled_fraction_bound(digits: int, scale: int, frac_len: nat)
    requires
        frac_len <= 8,
        0 <= digits,
        digits < pow10(frac_len),
        scale == pow10((8 - frac_len) as nat),
    ensures
        0 <= digits * scale < 100000000,
{
    let ghost complement = pow10((8 - frac_len) as nat);
    lemma_pow10_pos((8 - frac_len) as nat);
    lemma_pow10_mul(frac_len, (8 - frac_len) as nat);
    reveal_with_fuel(pow10, 9);
    assert(pow10(frac_len) * complement == 100000000);
    assert(0 <= digits * scale < 100000000) by (nonlinear_arith)
        requires
            0 <= digits,
            digits < pow10(frac_len),
            scale == complement,
            complement >= 1,
            pow10(frac_len) * complement == 100000000;
}

/// Without a decimal point, a malformed or oversized digit run means the
/// whole amount is malformed or oversized.
proof fn no_dot_overflow(s: Seq<char>)
    requires
        forall|i: int| 0 <= i < s.len() ==> s[i] != '.',
        !all_decimal_digits(s) || digits_value(s) > u64::MAX,
    ensures
        (match spec_parse_sompi(s) {
            None => true,
            Some(v) => v > u64::MAX,
        }),
{
    if all_decimal_digits(s) && s.len() > 0 {
        lemma_digits_value_nonneg(s);
        assert(digits_value(s) * (SOMPI_PER_SPECTRE as int) > u64::MAX) by (nonlinear_arith)
            requires
                digits_value(s) > u64::MAX;
    }
}

/// With a decimal point, a malformed or oversized integer part means the
/// whole amount is malformed or oversized.
proof fn dotted_overflow(s: Seq<char>, dot: int)
    requires
        0 <= dot < s.len(),
        s[dot] == '.',
        forall|j: int| 0 <= j < dot ==> s[j] != '.',
        !all_decimal_digits(s.subrange(0, dot)) || digits_value(s.subrange(0, dot)) > u64::MAX,
    ensures
        (match spec_parse_sompi(s) {
            None => true,
            Some(v) => v > u64::MAX,
        }),
{
    let integer_part = s.subrange(0, dot);
    let fraction_part = s.subrange(dot + 1, s.len() as int);
    if all_decimal_digits(integer_part) && all_decimal_digits(fraction_part) && integer_part.len()
        > 0 && fraction_part.len() <= SPECTRE_DECIMALS {
        lemma_digits_value_nonneg(integer_part);
        lemma_digits_value_nonneg(fraction_part);
        lemma_pow10_pos((SPECTRE_DECIMALS - fraction_part.len()) as nat);
        assert(digits_value(integer_part) * (SOMPI_PER_SPECTRE as int) > u64::MAX)
            by (nonlinear_arith)
            requires
                digits_value(integer_part) > u64::MAX;
        assert(digits_value(fraction_part) * pow10(
            (SPECTRE_DECIMALS - fraction_part.len()) as nat,
        ) >= 0) by (nonlinear_arith)
            requires
                digits_value(fraction_part) >= 0,
                pow10((SPECTRE_DECIMALS - fraction_part.len()) as nat) >= 1;
    }
}

/// At most eight fractional digits always fit in a machine word.
proof fn fraction_never_overflows(fraction_part: Seq<char>)
    requires
        fraction_part.len() <= SPECTRE_DECIMALS,
        !all_decimal_digits(fraction_part) || digits_value(fraction_part) > u64::MAX,
    ensures
        !all_decimal_digits(fraction_part),
{
    if all_decimal_digits(fraction_part) {
        lemma_digits_value_bound(fraction_part);
        reveal_with_fuel(pow10, 9);
        assert(pow10(8) == 100000000);
        lemma_pow10_mul(fraction_part.len(), (8 - fraction_part.len()) as nat);
        lemma_pow10_pos(fraction_part.len());
        lemma_pow10_pos((8 - fraction_part.len()) as nat);
        assert(pow10(fraction_part.len()) * pow10((8 - fraction_part.len()) as nat) >= pow10(
            fraction_part.len(),
        ) * 1) by (nonlinear_arith)
            requires
                pow10((8 - fraction_part.len()) as nat) >= 1,
                pow10(fraction_part.len()) >= 1;
        assert(pow10(fraction_part.len()) <= pow10(8));
    }
}

/// Scaling a count of whole spectre past the division bound overflows.
proof fn whole_overflow(digits: int)
    requires
        digits > u64::MAX as int / SOMPI_PER_SPECTRE as int,
    ensures
        digits * (SOMPI_PER_SPECTRE as int) > u64::MAX,
{
    assert(digits * (SOMPI_PER_SPECTRE as int) > u64::MAX) by (nonlinear_arith)
        requires
            digits > u64::MAX as int / SOMPI_PER_SPECTRE as int;
}

/// Scaling a count of whole spectre within the division bound fits.
proof fn whole_fits(digits: int)
    requires
        0 <= digits <= u64::MAX as int / SOMPI_PER_SPECTRE as int,
    ensures
        0 <= digits * (SOMPI_PER_SPECTRE as int) <= u64::MAX,
{
    assert(digits * (SOMPI_PER_SPECTRE as int) <= u64::MAX) by (nonlinear_arith)
        requires
            0 <= digits <= u64::MAX as int / SOMPI_PER_SPECTRE as int;
}

/// A small power of ten.
fn pow10_u64(e: usize) -> (r: u64)
    requires
        e <= 8,
    ensures
        r as int == pow10(e as nat),
{
    proof {
        reveal_with_fuel(pow10, 9);
    }
    let mut acc: u64 = 1;
    let mut i: usize = 0;
    while i < e
        invariant
            i <= e <= 8,
            acc as int == pow10(i as nat),
            acc <= 100000000,
        decreases e - i,
    {
        proof {
            reveal_with_fuel(pow10, 9);
            lemma_pow10_pos((8 - i - 1) as nat);
            lemma_pow10_mul((i + 1) as nat, (8 - i - 1) as nat);
            assert(pow10((i + 1) as nat) * pow10((8 - i - 1) as nat) == pow10(8));
            assert(10 * acc as int <= 100000000) by (nonlinear_arith)
                requires
                    acc as int == pow10(i as nat),
                    pow10((i + 1) as nat) == 10 * pow10(i as nat),
                    pow10((i + 1) as nat) * pow10((8 - i - 1) as nat) == 100000000,
                    pow10((8 - i - 1) as nat) >= 1,
                    pow10((i + 1) as nat) >= 1,
                    acc >= 1;
        }
        acc = acc * 10;
        i = i + 1;
    }
    acc
}

} // verus!

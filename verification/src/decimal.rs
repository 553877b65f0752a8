//! Exact decimal numbers.
//!
//! Settings cells carry numerals as free text ("1.5", "-2e-3").  The
//! engine keeps them exactly as written: a sign, an integer
//! significand, and a power of ten, so that every later comparison and
//! unit conversion is exact integer work.

use crate::text::{all_digits, digits_val, is_digit, lemma_digits_val_mono};
use vstd::prelude::*;

verus! {

/// `value = (-1)^neg * mant * 10^exp`.  The significand and exponent
/// are kept as written in the source text, without normalization.
#[derive(Debug, Clone, Copy, PartialEq, Eq, Structural)]
pub struct Decimal {
    pub neg: bool,
    pub mant: u64,
    pub exp: i64,
}

/// Exponent magnitudes accepted from an exponent marker; far beyond
/// anything an instrument writes, yet small enough that later unit
/// scaling cannot overflow the exponent field.
pub const MAX_EXP_MAG: u64 = 1000000000;

/// Length of the maximal digit prefix.
pub open spec fn digit_run(s: Seq<char>) -> nat
    decreases s.len(),
{
    if s.len() == 0 {
        0
    } else if !is_digit(s[0]) {
        0
    } else {
        1 + digit_run(s.drop_first())
    }
}

pub proof fn lemma_digit_run_bound(s: Seq<char>)
    ensures
        digit_run(s) <= s.len(),
        forall|j: int| 0 <= j < digit_run(s) ==> is_digit(#[trigger] s[j]),
        digit_run(s) < s.len() ==> !is_digit(s[digit_run(s) as int]),
    decreases s.len(),
{
    if s.len() > 0 && is_digit(s[0]) {
        lemma_digit_run_bound(s.drop_first());
        let t = s.drop_first();
        assert forall|j: int| 0 <= j < digit_run(s) implies is_digit(#[trigger] s[j]) by {
            if j > 0 {
                assert(s[j] == t[j - 1]);
            }
        }
    }
}

pub proof fn lemma_digit_run_exact(s: Seq<char>, k: int)
    requires
        0 <= k <= s.len(),
        forall|j: int| 0 <= j < k ==> is_digit(#[trigger] s[j]),
        k < s.len() ==> !is_digit(s[k]),
    ensures
        digit_run(s) == k,
    decreases s.len(),
{
    if s.len() > 0 && is_digit(s[0]) {
        let t = s.drop_first();
        assert forall|j: int| 0 <= j < k - 1 implies is_digit(#[trigger] t[j]) by {
            assert(t[j] == s[j + 1]);
        }
        lemma_digit_run_exact(t, k - 1);
    }
}

/// The numeral grammar of a settings cell:
/// `[+-]? digits [. digits]? ([eE] [+-]? digits)?`, with at least one
/// digit in the significand.  Rejected: anything else, a significand
/// above `u64::MAX`, an exponent magnitude above `MAX_EXP_MAG`.
pub open spec fn parse_decimal_v(s: Seq<char>) -> Option<Decimal> {
    let neg = s.len() > 0 && s[0] == '-';
    let body = if s.len() > 0 && (s[0] == '-' || s[0] == '+') {
        s.drop_first()
    } else {
        s
    };
    let k1 = digit_run(body) as int;
    let after_int = body.subrange(k1, body.len() as int);
    let k2 = if after_int.len() > 0 && after_int[0] == '.' {
        digit_run(after_int.drop_first()) as int
    } else {
        0
    };
    let frac = if after_int.len() > 0 && after_int[0] == '.' {
        after_int.subrange(1, 1 + k2)
    } else {
        Seq::<char>::empty()
    };
    let after_frac = if after_int.len() > 0 && after_int[0] == '.' {
        after_int.subrange(1 + k2, after_int.len() as int)
    } else {
        after_int
    };
    let mant_digits = body.subrange(0, k1) + frac;
    if mant_digits.len() == 0 || digits_val(mant_digits) > u64::MAX || k2 > MAX_EXP_MAG {
        None
    } else {
        tail_v(after_frac, neg, digits_val(mant_digits) as u64, k2)
    }
}

/// What follows the significand: nothing, or an exponent marker that
/// must reach the end of the text.
pub open spec fn tail_v(after_frac: Seq<char>, neg: bool, mant: u64, k2: int) -> Option<Decimal> {
    if after_frac.len() == 0 {
        Some(Decimal { neg, mant, exp: (0 - k2) as i64 })
    } else if after_frac[0] == 'e' || after_frac[0] == 'E' {
        let etail = after_frac.drop_first();
        let eneg = etail.len() > 0 && etail[0] == '-';
        let edigits = if etail.len() > 0 && (etail[0] == '-' || etail[0] == '+') {
            etail.drop_first()
        } else {
            etail
        };
        if edigits.len() == 0 || !all_digits(edigits) || digits_val(edigits) > MAX_EXP_MAG {
            None
        } else {
            let e = if eneg {
                0 - digits_val(edigits)
            } else {
                digits_val(edigits)
            };
            Some(Decimal { neg, mant, exp: (e - k2) as i64 })
        }
    } else {
        None
    }
}

/// Scan the digit run starting at `i`, accumulating its value onto
/// `acc` as if the digits were appended to `acc`'s digit string.
/// Returns the end of the run and the value, or `None` when the
/// combined value leaves `u64`.
fn scan_digits(s: &str, i: usize, acc: u64, Ghost(prefix): Ghost<Seq<char>>) -> (r: Option<
    (usize, u64),
>)
    requires
        i <= s@.len(),
        s@.len() <= usize::MAX,
        all_digits(prefix),
        acc == digits_val(prefix),
    ensures
        ({
            let k = digit_run(s@.subrange(i as int, s@.len() as int)) as int;
            let run = s@.subrange(i as int, i + k);
            match r {
                Some((j, v)) => {
                    &&& j == i + k
                    &&& v == digits_val(prefix + run)
                    &&& v <= u64::MAX
                },
                None => digits_val(prefix + run) > u64::MAX,
            }
        }),
{
    let n = s.unicode_len();
    let mut j = i;
    let mut acc = acc;
    let ghost whole = s@.subrange(i as int, s@.len() as int);
    loop
        invariant
            i <= j <= n,
            n == s@.len(),
            whole == s@.subrange(i as int, s@.len() as int),
            all_digits(prefix),
            forall|t: int| i <= t < j ==> is_digit(#[trigger] s@[t]),
            acc == digits_val(prefix + s@.subrange(i as int, j as int)),
            all_digits(prefix + s@.subrange(i as int, j as int)),
            acc <= u64::MAX,
        ensures
            j == n || !is_digit(s@[j as int]),
            acc == digits_val(prefix + s@.subrange(i as int, j as int)),
            j <= n,
        decreases n - j,
    {
        if j >= n {
            break;
        }
        let c = s.get_char(j);
        if !('0' <= c && c <= '9') {
            break;
        }
        let d: u64 = (c as u32 - 48) as u64;
        let ghost pre = prefix + s@.subrange(i as int, j as int);
        let ghost cur = prefix + s@.subrange(i as int, j + 1);
        proof {
            assert(cur.drop_last() =~= pre);
            assert(cur.last() == s@[j as int]);
            assert(digits_val(cur) == acc * 10 + d);
            assert(all_digits(cur));
        }
        if acc > (u64::MAX - d) / 10 {
            proof {
                assert(acc * 10 + d > u64::MAX) by (nonlinear_arith)
                    requires
                        acc > (u64::MAX - d) / 10,
                        d <= u64::MAX,
                        (u64::MAX - d) / 10 * 10 + (u64::MAX - d) % 10 == u64::MAX - d,
                        0 <= (u64::MAX - d) % 10 < 10,
                        d >= 0,
                ;
                let k = digit_run(whole) as int;
                lemma_digit_run_bound(whole);
                assert forall|t: int| 0 <= t < j + 1 - i implies is_digit(#[trigger] whole[t]) by {
                    assert(whole[t] == s@[i + t]);
                }
                assert(j + 1 - i <= k) by {
                    if k < j + 1 - i {
                        assert(is_digit(whole[k]));
                    }
                }
                let full = prefix + s@.subrange(i as int, i + k);
                assert(cur =~= full.subrange(0, prefix.len() + (j + 1 - i)));
                assert(all_digits(full)) by {
                    assert(forall|t: int|
                        0 <= t < k ==> #[trigger] full[prefix.len() + t] == whole[t]);
                    assert(forall|t: int|
                        0 <= t < full.len() ==> is_digit(#[trigger] full[t]) == (if t
                            < prefix.len() {
                            is_digit(prefix[t])
                        } else {
                            is_digit(whole[t - prefix.len()])
                        }));
                }
                lemma_digits_val_mono(full, prefix.len() + (j + 1 - i));
            }
            return None;
        }
        acc = acc * 10 + d;
        j = j + 1;
        proof {
            assert(s@.subrange(i as int, j as int) =~= s@.subrange(i as int, j - 1).push(
                s@[j - 1],
            ));
        }
    }
    proof {
        let k = digit_run(whole) as int;
        assert forall|t: int| 0 <= t < j - i implies is_digit(#[trigger] whole[t]) by {
            assert(whole[t] == s@[i + t]);
        }
        if (j as int) - i < whole.len() {
            assert(whole[j - i] == s@[j as int]);
        }
        lemma_digit_run_exact(whole, j - i);
        assert(s@.subrange(i as int, j as int) =~= s@.subrange(i as int, i + k));
    }
    Some((j, acc))
}

/// Parse one settings numeral exactly as `parse_decimal_v` reads it.
#[verifier::rlimit(100)]
#[verifier::spinoff_prover]
pub fn parse_decimal(s: &str) -> (r: Option<Decimal>)
    ensures
        r == parse_decimal_v(s@),
{
    let n = s.unicode_len();
    let mut i: usize = 0;
    let mut neg = false;
    if n > 0 {
        let c0 = s.get_char(0);
        if c0 == '-' {
            neg = true;
            i = 1;
        } else if c0 == '+' {
            i = 1;
        }
    }
    let ghost body = if s@.len() > 0 && (s@[0] == '-' || s@[0] == '+') {
        s@.drop_first()
    } else {
        s@
    };
    proof {
        assert(body =~= s@.subrange(i as int, s@.len() as int));
    }
    // integer digits
    let ghost k1 = digit_run(body) as int;
    let ghost after_int = body.subrange(k1, body.len() as int);
    let ghost int_digits = body.subrange(0, k1);
    let ghost empty_prefix = Seq::<char>::empty();
    let int_scan = scan_digits(s, i, 0, Ghost(empty_prefix));
    proof {
        lemma_digit_run_bound(body);
        assert(empty_prefix + s@.subrange(i as int, i + k1) =~= s@.subrange(i as int, i + k1));
        assert(int_digits =~= s@.subrange(i as int, i + k1));
    }
    let (j1, mant1) = match int_scan {
        Some(p) => p,
        None => {
            proof {
                lemma_frac_digits(body);
                let mant_all = int_digits + spec_frac_digits(body);
                assert(all_digits(mant_all)) by {
                    assert forall|t: int| 0 <= t < mant_all.len() implies is_digit(
                        #[trigger] mant_all[t],
                    ) by {
                        if t < k1 {
                            assert(mant_all[t] == body[t]);
                        } else {
                            assert(mant_all[t] == spec_frac_digits(body)[t - k1]);
                        }
                    }
                }
                assert(int_digits =~= mant_all.subrange(0, k1));
                lemma_digits_val_mono(mant_all, k1);
            }
            return None;
        },
    };
    proof {
        assert(after_int =~= s@.subrange(j1 as int, s@.len() as int));
    }
    // optional fraction
    let mut j2 = j1;
    let mut mant = mant1;
    let had_frac = has_frac_runtime(s, j1, n);
    let ghost has_frac = after_int.len() > 0 && after_int[0] == '.';
    let ghost k2 = if has_frac {
        digit_run(after_int.drop_first()) as int
    } else {
        0
    };
    let ghost frac = spec_frac_digits(body);
    let ghost mant_digits = int_digits + frac;
    proof {
        if after_int.len() > 0 {
            assert(after_int[0] == s@[j1 as int]);
        }
        assert(has_frac == (j1 < n && s@[j1 as int] == '.'));
    }
    if had_frac {
        proof {
            assert(after_int.drop_first() =~= s@.subrange(j1 + 1, s@.len() as int));
            lemma_frac_digits(body);
        }
        let frac_scan = scan_digits(s, j1 + 1, mant1, Ghost(int_digits));
        proof {
            lemma_digit_run_bound(after_int.drop_first());
            assert(int_digits + s@.subrange(j1 + 1, j1 + 1 + k2) =~= mant_digits);
        }
        match frac_scan {
            Some((j, v)) => {
                j2 = j;
                mant = v;
            },
            None => {
                return None;
            },
        }
    } else {
        proof {
            lemma_frac_digits(body);
            assert(mant_digits =~= int_digits);
        }
    }
    let fcount: usize = if had_frac {
        j2 - (j1 + 1)
    } else {
        0
    };
    let ghost after_frac = if has_frac {
        after_int.subrange(1 + k2, after_int.len() as int)
    } else {
        after_int
    };
    proof {
        lemma_digit_run_bound(body);
        if has_frac {
            lemma_digit_run_bound(after_int.drop_first());
        }
        assert(fcount == k2);
        assert(after_frac =~= s@.subrange(j2 as int, s@.len() as int));
    }
    // significand must hold at least one digit, and the fraction must
    // stay short enough for exact exponent arithmetic
    let no_digits = j1 == i && fcount == 0;
    if no_digits {
        proof {
            assert(mant_digits.len() == 0);
        }
        return None;
    }
    if fcount as u64 > MAX_EXP_MAG {
        return None;
    }
    parse_tail(s, j2, n, neg, mant, fcount)
}

/// Decode what follows the significand, per `tail_v`.
fn parse_tail(s: &str, j2: usize, n: usize, neg: bool, mant: u64, fcount: usize) -> (r: Option<
    Decimal,
>)
    requires
        j2 <= n,
        n == s@.len(),
        fcount <= MAX_EXP_MAG,
    ensures
        r == tail_v(s@.subrange(j2 as int, n as int), neg, mant, fcount as int),
{
    let ghost after_frac = s@.subrange(j2 as int, n as int);
    if j2 >= n {
        proof {
            assert(after_frac.len() == 0);
        }
        return Some(Decimal { neg, mant, exp: 0 - (fcount as i64) });
    }
    let ec = s.get_char(j2);
    proof {
        assert(after_frac[0] == s@[j2 as int]);
    }
    if !(ec == 'e' || ec == 'E') {
        return None;
    }
    // exponent
    let mut j3 = j2 + 1;
    let mut eneg = false;
    if j3 < n {
        let c = s.get_char(j3);
        if c == '-' {
            eneg = true;
            j3 = j3 + 1;
        } else if c == '+' {
            j3 = j3 + 1;
        }
    }
    let ghost etail = after_frac.drop_first();
    let ghost edigits = if etail.len() > 0 && (etail[0] == '-' || etail[0] == '+') {
        etail.drop_first()
    } else {
        etail
    };
    proof {
        assert(etail =~= s@.subrange(j2 + 1, s@.len() as int));
        if etail.len() > 0 {
            assert(etail[0] == s@[j2 + 1]);
        }
        assert(edigits =~= s@.subrange(j3 as int, s@.len() as int));
    }
    match parse_exp_digits(s, j3, n) {
        Some(e) => {
            let exp_unshifted: i64 = if eneg {
                0 - (e as i64)
            } else {
                e as i64
            };
            Some(Decimal { neg, mant, exp: exp_unshifted - (fcount as i64) })
        },
        None => None,
    }
}

/// The fraction digits of a numeral body (empty when no point).
pub open spec fn spec_frac_digits(body: Seq<char>) -> Seq<char> {
    let k1 = digit_run(body) as int;
    let after_int = body.subrange(k1, body.len() as int);
    if after_int.len() > 0 && after_int[0] == '.' {
        after_int.subrange(1, 1 + digit_run(after_int.drop_first()) as int)
    } else {
        Seq::<char>::empty()
    }
}

proof fn lemma_frac_digits(body: Seq<char>)
    ensures
        all_digits(spec_frac_digits(body)),
        spec_frac_digits(body).len() == ({
            let k1 = digit_run(body) as int;
            let after_int = body.subrange(k1, body.len() as int);
            if after_int.len() > 0 && after_int[0] == '.' {
                digit_run(after_int.drop_first()) as int
            } else {
                0
            }
        }),
{
    let k1 = digit_run(body) as int;
    lemma_digit_run_bound(body);
    let after_int = body.subrange(k1, body.len() as int);
    if after_int.len() > 0 && after_int[0] == '.' {
        let t = after_int.drop_first();
        lemma_digit_run_bound(t);
        let f = after_int.subrange(1, 1 + digit_run(t) as int);
        assert forall|j: int| 0 <= j < f.len() implies is_digit(#[trigger] f[j]) by {
            assert(f[j] == t[j]);
        }
    }
}

fn has_frac_runtime(s: &str, j1: usize, n: usize) -> (r: bool)
    requires
        j1 <= n,
        n == s@.len(),
    ensures
        r == (j1 < n && s@[j1 as int] == '.'),
{
    j1 < n && s.get_char(j1) == '.'
}

/// Parse the digits of an exponent marker: all of the rest of the
/// string, at least one digit, at most `MAX_EXP_MAG`.
fn parse_exp_digits(s: &str, i: usize, n: usize) -> (r: Option<u64>)
    requires
        i <= n,
        n == s@.len(),
    ensures
        ({
            let tail = s@.subrange(i as int, n as int);
            match r {
                Some(v) => tail.len() > 0 && all_digits(tail) && digits_val(tail) == v && v
                    <= MAX_EXP_MAG,
                None => tail.len() == 0 || !all_digits(tail) || digits_val(tail) > MAX_EXP_MAG,
            }
        }),
{
    let ghost tail = s@.subrange(i as int, n as int);
    if i >= n {
        return None;
    }
    let mut acc: u64 = 0;
    let mut j = i;
    while j < n
        invariant
            i <= j <= n,
            n == s@.len(),
            tail == s@.subrange(i as int, n as int),
            forall|t: int| 0 <= t < j - i ==> is_digit(#[trigger] tail[t]),
            acc == digits_val(tail.subrange(0, j - i)),
            acc <= MAX_EXP_MAG,
        decreases n - j,
    {
        let c = s.get_char(j);
        proof {
            assert(tail[j - i] == s@[j as int]);
        }
        if !('0' <= c && c <= '9') {
            return None;
        }
        let d: u64 = (c as u32 - 48) as u64;
        let ghost pre = tail.subrange(0, j - i);
        let ghost cur = tail.subrange(0, j + 1 - i);
        proof {
            assert(cur.drop_last() =~= pre);
            assert(cur.last() == tail[j - i]);
            assert(digits_val(cur) == acc * 10 + d);
        }
        if acc > MAX_EXP_MAG / 10 || (acc == MAX_EXP_MAG / 10 && d > MAX_EXP_MAG % 10) {
            proof {
                assert(acc * 10 + d > MAX_EXP_MAG) by (nonlinear_arith)
                    requires
                        acc > MAX_EXP_MAG / 10 || (acc == MAX_EXP_MAG / 10 && d > MAX_EXP_MAG
                            % 10),
                        MAX_EXP_MAG / 10 * 10 + MAX_EXP_MAG % 10 == MAX_EXP_MAG,
                        0 <= d < 10,
                        acc >= 0,
                ;
                if all_digits(tail) {
                    assert(all_digits(cur)) by {
                        assert(forall|t: int| 0 <= t < cur.len() ==> cur[t] == tail[t]);
                    }
                    lemma_digits_val_mono(tail, j + 1 - i);
                }
            }
            return None;
        }
        acc = acc * 10 + d;
        j = j + 1;
    }
    proof {
        assert(tail.subrange(0, n - i) =~= tail);
    }
    Some(acc)
}

/// Shift a decimal by a power of ten (exact unit conversion).
pub fn decimal_shift(d: Decimal, k: i64) -> (r: Option<Decimal>)
    ensures
        match r {
            Some(v) => i64::MIN <= d.exp + k <= i64::MAX && v == (Decimal {
                neg: d.neg,
                mant: d.mant,
                exp: (d.exp + k) as i64,
            }),
            None => !(i64::MIN <= d.exp + k <= i64::MAX),
        },
{
    if k >= 0 {
        if d.exp <= i64::MAX - k {
            Some(Decimal { neg: d.neg, mant: d.mant, exp: d.exp + k })
        } else {
            None
        }
    } else {
        if d.exp >= i64::MIN - k {
            Some(Decimal { neg: d.neg, mant: d.mant, exp: d.exp + k })
        } else {
            None
        }
    }
}

} // verus!

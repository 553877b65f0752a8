//! Character and string helpers: decimal rendering and parsing of
//! integers, case folding, substring search, and tokenization of
//! free-text path segments.

use vstd::prelude::*;

verus! {

// ---------------------------------------------------------------------
// Digits
// ---------------------------------------------------------------------

pub open spec fn is_digit(c: char) -> bool {
    '0' <= c && c <= '9'
}

pub open spec fn digit_val(c: char) -> int {
    c as int - 48
}

/// The character for one decimal digit value.
pub open spec fn digit_char(d: int) -> char {
    if d == 0 { '0' }
    else if d == 1 { '1' }
    else if d == 2 { '2' }
    else if d == 3 { '3' }
    else if d == 4 { '4' }
    else if d == 5 { '5' }
    else if d == 6 { '6' }
    else if d == 7 { '7' }
    else if d == 8 { '8' }
    else { '9' }
}

pub proof fn lemma_digit_char_val(d: int)
    requires
        0 <= d < 10,
    ensures
        is_digit(digit_char(d)),
        digit_val(digit_char(d)) == d,
{
}

/// The shortest decimal rendering of a natural number (no leading
/// zeros; zero itself is "0").
pub open spec fn dec_str(n: nat) -> Seq<char>
    decreases n,
{
    if n < 10 {
        seq![digit_char(n as int)]
    } else {
        dec_str(n / 10).push(digit_char((n % 10) as int))
    }
}

pub open spec fn all_digits(s: Seq<char>) -> bool {
    forall|i: int| 0 <= i < s.len() ==> is_digit(#[trigger] s[i])
}

/// The value of a digit string, most significant digit first.
pub open spec fn digits_val(s: Seq<char>) -> int
    decreases s.len(),
{
    if s.len() == 0 {
        0
    } else {
        digits_val(s.drop_last()) * 10 + digit_val(s.last())
    }
}

pub proof fn lemma_dec_str_digits(n: nat)
    ensures
        dec_str(n).len() >= 1,
        all_digits(dec_str(n)),
        digits_val(dec_str(n)) == n,
        dec_str(n)[0] != '0' || n < 10,
    decreases n,
{
    if n < 10 {
        lemma_digit_char_val(n as int);
        let s = dec_str(n);
        assert(s =~= seq![digit_char(n as int)]);
        assert(s.drop_last() =~= Seq::<char>::empty());
        assert(s.len() == 1 && s.last() == digit_char(n as int));
        assert(digits_val(s.drop_last()) == 0);
        assert(digits_val(s) == digits_val(s.drop_last()) * 10 + digit_val(s.last()));
    } else {
        lemma_dec_str_digits(n / 10);
        lemma_digit_char_val((n % 10) as int);
        let s = dec_str(n);
        assert(s == dec_str(n / 10).push(digit_char((n % 10) as int)));
        assert(s.drop_last() =~= dec_str(n / 10));
        assert(s.last() == digit_char((n % 10) as int));
        assert(digits_val(s) == digits_val(dec_str(n / 10)) * 10 + digit_val(digit_char((n % 10) as int)));
        assert(n == (n / 10) * 10 + n % 10);
        assert(s[0] == dec_str(n / 10)[0]);
    }
}

/// A digit string is worth at least its prefix: appending digits never
/// lowers the value.
pub proof fn lemma_digits_val_mono(s: Seq<char>, i: int)
    requires
        all_digits(s),
        0 <= i <= s.len(),
    ensures
        digits_val(s.subrange(0, i)) <= digits_val(s),
        digits_val(s) >= 0,
    decreases s.len() - i,
{
    if i == s.len() {
        assert(s.subrange(0, i) =~= s);
        lemma_digits_val_nonneg(s);
    } else {
        lemma_digits_val_mono(s, i + 1);
        let p = s.subrange(0, i + 1);
        assert(p.drop_last() =~= s.subrange(0, i));
        assert(digits_val(p) == digits_val(s.subrange(0, i)) * 10 + digit_val(s[i]));
        lemma_digits_val_nonneg(s.subrange(0, i));
    }
}

pub proof fn lemma_digits_val_nonneg(s: Seq<char>)
    requires
        all_digits(s),
    ensures
        digits_val(s) >= 0,
    decreases s.len(),
{
    if s.len() > 0 {
        assert(all_digits(s.drop_last()));
        lemma_digits_val_nonneg(s.drop_last());
    }
}


/// Leading zeros do not change a digit string's value.
pub proof fn lemma_digits_val_leading_zeros(k: nat, s: Seq<char>)
    ensures
        digits_val(Seq::new(k, |i: int| '0') + s) == digits_val(s),
    decreases k,
{
    if k > 0 {
        lemma_digits_val_leading_zeros((k - 1) as nat, s);
        let z = Seq::new(k, |i: int| '0');
        let z1 = Seq::new((k - 1) as nat, |i: int| '0');
        assert(z + s =~= seq!['0'] + (z1 + s));
        lemma_digits_val_zero_head(z1 + s);
    }
}

proof fn lemma_digits_val_zero_head(s: Seq<char>)
    ensures
        digits_val(seq!['0'] + s) == digits_val(s),
    decreases s.len(),
{
    let w = seq!['0'] + s;
    if s.len() == 0 {
        assert(w =~= seq!['0']);
        assert(w.drop_last() =~= Seq::<char>::empty());
        assert(w.len() == 1 && w.last() == '0');
        assert(digits_val(w.drop_last()) == 0);
        assert(digits_val(w) == digits_val(w.drop_last()) * 10 + digit_val(w.last()));
        assert(digit_val('0') == 0);
    } else {
        assert(w.drop_last() =~= seq!['0'] + s.drop_last());
        lemma_digits_val_zero_head(s.drop_last());
        assert(w.last() == s.last());
    }
}

pub open spec fn pow10(k: nat) -> nat
    decreases k,
{
    if k == 0 {
        1
    } else {
        10 * pow10((k - 1) as nat)
    }
}

pub proof fn lemma_dec_str_len_le(n: nat, k: nat)
    requires
        n < pow10(k),
        k >= 1,
    ensures
        dec_str(n).len() <= k,
    decreases k,
{
    if n >= 10 {
        assert(pow10(k) == 10 * pow10((k - 1) as nat));
        assert(n / 10 < pow10((k - 1) as nat)) by (nonlinear_arith)
            requires
                n < 10 * pow10((k - 1) as nat),
                n >= 10,
        ;
        lemma_dec_str_len_le(n / 10, (k - 1) as nat);
    }
}

/// Every `u64` has at most twenty decimal digits.
pub proof fn lemma_dec_str_len_u64(n: nat)
    requires
        n <= u64::MAX,
    ensures
        dec_str(n).len() <= 20,
{
    reveal_with_fuel(pow10, 21);
    assert(pow10(20) > u64::MAX);
    lemma_dec_str_len_le(n, 20);
}

// ---------------------------------------------------------------------
// Trusted bridge to std's string building
// ---------------------------------------------------------------------

/// Relies on std's `String::push`: appends exactly one character at
/// the end of the string.
#[verifier::external_body]
pub fn push_char(s: &mut String, c: char)
    ensures
        final(s)@ == old(s)@.push(c),
{
    s.push(c);
}

// ---------------------------------------------------------------------
// Rendering integers
// ---------------------------------------------------------------------

fn digit_char_ex(d: u64) -> (c: char)
    requires
        d < 10,
    ensures
        c == digit_char(d as int),
{
    if d == 0 { '0' }
    else if d == 1 { '1' }
    else if d == 2 { '2' }
    else if d == 3 { '3' }
    else if d == 4 { '4' }
    else if d == 5 { '5' }
    else if d == 6 { '6' }
    else if d == 7 { '7' }
    else if d == 8 { '8' }
    else { '9' }
}

/// Append the decimal rendering of `n` to `out`.
pub fn append_u64(out: &mut String, n: u64)
    ensures
        final(out)@ == old(out)@ + dec_str(n as nat),
{
    let mut rev: Vec<char> = Vec::new();
    let mut m: u64 = n;
    while m >= 10
        invariant
            dec_str(n as nat) == dec_str(m as nat) + rev@.reverse(),
        decreases m,
    {
        let ghost pre = rev@;
        rev.push(digit_char_ex(m % 10));
        proof {
            assert(rev@.reverse() =~= seq![digit_char((m % 10) as int)] + pre.reverse());
            assert(dec_str(m as nat) == dec_str((m / 10) as nat).push(digit_char((m % 10) as int)));
            assert(dec_str((m / 10) as nat) + rev@.reverse() =~= dec_str(m as nat) + pre.reverse());
        }
        m = m / 10;
    }
    let ghost pre = rev@;
    rev.push(digit_char_ex(m));
    proof {
        assert(dec_str(m as nat) =~= seq![digit_char(m as int)]);
        assert(rev@.reverse() =~= dec_str(m as nat) + pre.reverse());
        assert(rev@.reverse() =~= dec_str(n as nat));
    }
    let k = rev.len();
    let mut i: usize = 0;
    while i < k
        invariant
            k == rev@.len(),
            i <= k,
            rev@.reverse() == dec_str(n as nat),
            out@ == old(out)@ + dec_str(n as nat).subrange(0, i as int),
        decreases k - i,
    {
        push_char(out, rev[k - 1 - i]);
        proof {
            assert(rev@.reverse()[i as int] == rev@[k - 1 - i]);
            assert(old(out)@ + dec_str(n as nat).subrange(0, i + 1) =~= (old(out)@
                + dec_str(n as nat).subrange(0, i as int)).push(rev@[k - 1 - i]));
        }
        i = i + 1;
    }
    proof {
        assert(dec_str(n as nat).subrange(0, dec_str(n as nat).len() as int) =~= dec_str(
            n as nat,
        ));
    }
}

// ---------------------------------------------------------------------
// String comparison
// ---------------------------------------------------------------------

/// Character-wise equality of two string slices.
pub fn str_eq(a: &str, b: &str) -> (r: bool)
    ensures
        r == (a@ == b@),
{
    let na = a.unicode_len();
    let nb = b.unicode_len();
    if na != nb {
        assert(a@ != b@);
        return false;
    }
    let mut i: usize = 0;
    while i < na
        invariant
            na == a@.len(),
            na == b@.len(),
            i <= na,
            forall|j: int| 0 <= j < i ==> a@[j] == b@[j],
        decreases na - i,
    {
        if a.get_char(i) != b.get_char(i) {
            return false;
        }
        i = i + 1;
    }
    proof {
        assert(a@ =~= b@);
    }
    true
}

// ---------------------------------------------------------------------
// Parsing integers
// ---------------------------------------------------------------------

/// A plain decimal numeral no larger than `max`: at least one digit,
/// nothing but digits.
pub open spec fn parse_dec(s: Seq<char>, max: int) -> Option<int> {
    if s.len() >= 1 && all_digits(s) && digits_val(s) <= max {
        Some(digits_val(s))
    } else {
        None
    }
}

/// Parse a decimal numeral, rejecting values above `max`.
pub fn parse_dec_str(s: &str, max: u64) -> (r: Option<u64>)
    ensures
        match r {
            Some(v) => parse_dec(s@, max as int) == Some(v as int),
            None => parse_dec(s@, max as int) is None,
        },
{
    let n = s.unicode_len();
    if n == 0 {
        return None;
    }
    let mut acc: u64 = 0;
    let mut i: usize = 0;
    while i < n
        invariant
            n == s@.len(),
            0 < n,
            i <= n,
            all_digits(s@.subrange(0, i as int)),
            acc == digits_val(s@.subrange(0, i as int)),
            acc <= max,
            max <= u64::MAX,
        decreases n - i,
    {
        let c = s.get_char(i);
        if !('0' <= c && c <= '9') {
            assert(!all_digits(s@));
            return None;
        }
        let d: u64 = (c as u32 - 48) as u64;
        let ghost pre = s@.subrange(0, i as int);
        let ghost cur = s@.subrange(0, i + 1);
        proof {
            assert(cur.drop_last() =~= pre);
            assert(cur.last() == s@[i as int]);
            assert(digits_val(cur) == acc * 10 + d);
        }
        if d > max {
            proof {
                if all_digits(s@) {
                    lemma_digits_val_mono(s@, i + 1);
                    assert(digits_val(cur) >= d);
                }
            }
            return None;
        }
        if acc > (max - d) / 10 {
            proof {
                assert(acc * 10 + d > max) by (nonlinear_arith)
                    requires
                        acc > (max - d) / 10,
                        d <= max,
                        (max - d) / 10 * 10 + (max - d) % 10 == max - d,
                        0 <= (max - d) % 10 < 10,
                        d >= 0,
                ;
                if all_digits(s@) {
                    lemma_digits_val_mono(s@, i + 1);
                }
            }
            return None;
        }
        acc = acc * 10 + d;
        i = i + 1;
    }
    proof {
        assert(s@.subrange(0, n as int) =~= s@);
    }
    Some(acc)
}

// ---------------------------------------------------------------------
// Case folding (ASCII)
// ---------------------------------------------------------------------

pub open spec fn lower_char(c: char) -> char {
    if 'A' <= c && c <= 'Z' {
        ((c as u8) + 32) as char
    } else {
        c
    }
}

pub open spec fn lower(s: Seq<char>) -> Seq<char> {
    s.map_values(|c: char| lower_char(c))
}

pub fn lower_char_ex(c: char) -> (r: char)
    ensures
        r == lower_char(c),
{
    if 'A' <= c && c <= 'Z' {
        ((c as u8) + 32) as char
    } else {
        c
    }
}

/// Case-folded copy of a string.
pub fn to_lower_str(s: &str) -> (r: String)
    ensures
        r@ == lower(s@),
{
    let n = s.unicode_len();
    let mut r = String::new();
    let mut i: usize = 0;
    while i < n
        invariant
            n == s@.len(),
            i <= n,
            r@.len() == i,
            forall|j: int| 0 <= j < i ==> r@[j] == lower_char(s@[j]),
        decreases n - i,
    {
        push_char(&mut r, lower_char_ex(s.get_char(i)));
        i = i + 1;
    }
    proof {
        assert(r@ =~= lower(s@));
    }
    r
}

// ---------------------------------------------------------------------
// Substring search, case-insensitive on the left side
// ---------------------------------------------------------------------

pub open spec fn contains_at(s: Seq<char>, pat: Seq<char>, i: int) -> bool {
    0 <= i && i + pat.len() <= s.len() && s.subrange(i, i + pat.len()) == pat
}

pub open spec fn contains_seq(s: Seq<char>, pat: Seq<char>) -> bool {
    exists|i: int| contains_at(s, pat, i)
}

/// Whether the case-folded text contains `pat` (given folded).
pub fn contains_ci(s: &str, pat: &str) -> (r: bool)
    ensures
        r == contains_seq(lower(s@), pat@),
{
    let n = s.unicode_len();
    let m = pat.unicode_len();
    if m > n {
        assert(!contains_seq(lower(s@), pat@));
        return false;
    }
    let mut i: usize = 0;
    while i <= n - m
        invariant
            n == s@.len(),
            m == pat@.len(),
            m <= n,
            i <= n - m + 1,
            forall|ii: int| 0 <= ii < i ==> !contains_at(lower(s@), pat@, ii),
        decreases n - m + 1 - i,
    {
        let mut j: usize = 0;
        let mut hit = true;
        while j < m
            invariant
                n == s@.len(),
                m == pat@.len(),
                m <= n,
                i <= n - m,
                j <= m,
                hit ==> forall|jj: int| 0 <= jj < j ==> lower(s@)[i + jj] == pat@[jj],
                !hit ==> exists|jj: int|
                    0 <= jj < j && #[trigger] pat@[jj] != lower(s@)[i + jj],
            decreases m - j,
        {
            if lower_char_ex(s.get_char(i + j)) != pat.get_char(j) {
                hit = false;
                proof {
                    assert(lower(s@)[i + j] != pat@[j as int]);
                }
                j = m;
            } else {
                j = j + 1;
            }
        }
        if hit {
            proof {
                assert(lower(s@).subrange(i as int, i + m) =~= pat@);
                assert(contains_at(lower(s@), pat@, i as int));
            }
            return true;
        }
        proof {
            let jj = choose|jj: int| 0 <= jj < m && #[trigger] pat@[jj] != lower(s@)[i + jj];
            assert(lower(s@).subrange(i as int, i + m)[jj] == lower(s@)[i + jj]);
            assert(!contains_at(lower(s@), pat@, i as int));
        }
        i = i + 1;
    }
    proof {
        assert forall|ii: int| !contains_at(lower(s@), pat@, ii) by {
            if 0 <= ii && ii + pat@.len() <= s@.len() {
                assert(ii < i);
            }
        }
    }
    false
}

// ---------------------------------------------------------------------
// The value part of a key=value token
// ---------------------------------------------------------------------

pub open spec fn last_index_of(s: Seq<char>, c: char) -> int
    decreases s.len(),
{
    if s.len() == 0 {
        -1
    } else if s.last() == c {
        s.len() - 1
    } else {
        last_index_of(s.drop_last(), c)
    }
}

/// Everything to the right of the last `=`; the whole string when no
/// `=` occurs.
pub open spec fn after_last_eq(s: Seq<char>) -> Seq<char> {
    s.subrange(last_index_of(s, '=') + 1, s.len() as int)
}

proof fn lemma_last_index_of(s: Seq<char>, c: char, k: int)
    requires
        -1 <= k < s.len(),
        k >= 0 ==> s[k] == c,
        forall|j: int| k < j < s.len() ==> s[j] != c,
    ensures
        last_index_of(s, c) == k,
    decreases s.len(),
{
    if s.len() > 0 && s.last() != c {
        lemma_last_index_of(s.drop_last(), c, k);
    }
}

/// Copy of the value part after the last `=`.
pub fn after_last_eq_str(s: &str) -> (r: String)
    ensures
        r@ == after_last_eq(s@),
{
    let n = s.unicode_len();
    let mut i: usize = n;
    while i > 0
        invariant
            n == s@.len(),
            i <= n,
            forall|j: int| i <= j < n ==> s@[j] != '=',
        decreases i,
    {
        if s.get_char(i - 1) == '=' {
            proof {
                lemma_last_index_of(s@, '=', i - 1);
            }
            let sub = s.substring_char(i, n);
            return String::from_str(sub);
        }
        i = i - 1;
    }
    proof {
        lemma_last_index_of(s@, '=', -1);
        assert(s@.subrange(0, n as int) =~= s@);
    }
    String::from_str(s)
}

/// Whether `s` begins with `pat`.
pub open spec fn starts_with(s: Seq<char>, pat: Seq<char>) -> bool {
    pat.len() <= s.len() && s.subrange(0, pat.len() as int) == pat
}

pub fn str_starts_with(s: &str, pat: &str) -> (r: bool)
    ensures
        r == starts_with(s@, pat@),
{
    let n = s.unicode_len();
    let m = pat.unicode_len();
    if m > n {
        return false;
    }
    let mut j: usize = 0;
    while j < m
        invariant
            n == s@.len(),
            m == pat@.len(),
            m <= n,
            j <= m,
            forall|t: int| 0 <= t < j ==> s@[t] == pat@[t],
        decreases m - j,
    {
        if s.get_char(j) != pat.get_char(j) {
            proof {
                assert(s@.subrange(0, m as int)[j as int] == s@[j as int]);
            }
            return false;
        }
        j = j + 1;
    }
    proof {
        assert(s@.subrange(0, m as int) =~= pat@);
    }
    true
}

// ---------------------------------------------------------------------
// Splitting on one character, empty pieces kept
// ---------------------------------------------------------------------

pub open spec fn first_index_of(s: Seq<char>, c: char) -> int
    decreases s.len(),
{
    if s.len() == 0 {
        -1
    } else if s[0] == c {
        0
    } else {
        let r = first_index_of(s.drop_first(), c);
        if r < 0 {
            -1
        } else {
            1 + r
        }
    }
}

pub proof fn lemma_first_index_of(s: Seq<char>, c: char)
    ensures
        -1 <= first_index_of(s, c) < s.len(),
        first_index_of(s, c) >= 0 ==> s[first_index_of(s, c)] == c,
        forall|j: int|
            0 <= j < s.len() && (first_index_of(s, c) < 0 || j < first_index_of(s, c)) ==> s[j]
                != c,
    decreases s.len(),
{
    if s.len() > 0 && s[0] != c {
        lemma_first_index_of(s.drop_first(), c);
        let t = s.drop_first();
        assert forall|j: int|
            0 <= j < s.len() && (first_index_of(s, c) < 0 || j < first_index_of(s, c)) implies s[j]
            != c by {
            if j > 0 {
                assert(s[j] == t[j - 1]);
            }
        }
    }
}

pub proof fn lemma_first_index_of_exact(s: Seq<char>, c: char, k: int)
    requires
        0 <= k <= s.len(),
        forall|j: int| 0 <= j < k ==> s[j] != c,
        k < s.len() ==> s[k] == c,
    ensures
        first_index_of(s, c) == (if k < s.len() {
            k
        } else {
            -1
        }),
    decreases s.len(),
{
    if s.len() > 0 && s[0] != c {
        let t = s.drop_first();
        assert forall|j: int| 0 <= j < k - 1 implies t[j] != c by {
            assert(t[j] == s[j + 1]);
        }
        lemma_first_index_of_exact(t, c, k - 1);
    }
}

/// Split at every occurrence of `c`, keeping empty pieces; a string
/// without `c` is one piece.
pub open spec fn split_char(s: Seq<char>, c: char) -> Seq<Seq<char>>
    decreases s.len(),
{
    let i = first_index_of(s, c);
    if 0 <= i < s.len() {
        seq![s.subrange(0, i)] + split_char(s.subrange(i + 1, s.len() as int), c)
    } else {
        seq![s]
    }
}

pub fn split_all(s: &str, c: char) -> (out: Vec<String>)
    ensures
        out@.map_values(|t: String| t@) == split_char(s@, c),
{
    let n = s.unicode_len();
    let mut out: Vec<String> = Vec::new();
    let mut i: usize = 0;
    let mut piece = String::new();
    let ghost f = |t: String| t@;
    proof {
        assert(s@.subrange(0, n as int) =~= s@);
        assert(out@.map_values(f) =~= Seq::<Seq<char>>::empty());
        assert(piece@ =~= s@.subrange(0, 0));
    }
    let mut start: usize = 0;
    while i < n
        invariant
            n == s@.len(),
            start <= i <= n,
            piece@ == s@.subrange(start as int, i as int),
            forall|j: int| start <= j < i ==> s@[j] != c,
            out@.map_values(|t: String| t@) + split_char(s@.subrange(start as int, n as int), c)
                =~= split_char(s@, c),
        decreases n - i,
    {
        let ch = s.get_char(i);
        let ghost rest = s@.subrange(start as int, n as int);
        if ch == c {
            proof {
                assert forall|j: int| 0 <= j < i - start implies rest[j] != c by {
                    assert(rest[j] == s@[start + j]);
                }
                assert(rest[i - start] == s@[i as int]);
                lemma_first_index_of_exact(rest, c, i - start);
                assert(rest.subrange(0, i - start) =~= s@.subrange(start as int, i as int));
                assert(rest.subrange(i - start + 1, rest.len() as int) =~= s@.subrange(
                    i + 1,
                    n as int,
                ));
                let g = |t: String| t@;
                assert(out@.push(piece).map_values(g) =~= out@.map_values(g).push(piece@));
            }
            out.push(piece);
            piece = String::new();
            i = i + 1;
            start = i;
            proof {
                assert(piece@ =~= s@.subrange(start as int, i as int));
            }
        } else {
            push_char(&mut piece, ch);
            proof {
                assert(s@.subrange(start as int, i + 1) =~= s@.subrange(
                    start as int,
                    i as int,
                ).push(s@[i as int]));
            }
            i = i + 1;
        }
    }
    proof {
        let rest = s@.subrange(start as int, n as int);
        assert forall|j: int| 0 <= j < rest.len() implies rest[j] != c by {
            assert(rest[j] == s@[start + j]);
        }
        lemma_first_index_of_exact(rest, c, rest.len() as int);
        assert(split_char(rest, c) =~= seq![rest]);
        let g = |t: String| t@;
        assert(out@.push(piece).map_values(g) =~= out@.map_values(g).push(piece@));
    }
    out.push(piece);
    out
}

// ---------------------------------------------------------------------
// Tokenization
// ---------------------------------------------------------------------

pub open spec fn is_ws(c: char) -> bool {
    c == ' ' || c == '\t' || c == '\n' || c == '\r' || c == '\u{c}'
}

/// Separators: whitespace, and the path separator when `backslash` is
/// set.
pub open spec fn tok_sep(c: char, backslash: bool) -> bool {
    is_ws(c) || (backslash && c == '\\')
}

/// Length of the maximal separator-free prefix.
pub open spec fn token_end(s: Seq<char>, backslash: bool) -> nat
    decreases s.len(),
{
    if s.len() == 0 {
        0
    } else if tok_sep(s[0], backslash) {
        0
    } else {
        1 + token_end(s.drop_first(), backslash)
    }
}

/// The maximal separator-free runs of `s`, in order.
pub open spec fn tokens(s: Seq<char>, backslash: bool) -> Seq<Seq<char>>
    decreases s.len(),
{
    if s.len() == 0 {
        Seq::empty()
    } else if tok_sep(s[0], backslash) {
        tokens(s.drop_first(), backslash)
    } else {
        let k = (1 + token_end(s.drop_first(), backslash)) as int;
        if k <= s.len() {
            seq![s.subrange(0, k)] + tokens(s.subrange(k, s.len() as int), backslash)
        } else {
            // never reached: the separator-free prefix stays in bounds
            seq![s]
        }
    }
}

proof fn lemma_token_end_bound(s: Seq<char>, backslash: bool)
    ensures
        token_end(s, backslash) <= s.len(),
        forall|j: int| 0 <= j < token_end(s, backslash) ==> !tok_sep(#[trigger] s[j], backslash),
        token_end(s, backslash) < s.len() ==> tok_sep(s[token_end(s, backslash) as int], backslash),
    decreases s.len(),
{
    if s.len() > 0 && !tok_sep(s[0], backslash) {
        lemma_token_end_bound(s.drop_first(), backslash);
        let t = s.drop_first();
        assert forall|j: int| 0 <= j < token_end(s, backslash) implies !tok_sep(
            #[trigger] s[j],
            backslash,
        ) by {
            if j > 0 {
                assert(s[j] == t[j - 1]);
            }
        }
    }
}

proof fn lemma_token_end_exact(s: Seq<char>, backslash: bool, k: int)
    requires
        0 <= k <= s.len(),
        forall|j: int| 0 <= j < k ==> !tok_sep(#[trigger] s[j], backslash),
        k < s.len() ==> tok_sep(s[k], backslash),
    ensures
        token_end(s, backslash) == k,
    decreases s.len(),
{
    if s.len() > 0 && !tok_sep(s[0], backslash) {
        let t = s.drop_first();
        assert forall|j: int| 0 <= j < k - 1 implies !tok_sep(#[trigger] t[j], backslash) by {
            assert(t[j] == s[j + 1]);
        }
        lemma_token_end_exact(t, backslash, k - 1);
    }
}

fn is_sep_ex(c: char, backslash: bool) -> (r: bool)
    ensures
        r == tok_sep(c, backslash),
{
    c == ' ' || c == '\t' || c == '\n' || c == '\r' || c == '\u{c}' || (backslash && c == '\\')
}

/// Split into maximal separator-free tokens.
pub fn tokenize(s: &str, backslash: bool) -> (out: Vec<String>)
    ensures
        out@.map_values(|t: String| t@) == tokens(s@, backslash),
{
    let n = s.unicode_len();
    let mut out: Vec<String> = Vec::new();
    proof {
        assert(s@.subrange(0, n as int) =~= s@);
        assert(out@.map_values(|t: String| t@) =~= Seq::<Seq<char>>::empty());
    }
    let mut i: usize = 0;
    while i < n
        invariant
            n == s@.len(),
            i <= n,
            out@.map_values(|t: String| t@) + tokens(s@.subrange(i as int, n as int), backslash)
                =~= tokens(s@, backslash),
        decreases n - i,
    {
        let ghost rest = s@.subrange(i as int, n as int);
        let c = s.get_char(i);
        if is_sep_ex(c, backslash) {
            proof {
                assert(rest[0] == s@[i as int]);
                assert(rest.drop_first() =~= s@.subrange(i + 1, n as int));
            }
            i = i + 1;
        } else {
            let start = i;
            let mut tok = String::new();
            loop
                invariant
                    n == s@.len(),
                    start <= i <= n,
                    tok@ =~= s@.subrange(start as int, i as int),
                    forall|j: int| start <= j < i ==> !tok_sep(#[trigger] s@[j], backslash),
                ensures
                    i == n || tok_sep(s@[i as int], backslash),
                decreases n - i,
            {
                if i >= n {
                    break;
                }
                let d = s.get_char(i);
                if is_sep_ex(d, backslash) {
                    break;
                }
                push_char(&mut tok, d);
                proof {
                    assert(s@.subrange(start as int, i + 1) =~= s@.subrange(
                        start as int,
                        i as int,
                    ).push(s@[i as int]));
                }
                i = i + 1;
            }
            proof {
                assert forall|j: int| 0 <= j < i - start implies !tok_sep(
                    #[trigger] rest[j],
                    backslash,
                ) by {
                    assert(rest[j] == s@[start + j]);
                }
                if i < n {
                    assert(rest[i - start] == s@[i as int]);
                }
                lemma_token_end_exact(rest, backslash, i - start);
                assert(rest.subrange(0, i - start) =~= s@.subrange(start as int, i as int));
                assert(rest.subrange(i - start, rest.len() as int) =~= s@.subrange(
                    i as int,
                    n as int,
                ));
                assert(tokens(rest, backslash) == seq![tok@] + tokens(
                    s@.subrange(i as int, n as int),
                    backslash,
                ));
                let f = |t: String| t@;
                assert(out@.push(tok).map_values(f) =~= out@.map_values(f).push(tok@));
            }
            out.push(tok);
        }
    }
    proof {
        assert(s@.subrange(n as int, n as int) =~= Seq::<char>::empty());
        assert(tokens(Seq::<char>::empty(), backslash) =~= Seq::<Seq<char>>::empty());
    }
    out
}

} // verus!

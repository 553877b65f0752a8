//! A small self-describing text form for the store's scan state: the
//! list of already-scanned paths and the per-day identifier counters.
//! Numbers are decimal with a `;` terminator; strings carry a length
//! prefix, so no character needs escaping.  Decoding is proved to
//! invert encoding exactly.

use crate::database::Database;
use crate::measurement::timestamp::Date;
use crate::text::{
    all_digits, dec_str, digits_val, is_digit, lemma_dec_str_digits, lemma_dec_str_len_u64,
    push_char,
};
use crate::decimal::{digit_run, lemma_digit_run_bound, lemma_digit_run_exact};
use vstd::prelude::*;

verus! {

// ---------------------------------------------------------------------
// Primitives
// ---------------------------------------------------------------------

/// A number: its decimal digits and a terminator.
pub open spec fn enc_u64(n: u64) -> Seq<char> {
    dec_str(n as nat) + seq![';']
}

/// Read one number off the front.
pub open spec fn dec_u64(s: Seq<char>) -> Option<(u64, Seq<char>)> {
    let k = digit_run(s) as int;
    if k == 0 || k >= s.len() || s[k] != ';' || digits_val(s.subrange(0, k)) > u64::MAX {
        None
    } else {
        Some(
            (
                digits_val(s.subrange(0, k)) as u64,
                s.subrange(k + 1, s.len() as int),
            ),
        )
    }
}

pub proof fn lemma_u64_round_trip(n: u64, rest: Seq<char>)
    ensures
        dec_u64(enc_u64(n) + rest) == Some((n, rest)),
{
    let d = dec_str(n as nat);
    let s = enc_u64(n) + rest;
    lemma_dec_str_digits(n as nat);
    assert forall|j: int| 0 <= j < d.len() implies is_digit(#[trigger] s[j]) by {
        assert(s[j] == d[j]);
    }
    assert(s[d.len() as int] == ';');
    assert(!is_digit(';'));
    lemma_digit_run_exact(s, d.len() as int);
    assert(s.subrange(0, d.len() as int) =~= d);
    assert(s.subrange(d.len() as int + 1, s.len() as int) =~= rest);
}

/// A string: its length, then its characters raw.
pub open spec fn enc_str(t: Seq<char>) -> Seq<char> {
    enc_u64(t.len() as u64) + t
}

/// Read one string off the front.
pub open spec fn dec_str_piece(s: Seq<char>) -> Option<(Seq<char>, Seq<char>)> {
    match dec_u64(s) {
        None => None,
        Some((n, rest)) => {
            if n > rest.len() {
                None
            } else {
                Some((rest.subrange(0, n as int), rest.subrange(n as int, rest.len() as int)))
            }
        },
    }
}

pub proof fn lemma_str_round_trip(t: Seq<char>, rest: Seq<char>)
    requires
        t.len() <= u64::MAX,
    ensures
        dec_str_piece(enc_str(t) + rest) == Some((t, rest)),
{
    let n = t.len() as u64;
    assert(enc_str(t) + rest =~= enc_u64(n) + (t + rest));
    lemma_u64_round_trip(n, t + rest);
    assert((t + rest).subrange(0, n as int) =~= t);
    assert((t + rest).subrange(n as int, (t + rest).len() as int) =~= rest);
}

// ---------------------------------------------------------------------
// Lists
// ---------------------------------------------------------------------

/// The strings of a list, one after the other.
pub open spec fn enc_strs(l: Seq<Seq<char>>) -> Seq<char>
    decreases l.len(),
{
    if l.len() == 0 {
        Seq::empty()
    } else {
        enc_str(l[0]) + enc_strs(l.drop_first())
    }
}

/// Read `n` strings off the front.
pub open spec fn dec_strs(s: Seq<char>, n: nat) -> Option<(Seq<Seq<char>>, Seq<char>)>
    decreases n,
{
    if n == 0 {
        Some((Seq::empty(), s))
    } else {
        match dec_str_piece(s) {
            None => None,
            Some((t, rest)) => match dec_strs(rest, (n - 1) as nat) {
                None => None,
                Some((l, tail)) => Some((seq![t] + l, tail)),
            },
        }
    }
}

pub proof fn lemma_strs_round_trip(l: Seq<Seq<char>>, rest: Seq<char>)
    requires
        forall|i: int| 0 <= i < l.len() ==> (#[trigger] l[i]).len() <= u64::MAX,
    ensures
        dec_strs(enc_strs(l) + rest, l.len()) == Some((l, rest)),
    decreases l.len(),
{
    if l.len() == 0 {
        assert(enc_strs(l) + rest =~= rest);
        assert(dec_strs(rest, 0) == Some((Seq::<Seq<char>>::empty(), rest)));
        assert(l =~= Seq::<Seq<char>>::empty());
    } else {
        let t = l.drop_first();
        assert(enc_strs(l) + rest =~= enc_str(l[0]) + (enc_strs(t) + rest));
        lemma_str_round_trip(l[0], enc_strs(t) + rest);
        assert forall|i: int| 0 <= i < t.len() implies (#[trigger] t[i]).len() <= u64::MAX by {
            assert(t[i] == l[i + 1]);
        }
        lemma_strs_round_trip(t, rest);
        assert(seq![l[0]] + t =~= l);
    }
}

/// One day-counter entry: year, month, day, counter.
pub open spec fn enc_entry(e: (Date, u32)) -> Seq<char> {
    enc_u64(e.0.year as u64) + enc_u64(e.0.month as u64) + enc_u64(e.0.day as u64) + enc_u64(
        e.1 as u64,
    )
}

/// Read one entry off the front; components must fit their fields.
pub open spec fn dec_entry(s: Seq<char>) -> Option<((Date, u32), Seq<char>)> {
    match dec_u64(s) {
        None => None,
        Some((y, s1)) => match dec_u64(s1) {
            None => None,
            Some((m, s2)) => match dec_u64(s2) {
                None => None,
                Some((d, s3)) => match dec_u64(s3) {
                    None => None,
                    Some((c, s4)) => {
                        if y > u16::MAX as u64 || m > u8::MAX as u64 || d > u8::MAX as u64 || c
                            > u32::MAX as u64 {
                            None
                        } else {
                            Some(
                                (
                                    (
                                        Date {
                                            year: y as u16,
                                            month: m as u8,
                                            day: d as u8,
                                        },
                                        c as u32,
                                    ),
                                    s4,
                                ),
                            )
                        }
                    },
                },
            },
        },
    }
}

pub proof fn lemma_entry_round_trip(e: (Date, u32), rest: Seq<char>)
    ensures
        dec_entry(enc_entry(e) + rest) == Some((e, rest)),
{
    let r3 = enc_u64(e.1 as u64) + rest;
    let r2 = enc_u64(e.0.day as u64) + r3;
    let r1 = enc_u64(e.0.month as u64) + r2;
    assert(enc_entry(e) + rest =~= enc_u64(e.0.year as u64) + r1);
    lemma_u64_round_trip(e.0.year as u64, r1);
    assert(r1 =~= enc_u64(e.0.month as u64) + r2);
    lemma_u64_round_trip(e.0.month as u64, r2);
    lemma_u64_round_trip(e.0.day as u64, r3);
    lemma_u64_round_trip(e.1 as u64, rest);
}

/// The entries of a counter list, one after the other.
pub open spec fn enc_entries(l: Seq<(Date, u32)>) -> Seq<char>
    decreases l.len(),
{
    if l.len() == 0 {
        Seq::empty()
    } else {
        enc_entry(l[0]) + enc_entries(l.drop_first())
    }
}

/// Read `n` entries off the front.
pub open spec fn dec_entries(s: Seq<char>, n: nat) -> Option<(Seq<(Date, u32)>, Seq<char>)>
    decreases n,
{
    if n == 0 {
        Some((Seq::empty(), s))
    } else {
        match dec_entry(s) {
            None => None,
            Some((e, rest)) => match dec_entries(rest, (n - 1) as nat) {
                None => None,
                Some((l, tail)) => Some((seq![e] + l, tail)),
            },
        }
    }
}

pub proof fn lemma_entries_round_trip(l: Seq<(Date, u32)>, rest: Seq<char>)
    ensures
        dec_entries(enc_entries(l) + rest, l.len()) == Some((l, rest)),
    decreases l.len(),
{
    if l.len() == 0 {
        assert(enc_entries(l) + rest =~= rest);
        assert(l =~= Seq::<(Date, u32)>::empty());
    } else {
        let t = l.drop_first();
        assert(enc_entries(l) + rest =~= enc_entry(l[0]) + (enc_entries(t) + rest));
        lemma_entry_round_trip(l[0], enc_entries(t) + rest);
        lemma_entries_round_trip(t, rest);
        assert(seq![l[0]] + t =~= l);
    }
}

// ---------------------------------------------------------------------
// The scan state
// ---------------------------------------------------------------------

/// The persisted scan state: the scanned-path list and the day
/// counters, each with a count prefix.
pub open spec fn enc_scan_state(files: Seq<Seq<char>>, counters: Seq<(Date, u32)>) -> Seq<char> {
    enc_u64(files.len() as u64) + enc_strs(files) + enc_u64(counters.len() as u64) + enc_entries(
        counters,
    )
}

/// Read a whole scan state; every character must be consumed.
pub open spec fn dec_scan_state(s: Seq<char>) -> Option<(Seq<Seq<char>>, Seq<(Date, u32)>)> {
    match dec_u64(s) {
        None => None,
        Some((nf, s1)) => match dec_strs(s1, nf as nat) {
            None => None,
            Some((files, s2)) => match dec_u64(s2) {
                None => None,
                Some((nc, s3)) => match dec_entries(s3, nc as nat) {
                    None => None,
                    Some((counters, tail)) => {
                        if tail.len() == 0 {
                            Some((files, counters))
                        } else {
                            None
                        }
                    },
                },
            },
        },
    }
}

/// Round trip: decoding an encoded scan state reproduces the same
/// scanned-path list and the same day counters.
pub proof fn lemma_scan_state_round_trip(files: Seq<Seq<char>>, counters: Seq<(Date, u32)>)
    requires
        files.len() <= u64::MAX,
        counters.len() <= u64::MAX,
        forall|i: int| 0 <= i < files.len() ==> (#[trigger] files[i]).len() <= u64::MAX,
    ensures
        dec_scan_state(enc_scan_state(files, counters)) == Some((files, counters)),
{
    let s = enc_scan_state(files, counters);
    let r1 = enc_strs(files) + (enc_u64(counters.len() as u64) + enc_entries(counters));
    assert(s =~= enc_u64(files.len() as u64) + r1);
    lemma_u64_round_trip(files.len() as u64, r1);
    let r2 = enc_u64(counters.len() as u64) + enc_entries(counters);
    assert(r1 =~= enc_strs(files) + r2);
    lemma_strs_round_trip(files, r2);
    let r3 = enc_entries(counters) + Seq::<char>::empty();
    assert(r2 =~= enc_u64(counters.len() as u64) + (enc_entries(counters)));
    lemma_u64_round_trip(counters.len() as u64, enc_entries(counters));
    assert(enc_entries(counters) =~= enc_entries(counters) + Seq::<char>::empty());
    lemma_entries_round_trip(counters, Seq::<char>::empty());
}

// ---------------------------------------------------------------------
// Executable encoder
// ---------------------------------------------------------------------

/// Append one number with its terminator.
fn append_enc_u64(out: &mut String, n: u64)
    ensures
        final(out)@ == old(out)@ + enc_u64(n),
{
    crate::text::append_u64(out, n);
    push_char(out, ';');
    proof {
        assert(final(out)@ =~= old(out)@ + enc_u64(n));
    }
}

/// Encode the store's scan state.
pub fn encode_scan_state(db: &Database) -> (out: String)
    requires
        db.files_scanned_before@.len() <= u64::MAX,
        db.id_day_counter@.len() <= u64::MAX,
    ensures
        out@ == enc_scan_state(
            db.files_scanned_before@.map_values(|f: String| f@),
            db.id_day_counter@,
        ),
{
    let ghost files = db.files_scanned_before@.map_values(|f: String| f@);
    let ghost counters = db.id_day_counter@;
    let mut out = String::new();
    append_enc_u64(&mut out, db.files_scanned_before.len() as u64);
    let ghost head = out@;
    let mut i: usize = 0;
    proof {
        assert(out@ =~= head + enc_strs(files.skip(files.len() as int)) + Seq::<char>::empty());
        assert(files.skip(0) =~= files);
    }
    while i < db.files_scanned_before.len()
        invariant
            files == db.files_scanned_before@.map_values(|f: String| f@),
            counters == db.id_day_counter@,
            i <= files.len(),
            out@ + enc_strs(files.skip(i as int)) =~= head + enc_strs(files),
        decreases files.len() - i,
    {
        let f = &db.files_scanned_before[i];
        proof {
            assert(files.skip(i as int)[0] == files[i as int]);
            assert(files[i as int] == f@);
            assert(files.skip(i as int).drop_first() =~= files.skip(i + 1));
        }
        let flen = f.as_str().unicode_len();
        append_enc_u64(&mut out, flen as u64);
        out.append(f.as_str());
        proof {
            assert(out@ + enc_strs(files.skip(i + 1)) =~= head + enc_strs(files));
        }
        i = i + 1;
    }
    proof {
        assert(enc_strs(files.skip(files.len() as int)) =~= Seq::<char>::empty());
        assert(out@ =~= head + enc_strs(files));
    }
    append_enc_u64(&mut out, db.id_day_counter.len() as u64);
    let ghost head2 = out@;
    let mut k: usize = 0;
    proof {
        assert(counters.skip(0) =~= counters);
    }
    while k < db.id_day_counter.len()
        invariant
            counters == db.id_day_counter@,
            k <= counters.len(),
            out@ + enc_entries(counters.skip(k as int)) =~= head2 + enc_entries(counters),
        decreases counters.len() - k,
    {
        let (d, c) = db.id_day_counter[k];
        proof {
            assert(counters.skip(k as int)[0] == counters[k as int]);
            assert(counters.skip(k as int).drop_first() =~= counters.skip(k + 1));
        }
        append_enc_u64(&mut out, d.year as u64);
        append_enc_u64(&mut out, d.month as u64);
        append_enc_u64(&mut out, d.day as u64);
        append_enc_u64(&mut out, c as u64);
        proof {
            assert(out@ + enc_entries(counters.skip(k + 1)) =~= head2 + enc_entries(counters));
        }
        k = k + 1;
    }
    proof {
        assert(enc_entries(counters.skip(counters.len() as int)) =~= Seq::<char>::empty());
        assert(out@ =~= head2 + enc_entries(counters));
        assert(out@ =~= enc_scan_state(files, counters));
    }
    out
}


// ---------------------------------------------------------------------
// Executable decoder
// ---------------------------------------------------------------------

/// Read one number at position `i`.
fn read_u64(s: &str, i: usize, n: usize) -> (r: Option<(u64, usize)>)
    requires
        i <= n,
        n == s@.len(),
    ensures
        match r {
            Some((v, j)) => i < j <= n && dec_u64(s@.skip(i as int)) == Some(
                (v, s@.skip(j as int)),
            ),
            None => dec_u64(s@.skip(i as int)) is None,
        },
{
    let ghost suf = s@.skip(i as int);
    let mut j = i;
    let mut acc: u64 = 0;
    loop
        invariant
            i <= j <= n,
            n == s@.len(),
            suf == s@.skip(i as int),
            forall|t: int| i <= t < j ==> is_digit(#[trigger] s@[t]),
            all_digits(suf.subrange(0, j - i)),
            acc == digits_val(suf.subrange(0, j - i)),
        ensures
            i <= j <= n,
            acc == digits_val(suf.subrange(0, j - i)),
            forall|t: int| i <= t < j ==> is_digit(#[trigger] s@[t]),
            j == n || !is_digit(s@[j as int]),
        decreases n - j,
    {
        if j >= n {
            break;
        }
        let c = s.get_char(j);
        if !('0' <= c && c <= '9') {
            break;
        }
        let d: u64 = (c as u32 - 48) as u64;
        let ghost pre = suf.subrange(0, j - i);
        let ghost cur = suf.subrange(0, j + 1 - i);
        proof {
            assert(cur.drop_last() =~= pre);
            assert(cur.last() == s@[j as int]);
            assert(digits_val(cur) == acc * 10 + d);
        }
        if acc > (u64::MAX - d) / 10 {
            proof {
                assert(acc * 10 + d > u64::MAX) by (nonlinear_arith)
                    requires
                        acc > (u64::MAX - d) / 10,
                        d <= u64::MAX,
                        (u64::MAX - d) / 10 * 10 + (u64::MAX - d) % 10 == u64::MAX - d,
                        0 <= (u64::MAX - d) % 10 < 10,
                        d >= 0,
                ;
                lemma_digit_run_bound(suf);
                let k = digit_run(suf) as int;
                assert forall|t: int| 0 <= t < j + 1 - i implies is_digit(#[trigger] suf[t]) by {
                    assert(suf[t] == s@[i + t]);
                }
                assert(j + 1 - i <= k) by {
                    if k < j + 1 - i {
                        assert(is_digit(suf[k]));
                    }
                }
                assert(cur =~= suf.subrange(0, k).subrange(0, j + 1 - i));
                assert(all_digits(suf.subrange(0, k))) by {
                    assert(forall|t: int|
                        0 <= t < k ==> #[trigger] suf.subrange(0, k)[t] == suf[t]);
                }
                crate::text::lemma_digits_val_mono(suf.subrange(0, k), j + 1 - i);
            }
            return None;
        }
        acc = acc * 10 + d;
        j = j + 1;
    }
    proof {
        assert forall|t: int| 0 <= t < j - i implies is_digit(#[trigger] suf[t]) by {
            assert(suf[t] == s@[i + t]);
        }
        if (j as int) - i < suf.len() {
            assert(suf[j - i] == s@[j as int]);
        }
        lemma_digit_run_exact(suf, j - i);
    }
    if j == i {
        return None;
    }
    if j >= n {
        return None;
    }
    if s.get_char(j) != ';' {
        proof {
            assert(suf[j - i] == s@[j as int]);
        }
        return None;
    }
    proof {
        assert(suf[j - i] == ';');
        assert(suf.subrange(j - i + 1, suf.len() as int) =~= s@.skip(j + 1));
    }
    Some((acc, j + 1))
}

/// Read one length-prefixed string at position `i`.
fn read_piece(s: &str, i: usize, n: usize) -> (r: Option<(String, usize)>)
    requires
        i <= n,
        n == s@.len(),
    ensures
        match r {
            Some((t, j)) => i <= j <= n && dec_str_piece(s@.skip(i as int)) == Some(
                (t@, s@.skip(j as int)),
            ),
            None => dec_str_piece(s@.skip(i as int)) is None,
        },
{
    let (len, j) = match read_u64(s, i, n) {
        Some(p) => p,
        None => {
            return None;
        },
    };
    if len > (n - j) as u64 {
        return None;
    }
    let l = len as usize;
    let piece = s.substring_char(j, j + l);
    proof {
        assert(s@.skip(j as int).subrange(0, len as int) =~= piece@);
        assert(s@.skip(j as int).subrange(len as int, s@.skip(j as int).len() as int) =~= s@.skip(
            j + l,
        ));
    }
    Some((String::from_str(piece), j + l))
}

/// Read one day-counter entry at position `i`.
fn read_entry(s: &str, i: usize, n: usize) -> (r: Option<((Date, u32), usize)>)
    requires
        i <= n,
        n == s@.len(),
    ensures
        match r {
            Some((e, j)) => i <= j <= n && dec_entry(s@.skip(i as int)) == Some(
                (e, s@.skip(j as int)),
            ),
            None => dec_entry(s@.skip(i as int)) is None,
        },
{
    let (y, j1) = match read_u64(s, i, n) {
        Some(p) => p,
        None => {
            return None;
        },
    };
    let (m, j2) = match read_u64(s, j1, n) {
        Some(p) => p,
        None => {
            return None;
        },
    };
    let (d, j3) = match read_u64(s, j2, n) {
        Some(p) => p,
        None => {
            return None;
        },
    };
    let (c, j4) = match read_u64(s, j3, n) {
        Some(p) => p,
        None => {
            return None;
        },
    };
    if y > 65535 || m > 255 || d > 255 || c > 4294967295 {
        return None;
    }
    Some(((Date { year: y as u16, month: m as u8, day: d as u8 }, c as u32), j4))
}

/// Decode a scan state; every character must be consumed.
#[verifier::rlimit(60)]
pub fn decode_scan_state(s: &str) -> (r: Option<(Vec<String>, Vec<(Date, u32)>)>)
    ensures
        match r {
            Some((files, counters)) => dec_scan_state(s@) == Some(
                (files@.map_values(|f: String| f@), counters@),
            ),
            None => dec_scan_state(s@) is None,
        },
{
    let n = s.unicode_len();
    proof {
        assert(s@.skip(0) =~= s@);
    }
    let (nf, a) = match read_u64(s, 0, n) {
        Some(p) => p,
        None => {
            return None;
        },
    };
    let mut i = a;
    let mut files: Vec<String> = Vec::new();
    let mut t: u64 = 0;
    proof {
        let fv = files@.map_values(|x: String| x@);
        assert(fv =~= Seq::<Seq<char>>::empty());
        if dec_strs(s@.skip(a as int), nf as nat) is Some {
            let (l, tail) = dec_strs(s@.skip(a as int), nf as nat).unwrap();
            assert(fv + l =~= l);
        }
    }
    while t < nf
        invariant
            i <= n,
            n == s@.len(),
            t <= nf,
            files@.len() == t,
            dec_u64(s@) == Some((nf, s@.skip(a as int))),
            dec_strs(s@.skip(a as int), nf as nat) == (match dec_strs(
                s@.skip(i as int),
                (nf - t) as nat,
            ) {
                None => None,
                Some((l, tail)) => Some((files@.map_values(|x: String| x@) + l, tail)),
            }),
        decreases nf - t,
    {
        let (piece, j) = match read_piece(s, i, n) {
            Some(p) => p,
            None => {
                return None;
            },
        };
        proof {
            let acc = files@.map_values(|x: String| x@);
            let g = |x: String| x@;
            assert(files@.push(piece).map_values(g) =~= acc.push(piece@));
            if dec_strs(s@.skip(j as int), (nf - t - 1) as nat) is Some {
                let (l, tail) = dec_strs(s@.skip(j as int), (nf - t - 1) as nat).unwrap();
                assert(acc + (seq![piece@] + l) =~= acc.push(piece@) + l);
            }
        }
        files.push(piece);
        i = j;
        t = t + 1;
    }
    let ghost fv = files@.map_values(|x: String| x@);
    proof {
        assert(dec_strs(s@.skip(i as int), 0) == Some(
            (Seq::<Seq<char>>::empty(), s@.skip(i as int)),
        ));
        assert(fv + Seq::<Seq<char>>::empty() =~= fv);
        assert(dec_strs(s@.skip(a as int), nf as nat) == Some((fv, s@.skip(i as int))));
    }
    let ghost c0 = i as int;
    let (nc, b) = match read_u64(s, i, n) {
        Some(p) => p,
        None => {
            return None;
        },
    };
    let mut i2 = b;
    let mut counters: Vec<(Date, u32)> = Vec::new();
    let mut t2: u64 = 0;
    proof {
        assert(counters@ =~= Seq::<(Date, u32)>::empty());
        if dec_entries(s@.skip(b as int), nc as nat) is Some {
            let (l, tail) = dec_entries(s@.skip(b as int), nc as nat).unwrap();
            assert(counters@ + l =~= l);
        }
    }
    while t2 < nc
        invariant
            i2 <= n,
            n == s@.len(),
            t2 <= nc,
            counters@.len() == t2,
            dec_u64(s@) == Some((nf, s@.skip(a as int))),
            dec_strs(s@.skip(a as int), nf as nat) == Some((fv, s@.skip(c0))),
            fv == files@.map_values(|x: String| x@),
            files@.len() == nf,
            dec_u64(s@.skip(c0)) == Some((nc, s@.skip(b as int))),
            dec_entries(s@.skip(b as int), nc as nat) == (match dec_entries(
                s@.skip(i2 as int),
                (nc - t2) as nat,
            ) {
                None => None,
                Some((l, tail)) => Some((counters@ + l, tail)),
            }),
        decreases nc - t2,
    {
        let (entry, j) = match read_entry(s, i2, n) {
            Some(p) => p,
            None => {
                return None;
            },
        };
        proof {
            let acc = counters@;
            if dec_entries(s@.skip(j as int), (nc - t2 - 1) as nat) is Some {
                let (l, tail) = dec_entries(s@.skip(j as int), (nc - t2 - 1) as nat).unwrap();
                assert(acc + (seq![entry] + l) =~= acc.push(entry) + l);
            }
        }
        counters.push(entry);
        i2 = j;
        t2 = t2 + 1;
    }
    proof {
        assert(dec_entries(s@.skip(i2 as int), 0) == Some(
            (Seq::<(Date, u32)>::empty(), s@.skip(i2 as int)),
        ));
        assert(counters@ + Seq::<(Date, u32)>::empty() =~= counters@);
        assert(dec_entries(s@.skip(b as int), nc as nat) == Some(
            (counters@, s@.skip(i2 as int)),
        ));
    }
    if i2 != n {
        proof {
            assert(s@.skip(i2 as int).len() > 0);
        }
        return None;
    }
    proof {
        assert(s@.skip(i2 as int).len() == 0);
    }
    Some((files, counters))
}

} // verus!

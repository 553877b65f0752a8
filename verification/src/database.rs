//! The store: every decoded record, the set of files already scanned,
//! and the per-day identifier counters.

use crate::measurement::timestamp::{Date, TimeStamp};
use crate::measurement::Measurement;
use crate::text::{dec_str, digits_val};
use vstd::prelude::*;

verus! {

/// Append-only store.  Counters are keyed by calendar day; each key
/// occurs once.
pub struct Database {
    pub files_scanned_before: Vec<String>,
    pub id_day_counter: Vec<(Date, u32)>,
    pub measurements: Vec<Measurement>,
}

/// The calendar day of a timestamp.
pub open spec fn date_of(ts: TimeStamp) -> Date {
    Date { year: ts.year, month: ts.month, day: ts.day }
}

/// Each day key occurs at most once.
pub open spec fn keys_unique(cs: Seq<(Date, u32)>) -> bool {
    forall|i: int, j: int| 0 <= i < j < cs.len() ==> (#[trigger] cs[i]).0 != (#[trigger] cs[j]).0
}

/// First entry for a day, or -1.
pub open spec fn find_day(cs: Seq<(Date, u32)>, d: Date) -> int
    decreases cs.len(),
{
    if cs.len() == 0 {
        -1
    } else if cs[0].0 == d {
        0
    } else {
        let r = find_day(cs.drop_first(), d);
        if r < 0 {
            -1
        } else {
            1 + r
        }
    }
}

/// The counter a day stands at; zero before its first identifier.
pub open spec fn counter_of(cs: Seq<(Date, u32)>, d: Date) -> int {
    let i = find_day(cs, d);
    if 0 <= i < cs.len() {
        cs[i].1 as int
    } else {
        0
    }
}

/// The counters after one identifier on day `d`.
pub open spec fn bump(cs: Seq<(Date, u32)>, d: Date) -> Seq<(Date, u32)> {
    let i = find_day(cs, d);
    if 0 <= i < cs.len() {
        cs.update(i, (d, (cs[i].1 + 1) as u32))
    } else {
        cs.push((d, 1))
    }
}

pub proof fn lemma_find_day(cs: Seq<(Date, u32)>, d: Date)
    ensures
        -1 <= find_day(cs, d) < cs.len(),
        find_day(cs, d) >= 0 ==> cs[find_day(cs, d)].0 == d,
        find_day(cs, d) < 0 ==> forall|j: int| 0 <= j < cs.len() ==> (#[trigger] cs[j]).0 != d,
    decreases cs.len(),
{
    if cs.len() > 0 && cs[0].0 != d {
        lemma_find_day(cs.drop_first(), d);
        let t = cs.drop_first();
        if find_day(cs, d) < 0 {
            assert forall|j: int| 0 <= j < cs.len() implies (#[trigger] cs[j]).0 != d by {
                if j > 0 {
                    assert(cs[j] == t[j - 1]);
                }
            }
        }
    }
}

pub proof fn lemma_find_day_exact(cs: Seq<(Date, u32)>, d: Date, k: int)
    requires
        0 <= k <= cs.len(),
        forall|j: int| 0 <= j < k ==> (#[trigger] cs[j]).0 != d,
        k < cs.len() ==> cs[k].0 == d,
    ensures
        find_day(cs, d) == (if k < cs.len() {
            k
        } else {
            -1
        }),
    decreases cs.len(),
{
    if cs.len() > 0 && cs[0].0 != d {
        let t = cs.drop_first();
        assert forall|j: int| 0 <= j < k - 1 implies (#[trigger] t[j]).0 != d by {
            assert(t[j] == cs[j + 1]);
        }
        lemma_find_day_exact(t, d, k - 1);
    }
}

/// A bump leaves every other day's counter alone, raises the bumped
/// day's by one, and keeps the keys unique.
pub proof fn lemma_bump(cs: Seq<(Date, u32)>, d: Date)
    requires
        keys_unique(cs),
        counter_of(cs, d) < u32::MAX,
    ensures
        keys_unique(bump(cs, d)),
        counter_of(bump(cs, d), d) == counter_of(cs, d) + 1,
        forall|d2: Date| d2 != d ==> counter_of(#[trigger] bump(cs, d), d2) == counter_of(cs, d2),
{
    lemma_find_day(cs, d);
    let i = find_day(cs, d);
    let cs2 = bump(cs, d);
    if 0 <= i < cs.len() {
        assert forall|a: int, b: int| 0 <= a < b < cs2.len() implies (#[trigger] cs2[a]).0 != (
        #[trigger] cs2[b]).0 by {
            assert(cs[a].0 != cs[b].0);
        }
        assert forall|j: int| 0 <= j < i implies (#[trigger] cs2[j]).0 != d by {
            assert(cs[j].0 != cs[i].0);
        }
        lemma_find_day_exact(cs2, d, i);
        assert forall|d2: Date| d2 != d implies counter_of(#[trigger] bump(cs, d), d2)
            == counter_of(cs, d2) by {
            lemma_find_day(cs, d2);
            lemma_find_day(cs2, d2);
            let j = find_day(cs, d2);
            if 0 <= j < cs.len() {
                assert forall|t: int| 0 <= t < j implies (#[trigger] cs2[t]).0 != d2 by {
                    assert(cs[t].0 != cs[j].0);
                }
                assert(cs2[j].0 == d2);
                lemma_find_day_exact(cs2, d2, j);
            } else {
                assert forall|t: int| 0 <= t < cs2.len() implies (#[trigger] cs2[t]).0 != d2 by {
                    assert(cs2[t].0 == cs[t].0);
                }
                lemma_find_day_exact(cs2, d2, cs2.len() as int);
            }
        }
    } else {
        assert(cs2 == cs.push((d, 1)));
        assert forall|a: int, b: int| 0 <= a < b < cs2.len() implies (#[trigger] cs2[a]).0 != (
        #[trigger] cs2[b]).0 by {
            lemma_find_day(cs, d);
            if b < cs.len() {
                assert(cs[a].0 != cs[b].0);
            } else {
                assert(cs2[b].0 == d);
                assert(cs2[a].0 == cs[a].0);
            }
        }
        assert forall|j: int| 0 <= j < cs.len() implies (#[trigger] cs2[j]).0 != d by {
            assert(cs2[j].0 == cs[j].0);
        }
        assert(cs2[cs.len() as int].0 == d);
        lemma_find_day_exact(cs2, d, cs.len() as int);
        assert(counter_of(cs2, d) == 1);
        assert forall|d2: Date| d2 != d implies counter_of(#[trigger] bump(cs, d), d2)
            == counter_of(cs, d2) by {
            lemma_find_day(cs, d2);
            let j = find_day(cs, d2);
            if 0 <= j < cs.len() {
                assert forall|t: int| 0 <= t < j implies (#[trigger] cs2[t]).0 != d2 by {
                    assert(cs[t].0 != cs[j].0);
                }
                assert(cs2[j].0 == d2);
                lemma_find_day_exact(cs2, d2, j);
            } else {
                assert forall|t: int| 0 <= t < cs2.len() implies (#[trigger] cs2[t]).0 != d2 by {
                    if t < cs.len() {
                        assert(cs2[t].0 == cs[t].0);
                    }
                }
                lemma_find_day_exact(cs2, d2, cs2.len() as int);
            }
        }
    }
}

// ---------------------------------------------------------------------
// Identifier strings
// ---------------------------------------------------------------------

/// `s` left-padded with zeros to width `w` (kept whole when longer).
pub open spec fn zero_pad(s: Seq<char>, w: int) -> Seq<char> {
    if s.len() >= w {
        s
    } else {
        Seq::new((w - s.len()) as nat, |i: int| '0') + s
    }
}

/// The eight-digit day key `YYYYMMDD` of ordinary dates.
pub open spec fn date_key(d: Date) -> Seq<char> {
    zero_pad(dec_str(d.year as nat), 4) + zero_pad(dec_str(d.month as nat), 2) + zero_pad(
        dec_str(d.day as nat),
        2,
    )
}

/// The identifier handed out for the `n`-th run of a day.
pub open spec fn id_string(d: Date, n: int) -> Seq<char> {
    date_key(d) + seq!['-'] + dec_str(n as nat)
}

/// Append `n` zero-padded to width `w`.
fn append_padded(out: &mut String, n: u64, w: usize)
    ensures
        final(out)@ == old(out)@ + zero_pad(dec_str(n as nat), w as int),
{
    // count the digits of n
    proof {
        crate::text::lemma_dec_str_len_u64(n as nat);
    }
    let mut digits: usize = 1;
    let mut m: u64 = n;
    while m >= 10
        invariant
            dec_str(n as nat).len() == dec_str(m as nat).len() + digits - 1,
            digits >= 1,
            digits <= dec_str(n as nat).len(),
            dec_str(n as nat).len() <= 20,
        decreases m,
    {
        proof {
            crate::text::lemma_dec_str_digits((m / 10) as nat);
            assert(dec_str(m as nat).len() >= 2);
        }
        m = m / 10;
        digits = digits + 1;
    }
    assert(dec_str(n as nat).len() == digits);
    let mut pad: usize = 0;
    let ghost padded = zero_pad(dec_str(n as nat), w as int);
    let ghost zcount: int = if w >= digits {
        w - digits
    } else {
        0
    };
    while pad + digits < w
        invariant
            digits == dec_str(n as nat).len(),
            digits >= 1,
            w >= digits ==> pad <= w - digits,
            w < digits ==> pad == 0,
            out@ == old(out)@ + Seq::new(pad as nat, |i: int| '0'),
        decreases w - digits - pad,
    {
        crate::text::push_char(out, '0');
        proof {
            assert(old(out)@ + Seq::new((pad + 1) as nat, |i: int| '0') =~= (old(out)@ + Seq::new(
                pad as nat,
                |i: int| '0',
            )).push('0'));
        }
        pad = pad + 1;
    }
    crate::text::append_u64(out, n);
    proof {
        assert(final(out)@ =~= old(out)@ + zero_pad(dec_str(n as nat), w as int));
    }
}

impl Database {
    /// Key uniqueness of the day counters.
    pub open spec fn wf(self) -> bool {
        keys_unique(self.id_day_counter@)
    }

    /// A fresh, empty store.
    pub fn new() -> (r: Database)
        ensures
            r.wf(),
            r.files_scanned_before@.len() == 0,
            r.id_day_counter@.len() == 0,
            r.measurements@.len() == 0,
    {
        Database { files_scanned_before: Vec::new(), id_day_counter: Vec::new(), measurements: Vec::new() }
    }

    /// The counter a day currently stands at.
    pub fn counter_at(&self, d: Date) -> (c: u32)
        ensures
            c as int == counter_of(self.id_day_counter@, d),
    {
        let ghost cs = self.id_day_counter@;
        let mut i: usize = 0;
        while i < self.id_day_counter.len()
            invariant
                cs == self.id_day_counter@,
                i <= cs.len(),
                forall|j: int| 0 <= j < i ==> (#[trigger] cs[j]).0 != d,
            decreases cs.len() - i,
        {
            if self.id_day_counter[i].0 == d {
                proof {
                    lemma_find_day_exact(cs, d, i as int);
                }
                return self.id_day_counter[i].1;
            }
            i = i + 1;
        }
        proof {
            lemma_find_day_exact(cs, d, cs.len() as int);
        }
        0
    }

    /// Hand out the next identifier of the timestamp's day: the padded
    /// day key, a dash, and the day's counter, which starts at one.
    pub fn generate_id(&mut self, time_stamp: TimeStamp) -> (id: String)
        requires
            old(self).wf(),
            counter_of(old(self).id_day_counter@, date_of(time_stamp)) < u32::MAX,
        ensures
            final(self).wf(),
            final(self).files_scanned_before == old(self).files_scanned_before,
            final(self).measurements == old(self).measurements,
            final(self).id_day_counter@ == bump(
                old(self).id_day_counter@,
                date_of(time_stamp),
            ),
            counter_of(final(self).id_day_counter@, date_of(time_stamp)) == counter_of(
                old(self).id_day_counter@,
                date_of(time_stamp),
            ) + 1,
            forall|d2: Date|
                d2 != date_of(time_stamp) ==> counter_of(
                    final(self).id_day_counter@,
                    d2,
                ) == counter_of(old(self).id_day_counter@, d2),
            id@ == id_string(
                date_of(time_stamp),
                counter_of(old(self).id_day_counter@, date_of(time_stamp)) + 1,
            ),
    {
        let d = Date { year: time_stamp.year, month: time_stamp.month, day: time_stamp.day };
        let ghost cs = self.id_day_counter@;
        proof {
            lemma_bump(cs, d);
        }
        // find the day's entry
        let mut i: usize = 0;
        let mut found = false;
        while i < self.id_day_counter.len() && !found
            invariant
                cs == self.id_day_counter@,
                i <= cs.len(),
                !found ==> forall|j: int| 0 <= j < i ==> (#[trigger] cs[j]).0 != d,
                found ==> i < cs.len() && cs[i as int].0 == d && forall|j: int|
                    0 <= j < i ==> (#[trigger] cs[j]).0 != d,
            decreases cs.len() - i + (if found {
                0int
            } else {
                1int
            }),
        {
            if self.id_day_counter[i].0 == d {
                found = true;
            } else {
                i = i + 1;
            }
        }
        let counter: u32;
        if found {
            proof {
                lemma_find_day_exact(cs, d, i as int);
            }
            let entry = self.id_day_counter.remove(i);
            counter = entry.1 + 1;
            self.id_day_counter.insert(i, (d, counter));
            proof {
                assert(self.id_day_counter@ =~= bump(cs, d));
            }
        } else {
            proof {
                lemma_find_day_exact(cs, d, cs.len() as int);
            }
            counter = 1;
            self.id_day_counter.push((d, 1));
            proof {
                assert(self.id_day_counter@ =~= bump(cs, d));
            }
        }
        // compose the identifier
        let mut id = String::new();
        append_padded(&mut id, time_stamp.year as u64, 4);
        append_padded(&mut id, time_stamp.month as u64, 2);
        append_padded(&mut id, time_stamp.day as u64, 2);
        crate::text::push_char(&mut id, '-');
        crate::text::append_u64(&mut id, counter as u64);
        proof {
            assert(id@ =~= id_string(d, counter as int));
        }
        id
    }
}


// ---------------------------------------------------------------------
// Laws of identifier assignment
// ---------------------------------------------------------------------

/// Identifiers on one calendar day count 1, 2, 3, ...: a day's first
/// identifier carries counter one, each further one steps the counter
/// by exactly one, and days do not disturb each other, so counters
/// restart at one independently per day.
pub proof fn lemma_id_sequence(cs: Seq<(Date, u32)>, d: Date, d2: Date)
    requires
        keys_unique(cs),
        counter_of(cs, d) < u32::MAX,
        counter_of(bump(cs, d), d2) < u32::MAX,
    ensures
        counter_of(bump(cs, d), d) == counter_of(cs, d) + 1,
        find_day(cs, d) < 0 ==> counter_of(bump(cs, d), d) == 1,
        d2 == d ==> counter_of(bump(bump(cs, d), d2), d) == counter_of(cs, d) + 2,
        d2 != d ==> counter_of(bump(bump(cs, d), d2), d2) == counter_of(cs, d2) + 1,
        keys_unique(bump(bump(cs, d), d2)),
{
    lemma_find_day(cs, d);
    lemma_bump(cs, d);
    lemma_bump(bump(cs, d), d2);
}

/// Identifiers of one day share the date prefix and differ exactly in
/// their counter numeral, so two identifiers with different counters
/// are distinct strings.
pub proof fn lemma_same_day_ids(d: Date, n1: int, n2: int)
    requires
        0 <= n1 < n2,
    ensures
        id_string(d, n1).subrange(0, date_key(d).len() as int + 1) == id_string(d, n2).subrange(
            0,
            date_key(d).len() as int + 1,
        ),
        digits_val(id_string(d, n1).skip(date_key(d).len() as int + 1)) == n1,
        digits_val(id_string(d, n2).skip(date_key(d).len() as int + 1)) == n2,
        id_string(d, n1) != id_string(d, n2),
{
    let p = date_key(d) + seq!['-'];
    crate::text::lemma_dec_str_digits(n1 as nat);
    crate::text::lemma_dec_str_digits(n2 as nat);
    assert(id_string(d, n1).subrange(0, date_key(d).len() as int + 1) =~= p);
    assert(id_string(d, n2).subrange(0, date_key(d).len() as int + 1) =~= p);
    assert(id_string(d, n1).skip(date_key(d).len() as int + 1) =~= dec_str(n1 as nat));
    assert(id_string(d, n2).skip(date_key(d).len() as int + 1) =~= dec_str(n2 as nat));
    if id_string(d, n1) == id_string(d, n2) {
        assert(id_string(d, n1).skip(date_key(d).len() as int + 1) == id_string(d, n2).skip(
            date_key(d).len() as int + 1,
        ));
        assert(false);
    }
}


/// An ordinary date renders as exactly eight digits that recover its
/// components.
pub proof fn lemma_date_key_components(d: Date)
    requires
        d.year <= 9999,
        d.month <= 99,
        d.day <= 99,
    ensures
        date_key(d).len() == 8,
        digits_val(date_key(d).subrange(0, 4)) == d.year,
        digits_val(date_key(d).subrange(4, 6)) == d.month,
        digits_val(date_key(d).subrange(6, 8)) == d.day,
{
    let ys = dec_str(d.year as nat);
    let ms = dec_str(d.month as nat);
    let ds = dec_str(d.day as nat);
    crate::text::lemma_dec_str_digits(d.year as nat);
    crate::text::lemma_dec_str_digits(d.month as nat);
    crate::text::lemma_dec_str_digits(d.day as nat);
    assert(crate::text::pow10(4) == 10000 && crate::text::pow10(2) == 100) by {
        reveal_with_fuel(crate::text::pow10, 5);
    }
    crate::text::lemma_dec_str_len_le(d.year as nat, 4);
    crate::text::lemma_dec_str_len_le(d.month as nat, 2);
    crate::text::lemma_dec_str_len_le(d.day as nat, 2);
    let yp = zero_pad(ys, 4);
    let mp = zero_pad(ms, 2);
    let dp = zero_pad(ds, 2);
    assert(yp.len() == 4 && mp.len() == 2 && dp.len() == 2);
    assert(date_key(d).subrange(0, 4) =~= yp);
    assert(date_key(d).subrange(4, 6) =~= mp);
    assert(date_key(d).subrange(6, 8) =~= dp);
    if ys.len() < 4 {
        crate::text::lemma_digits_val_leading_zeros((4 - ys.len()) as nat, ys);
    }
    if ms.len() < 2 {
        crate::text::lemma_digits_val_leading_zeros((2 - ms.len()) as nat, ms);
    }
    if ds.len() < 2 {
        crate::text::lemma_digits_val_leading_zeros((2 - ds.len()) as nat, ds);
    }
}

/// Identifiers are unique across the store's lifetime: for ordinary
/// dates, two identifiers agree only when both the day and the day's
/// counter agree.
pub proof fn lemma_ids_unique(d1: Date, n1: int, d2: Date, n2: int)
    requires
        d1.year <= 9999,
        d1.month <= 99,
        d1.day <= 99,
        d2.year <= 9999,
        d2.month <= 99,
        d2.day <= 99,
        1 <= n1,
        1 <= n2,
        d1 != d2 || n1 != n2,
    ensures
        id_string(d1, n1) != id_string(d2, n2),
{
    lemma_date_key_components(d1);
    lemma_date_key_components(d2);
    if id_string(d1, n1) == id_string(d2, n2) {
        let s1 = id_string(d1, n1);
        let s2 = id_string(d2, n2);
        assert(s1.subrange(0, 4) =~= date_key(d1).subrange(0, 4));
        assert(s1.subrange(4, 6) =~= date_key(d1).subrange(4, 6));
        assert(s1.subrange(6, 8) =~= date_key(d1).subrange(6, 8));
        assert(s2.subrange(0, 4) =~= date_key(d2).subrange(0, 4));
        assert(s2.subrange(4, 6) =~= date_key(d2).subrange(4, 6));
        assert(s2.subrange(6, 8) =~= date_key(d2).subrange(6, 8));
        assert(d1.year == d2.year && d1.month == d2.month && d1.day == d2.day);
        assert(d1 == d2);
        if n1 < n2 {
            lemma_same_day_ids(d1, n1, n2);
        } else {
            lemma_same_day_ids(d1, n2, n1);
        }
    }
}
} // verus!

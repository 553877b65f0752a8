//! Reshaping a data sheet's columns into per-terminal series.
//!
//! Every column whose header (parenthetical suffix stripped) belongs
//! to the controlled vocabulary contributes one repeat to the series
//! of its (terminal, unit) pair; all other columns are dropped.
//! Repeats keep column order; series keep first-encounter order.

use crate::grid::{text_at, CellV, MyRange};
use crate::text::{first_index_of, str_eq};
use vstd::prelude::*;

pub mod terminal;

pub mod units;

use terminal::Terminal;
use units::Unit;

verus! {

/// One (terminal, unit) series: every repeat is one data column's
/// numeric samples, as raw binary64 bit patterns.
#[derive(Debug, PartialEq)]
pub struct TestData {
    pub terminal: Terminal,
    pub unit: Unit,
    pub data: Vec<Vec<u64>>,
}

/// Ghost image of a series.
pub struct TestDataV {
    pub terminal: Terminal,
    pub unit: Unit,
    pub data: Seq<Seq<u64>>,
}

impl View for TestData {
    type V = TestDataV;

    open spec fn view(&self) -> TestDataV {
        TestDataV {
            terminal: self.terminal,
            unit: self.unit,
            data: self.data@.map_values(|v: Vec<u64>| v@),
        }
    }
}

impl Clone for TestData {
    fn clone(&self) -> (r: Self)
        ensures
            r@ == self@,
    {
        let mut data: Vec<Vec<u64>> = Vec::new();
        let mut i: usize = 0;
        while i < self.data.len()
            invariant
                i <= self.data@.len(),
                data@.len() == i,
                forall|j: int| 0 <= j < i ==> data@[j]@ == self.data@[j]@,
            decreases self.data@.len() - i,
        {
            data.push(self.data[i].clone());
            i = i + 1;
        }
        let r = TestData { terminal: self.terminal, unit: self.unit, data };
        proof {
            assert(r@.data =~= self@.data);
        }
        r
    }
}

/// A series reduced to its repeat count.
#[derive(Debug, Clone, Copy, PartialEq, Eq, Structural)]
pub struct TestDataCompact {
    pub terminal: Terminal,
    pub unit: Unit,
    pub count: usize,
}

// ---------------------------------------------------------------------
// Header matching
// ---------------------------------------------------------------------

/// A header with any parenthetical suffix stripped.
pub open spec fn norm_header(s: Seq<char>) -> Seq<char> {
    let i = first_index_of(s, '(');
    if 0 <= i {
        s.subrange(0, i)
    } else {
        s
    }
}

/// The controlled header vocabulary.
pub open spec fn header_key(s: Seq<char>) -> Option<(Terminal, Unit)> {
    let h = norm_header(s);
    if h == "DrainV"@ {
        Some((Terminal::Drain, Unit::Voltage))
    } else if h == "DrainI"@ {
        Some((Terminal::Drain, Unit::Current))
    } else if h == "GateV"@ {
        Some((Terminal::Gate, Unit::Voltage))
    } else if h == "GateI"@ {
        Some((Terminal::Gate, Unit::Current))
    } else if h == "SourceV"@ {
        Some((Terminal::Source, Unit::Voltage))
    } else if h == "SourceI"@ {
        Some((Terminal::Source, Unit::Current))
    } else if h == "BulkV"@ {
        Some((Terminal::Bulk, Unit::Voltage))
    } else if h == "BulkI"@ {
        Some((Terminal::Bulk, Unit::Current))
    } else if h == "Time"@ {
        Some((Terminal::Time, Unit::Seconds))
    } else {
        None
    }
}

/// The vocabulary key of column `c`, when its header cell holds text
/// that matches.
pub open spec fn key_at(g: MyRange, c: int) -> Option<(Terminal, Unit)> {
    match text_at(g, 0, c) {
        Some(s) => header_key(s),
        None => None,
    }
}

/// The numeric samples of column `c` among rows `1..r`, in row order.
pub open spec fn col_samples(g: MyRange, c: int, r: int) -> Seq<u64>
    decreases r,
{
    if r <= 1 {
        Seq::empty()
    } else {
        col_samples(g, c, r - 1) + (match g.cell(r - 1, c) {
            CellV::Number(b) => seq![b],
            _ => Seq::<u64>::empty(),
        })
    }
}

// ---------------------------------------------------------------------
// Accumulating series
// ---------------------------------------------------------------------

/// First series with the given key, or -1.
pub open spec fn find_series(acc: Seq<TestDataV>, t: Terminal, u: Unit) -> int
    decreases acc.len(),
{
    if acc.len() == 0 {
        -1
    } else if acc[0].terminal == t && acc[0].unit == u {
        0
    } else {
        let r = find_series(acc.drop_first(), t, u);
        if r < 0 {
            -1
        } else {
            1 + r
        }
    }
}

pub proof fn lemma_find_series(acc: Seq<TestDataV>, t: Terminal, u: Unit)
    ensures
        -1 <= find_series(acc, t, u) < acc.len(),
        find_series(acc, t, u) >= 0 ==> acc[find_series(acc, t, u)].terminal == t && acc[
            find_series(acc, t, u)
        ].unit == u,
    decreases acc.len(),
{
    if acc.len() > 0 && !(acc[0].terminal == t && acc[0].unit == u) {
        lemma_find_series(acc.drop_first(), t, u);
    }
}

pub proof fn lemma_find_series_exact(acc: Seq<TestDataV>, t: Terminal, u: Unit, k: int)
    requires
        0 <= k <= acc.len(),
        forall|j: int| 0 <= j < k ==> !((#[trigger] acc[j]).terminal == t && acc[j].unit == u),
        k < acc.len() ==> acc[k].terminal == t && acc[k].unit == u,
    ensures
        find_series(acc, t, u) == (if k < acc.len() {
            k
        } else {
            -1
        }),
    decreases acc.len(),
{
    if acc.len() > 0 && !(acc[0].terminal == t && acc[0].unit == u) {
        let tail = acc.drop_first();
        assert forall|j: int|
            0 <= j < k - 1 implies !((#[trigger] tail[j]).terminal == t && tail[j].unit == u) by {
            assert(tail[j] == acc[j + 1]);
        }
        lemma_find_series_exact(tail, t, u, k - 1);
    }
}

/// Append one repeat under its key: onto the existing series, or as a
/// new series at the end.
pub open spec fn add_series(acc: Seq<TestDataV>, t: Terminal, u: Unit, col: Seq<u64>) -> Seq<
    TestDataV,
> {
    let i = find_series(acc, t, u);
    if 0 <= i < acc.len() {
        acc.update(i, TestDataV { terminal: t, unit: u, data: acc[i].data.push(col) })
    } else {
        acc.push(TestDataV { terminal: t, unit: u, data: seq![col] })
    }
}

/// The series accumulated from the first `c` columns.
pub open spec fn series_upto(g: MyRange, c: int) -> Seq<TestDataV>
    decreases c,
{
    if c <= 0 {
        Seq::empty()
    } else {
        let prev = series_upto(g, c - 1);
        match key_at(g, c - 1) {
            Some(k) => add_series(prev, k.0, k.1, col_samples(g, c - 1, g.nrows())),
            None => prev,
        }
    }
}

/// All series of a data sheet.
pub open spec fn series_v(g: MyRange) -> Seq<TestDataV> {
    series_upto(g, g.ncols())
}

// ---------------------------------------------------------------------
// Executable extraction
// ---------------------------------------------------------------------

/// Match a header string against the vocabulary.
fn header_key_ex(s: &str) -> (r: Option<(Terminal, Unit)>)
    ensures
        r == header_key(s@),
{
    let n = s.unicode_len();
    let mut j: usize = 0;
    let mut found = false;
    while j < n && !found
        invariant
            n == s@.len(),
            j <= n,
            !found ==> forall|tt: int| 0 <= tt < j ==> s@[tt] != '(',
            found ==> j < n && s@[j as int] == '(' && forall|tt: int| 0 <= tt < j ==> s@[tt]
                != '(',
        decreases n - j + (if found {
            0int
        } else {
            1int
        }),
    {
        if s.get_char(j) == '(' {
            found = true;
        } else {
            j = j + 1;
        }
    }
    let h: &str = if found {
        proof {
            crate::text::lemma_first_index_of_exact(s@, '(', j as int);
        }
        s.substring_char(0, j)
    } else {
        proof {
            crate::text::lemma_first_index_of_exact(s@, '(', n as int);
            assert(s@.subrange(0, n as int) =~= s@);
        }
        s
    };
    proof {
        assert(h@ == norm_header(s@));
    }
    if str_eq(h, "DrainV") {
        Some((Terminal::Drain, Unit::Voltage))
    } else if str_eq(h, "DrainI") {
        Some((Terminal::Drain, Unit::Current))
    } else if str_eq(h, "GateV") {
        Some((Terminal::Gate, Unit::Voltage))
    } else if str_eq(h, "GateI") {
        Some((Terminal::Gate, Unit::Current))
    } else if str_eq(h, "SourceV") {
        Some((Terminal::Source, Unit::Voltage))
    } else if str_eq(h, "SourceI") {
        Some((Terminal::Source, Unit::Current))
    } else if str_eq(h, "BulkV") {
        Some((Terminal::Bulk, Unit::Voltage))
    } else if str_eq(h, "BulkI") {
        Some((Terminal::Bulk, Unit::Current))
    } else if str_eq(h, "Time") {
        Some((Terminal::Time, Unit::Seconds))
    } else {
        None
    }
}

impl TestData {
    /// Scan every column of a data sheet, keep the vocabulary columns,
    /// and merge repeats of one (terminal, unit) pair in encounter
    /// order.
    pub fn extract(sheet: &MyRange) -> (out: Vec<TestData>)
        requires
            sheet.wf(),
        ensures
            out@.map_values(|td: TestData| td@) == series_v(*sheet),
    {
        let ncols = sheet.num_cols();
        let nrows = sheet.num_rows();
        let mut out: Vec<TestData> = Vec::new();
        let ghost f = |td: TestData| td@;
        proof {
            assert(out@.map_values(f) =~= Seq::<TestDataV>::empty());
        }
        let mut c: usize = 0;
        while c < ncols
            invariant
                sheet.wf(),
                ncols == sheet.ncols(),
                nrows == sheet.nrows(),
                c <= ncols,
                out@.map_values(|td: TestData| td@) =~= series_upto(*sheet, c as int),
            decreases ncols - c,
        {
            let key = match sheet.get_text(0, c) {
                Some(h) => header_key_ex(h.as_str()),
                None => None,
            };
            match key {
                None => {},
                Some((t, u)) => {
                    // the column's numeric samples
                    let mut samples: Vec<u64> = Vec::new();
                    let mut r: usize = 1;
                    proof {
                        assert(samples@ =~= col_samples(*sheet, c as int, 1));
                    }
                    while r < nrows
                        invariant
                            sheet.wf(),
                            ncols == sheet.ncols(),
                            nrows == sheet.nrows(),
                            c < ncols,
                            1 <= r <= nrows || (nrows <= 1 && r == 1),
                            samples@ =~= col_samples(*sheet, c as int, r as int),
                        decreases nrows - r,
                    {
                        match sheet.get(r, c) {
                            Some(crate::grid::Cell::Number(b)) => {
                                samples.push(*b);
                            },
                            _ => {},
                        }
                        r = r + 1;
                    }
                    proof {
                        if nrows <= 1 {
                            assert(col_samples(*sheet, c as int, sheet.nrows()) =~= Seq::<
                                u64,
                            >::empty());
                        }
                        assert(samples@ =~= col_samples(*sheet, c as int, sheet.nrows()));
                    }
                    // merge under the key
                    let ghost prev = out@.map_values(|td: TestData| td@);
                    let mut idx: usize = 0;
                    let mut found = false;
                    while idx < out.len() && !found
                        invariant
                            prev == out@.map_values(|td: TestData| td@),
                            idx <= out@.len(),
                            !found ==> forall|j: int|
                                0 <= j < idx ==> !((#[trigger] prev[j]).terminal == t
                                    && prev[j].unit == u),
                            found ==> idx < out@.len() && prev[idx as int].terminal == t
                                && prev[idx as int].unit == u && forall|j: int|
                                0 <= j < idx ==> !((#[trigger] prev[j]).terminal == t
                                    && prev[j].unit == u),
                        decreases out@.len() - idx + (if found {
                            0int
                        } else {
                            1int
                        }),
                    {
                        let same = {
                            let e = &out[idx];
                            proof {
                                assert(prev[idx as int] == out@[idx as int]@);
                            }
                            matches_key(e, t, u)
                        };
                        if same {
                            found = true;
                        } else {
                            idx = idx + 1;
                        }
                    }
                    if found {
                        proof {
                            lemma_find_series_exact(prev, t, u, idx as int);
                        }
                        let ghost before = out@;
                        let mut td = out.remove(idx);
                        proof {
                            assert(td@ == prev[idx as int]);
                        }
                        td.data.push(samples);
                        let ghost tdval = td;
                        out.insert(idx, td);
                        proof {
                            let col = col_samples(*sheet, c as int, sheet.nrows());
                            assert(tdval@.data =~= prev[idx as int].data.push(col));
                            assert(out@ =~= before.update(idx as int, tdval));
                            let cur = out@.map_values(|x: TestData| x@);
                            let want = add_series(prev, t, u, col);
                            assert forall|j: int| 0 <= j < cur.len() implies cur[j] == want[j] by {
                                assert(cur[j] == out@[j]@);
                                if j != idx {
                                    assert(out@[j] == before[j]);
                                    assert(before[j]@ == prev[j]);
                                }
                            }
                            assert(cur =~= want);
                        }
                    } else {
                        proof {
                            lemma_find_series_exact(prev, t, u, prev.len() as int);
                        }
                        let mut data: Vec<Vec<u64>> = Vec::new();
                        data.push(samples);
                        let td = TestData { terminal: t, unit: u, data };
                        proof {
                            assert(td@.data =~= seq![
                                col_samples(*sheet, c as int, sheet.nrows()),
                            ]);
                        }
                        out.push(td);
                        proof {
                            let cur = out@.map_values(|x: TestData| x@);
                            let want = add_series(
                                prev,
                                t,
                                u,
                                col_samples(*sheet, c as int, sheet.nrows()),
                            );
                            assert(cur =~= want);
                        }
                    }
                },
            }
            c = c + 1;
        }
        out
    }
}

/// The repeat a compact entry selects: its one-based `count` indexes
/// the series' repeats; anything out of range selects an empty repeat.
pub open spec fn compact_row(td: TestDataV, count: int) -> Seq<u64> {
    if 1 <= count && count <= td.data.len() {
        td.data[count - 1]
    } else {
        Seq::empty()
    }
}

/// The repeats selected from `td` by the matching compact entries, in
/// entry order.
pub open spec fn fc_rows(td: TestDataV, list: Seq<TestDataCompact>) -> Seq<Seq<u64>>
    decreases list.len(),
{
    if list.len() == 0 {
        Seq::empty()
    } else {
        (if list[0].terminal == td.terminal && list[0].unit == td.unit {
            seq![compact_row(td, list[0].count as int)]
        } else {
            Seq::<Seq<u64>>::empty()
        }) + fc_rows(td, list.drop_first())
    }
}

/// Reconstruction of a series from compact selections: `None` when no
/// entry matches the series' key.
pub open spec fn from_compact_v(td: TestDataV, list: Seq<TestDataCompact>) -> Option<TestDataV> {
    let rows = fc_rows(td, list);
    if rows.len() > 0 {
        Some(TestDataV { terminal: td.terminal, unit: td.unit, data: rows })
    } else {
        None
    }
}

impl TestData {
    /// Reduce the series to its repeat count.
    pub fn to_compact(&self) -> (r: TestDataCompact)
        ensures
            r.terminal == self@.terminal,
            r.unit == self@.unit,
            r.count == self@.data.len(),
    {
        TestDataCompact { terminal: self.terminal, unit: self.unit, count: self.data.len() }
    }

    /// Select the repeats the compact entries ask for.
    pub fn from_compact(&self, testdatacompact: &Vec<TestDataCompact>) -> (r: Option<TestData>)
        ensures
            match r {
                Some(td) => from_compact_v(self@, testdatacompact@) == Some(td@),
                None => from_compact_v(self@, testdatacompact@) is None,
            },
    {
        let mut data: Vec<Vec<u64>> = Vec::new();
        let ghost list = testdatacompact@;
        let ghost fv = |v: Vec<u64>| v@;
        proof {
            assert(list.subrange(0, list.len() as int) =~= list);
            assert(data@.map_values(fv) =~= Seq::<Seq<u64>>::empty());
            assert(data@.map_values(fv) + fc_rows(self@, list.subrange(0, list.len() as int))
                =~= fc_rows(self@, list));
        }
        let mut i: usize = 0;
        while i < testdatacompact.len()
            invariant
                list == testdatacompact@,
                i <= list.len(),
                data@.map_values(|v: Vec<u64>| v@) + fc_rows(
                    self@,
                    list.subrange(i as int, list.len() as int),
                ) =~= fc_rows(self@, list),
            decreases list.len() - i,
        {
            let ghost rest = list.subrange(i as int, list.len() as int);
            let entry = &testdatacompact[i];
            proof {
                assert(rest[0] == list[i as int]);
                assert(rest.drop_first() =~= list.subrange(i + 1, list.len() as int));
            }
            if matches_key(self, entry.terminal, entry.unit) {
                let row: Vec<u64> = if 1 <= entry.count && entry.count <= self.data.len() {
                    self.data[entry.count - 1].clone()
                } else {
                    Vec::new()
                };
                proof {
                    assert(row@ == compact_row(self@, list[i as int].count as int));
                    let g = |v: Vec<u64>| v@;
                    assert(data@.push(row).map_values(g) =~= data@.map_values(g).push(row@));
                }
                data.push(row);
            }
            i = i + 1;
        }
        proof {
            assert(list.subrange(list.len() as int, list.len() as int) =~= Seq::<
                TestDataCompact,
            >::empty());
        }
        if data.len() > 0 {
            let r = TestData { terminal: self.terminal, unit: self.unit, data };
            Some(r)
        } else {
            None
        }
    }
}

fn matches_key(e: &TestData, t: Terminal, u: Unit) -> (r: bool)
    ensures
        r == (e@.terminal == t && e@.unit == u),
{
    let tm = match (&e.terminal, &t) {
        (Terminal::Gate, Terminal::Gate) => true,
        (Terminal::Drain, Terminal::Drain) => true,
        (Terminal::Source, Terminal::Source) => true,
        (Terminal::Bulk, Terminal::Bulk) => true,
        (Terminal::Time, Terminal::Time) => true,
        _ => false,
    };
    let um = match (&e.unit, &u) {
        (Unit::Voltage, Unit::Voltage) => true,
        (Unit::Current, Unit::Current) => true,
        (Unit::Seconds, Unit::Seconds) => true,
        _ => false,
    };
    tm && um
}

} // verus!

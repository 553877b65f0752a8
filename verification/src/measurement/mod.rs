//! Decoding one workbook into measurement records.

use vstd::prelude::*;

pub mod device;

pub mod offsets;

pub mod terminal_parameter;

pub mod testdata;

pub mod testparameter;

pub mod timestamp;

use crate::database::Database;
use crate::grid::{text_at, MyRange};
use device::{Device, DeviceV};
use terminal_parameter::{TerminalParameter, TerminalParameterV};
use testdata::{TestData, TestDataCompact, TestDataV};
use testparameter::TestParameter;
use timestamp::{timestamp_v, TimeStamp};

verus! {

/// The marker text that labels each run block in a settings sheet.
pub open spec fn is_marker(g: MyRange, r: int, c: int) -> bool {
    text_at(g, r, c) == Some("Test Name"@)
}

/// Rows of the markers in row `r` at columns `c..`, one entry per
/// marker cell.
pub open spec fn markers_in_row(g: MyRange, r: int, c: int) -> Seq<int>
    decreases g.ncols() - c,
{
    if c < 0 || c >= g.ncols() {
        Seq::empty()
    } else {
        (if is_marker(g, r, c) {
            seq![r]
        } else {
            Seq::<int>::empty()
        }) + markers_in_row(g, r, c + 1)
    }
}

/// Rows of all markers in rows `0..r`, in row-major scan order.
pub open spec fn markers_upto(g: MyRange, r: int) -> Seq<int>
    decreases r,
{
    if r <= 0 {
        Seq::empty()
    } else {
        markers_upto(g, r - 1) + markers_in_row(g, r - 1, 0)
    }
}

/// All marker rows of a sheet.
pub open spec fn marker_rows(g: MyRange) -> Seq<int> {
    markers_upto(g, g.nrows())
}

/// The run boundaries: each marker sits three rows below its run's
/// first row.
pub open spec fn boundaries(g: MyRange) -> Seq<int> {
    marker_rows(g).map_values(|r: int| r - 3)
}

/// Boundary rows usable for segmentation: in range and strictly
/// increasing, so the sub-ranges are non-empty and ordered.
pub open spec fn boundaries_ok(bs: Seq<int>, total: int) -> bool {
    &&& bs.len() >= 1
    &&& forall|i: int| 0 <= i < bs.len() ==> 0 <= #[trigger] bs[i] < total
    &&& forall|i: int| 0 <= i < bs.len() - 1 ==> #[trigger] bs[i] < bs[i + 1]
}

/// What `segment_runs` promises of each produced sub-range: one run
/// per boundary; run `i` spans the rows from its boundary up to the
/// next (or the sheet's end), full width, in sheet order.
pub open spec fn segmentation_ok(g: MyRange, bs: Seq<int>, runs: Seq<MyRange>) -> bool {
    &&& runs.len() == bs.len()
    &&& forall|i: int|
        0 <= i < runs.len() ==> {
            let run = #[trigger] runs[i];
            let end = if i < bs.len() - 1 {
                bs[i + 1]
            } else {
                g.nrows()
            };
            &&& run.wf()
            &&& run.abs().0 == g.abs().0 + bs[i]
            &&& run.abs().1 == g.abs().1
            &&& run.nrows() == end - bs[i]
            &&& run.ncols() == g.ncols()
            &&& forall|r: int, c: int|
                0 <= r < run.nrows() && 0 <= c < run.ncols() ==> #[trigger] run.cell(r, c)
                    == g.cell(bs[i] + r, c)
        }
}

/// The run a row belongs to: the last boundary at or before it.
pub open spec fn run_of(bs: Seq<int>, row: int) -> int
    decreases bs.len(),
{
    if bs.len() == 0 {
        -1
    } else if bs.last() <= row {
        bs.len() - 1
    } else {
        run_of(bs.drop_last(), row)
    }
}

/// The sub-ranges of a segmentation partition the sheet's rows from
/// the first boundary down: every such row falls in exactly one run.
pub proof fn lemma_runs_partition(bs: Seq<int>, total: int, row: int)
    requires
        boundaries_ok(bs, total),
        bs[0] <= row < total,
    ensures
        ({
            let i = run_of(bs, row);
            &&& 0 <= i < bs.len()
            &&& bs[i] <= row
            &&& row < (if i < bs.len() - 1 {
                bs[i + 1]
            } else {
                total
            })
            &&& forall|j: int|
                0 <= j < bs.len() && j != i ==> !(#[trigger] bs[j] <= row && row < (if j < bs.len()
                    - 1 {
                    bs[j + 1]
                } else {
                    total
                }))
        }),
{
    lemma_run_of(bs, row);
    let i = run_of(bs, row);
    assert forall|j: int|
        0 <= j < bs.len() && j != i implies !(#[trigger] bs[j] <= row && row < (if j < bs.len()
            - 1 {
            bs[j + 1]
        } else {
            total
        })) by {
        if j < i {
            lemma_bs_increasing(bs, j + 1, i);
            assert(bs[j + 1] <= bs[i]);
        } else {
            assert(i < bs.len() - 1 ==> row < bs[i + 1]);
            lemma_bs_increasing(bs, i + 1, j);
        }
    }
}

/// Boundaries are increasing across any index gap.
proof fn lemma_bs_increasing(bs: Seq<int>, a: int, b: int)
    requires
        forall|i: int| 0 <= i < bs.len() - 1 ==> #[trigger] bs[i] < bs[i + 1],
        0 <= a <= b < bs.len(),
    ensures
        bs[a] <= bs[b],
    decreases b - a,
{
    if a < b {
        lemma_bs_increasing(bs, a, b - 1);
    }
}

proof fn lemma_run_of(bs: Seq<int>, row: int)
    requires
        bs.len() >= 1,
        forall|i: int| 0 <= i < bs.len() - 1 ==> #[trigger] bs[i] < bs[i + 1],
        bs[0] <= row,
    ensures
        ({
            let i = run_of(bs, row);
            &&& 0 <= i < bs.len()
            &&& bs[i] <= row
            &&& i < bs.len() - 1 ==> row < bs[i + 1]
        }),
    decreases bs.len(),
{
    if bs.len() > 0 && !(bs.last() <= row) {
        let t = bs.drop_last();
        assert(bs[0] == t[0]);
        lemma_run_of(t, row);
        let i = run_of(t, row);
        assert(t[i] == bs[i]);
        if i < t.len() - 1 {
            assert(t[i + 1] == bs[i + 1]);
        }
    }
}


/// A failure that aborts the decode of a workbook or run.  Soft field
/// absences never raise one of these; only structure does.
#[derive(Debug, PartialEq)]
pub enum DecodeError {
    /// The workbook has no sheet named "Settings".
    MissingSettingsSheet,
    /// The settings sheet holds no run marker at all.
    NoRunMarker,
    /// A marker sits too high for a run to start above it, or two
    /// markers share a row.
    BadMarker,
    /// A run block does not name its data sheet.
    MissingSheetName,
    /// The named data sheet is not in the workbook.
    MissingDataSheet(String),
    /// The run's timestamp cell cannot be read.
    BadTimeStamp,
    /// The run's parameter block cannot be read.
    BadTestParameter,
    /// A terminal-labeled column misses its instrument or mode.
    BadTerminal,
    /// The day's identifier counter is exhausted.
    IdOverflow,
}

/// Ghost image of a decode failure.
pub enum DecodeErrorV {
    MissingSettingsSheet,
    NoRunMarker,
    BadMarker,
    MissingSheetName,
    MissingDataSheet(Seq<char>),
    BadTimeStamp,
    BadTestParameter,
    BadTerminal,
    IdOverflow,
}

impl View for DecodeError {
    type V = DecodeErrorV;

    open spec fn view(&self) -> DecodeErrorV {
        match self {
            DecodeError::MissingSettingsSheet => DecodeErrorV::MissingSettingsSheet,
            DecodeError::NoRunMarker => DecodeErrorV::NoRunMarker,
            DecodeError::BadMarker => DecodeErrorV::BadMarker,
            DecodeError::MissingSheetName => DecodeErrorV::MissingSheetName,
            DecodeError::MissingDataSheet(s) => DecodeErrorV::MissingDataSheet(s@),
            DecodeError::BadTimeStamp => DecodeErrorV::BadTimeStamp,
            DecodeError::BadTestParameter => DecodeErrorV::BadTestParameter,
            DecodeError::BadTerminal => DecodeErrorV::BadTerminal,
            DecodeError::IdOverflow => DecodeErrorV::IdOverflow,
        }
    }
}

/// One sheet of a workbook, under its tab name.
pub struct NamedSheet {
    pub name: String,
    pub grid: MyRange,
}

/// An opened workbook: its sheets in tab order.
pub struct Workbook {
    pub sheets: Vec<NamedSheet>,
}

impl Workbook {
    pub open spec fn wf(self) -> bool {
        forall|i: int| 0 <= i < self.sheets@.len() ==> (#[trigger] self.sheets@[i]).grid.wf()
    }
}

/// The first sheet carrying the given name.
pub open spec fn find_sheet_in(sheets: Seq<NamedSheet>, name: Seq<char>) -> Option<MyRange>
    decreases sheets.len(),
{
    if sheets.len() == 0 {
        None
    } else if sheets[0].name@ == name {
        Some(sheets[0].grid)
    } else {
        find_sheet_in(sheets.drop_first(), name)
    }
}

/// A found sheet is one of the workbook's sheets, so it is well
/// formed in a well-formed workbook.
pub proof fn lemma_find_sheet_wf(sheets: Seq<NamedSheet>, name: Seq<char>)
    requires
        forall|i: int| 0 <= i < sheets.len() ==> (#[trigger] sheets[i]).grid.wf(),
        find_sheet_in(sheets, name) is Some,
    ensures
        find_sheet_in(sheets, name).unwrap().wf(),
    decreases sheets.len(),
{
    if sheets.len() > 0 && !(sheets[0].name@ == name) {
        let t = sheets.drop_first();
        assert forall|i: int| 0 <= i < t.len() implies (#[trigger] t[i]).grid.wf() by {
            assert(t[i] == sheets[i + 1]);
        }
        lemma_find_sheet_wf(t, name);
    }
}

fn find_sheet<'a>(wb: &'a Workbook, name: &str) -> (r: Option<&'a MyRange>)
    ensures
        match r {
            Some(g) => find_sheet_in(wb.sheets@, name@) == Some(*g),
            None => find_sheet_in(wb.sheets@, name@) is None,
        },
{
    let ghost sheets = wb.sheets@;
    let mut i: usize = 0;
    proof {
        assert(sheets.subrange(0, sheets.len() as int) =~= sheets);
    }
    while i < wb.sheets.len()
        invariant
            sheets == wb.sheets@,
            i <= sheets.len(),
            find_sheet_in(sheets.subrange(i as int, sheets.len() as int), name@)
                == find_sheet_in(sheets, name@),
        decreases sheets.len() - i,
    {
        let ghost rest = sheets.subrange(i as int, sheets.len() as int);
        proof {
            assert(rest[0] == sheets[i as int]);
            assert(rest.drop_first() =~= sheets.subrange(i + 1, sheets.len() as int));
        }
        if crate::text::str_eq(wb.sheets[i].name.as_str(), name) {
            return Some(&wb.sheets[i].grid);
        }
        i = i + 1;
    }
    proof {
        assert(sheets.subrange(sheets.len() as int, sheets.len() as int) =~= Seq::<
            NamedSheet,
        >::empty());
    }
    None
}

// ---------------------------------------------------------------------
// Terminal columns of a run block
// ---------------------------------------------------------------------

/// `col` is the strip of `g`'s column `c` from the fifteenth row down.
pub open spec fn is_column_of(col: MyRange, g: MyRange, c: int) -> bool {
    &&& col.wf()
    &&& col.nrows() == g.nrows() - 14
    &&& col.ncols() == 1
    &&& forall|r: int| 0 <= r < col.nrows() ==> #[trigger] col.cell(r, 0) == g.cell(14 + r, c)
}

/// The terminal strips of a run: one per column past the label column,
/// none when the block is too short to hold a terminal region.
pub open spec fn columns_ok(g: MyRange, cols: Seq<MyRange>) -> bool {
    &&& cols.len() == (if g.nrows() >= 15 && g.ncols() >= 1 {
        g.ncols() - 1
    } else {
        0
    })
    &&& forall|j: int| 0 <= j < cols.len() ==> is_column_of(#[trigger] cols[j], g, j + 1)
}

/// Decode the terminal columns left to right: a column without a
/// terminal label is skipped; one with a label but a bad instrument or
/// mode fails the run.
pub open spec fn decode_columns(cols: Seq<MyRange>, tt: testparameter::TestType) -> Option<
    Seq<TerminalParameterV>,
>
    decreases cols.len(),
{
    if cols.len() == 0 {
        Some(Seq::empty())
    } else {
        match decode_columns(cols.drop_last(), tt) {
            None => None,
            Some(prev) => {
                let col = cols.last();
                if terminal_parameter::terminal::terminal_v(col) is None {
                    Some(prev)
                } else {
                    match terminal_parameter::terminal_parameter_v(col, tt) {
                        None => None,
                        Some(tp) => Some(prev.push(tp)),
                    }
                }
            },
        }
    }
}

/// The first structural fault of a run block, given its terminal
/// strips; `None` when the run decodes.
#[verifier::opaque]
pub open spec fn run_step_error(
    run: MyRange,
    wb: Workbook,
    cs: Seq<(crate::measurement::timestamp::Date, u32)>,
    cols: Seq<MyRange>,
) -> Option<DecodeErrorV> {
    match text_at(run, 0, 0) {
        None => Some(DecodeErrorV::MissingSheetName),
        Some(name) => match find_sheet_in(wb.sheets@, name) {
            None => Some(DecodeErrorV::MissingDataSheet(name)),
            Some(_) => match timestamp_v(run) {
                None => Some(DecodeErrorV::BadTimeStamp),
                Some(ts) => match testparameter::test_parameter_v(run) {
                    None => Some(DecodeErrorV::BadTestParameter),
                    Some(tp) => match decode_columns(cols, tp.test_type) {
                        None => Some(DecodeErrorV::BadTerminal),
                        Some(_) => {
                            if crate::database::counter_of(cs, crate::database::date_of(ts))
                                >= u32::MAX {
                                Some(DecodeErrorV::IdOverflow)
                            } else {
                                None
                            }
                        },
                    },
                },
            },
        },
    }
}

/// What a decoded run's record holds, relative to the store's counters
/// before it.
#[verifier::opaque]
pub open spec fn record_ok(
    rec: MeasurementV,
    run: MyRange,
    wb: Workbook,
    path: Seq<char>,
    cs: Seq<(crate::measurement::timestamp::Date, u32)>,
) -> bool {
    exists|cols: Seq<MyRange>|
        {
            &&& #[trigger] columns_ok(run, cols)
            &&& run_step_error(run, wb, cs, cols) is None
            &&& {
                let name = text_at(run, 0, 0).unwrap();
                let ts = timestamp_v(run).unwrap();
                let tp = testparameter::test_parameter_v(run).unwrap();
                let data = find_sheet_in(wb.sheets@, name).unwrap();
                let d = crate::database::date_of(ts);
                &&& rec.id == crate::database::id_string(
                    d,
                    crate::database::counter_of(cs, d) + 1,
                )
                &&& rec.file_path == path
                &&& rec.sheet_name == name
                &&& rec.device == device::device_v(path, name)
                &&& rec.test_parameter == tp
                &&& rec.test_time_stamp == ts
                &&& rec.terminals == decode_columns(cols, tp.test_type).unwrap()
                &&& rec.test_data == testdata::series_v(data)
            }
        }
}

/// One fully decoded test run: identity, device, run-wide parameters,
/// per-terminal settings, and the raw data series.
#[derive(Debug, PartialEq)]
pub struct Measurement {
    pub id: String,
    pub file_path: String,
    pub sheet_name: String,
    pub device: Device,
    pub test_parameter: TestParameter,
    pub test_time_stamp: TimeStamp,
    pub terminals: Vec<TerminalParameter>,
    pub test_data: Vec<TestData>,
}

/// Ghost image of a measurement record.
pub struct MeasurementV {
    pub id: Seq<char>,
    pub file_path: Seq<char>,
    pub sheet_name: Seq<char>,
    pub device: DeviceV,
    pub test_parameter: TestParameter,
    pub test_time_stamp: TimeStamp,
    pub terminals: Seq<TerminalParameterV>,
    pub test_data: Seq<TestDataV>,
}

impl View for Measurement {
    type V = MeasurementV;

    open spec fn view(&self) -> MeasurementV {
        MeasurementV {
            id: self.id@,
            file_path: self.file_path@,
            sheet_name: self.sheet_name@,
            device: self.device@,
            test_parameter: self.test_parameter,
            test_time_stamp: self.test_time_stamp,
            terminals: self.terminals@.map_values(|t: TerminalParameter| t@),
            test_data: self.test_data@.map_values(|t: TestData| t@),
        }
    }
}

impl Clone for Measurement {
    fn clone(&self) -> (r: Self)
        ensures
            r@ == self@,
    {
        let mut terminals: Vec<TerminalParameter> = Vec::new();
        let mut i: usize = 0;
        while i < self.terminals.len()
            invariant
                i <= self.terminals@.len(),
                terminals@.len() == i,
                forall|j: int| 0 <= j < i ==> terminals@[j]@ == self.terminals@[j]@,
            decreases self.terminals@.len() - i,
        {
            terminals.push(self.terminals[i].clone());
            i = i + 1;
        }
        let mut test_data: Vec<TestData> = Vec::new();
        let mut k: usize = 0;
        while k < self.test_data.len()
            invariant
                k <= self.test_data@.len(),
                test_data@.len() == k,
                forall|j: int| 0 <= j < k ==> test_data@[j]@ == self.test_data@[j]@,
            decreases self.test_data@.len() - k,
        {
            test_data.push(self.test_data[k].clone());
            k = k + 1;
        }
        let r = Measurement {
            id: self.id.clone(),
            file_path: self.file_path.clone(),
            sheet_name: self.sheet_name.clone(),
            device: self.device.clone(),
            test_parameter: self.test_parameter,
            test_time_stamp: self.test_time_stamp,
            terminals,
            test_data,
        };
        proof {
            assert(r@.terminals =~= self@.terminals);
            assert(r@.test_data =~= self@.test_data);
        }
        r
    }
}

/// A record with each data series reduced to its repeat count.
#[derive(Debug, PartialEq)]
pub struct MeasurementCompact {
    pub id: String,
    pub file_path: String,
    pub sheet_name: String,
    pub device: Device,
    pub test_parameter: TestParameter,
    pub test_time_stamp: TimeStamp,
    pub terminals: Vec<TerminalParameter>,
    pub test_data: Vec<TestDataCompact>,
}

impl Measurement {
    /// The compact projection: everything kept but the sample
    /// matrices, which shrink to their repeat counts.
    pub fn to_compact(&self) -> (r: MeasurementCompact)
        ensures
            r.id@ == self@.id,
            r.file_path@ == self@.file_path,
            r.sheet_name@ == self@.sheet_name,
            r.device@ == self@.device,
            r.test_parameter == self@.test_parameter,
            r.test_time_stamp == self@.test_time_stamp,
            r.terminals@.map_values(|t: TerminalParameter| t@) == self@.terminals,
            r.test_data@.len() == self@.test_data.len(),
            forall|j: int|
                0 <= j < self@.test_data.len() ==> {
                    let c = #[trigger] r.test_data@[j];
                    &&& c.terminal == self@.test_data[j].terminal
                    &&& c.unit == self@.test_data[j].unit
                    &&& c.count == self@.test_data[j].data.len()
                },
    {
        let copy = self.clone();
        let mut test_data: Vec<TestDataCompact> = Vec::new();
        let mut i: usize = 0;
        while i < self.test_data.len()
            invariant
                i <= self.test_data@.len(),
                test_data@.len() == i,
                forall|j: int|
                    0 <= j < i ==> {
                        let c = #[trigger] test_data@[j];
                        &&& c.terminal == self.test_data@[j]@.terminal
                        &&& c.unit == self.test_data@[j]@.unit
                        &&& c.count == self.test_data@[j]@.data.len()
                    },
            decreases self.test_data@.len() - i,
        {
            test_data.push(self.test_data[i].to_compact());
            i = i + 1;
        }
        let r = MeasurementCompact {
            id: copy.id,
            file_path: copy.file_path,
            sheet_name: copy.sheet_name,
            device: copy.device,
            test_parameter: copy.test_parameter,
            test_time_stamp: copy.test_time_stamp,
            terminals: copy.terminals,
            test_data,
        };
        r
    }
}


// ---------------------------------------------------------------------
// Run segmentation
// ---------------------------------------------------------------------

/// Scan every cell for run markers, in row-major order.
fn scan_markers(g: &MyRange) -> (out: Vec<usize>)
    requires
        g.wf(),
    ensures
        out@.map_values(|r: usize| r as int) == marker_rows(*g),
{
    let nrows = g.num_rows();
    let ncols = g.num_cols();
    let mut out: Vec<usize> = Vec::new();
    let ghost f = |r: usize| r as int;
    proof {
        assert(out@.map_values(f) =~= markers_upto(*g, 0));
    }
    let mut r: usize = 0;
    while r < nrows
        invariant
            g.wf(),
            nrows == g.nrows(),
            ncols == g.ncols(),
            r <= nrows,
            out@.map_values(|x: usize| x as int) =~= markers_upto(*g, r as int),
        decreases nrows - r,
    {
        let mut c: usize = 0;
        while c < ncols
            invariant
                g.wf(),
                nrows == g.nrows(),
                ncols == g.ncols(),
                r < nrows,
                c <= ncols,
                out@.map_values(|x: usize| x as int) + markers_in_row(*g, r as int, c as int)
                    =~= markers_upto(*g, r + 1),
            decreases ncols - c,
        {
            let hit = match g.get_text(r, c) {
                Some(s) => crate::text::str_eq(s.as_str(), "Test Name"),
                None => false,
            };
            if hit {
                proof {
                    let h = |x: usize| x as int;
                    assert(out@.push(r).map_values(h) =~= out@.map_values(h).push(r as int));
                }
                out.push(r);
            }
            c = c + 1;
        }
        r = r + 1;
    }
    out
}

/// Split the settings sheet into one sub-range per run, at the marker
/// boundaries.  Fails when no marker is found, when a marker sits in
/// the top three rows, or when two markers share a row.
#[verifier::rlimit(100)]
#[verifier::spinoff_prover]
pub fn segment_runs(sheet: &MyRange) -> (r: Result<Vec<MyRange>, DecodeError>)
    requires
        sheet.wf(),
        sheet.nrows() > 0,
        sheet.ncols() > 0,
    ensures
        match r {
            Ok(runs) => boundaries_ok(boundaries(*sheet), sheet.nrows()) && segmentation_ok(
                *sheet,
                boundaries(*sheet),
                runs@,
            ),
            Err(e) => {
                &&& (e@ == DecodeErrorV::NoRunMarker || e@ == DecodeErrorV::BadMarker)
                &&& (e@ == DecodeErrorV::NoRunMarker <==> marker_rows(*sheet).len() == 0)
                &&& !boundaries_ok(boundaries(*sheet), sheet.nrows())
            },
        },
{
    let markers = scan_markers(sheet);
    let ghost bs = boundaries(*sheet);
    proof {
        assert(bs.len() == markers@.len());
    }
    if markers.len() == 0 {
        return Err(DecodeError::NoRunMarker);
    }
    // validate the boundaries
    let mut i: usize = 0;
    while i < markers.len()
        invariant
            sheet.wf(),
            bs == boundaries(*sheet),
            markers@.map_values(|x: usize| x as int) == marker_rows(*sheet),
            bs.len() == markers@.len(),
            i <= markers@.len(),
            forall|j: int| 0 <= j < i ==> 0 <= #[trigger] bs[j] < sheet.nrows(),
            forall|j: int| 0 <= j < i - 1 ==> #[trigger] bs[j] < bs[j + 1],
        decreases markers@.len() - i,
    {
        proof {
            assert(bs[i as int] == marker_rows(*sheet)[i as int] - 3);
            assert(marker_rows(*sheet)[i as int] == markers@[i as int] as int);
            lemma_marker_rows_in_range(*sheet, i as int);
            if i >= 1 {
                assert(bs[i - 1] == marker_rows(*sheet)[i - 1] - 3);
                assert(marker_rows(*sheet)[i - 1] == markers@[i - 1] as int);
            }
        }
        if markers[i] < 3 {
            proof {
                assert(!(0 <= bs[i as int]));
            }
            return Err(DecodeError::BadMarker);
        }
        if i >= 1 && markers[i - 1] >= markers[i] {
            proof {
                assert(!(bs[i - 1] < bs[i as int]));
            }
            return Err(DecodeError::BadMarker);
        }
        i = i + 1;
    }
    proof {
        assert(boundaries_ok(bs, sheet.nrows()));
    }
    Ok(cut_runs(sheet, &markers))
}

/// Cut one sub-range per validated boundary.
fn cut_runs(sheet: &MyRange, markers: &Vec<usize>) -> (runs: Vec<MyRange>)
    requires
        sheet.wf(),
        sheet.nrows() > 0,
        sheet.ncols() > 0,
        markers@.map_values(|x: usize| x as int) == marker_rows(*sheet),
        boundaries_ok(boundaries(*sheet), sheet.nrows()),
    ensures
        segmentation_ok(*sheet, boundaries(*sheet), runs@),
{
    let ghost bs = boundaries(*sheet);
    proof {
        assert(bs.len() == markers@.len());
    }
    let nrows = sheet.num_rows();
    let ncols = sheet.num_cols();
    let base = sheet.abs_pos();
    let mut runs: Vec<MyRange> = Vec::new();
    let mut k: usize = 0;
    while k < markers.len()
        invariant
            sheet.wf(),
            bs == boundaries(*sheet),
            markers@.map_values(|x: usize| x as int) == marker_rows(*sheet),
            bs.len() == markers@.len(),
            boundaries_ok(bs, sheet.nrows()),
            nrows == sheet.nrows(),
            ncols == sheet.ncols(),
            base.0 == sheet.abs().0,
            base.1 == sheet.abs().1,
            base.0 + nrows <= usize::MAX,
            base.1 + ncols <= usize::MAX,
            ncols >= 1,
            k <= bs.len(),
            runs@.len() == k,
            forall|j: int|
                0 <= j < k ==> {
                    let run = #[trigger] runs@[j];
                    let end = if j < bs.len() - 1 {
                        bs[j + 1]
                    } else {
                        sheet.nrows()
                    };
                    &&& run.wf()
                    &&& run.abs().0 == sheet.abs().0 + bs[j]
                    &&& run.abs().1 == sheet.abs().1
                    &&& run.nrows() == end - bs[j]
                    &&& run.ncols() == sheet.ncols()
                    &&& forall|rr: int, cc: int|
                        0 <= rr < run.nrows() && 0 <= cc < run.ncols() ==> #[trigger] run.cell(
                            rr,
                            cc,
                        ) == sheet.cell(bs[j] + rr, cc)
                },
        decreases bs.len() - k,
    {
        proof {
            assert(bs[k as int] == markers@[k as int] as int - 3);
            assert(0 <= bs[k as int] < sheet.nrows());
            if k < markers@.len() - 1 {
                assert(bs[k + 1] == markers@[k + 1] as int - 3);
                assert(bs[k as int] < bs[k + 1] < sheet.nrows());
            }
        }
        let start_row: usize = markers[k] - 3;
        let end_row: usize = if k + 1 < markers.len() {
            (markers[k + 1] - 3) - 1
        } else {
            nrows - 1
        };
        let run = sheet.sub_range((start_row, 0), (base.0 + end_row, base.1 + (ncols - 1)));
        runs.push(run);
        k = k + 1;
    }
    runs
}

/// Every marker row lies inside the sheet.
proof fn lemma_marker_rows_in_range(g: MyRange, i: int)
    requires
        0 <= i < marker_rows(g).len(),
    ensures
        0 <= marker_rows(g)[i] < g.nrows(),
{
    lemma_markers_upto_range(g, g.nrows(), i);
}

proof fn lemma_markers_upto_range(g: MyRange, r: int, i: int)
    requires
        0 <= i < markers_upto(g, r).len(),
    ensures
        0 <= markers_upto(g, r)[i] < r,
    decreases r,
{
    if r > 0 {
        let prev = markers_upto(g, r - 1);
        if i < prev.len() {
            lemma_markers_upto_range(g, r - 1, i);
        } else {
            lemma_markers_in_row_val(g, r - 1, 0, i - prev.len());
        }
    }
}

proof fn lemma_markers_in_row_val(g: MyRange, r: int, c: int, i: int)
    requires
        0 <= i < markers_in_row(g, r, c).len(),
    ensures
        markers_in_row(g, r, c)[i] == r,
    decreases g.ncols() - c,
{
    if !(c < 0 || c >= g.ncols()) {
        if is_marker(g, r, c) && i == 0 {
        } else if is_marker(g, r, c) {
            lemma_markers_in_row_val(g, r, c + 1, i - 1);
        } else {
            lemma_markers_in_row_val(g, r, c + 1, i);
        }
    }
}


// ---------------------------------------------------------------------
// Decoding one run
// ---------------------------------------------------------------------

/// Cut the terminal strips of a run block.
fn build_columns(run: &MyRange) -> (cols: Vec<MyRange>)
    requires
        run.wf(),
    ensures
        columns_ok(*run, cols@),
{
    let nrows = run.num_rows();
    let ncols = run.num_cols();
    let mut cols: Vec<MyRange> = Vec::new();
    if nrows < 15 || ncols == 0 {
        return cols;
    }
    let base = run.abs_pos();
    let mut c: usize = 1;
    while c < ncols
        invariant
            run.wf(),
            nrows == run.nrows(),
            ncols == run.ncols(),
            nrows >= 15,
            base.0 == run.abs().0,
            base.1 == run.abs().1,
            base.0 + nrows <= usize::MAX,
            base.1 + ncols <= usize::MAX,
            1 <= c <= ncols,
            cols@.len() == c - 1,
            forall|j: int| 0 <= j < c - 1 ==> is_column_of(#[trigger] cols@[j], *run, j + 1),
        decreases ncols - c,
    {
        let col = run.sub_range((14, c), (base.0 + (nrows - 1), base.1 + c));
        cols.push(col);
        c = c + 1;
    }
    cols
}

impl Measurement {
    /// Decode one run block against its workbook, hand the record an
    /// identifier, and append it to the store.  On an error the store
    /// is untouched.
    #[verifier::rlimit(100)]
    #[verifier::spinoff_prover]
    pub fn extract_run(
        run: &MyRange,
        wb: &Workbook,
        relative_path: &String,
        storage: &mut Database,
    ) -> (r: Result<(), DecodeError>)
        requires
            run.wf(),
            wb.wf(),
            old(storage).wf(),
        ensures
            final(storage).wf(),
            final(storage).files_scanned_before == old(storage).files_scanned_before,
            match r {
                Ok(_) => true,
                Err(e) => e@ != DecodeErrorV::MissingSettingsSheet && e@
                    != DecodeErrorV::NoRunMarker && e@ != DecodeErrorV::BadMarker,
            },
            exists|cols: Seq<MyRange>|
                {
                    &&& #[trigger] columns_ok(*run, cols)
                    &&& match r {
                        Ok(_) => {
                            &&& run_step_error(
                                *run,
                                *wb,
                                old(storage).id_day_counter@,
                                cols,
                            ) is None
                            &&& final(storage).id_day_counter@ == crate::database::bump(
                                old(storage).id_day_counter@,
                                crate::database::date_of(timestamp_v(*run).unwrap()),
                            )
                            &&& final(storage).measurements@.len()
                                == old(storage).measurements@.len() + 1
                            &&& forall|j: int|
                                0 <= j < old(storage).measurements@.len()
                                    ==> final(storage).measurements@[j]
                                    == old(storage).measurements@[j]
                            &&& record_ok(
                                final(storage).measurements@.last()@,
                                *run,
                                *wb,
                                relative_path@,
                                old(storage).id_day_counter@,
                            )
                        },
                        Err(e) => {
                            &&& run_step_error(*run, *wb, old(storage).id_day_counter@, cols)
                                == Some(e@)
                            &&& final(storage).id_day_counter == old(storage).id_day_counter
                            &&& final(storage).measurements == old(storage).measurements
                        },
                    }
                },
    {
        proof {
            reveal(run_step_error);
            reveal(record_ok);
        }
        let ghost cs0 = storage.id_day_counter@;
        let cols = build_columns(run);
        let ghost colsv = cols@;
        // the data sheet name
        let name: String = match run.get_text(0, 0) {
            Some(s) => s.clone(),
            None => {
                return Err(DecodeError::MissingSheetName);
            },
        };
        // the data sheet itself
        let data_grid: &MyRange = match find_sheet(wb, name.as_str()) {
            Some(g) => g,
            None => {
                return Err(DecodeError::MissingDataSheet(name));
            },
        };
        proof {
            lemma_find_sheet_wf(wb.sheets@, name@);
        }
        // timestamp and parameter block
        let ts = match TimeStamp::extract(run) {
            Some(t) => t,
            None => {
                return Err(DecodeError::BadTimeStamp);
            },
        };
        let tp = match TestParameter::extract(run) {
            Some(t) => t,
            None => {
                return Err(DecodeError::BadTestParameter);
            },
        };
        // terminal columns
        let mut terminals: Vec<TerminalParameter> = Vec::new();
        let mut c: usize = 0;
        proof {
            assert(colsv.take(0) =~= Seq::<MyRange>::empty());
            assert(terminals@.map_values(|t: TerminalParameter| t@) =~= Seq::<
                TerminalParameterV,
            >::empty());
        }
        while c < cols.len()
            invariant
                colsv == cols@,
                c <= colsv.len(),
                columns_ok(*run, colsv),
                run.wf(),
                wb.wf(),
                *storage == *old(storage),
                old(storage).wf(),
                cs0 == storage.id_day_counter@,
                text_at(*run, 0, 0) == Some(name@),
                find_sheet_in(wb.sheets@, name@) is Some,
                timestamp_v(*run) == Some(ts),
                testparameter::test_parameter_v(*run) == Some(tp),
                decode_columns(colsv.take(c as int), tp.test_type) == Some(
                    terminals@.map_values(|t: TerminalParameter| t@),
                ),
            decreases colsv.len() - c,
        {
            proof {
                assert(colsv.take(c + 1).drop_last() =~= colsv.take(c as int));
                assert(colsv.take(c + 1).last() == colsv[c as int]);
                assert(is_column_of(colsv[c as int], *run, c + 1));
            }
            let col = &cols[c];
            match terminal_parameter::terminal::Terminal::extract(col) {
                None => {},
                Some(_) => {
                    match TerminalParameter::extract(col, &tp.test_type) {
                        Some(tpar) => {
                            proof {
                                let f = |t: TerminalParameter| t@;
                                assert(terminals@.push(tpar).map_values(f) =~= terminals@
                                    .map_values(f).push(tpar@));
                            }
                            terminals.push(tpar);
                        },
                        None => {
                            proof {
                                reveal(run_step_error);
                                lemma_decode_columns_fail(colsv, c as int, tp.test_type);
                            }
                            return Err(DecodeError::BadTerminal);
                        },
                    }
                },
            }
            c = c + 1;
        }
        proof {
            assert(colsv.take(colsv.len() as int) =~= colsv);
        }
        // identifier
        let d = crate::measurement::timestamp::Date {
            year: ts.year,
            month: ts.month,
            day: ts.day,
        };
        if storage.counter_at(d) == u32::MAX {
            return Err(DecodeError::IdOverflow);
        }
        let id = storage.generate_id(ts);
        // device metadata and data series
        let device = Device::extract(relative_path.clone(), name.clone());
        let test_data = TestData::extract(data_grid);
        let m = Measurement {
            id,
            file_path: relative_path.clone(),
            sheet_name: name,
            device,
            test_parameter: tp,
            test_time_stamp: ts,
            terminals,
            test_data,
        };
        storage.measurements.push(m);
        proof {
            reveal(run_step_error);
            reveal(record_ok);
            assert(columns_ok(*run, colsv));
            assert(run_step_error(*run, *wb, cs0, colsv) is None);
            let rec = final(storage).measurements@.last()@;
            assert(rec.terminals =~= decode_columns(colsv, tp.test_type).unwrap());
            assert(record_ok(rec, *run, *wb, relative_path@, cs0));
        }
        Ok(())
    }
}

/// When a labeled column fails, the whole prefix that includes it
/// fails.
proof fn lemma_decode_columns_fail(cols: Seq<MyRange>, c: int, tt: testparameter::TestType)
    requires
        0 <= c < cols.len(),
        terminal_parameter::terminal::terminal_v(cols[c]) is Some,
        terminal_parameter::terminal_parameter_v(cols[c], tt) is None,
    ensures
        decode_columns(cols, tt) is None,
    decreases cols.len(),
{
    if cols.len() > 0 {
        if c == cols.len() - 1 {
            assert(cols.last() == cols[c]);
        } else {
            let t = cols.drop_last();
            assert(t[c] == cols[c]);
            lemma_decode_columns_fail(t, c, tt);
        }
    }
}


// ---------------------------------------------------------------------
// Decoding a whole workbook
// ---------------------------------------------------------------------

/// The calendar days of a sequence of decoded runs.
pub open spec fn run_dates(runs: Seq<MyRange>) -> Seq<crate::measurement::timestamp::Date> {
    runs.map_values(
        |run: MyRange| crate::database::date_of(timestamp_v(run).unwrap()),
    )
}

/// The counters after one identifier on each day in turn.
pub open spec fn fold_bump(
    cs: Seq<(crate::measurement::timestamp::Date, u32)>,
    ds: Seq<crate::measurement::timestamp::Date>,
) -> Seq<(crate::measurement::timestamp::Date, u32)>
    decreases ds.len(),
{
    if ds.len() == 0 {
        cs
    } else {
        crate::database::bump(fold_bump(cs, ds.drop_last()), ds.last())
    }
}

/// Whether a path is already recorded as scanned.
pub open spec fn contains_file(files: Seq<String>, p: Seq<char>) -> bool {
    exists|i: int| 0 <= i < files.len() && (#[trigger] files[i])@ == p
}

/// `body` is `settings` without its first (header) row.
pub open spec fn is_body_of(body: MyRange, settings: MyRange) -> bool {
    &&& body.wf()
    &&& body.nrows() == settings.nrows() - 1
    &&& body.ncols() == settings.ncols()
    &&& forall|r: int, c: int|
        0 <= r < body.nrows() && 0 <= c < body.ncols() ==> #[trigger] body.cell(r, c)
            == settings.cell(1 + r, c)
}

/// The pass decoded runs `0..k` and stopped on run `k`: the records of
/// the decoded prefix are appended, the counters advanced accordingly,
/// and the error is run `k`'s first structural fault.
pub open spec fn failed_at(
    old_db: Database,
    new_db: Database,
    wb: Workbook,
    path: Seq<char>,
    runs: Seq<MyRange>,
    k: int,
    e: DecodeErrorV,
) -> bool {
    &&& 0 <= k < runs.len()
    &&& new_db.measurements@.len() == old_db.measurements@.len() + k
    &&& forall|j: int|
        0 <= j < k ==> record_ok(
            new_db.measurements@[old_db.measurements@.len() + j]@,
            #[trigger] runs[j],
            wb,
            path,
            fold_bump(old_db.id_day_counter@, run_dates(runs).take(j)),
        )
    &&& new_db.id_day_counter@ == fold_bump(old_db.id_day_counter@, run_dates(runs).take(k))
    &&& exists|cols: Seq<MyRange>|
        #[trigger] columns_ok(runs[k], cols) && run_step_error(
            runs[k],
            wb,
            fold_bump(old_db.id_day_counter@, run_dates(runs).take(k)),
            cols,
        ) == Some(e)
}

/// What a failed workbook pass leaves behind, by where it stopped: no
/// Settings sheet, a degenerate or badly marked Settings sheet (store
/// untouched), or a run whose decode failed after a decoded prefix.
pub open spec fn extract_failed(
    old_db: Database,
    new_db: Database,
    wb: Workbook,
    path: Seq<char>,
    e: DecodeErrorV,
) -> bool {
    &&& (find_sheet_in(wb.sheets@, "Settings"@) is None ==> {
        &&& e == DecodeErrorV::MissingSettingsSheet
        &&& new_db.id_day_counter == old_db.id_day_counter
        &&& new_db.measurements == old_db.measurements
    })
    &&& (find_sheet_in(wb.sheets@, "Settings"@) is Some ==> {
        let settings = find_sheet_in(wb.sheets@, "Settings"@).unwrap();
        &&& e != DecodeErrorV::MissingSettingsSheet
        &&& if settings.nrows() < 2 || settings.ncols() == 0 {
            &&& e == DecodeErrorV::NoRunMarker
            &&& new_db.id_day_counter == old_db.id_day_counter
            &&& new_db.measurements == old_db.measurements
        } else {
            exists|body: MyRange|
                {
                    &&& #[trigger] is_body_of(body, settings)
                    &&& if !boundaries_ok(boundaries(body), body.nrows()) {
                        &&& (e == DecodeErrorV::NoRunMarker <==> marker_rows(body).len() == 0)
                        &&& (e == DecodeErrorV::NoRunMarker || e == DecodeErrorV::BadMarker)
                        &&& new_db.id_day_counter == old_db.id_day_counter
                        &&& new_db.measurements == old_db.measurements
                    } else {
                        exists|runs: Seq<MyRange>, k: int|
                            segmentation_ok(body, boundaries(body), runs) && #[trigger] failed_at(
                                old_db,
                                new_db,
                                wb,
                                path,
                                runs,
                                k,
                                e,
                            )
                    }
                }
        }
    })
}

impl Measurement {
    /// Decode a workbook that was not scanned before: segment its
    /// settings sheet, decode every run, and append one record per
    /// run.  A workbook seen before is skipped whole.  A structural
    /// fault aborts the pass: records appended before it remain, but
    /// the path is marked scanned only when the whole workbook
    /// decodes, so a failed file stays rescannable.
    #[verifier::rlimit(100)]
    #[verifier::spinoff_prover]
    pub fn extract(wb: &Workbook, relative_path: String, storage: &mut Database) -> (r: Result<
        (),
        DecodeError,
    >)
        requires
            wb.wf(),
            old(storage).wf(),
        ensures
            final(storage).wf(),
            contains_file(old(storage).files_scanned_before@, relative_path@) ==> r is Ok && final(storage).files_scanned_before == old(storage).files_scanned_before && final(storage).id_day_counter == old(storage).id_day_counter && final(storage).measurements == old(storage).measurements,
            !contains_file(old(storage).files_scanned_before@, relative_path@) ==> {
                &&& final(storage).measurements@.len() >= old(storage).measurements@.len()
                &&& forall|j: int|
                    0 <= j < old(storage).measurements@.len() ==> final(storage).measurements@[j]
                        == old(storage).measurements@[j]
                &&& (match r {
                    Ok(_) => {
                        &&& final(storage).files_scanned_before@.len() == old(storage).files_scanned_before@.len() + 1
                        &&& forall|j: int|
                            0 <= j < old(storage).files_scanned_before@.len() ==> final(storage).files_scanned_before@[j] == old(storage).files_scanned_before@[j]
                        &&& final(storage).files_scanned_before@.last()@ == relative_path@
                        &&& exists|settings: MyRange, body: MyRange, runs: Seq<MyRange>|
                            #![trigger is_body_of(body, settings), segmentation_ok(body, boundaries(body), runs)]
                            {
                                &&& find_sheet_in(wb.sheets@, "Settings"@) == Some(settings)
                                &&& is_body_of(body, settings)
                                &&& boundaries_ok(boundaries(body), body.nrows())
                                &&& segmentation_ok(body, boundaries(body), runs)
                                &&& final(storage).measurements@.len() == old(storage).measurements@.len() + runs.len()
                                &&& final(storage).id_day_counter@ == fold_bump(
                                    old(storage).id_day_counter@,
                                    run_dates(runs),
                                )
                                &&& forall|j: int|
                                    0 <= j < runs.len() ==> record_ok(
                                        final(storage).measurements@[old(storage).measurements@.len() + j]@,
                                        #[trigger] runs[j],
                                        *wb,
                                        relative_path@,
                                        fold_bump(
                                            old(storage).id_day_counter@,
                                            run_dates(runs).take(j),
                                        ),
                                    )
                            }
                    },
                    Err(e) => {
                        &&& final(storage).files_scanned_before == old(storage).files_scanned_before
                        &&& extract_failed(*old(storage), *final(storage), *wb, relative_path@, e@)
                    },
                })
            },
    {
        // duplicate-file skip
        let ghost files0 = storage.files_scanned_before@;
        let mut i: usize = 0;
        while i < storage.files_scanned_before.len()
            invariant
                *storage == *old(storage),
                old(storage).wf(),
                files0 == storage.files_scanned_before@,
                i <= files0.len(),
                forall|j: int| 0 <= j < i ==> (#[trigger] files0[j])@ != relative_path@,
            decreases files0.len() - i,
        {
            if crate::text::str_eq(
                storage.files_scanned_before[i].as_str(),
                relative_path.as_str(),
            ) {
                return Ok(());
            }
            i = i + 1;
        }
        proof {
            assert(!contains_file(files0, relative_path@));
        }
        Measurement::extract_fresh(wb, relative_path, storage)
    }
}

impl Measurement {
    /// Decode a workbook not seen before; the caller has checked the
    /// scanned-file set.
    #[verifier::rlimit(100)]
    #[verifier::spinoff_prover]
    fn extract_fresh(wb: &Workbook, relative_path: String, storage: &mut Database) -> (r: Result<
        (),
        DecodeError,
    >)
        requires
            wb.wf(),
            old(storage).wf(),
            !contains_file(old(storage).files_scanned_before@, relative_path@),
        ensures
            final(storage).wf(),
            final(storage).measurements@.len() >= old(storage).measurements@.len(),
            forall|j: int|
                0 <= j < old(storage).measurements@.len() ==> final(storage).measurements@[j]
                    == old(storage).measurements@[j],
            match r {
                Ok(_) => {
                    &&& final(storage).files_scanned_before@.len() == old(storage).files_scanned_before@.len() + 1
                    &&& forall|j: int|
                        0 <= j < old(storage).files_scanned_before@.len() ==> final(storage).files_scanned_before@[j] == old(storage).files_scanned_before@[j]
                    &&& final(storage).files_scanned_before@.last()@ == relative_path@
                    &&& exists|settings: MyRange, body: MyRange, runs: Seq<MyRange>|
                        #![trigger is_body_of(body, settings), segmentation_ok(body, boundaries(body), runs)]
                        {
                            &&& find_sheet_in(wb.sheets@, "Settings"@) == Some(settings)
                            &&& is_body_of(body, settings)
                            &&& boundaries_ok(boundaries(body), body.nrows())
                            &&& segmentation_ok(body, boundaries(body), runs)
                            &&& final(storage).measurements@.len() == old(storage).measurements@.len() + runs.len()
                            &&& final(storage).id_day_counter@ == fold_bump(
                                old(storage).id_day_counter@,
                                run_dates(runs),
                            )
                            &&& forall|j: int|
                                0 <= j < runs.len() ==> record_ok(
                                    final(storage).measurements@[old(storage).measurements@.len()
                                        + j]@,
                                    #[trigger] runs[j],
                                    *wb,
                                    relative_path@,
                                    fold_bump(old(storage).id_day_counter@, run_dates(runs).take(j)),
                                )
                        }
                },
                Err(e) => {
                    &&& final(storage).files_scanned_before == old(storage).files_scanned_before
                    &&& extract_failed(*old(storage), *final(storage), *wb, relative_path@, e@)
                },
            },
    {
        let ghost cs0 = storage.id_day_counter@;
        let ghost meas0 = storage.measurements@;
        // the settings sheet
        let settings: &MyRange = match find_sheet(wb, "Settings") {
            Some(g) => g,
            None => {
                return Err(DecodeError::MissingSettingsSheet);
            },
        };
        proof {
            lemma_find_sheet_wf(wb.sheets@, "Settings"@);
        }
        if settings.num_rows() < 2 || settings.num_cols() == 0 {
            return Err(DecodeError::NoRunMarker);
        }
        let send = settings.end();
        let body = settings.sub_range((1, 0), send);
        proof {
            assert(is_body_of(body, *settings));
        }
        let runs = match segment_runs(&body) {
            Ok(rs) => rs,
            Err(e) => {
                return Err(e);
            },
        };
        let ghost settingsv = *settings;
        let ghost runsv = runs@;
        let ghost dates = run_dates(runsv);
        proof {
            assert forall|j: int| 0 <= j < runsv.len() implies (#[trigger] runsv[j]).wf() by {
                assert(segmentation_ok(body, boundaries(body), runsv));
            }
        }
        let mut k: usize = 0;
        proof {
            assert(dates.take(0) =~= Seq::<crate::measurement::timestamp::Date>::empty());
            assert(fold_bump(cs0, dates.take(0)) == cs0);
        }
        while k < runs.len()
            invariant
                wb.wf(),
                storage.wf(),
                old(storage).wf(),
                storage.files_scanned_before == old(storage).files_scanned_before,
                cs0 == old(storage).id_day_counter@,
                meas0 == old(storage).measurements@,
                find_sheet_in(wb.sheets@, "Settings"@) == Some(settingsv),
                settingsv.nrows() >= 2,
                settingsv.ncols() > 0,
                is_body_of(body, settingsv),
                boundaries_ok(boundaries(body), body.nrows()),
                segmentation_ok(body, boundaries(body), runsv),
                runsv == runs@,
                k <= runsv.len(),
                dates == run_dates(runsv),
                forall|j: int| 0 <= j < runsv.len() ==> (#[trigger] runsv[j]).wf(),
                storage.measurements@.len() == meas0.len() + k,
                forall|j: int| 0 <= j < meas0.len() ==> storage.measurements@[j] == meas0[j],
                storage.id_day_counter@ == fold_bump(cs0, dates.take(k as int)),
                forall|j: int|
                    0 <= j < k ==> record_ok(
                        storage.measurements@[meas0.len() + j]@,
                        #[trigger] runsv[j],
                        *wb,
                        relative_path@,
                        fold_bump(cs0, dates.take(j)),
                    ),
            decreases runsv.len() - k,
        {
            let ghost cs_before = storage.id_day_counter@;
            let run = &runs[k];
            proof {
                assert(runsv[k as int].wf());
            }
            match Measurement::extract_run(run, wb, &relative_path, storage) {
                Ok(_) => {},
                Err(e) => {
                    proof {
                        assert(failed_at(
                            *old(storage),
                            *storage,
                            *wb,
                            relative_path@,
                            runsv,
                            k as int,
                            e@,
                        ));
                        assert(extract_failed(
                            *old(storage),
                            *storage,
                            *wb,
                            relative_path@,
                            e@,
                        ));
                    }
                    return Err(e);
                },
            }
            proof {
                let d = crate::database::date_of(timestamp_v(runsv[k as int]).unwrap());
                assert(dates[k as int] == d);
                assert(dates.take(k + 1).drop_last() =~= dates.take(k as int));
                assert(dates.take(k + 1).last() == dates[k as int]);
                assert(storage.id_day_counter@ == fold_bump(cs0, dates.take(k + 1)));
            }
            k = k + 1;
        }
        // the whole workbook decoded: only now is the file marked
        storage.files_scanned_before.push(relative_path);
        proof {
            assert(dates.take(runsv.len() as int) =~= dates);
            assert(find_sheet_in(wb.sheets@, "Settings"@) == Some(settingsv));
            assert(is_body_of(body, settingsv));
            assert(boundaries_ok(boundaries(body), body.nrows()));
            assert(segmentation_ok(body, boundaries(body), runsv));
            assert(final(storage).id_day_counter@ == fold_bump(cs0, run_dates(runsv)));
        }
        Ok(())
    }
}

} // verus!

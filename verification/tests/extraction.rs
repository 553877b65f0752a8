use param_analyzer::database::Database;
use param_analyzer::decimal::Decimal;
use param_analyzer::grid::{Cell, MyRange};
use param_analyzer::measurement::terminal_parameter::opmode::OpModeType;
use param_analyzer::measurement::testdata::terminal::Terminal;
use param_analyzer::measurement::testdata::units::Unit;
use param_analyzer::measurement::testdata::TestData;
use param_analyzer::measurement::testparameter::{MeasurementSpeed, TestType};
use param_analyzer::measurement::timestamp::{Date, TimeStamp};
use param_analyzer::measurement::{DecodeError, Measurement, NamedSheet, Workbook};

fn t(s: &str) -> Cell {
    Cell::Text(s.to_string())
}

fn n(v: f64) -> Cell {
    Cell::Number(v.to_bits())
}

fn e() -> Cell {
    Cell::Empty
}

/// A rectangular grid from sparse (row, col, cell) entries.
fn grid(nrows: usize, ncols: usize, cells: Vec<(usize, usize, Cell)>) -> MyRange {
    let mut rows: Vec<Vec<Cell>> = Vec::new();
    for _ in 0..nrows {
        let mut row: Vec<Cell> = Vec::new();
        for _ in 0..ncols {
            row.push(e());
        }
        rows.push(row);
    }
    for (r, c, cell) in cells {
        rows[r][c] = cell;
    }
    MyRange::new(rows)
}

#[test]
fn segmentation_partitions_in_order() {
    // P1: two markers yield two sub-ranges that cover the sheet's rows
    // from the first boundary, in order, without gap or overlap
    let sheet = grid(
        12,
        2,
        vec![(3, 0, t("Test Name")), (8, 0, t("Test Name"))],
    );
    let runs = param_analyzer::measurement::segment_runs(&sheet).expect("two markers");
    assert_eq!(runs.len(), 2);
    // boundaries are marker rows minus three: 0 and 5
    assert_eq!(runs[0].abs_pos(), (0, 0));
    assert_eq!(runs[0].num_rows(), 5);
    assert_eq!(runs[0].num_cols(), 2);
    assert_eq!(runs[1].abs_pos(), (5, 0));
    assert_eq!(runs[1].num_rows(), 7);
    assert_eq!(runs[1].num_cols(), 2);
    // rows 0..=4 belong to the first run, 5..=11 to the second
    assert_eq!(runs[0].end(), (4, 1));
    assert_eq!(runs[1].end(), (11, 1));
}

#[test]
fn segmentation_single_marker_takes_all() {
    let sheet = grid(6, 1, vec![(3, 0, t("Test Name"))]);
    let runs = param_analyzer::measurement::segment_runs(&sheet).expect("one marker");
    assert_eq!(runs.len(), 1);
    assert_eq!(runs[0].abs_pos(), (0, 0));
    assert_eq!(runs[0].num_rows(), 6);
}

#[test]
fn segmentation_without_marker_fails() {
    let sheet = grid(4, 2, vec![(0, 0, t("nothing"))]);
    assert_eq!(
        param_analyzer::measurement::segment_runs(&sheet),
        Err(DecodeError::NoRunMarker)
    );
}

#[test]
fn segmentation_marker_too_high_fails() {
    let sheet = grid(4, 2, vec![(2, 0, t("Test Name"))]);
    assert_eq!(
        param_analyzer::measurement::segment_runs(&sheet),
        Err(DecodeError::BadMarker)
    );
}

#[test]
fn segmentation_two_markers_in_one_row_fail() {
    let sheet = grid(6, 2, vec![(3, 0, t("Test Name")), (3, 1, t("Test Name"))]);
    assert_eq!(
        param_analyzer::measurement::segment_runs(&sheet),
        Err(DecodeError::BadMarker)
    );
}

#[test]
fn matrix_extractor_merges_headers() {
    // P4: "DrainI" and "DrainI(A)" merge into one series with two
    // repeats in encounter order; "Foo" is dropped silently
    let sheet = grid(
        3,
        3,
        vec![
            (0, 0, t("DrainI")),
            (1, 0, n(1.0)),
            (2, 0, n(2.0)),
            (0, 1, t("DrainI(A)")),
            (1, 1, n(3.0)),
            (2, 1, n(4.0)),
            (0, 2, t("Foo")),
            (1, 2, n(9.0)),
            (2, 2, n(9.0)),
        ],
    );
    let series = TestData::extract(&sheet);
    assert_eq!(series.len(), 1);
    assert_eq!(series[0].terminal, Terminal::Drain);
    assert_eq!(series[0].unit, Unit::Current);
    assert_eq!(
        series[0].data,
        vec![
            vec![1.0f64.to_bits(), 2.0f64.to_bits()],
            vec![3.0f64.to_bits(), 4.0f64.to_bits()],
        ]
    );
}

#[test]
fn matrix_extractor_drops_non_numeric_rows() {
    let sheet = grid(
        4,
        1,
        vec![(0, 0, t("Time")), (1, 0, n(0.5)), (2, 0, t("oops")), (3, 0, n(1.5))],
    );
    let series = TestData::extract(&sheet);
    assert_eq!(series.len(), 1);
    assert_eq!(series[0].terminal, Terminal::Time);
    assert_eq!(series[0].unit, Unit::Seconds);
    assert_eq!(series[0].data, vec![vec![0.5f64.to_bits(), 1.5f64.to_bits()]]);
}

#[test]
fn matrix_extractor_keeps_encounter_order() {
    let sheet = grid(
        2,
        3,
        vec![
            (0, 0, t("GateV")),
            (1, 0, n(1.0)),
            (0, 1, t("Time")),
            (1, 1, n(2.0)),
            (0, 2, t("GateV")),
            (1, 2, n(3.0)),
        ],
    );
    let series = TestData::extract(&sheet);
    assert_eq!(series.len(), 2);
    assert_eq!(series[0].terminal, Terminal::Gate);
    assert_eq!(series[0].unit, Unit::Voltage);
    assert_eq!(
        series[0].data,
        vec![vec![1.0f64.to_bits()], vec![3.0f64.to_bits()]]
    );
    assert_eq!(series[1].terminal, Terminal::Time);
    assert_eq!(series[1].data, vec![vec![2.0f64.to_bits()]]);
}

/// A settings sheet (header row included) with one Sampling run whose
/// single terminal column drives a Gate through SMU1 at 1.5 V.
fn sampling_settings() -> MyRange {
    // body rows are settings rows shifted by the header row
    grid(
        21,
        2,
        vec![
            // body row 0: the run's data-sheet name
            (1, 0, t("Run1")),
            // body row 3: the run marker
            (4, 0, t("Test Name")),
            // body rows 4..=7 col 1: mode, speed, interval, hold
            (5, 1, t("Sampling")),
            (6, 1, t("Normal")),
            (7, 1, t("0.1")),
            (8, 1, t("1")),
            // body row 9 col 1: the timestamp
            (10, 1, t("1/31/2020 10:20:30")),
            // terminal column: body rows 14.. in col 1
            (15, 1, t("Gate")),
            (16, 1, t("SMU1")),
            (18, 1, t("Voltage Bias")),
            // Sampling bias offset: body row 14 + 4
            (19, 1, t("1.5")),
        ],
    )
}

fn data_sheet() -> MyRange {
    grid(
        6,
        2,
        vec![
            (0, 0, t("GateV")),
            (1, 0, n(1.0)),
            (2, 0, n(1.1)),
            (3, 0, n(1.2)),
            (4, 0, n(1.3)),
            (5, 0, n(1.4)),
            (0, 1, t("Time")),
            (1, 1, n(0.0)),
            (2, 1, n(0.1)),
            (3, 1, n(0.2)),
            (4, 1, n(0.3)),
            (5, 1, n(0.4)),
        ],
    )
}

fn workbook() -> Workbook {
    Workbook {
        sheets: vec![
            NamedSheet { name: "Settings".to_string(), grid: sampling_settings() },
            NamedSheet { name: "Run1".to_string(), grid: data_sheet() },
        ],
    }
}

#[test]
fn end_to_end_sampling_run() {
    // P6: one Sampling run, one terminal column, two data series of
    // five samples each
    let mut db = Database::new();
    Measurement::extract(&workbook(), "dev.xls".to_string(), &mut db).expect("clean workbook");
    assert_eq!(db.measurements.len(), 1);
    let m = &db.measurements[0];
    assert_eq!(m.id, "20200131-1".to_string());
    assert_eq!(m.file_path, "dev.xls".to_string());
    assert_eq!(m.sheet_name, "Run1".to_string());
    assert_eq!(m.test_parameter.test_type, TestType::Sampling);
    assert_eq!(m.test_parameter.measurement_speed, MeasurementSpeed::Normal);
    assert_eq!(
        m.test_parameter.interval_time,
        Some(Decimal { neg: false, mant: 1, exp: -1 })
    );
    assert_eq!(m.test_parameter.sweep_delay_time, None);
    assert_eq!(m.test_parameter.hold_time, Decimal { neg: false, mant: 1, exp: 0 });
    assert_eq!(
        m.test_time_stamp,
        TimeStamp { year: 2020, month: 1, day: 31, hour: 10, minute: 20, second: 30 }
    );
    assert_eq!(m.terminals.len(), 1);
    let term = &m.terminals[0];
    assert_eq!(
        term.terminal,
        param_analyzer::measurement::terminal_parameter::terminal::Terminal::Gate
    );
    assert_eq!(
        term.instrument,
        param_analyzer::measurement::terminal_parameter::instrument::Instrument::SMU1
    );
    assert_eq!(term.operational_mode.op_type, OpModeType::VoltageBias);
    assert_eq!(term.operational_mode.bias, Some(Decimal { neg: false, mant: 15, exp: -1 }));
    assert_eq!(term.operational_mode.start, None);
    assert_eq!(m.test_data.len(), 2);
    for series in &m.test_data {
        assert_eq!(series.data.len(), 1);
        assert_eq!(series.data[0].len(), 5);
    }
    assert_eq!(m.test_data[0].terminal, Terminal::Gate);
    assert_eq!(m.test_data[0].unit, Unit::Voltage);
    assert_eq!(m.test_data[1].terminal, Terminal::Time);
    assert_eq!(m.test_data[1].unit, Unit::Seconds);
}

#[test]
fn scanned_file_is_skipped() {
    let mut db = Database::new();
    Measurement::extract(&workbook(), "dev.xls".to_string(), &mut db).expect("first pass");
    assert_eq!(db.measurements.len(), 1);
    Measurement::extract(&workbook(), "dev.xls".to_string(), &mut db).expect("skip is no error");
    assert_eq!(db.measurements.len(), 1);
    assert_eq!(db.files_scanned_before.len(), 1);
}

#[test]
fn missing_settings_sheet_fails() {
    let wb = Workbook {
        sheets: vec![NamedSheet { name: "Run1".to_string(), grid: data_sheet() }],
    };
    let mut db = Database::new();
    assert_eq!(
        Measurement::extract(&wb, "dev.xls".to_string(), &mut db),
        Err(DecodeError::MissingSettingsSheet)
    );
    // per the loud-failure policy the file stays rescannable
    assert!(db.files_scanned_before.is_empty());
}

#[test]
fn missing_data_sheet_fails() {
    let wb = Workbook {
        sheets: vec![NamedSheet { name: "Settings".to_string(), grid: sampling_settings() }],
    };
    let mut db = Database::new();
    assert_eq!(
        Measurement::extract(&wb, "dev.xls".to_string(), &mut db),
        Err(DecodeError::MissingDataSheet("Run1".to_string()))
    );
    // per the loud-failure policy the file stays rescannable
    assert!(db.files_scanned_before.is_empty());
}

#[test]
fn bad_timestamp_fails() {
    let mut settings_cells = vec![
        (1, 0, t("Run1")),
        (4, 0, t("Test Name")),
        (5, 1, t("Sampling")),
        (6, 1, t("Normal")),
        (7, 1, t("0.1")),
        (8, 1, t("1")),
        (10, 1, t("not a time")),
    ];
    settings_cells.push((15, 1, t("Gate")));
    let wb = Workbook {
        sheets: vec![
            NamedSheet { name: "Settings".to_string(), grid: grid(21, 2, settings_cells) },
            NamedSheet { name: "Run1".to_string(), grid: data_sheet() },
        ],
    };
    let mut db = Database::new();
    assert_eq!(
        Measurement::extract(&wb, "dev.xls".to_string(), &mut db),
        Err(DecodeError::BadTimeStamp)
    );
    // per the loud-failure policy the file stays rescannable
    assert!(db.files_scanned_before.is_empty());
}

#[test]
fn bad_terminal_fails() {
    // a Gate label without an instrument is a structural fault
    let settings_cells = vec![
        (1, 0, t("Run1")),
        (4, 0, t("Test Name")),
        (5, 1, t("Sampling")),
        (6, 1, t("Normal")),
        (7, 1, t("0.1")),
        (8, 1, t("1")),
        (10, 1, t("1/31/2020 10:20:30")),
        (15, 1, t("Gate")),
    ];
    let wb = Workbook {
        sheets: vec![
            NamedSheet { name: "Settings".to_string(), grid: grid(21, 2, settings_cells) },
            NamedSheet { name: "Run1".to_string(), grid: data_sheet() },
        ],
    };
    let mut db = Database::new();
    assert_eq!(
        Measurement::extract(&wb, "dev.xls".to_string(), &mut db),
        Err(DecodeError::BadTerminal)
    );
    // per the loud-failure policy the file stays rescannable
    assert!(db.files_scanned_before.is_empty());
}

#[test]
fn unlabeled_columns_are_skipped() {
    // a column whose terminal cell holds no terminal label contributes
    // no terminal record and no error
    let settings_cells = vec![
        (1, 0, t("Run1")),
        (4, 0, t("Test Name")),
        (5, 1, t("Sampling")),
        (6, 1, t("Normal")),
        (7, 1, t("0.1")),
        (8, 1, t("1")),
        (10, 1, t("1/31/2020 10:20:30")),
        (15, 1, t("Gate")),
        (16, 1, t("SMU1")),
        (18, 1, t("Voltage Bias")),
        (19, 1, t("1.5")),
        // column 2 stays empty in the terminal region
        (1, 2, t("annotation")),
    ];
    let wb = Workbook {
        sheets: vec![
            NamedSheet { name: "Settings".to_string(), grid: grid(21, 3, settings_cells) },
            NamedSheet { name: "Run1".to_string(), grid: data_sheet() },
        ],
    };
    let mut db = Database::new();
    Measurement::extract(&wb, "dev.xls".to_string(), &mut db).expect("clean");
    assert_eq!(db.measurements[0].terminals.len(), 1);
}

#[test]
fn sweeping_run_reads_sweep_offsets() {
    // a Sweeping run decodes start/stop/step from rows 5..=7 of the
    // terminal column
    let settings_cells = vec![
        (1, 0, t("Run1")),
        (4, 0, t("Test Name")),
        (5, 1, t("Sweeping")),
        (6, 1, t("Fast")),
        (7, 1, t("0.2")),
        (8, 1, t("2")),
        (10, 1, t("2/3/2021 1:2:3")),
        (15, 1, t("Drain")),
        (16, 1, t("SMU2")),
        (18, 1, t("Voltage Linear Sweep")),
        // body row 15 + offsets 5, 6, 7
        (20, 1, t("0")),
        (21, 1, t("5")),
        (22, 1, t("0.5")),
    ];
    let wb = Workbook {
        sheets: vec![
            NamedSheet { name: "Settings".to_string(), grid: grid(24, 2, settings_cells) },
            NamedSheet { name: "Run1".to_string(), grid: data_sheet() },
        ],
    };
    let mut db = Database::new();
    Measurement::extract(&wb, "sweep.xls".to_string(), &mut db).expect("clean sweep");
    let m = &db.measurements[0];
    assert_eq!(m.test_parameter.test_type, TestType::Sweeping);
    assert_eq!(
        m.test_parameter.sweep_delay_time,
        Some(Decimal { neg: false, mant: 2, exp: -1 })
    );
    assert_eq!(m.test_parameter.interval_time, None);
    assert_eq!(m.id, "20210203-1".to_string());
    let term = &m.terminals[0];
    assert_eq!(term.operational_mode.op_type, OpModeType::VoltageLinearSweep);
    assert_eq!(term.operational_mode.bias, None);
    assert_eq!(term.operational_mode.start, Some(Decimal { neg: false, mant: 0, exp: 0 }));
    assert_eq!(term.operational_mode.stop, Some(Decimal { neg: false, mant: 5, exp: 0 }));
    assert_eq!(
        term.operational_mode.stepsize,
        Some(Decimal { neg: false, mant: 5, exp: -1 })
    );
}

#[test]
fn missing_sheet_name_fails() {
    // a run block whose first cell is empty cannot name its data sheet
    let settings_cells = vec![(4, 0, t("Test Name")), (5, 1, t("Sampling"))];
    let wb = Workbook {
        sheets: vec![NamedSheet { name: "Settings".to_string(), grid: grid(21, 2, settings_cells) }],
    };
    let mut db = Database::new();
    assert_eq!(
        Measurement::extract(&wb, "dev.xls".to_string(), &mut db),
        Err(DecodeError::MissingSheetName)
    );
    // per the loud-failure policy the file stays rescannable
    assert!(db.files_scanned_before.is_empty());
}

#[test]
fn bad_test_parameter_fails() {
    let settings_cells = vec![
        (1, 0, t("Run1")),
        (4, 0, t("Test Name")),
        (5, 1, t("NotAMode")),
        (10, 1, t("1/31/2020 10:20:30")),
    ];
    let wb = Workbook {
        sheets: vec![
            NamedSheet { name: "Settings".to_string(), grid: grid(21, 2, settings_cells) },
            NamedSheet { name: "Run1".to_string(), grid: data_sheet() },
        ],
    };
    let mut db = Database::new();
    assert_eq!(
        Measurement::extract(&wb, "dev.xls".to_string(), &mut db),
        Err(DecodeError::BadTestParameter)
    );
    // per the loud-failure policy the file stays rescannable
    assert!(db.files_scanned_before.is_empty());
}

#[test]
fn exhausted_day_counter_fails() {
    let mut db = Database::new();
    db.id_day_counter.push((Date { year: 2020, month: 1, day: 31 }, u32::MAX));
    assert_eq!(
        Measurement::extract(&workbook(), "dev.xls".to_string(), &mut db),
        Err(DecodeError::IdOverflow)
    );
    // per the loud-failure policy the file stays rescannable
    assert!(db.files_scanned_before.is_empty());
}

#[test]
fn failed_file_stays_rescannable() {
    // a failed workbook is not marked scanned; a corrected export
    // under the same path decodes on the next pass
    let broken = Workbook {
        sheets: vec![NamedSheet { name: "Settings".to_string(), grid: sampling_settings() }],
    };
    let mut db = Database::new();
    assert_eq!(
        Measurement::extract(&broken, "dev.xls".to_string(), &mut db),
        Err(DecodeError::MissingDataSheet("Run1".to_string()))
    );
    assert!(db.files_scanned_before.is_empty());
    Measurement::extract(&workbook(), "dev.xls".to_string(), &mut db).expect("corrected export");
    assert_eq!(db.files_scanned_before, vec!["dev.xls".to_string()]);
    assert_eq!(db.measurements.len(), 1);
}

#[test]
fn partial_failure_keeps_decoded_prefix() {
    // two runs; the second names a missing data sheet: the first run's
    // record stays appended, the file is not marked scanned
    let settings_cells = vec![
        // first run block: body rows 0..=20
        (1, 0, t("Run1")),
        (4, 0, t("Test Name")),
        (5, 1, t("Sampling")),
        (6, 1, t("Normal")),
        (7, 1, t("0.1")),
        (8, 1, t("1")),
        (10, 1, t("1/31/2020 10:20:30")),
        (15, 1, t("Gate")),
        (16, 1, t("SMU1")),
        (18, 1, t("Voltage Bias")),
        (19, 1, t("1.5")),
        // second run block: starts at body row 21, names a sheet the
        // workbook lacks
        (22, 0, t("Run2")),
        (25, 0, t("Test Name")),
    ];
    let wb = Workbook {
        sheets: vec![
            NamedSheet { name: "Settings".to_string(), grid: grid(30, 2, settings_cells) },
            NamedSheet { name: "Run1".to_string(), grid: data_sheet() },
        ],
    };
    let mut db = Database::new();
    assert_eq!(
        Measurement::extract(&wb, "dev.xls".to_string(), &mut db),
        Err(DecodeError::MissingDataSheet("Run2".to_string()))
    );
    assert_eq!(db.measurements.len(), 1);
    assert_eq!(db.measurements[0].id, "20200131-1".to_string());
    assert_eq!(db.measurements[0].sheet_name, "Run1".to_string());
    assert!(db.files_scanned_before.is_empty());
}

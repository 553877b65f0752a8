use param_analyzer::database::Database;
use param_analyzer::decimal::{parse_decimal, Decimal};
use param_analyzer::measurement::device::{Device, Process};
use param_analyzer::measurement::testdata::terminal::Terminal;
use param_analyzer::measurement::testdata::units::Unit;
use param_analyzer::measurement::testdata::{TestData, TestDataCompact};
use param_analyzer::measurement::timestamp::{Date, TimeStamp};
use param_analyzer::codec::{decode_scan_state, encode_scan_state};

fn dec(neg: bool, mant: u64, exp: i64) -> Decimal {
    Decimal { neg, mant, exp }
}

fn dec_to_f64(d: &Decimal) -> f64 {
    let v = d.mant as f64 * 10f64.powi(d.exp as i32);
    if d.neg {
        -v
    } else {
        v
    }
}

#[test]
fn parse_decimal_exact() {
    assert_eq!(parse_decimal("1.5"), Some(dec(false, 15, -1)));
    assert_eq!(parse_decimal("20"), Some(dec(false, 20, 0)));
    assert_eq!(parse_decimal("-2e-3"), Some(dec(true, 2, -3)));
    assert_eq!(parse_decimal("+0.25"), Some(dec(false, 25, -2)));
    assert_eq!(parse_decimal("3E2"), Some(dec(false, 3, 2)));
    assert_eq!(parse_decimal("10."), Some(dec(false, 10, 0)));
    assert_eq!(parse_decimal(".5"), Some(dec(false, 5, -1)));
}

#[test]
fn parse_decimal_rejects() {
    assert_eq!(parse_decimal(""), None);
    assert_eq!(parse_decimal("abc"), None);
    assert_eq!(parse_decimal("1.2.3"), None);
    assert_eq!(parse_decimal("1e"), None);
    assert_eq!(parse_decimal("."), None);
    assert_eq!(parse_decimal(" 1"), None);
    assert_eq!(parse_decimal("1 "), None);
}

#[test]
fn identifier_same_day_increases() {
    // P2: same-day identifiers count 1, 2, 3 under a stable prefix
    let mut db = Database::new();
    let ts = TimeStamp { year: 2020, month: 1, day: 31, hour: 10, minute: 0, second: 0 };
    assert_eq!(db.generate_id(ts), "20200131-1".to_string());
    assert_eq!(db.generate_id(ts), "20200131-2".to_string());
    assert_eq!(db.generate_id(ts), "20200131-3".to_string());
}

#[test]
fn identifier_restarts_per_day() {
    // P2: across days, counters restart at one independently
    let mut db = Database::new();
    let day1 = TimeStamp { year: 2020, month: 1, day: 31, hour: 0, minute: 0, second: 0 };
    let day2 = TimeStamp { year: 2020, month: 2, day: 1, hour: 0, minute: 0, second: 0 };
    assert_eq!(db.generate_id(day1), "20200131-1".to_string());
    assert_eq!(db.generate_id(day2), "20200201-1".to_string());
    assert_eq!(db.generate_id(day1), "20200131-2".to_string());
    assert_eq!(db.generate_id(day2), "20200201-2".to_string());
}

#[test]
fn identifier_zero_pads_the_date() {
    let mut db = Database::new();
    let ts = TimeStamp { year: 99, month: 3, day: 7, hour: 0, minute: 0, second: 0 };
    assert_eq!(db.generate_id(ts), "00990307-1".to_string());
}

#[test]
fn device_metadata_tokens() {
    // P3: independent key=value token matching with metric scaling
    let d = Device::extract(
        "W=20nm L=100nm Process=GF22".to_string(),
        "Die=A1".to_string(),
    );
    assert_eq!(d.wafer, Some(Process::GF22));
    assert_eq!(d.die, Some("A1".to_string()));
    assert_eq!(d.width.map(|w| dec_to_f64(&w)), Some(20.0));
    // nm carries factor one into nanometers
    assert_eq!(d.length.map(|l| dec_to_f64(&l)), Some(100.0));
}

#[test]
fn device_metadata_micrometer_scaling() {
    // P3: um scales by one thousand into nanometers
    let d = Device::extract("L=1um".to_string(), "run".to_string());
    assert_eq!(d.length.map(|l| dec_to_f64(&l)), Some(1000.0));
    let d2 = Device::extract("W=2mm".to_string(), "run".to_string());
    assert_eq!(d2.width.map(|w| dec_to_f64(&w)), Some(2000000.0));
}

#[test]
fn device_metadata_conflicting_widths_absent() {
    // P3: two distinct width tokens resolve to absence
    let d = Device::extract("W=20nm W=30nm".to_string(), "run".to_string());
    assert_eq!(d.width, None);
    // while two agreeing tokens keep the value
    let d2 = Device::extract("W=20nm W=20nm".to_string(), "run".to_string());
    assert_eq!(d2.width, Some(dec(false, 20, 0)));
}

#[test]
fn device_metadata_temperature_reads_value_part() {
    // the digits come from the value right of the last '=' only
    let d = Device::extract("t1=2".to_string(), "run".to_string());
    assert_eq!(d.temperature, Some(2));
}

#[test]
fn device_metadata_path_separators() {
    let d = Device::extract(
        "wafers\\Process=MINOXG\\T=300K".to_string(),
        "sheet".to_string(),
    );
    assert_eq!(d.wafer, Some(Process::MINOXG));
    assert_eq!(d.temperature, Some(300));
}

#[test]
fn device_metadata_all_absent() {
    let d = Device::extract("nohing=here".to_string(), "run".to_string());
    assert_eq!(d.wafer, None);
    assert_eq!(d.die, None);
    assert_eq!(d.temperature, None);
    assert_eq!(d.width, None);
    assert_eq!(d.length, None);
}

#[test]
fn compact_round_trip_selects_repeats() {
    let td = TestData {
        terminal: Terminal::Drain,
        unit: Unit::Current,
        data: vec![vec![1, 2], vec![3], vec![4, 5, 6]],
    };
    let c = td.to_compact();
    assert_eq!(c.terminal, Terminal::Drain);
    assert_eq!(c.unit, Unit::Current);
    assert_eq!(c.count, 3);
    // select repeat 2 (one-based), then a non-matching key
    let sel = vec![
        TestDataCompact { terminal: Terminal::Drain, unit: Unit::Current, count: 2 },
        TestDataCompact { terminal: Terminal::Gate, unit: Unit::Voltage, count: 1 },
    ];
    let back = td.from_compact(&sel).expect("one repeat selected");
    assert_eq!(back.data, vec![vec![3u64]]);
    // no matching entry at all yields nothing
    let none = vec![TestDataCompact { terminal: Terminal::Gate, unit: Unit::Voltage, count: 1 }];
    assert!(td.from_compact(&none).is_none());
}

#[test]
fn concise_names() {
    assert_eq!(Terminal::Drain.to_string_concise(), "d");
    assert_eq!(Terminal::Time.to_string_concise(), "T");
    assert_eq!(Unit::Voltage.to_string_concise(), "V");
    assert_eq!(Unit::Seconds.to_string_concise(), "T");
}

#[test]
fn scan_state_round_trips() {
    // P5 (scan state): encoding and decoding the store's scanned-path
    // list and day counters reproduces them exactly
    let mut db = Database::new();
    db.files_scanned_before.push("a\\b c.xls".to_string());
    db.files_scanned_before.push("".to_string());
    db.files_scanned_before.push("weird;2:name".to_string());
    db.id_day_counter.push((Date { year: 2020, month: 1, day: 31 }, 3));
    db.id_day_counter.push((Date { year: 1999, month: 12, day: 1 }, 7));
    let text = encode_scan_state(&db);
    let (files, counters) = decode_scan_state(text.as_str()).expect("round trip");
    assert_eq!(files, db.files_scanned_before);
    assert_eq!(counters, db.id_day_counter);
}

#[test]
fn scan_state_rejects_garbage() {
    assert!(decode_scan_state("").is_none());
    assert!(decode_scan_state("x").is_none());
    assert!(decode_scan_state("2;1:a").is_none());
    // trailing characters are refused
    assert!(decode_scan_state("0;0;x").is_none());
    // the empty store round-trips as the five characters "0;0;"
    assert!(decode_scan_state("0;0;").is_some());
}

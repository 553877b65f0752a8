//! Extraction engine for spreadsheet exports of a semiconductor
//! parameter analyzer.
//!
//! A workbook bundles a free-text "Settings" sheet with one data sheet
//! per test run.  The engine segments the settings sheet into per-run
//! blocks, decodes each block's fields through a test-mode-dependent
//! offset table, recovers device metadata from path and sheet-name
//! tokens, reshapes the numeric data columns into per-terminal series,
//! and assigns date-partitioned identifiers while deduplicating files
//! that were already scanned.

pub mod codec;

pub mod database;

pub mod decimal;

pub mod grid;

pub mod measurement;

pub mod text;

use hmf::compute::compute;
use hmf::error::Error;
use hmf::fatty_acid::FattyAcid;
use hmf::reference::{ReferenceEntry, ReferenceRecord, ReferenceTable};
use hmf::settings::Settings;
use hmf::source::{SourceRow, SourceTable};
use hmf::text::Text;

const S: i64 = 1_000_000_000;

fn entry(median: Option<i64>, min: Option<i64>, max: Option<i64>) -> ReferenceEntry {
    ReferenceEntry { median, interquartile_range: None, min, max }
}

fn blank_entry() -> ReferenceEntry {
    entry(None, None, None)
}

fn record(carbons: u8, sn123: ReferenceEntry, sn2: ReferenceEntry) -> ReferenceRecord {
    ReferenceRecord { fatty_acid: FattyAcid::new(carbons), sn123, sn2 }
}

fn row(carbons: u8, sn123: Option<i64>, sn2: Option<i64>) -> SourceRow {
    SourceRow { fatty_acid: FattyAcid::new(carbons), sn123, sn2 }
}

fn absolute_settings() -> Settings {
    let mut settings = Settings::new();
    settings.relative = false;
    settings
}

#[test]
fn end_to_end_scenario() {
    let reference = ReferenceTable::new(vec![
        record(16, entry(Some(10 * S), Some(0), Some(10 * S)), blank_entry()),
        record(18, entry(Some(20 * S), Some(0), Some(10 * S)), blank_entry()),
    ])
    .unwrap();
    let table = SourceTable {
        rows: vec![row(16, Some(5 * S), None), row(18, Some(15 * S), None)],
    };
    let result = compute(&table, &reference, &absolute_settings()).unwrap();
    assert_eq!(result.rows.len(), 2);
    assert_eq!(result.rows[0].index, 0);
    assert_eq!(result.rows[1].index, 1);
    // Row one: the measurement lies inside the range, so A == B and C == 0.
    let first = result.rows[0].sn123;
    assert_eq!(first.a, Some(5 * S));
    assert_eq!(first.b, Some(5 * S));
    assert_eq!(first.c, Some(0));
    assert_eq!(first.d, Some(10 * S));
    assert_eq!(first.e, Some(0));
    assert_eq!(first.min, Some(0));
    assert_eq!(first.max, Some(10 * S));
    // Row two: B exceeds the range, so A clamps to max and C = |15-10|/10.
    let second = result.rows[1].sn123;
    assert_eq!(second.a, Some(10 * S));
    assert_eq!(second.b, Some(15 * S));
    assert_eq!(second.c, Some(500_000_000));
    assert_eq!(second.d, Some(20 * S));
    // E = 50 * 0.5 * 20 / 30, about 16.667.
    assert_eq!(second.e, Some(16_666_666_667));
    // Footer: sum of D is 30; the residual is 50 - 16.667, about 33.333.
    assert_eq!(result.sn123.sum, (30 * S) as i128);
    assert_eq!(result.sn123.residual, 33_333_333_333);
    // No position-2 reference data: those metrics are null and F with them.
    assert_eq!(result.rows[0].sn2.a, None);
    assert_eq!(result.rows[0].sn2.e, None);
    assert_eq!(result.rows[0].f, None);
    assert_eq!(result.sn2.sum, 0);
    assert_eq!(result.sn2.residual, (50 * S) as i128);
    // The whole-budget residual: no row carries a combined signal.
    assert_eq!(result.residual_total(), (100 * S) as i128);
}

#[test]
fn clamp_below_minimum() {
    let reference = ReferenceTable::new(vec![record(
        18,
        entry(Some(10 * S), Some(2 * S), Some(10 * S)),
        blank_entry(),
    )])
    .unwrap();
    let table = SourceTable { rows: vec![row(18, Some(-S), None)] };
    let result = compute(&table, &reference, &absolute_settings()).unwrap();
    let metrics = result.rows[0].sn123;
    assert_eq!(metrics.a, Some(2 * S));
    assert_eq!(metrics.b, Some(-S));
    // C = |B - A| / A = 3 / 2.
    assert_eq!(metrics.c, Some(1_500_000_000));
}

#[test]
fn zero_division_guard() {
    let reference = ReferenceTable::new(vec![record(
        18,
        entry(Some(10 * S), Some(0), Some(10 * S)),
        blank_entry(),
    )])
    .unwrap();
    let table = SourceTable { rows: vec![row(18, Some(-5 * S), None)] };
    let result = compute(&table, &reference, &absolute_settings()).unwrap();
    let metrics = result.rows[0].sn123;
    // B below a zero minimum clamps A to zero; C is exactly zero, not a
    // division by zero.
    assert_eq!(metrics.a, Some(0));
    assert_eq!(metrics.c, Some(0));
    assert_eq!(metrics.e, Some(0));
}

#[test]
fn rounding_to_two_digits() {
    let reference = ReferenceTable::new(vec![record(
        18,
        entry(Some(10 * S), Some(0), Some(S)),
        blank_entry(),
    )])
    .unwrap();
    let table = SourceTable { rows: vec![row(18, Some(1_123_450_000), None)] };
    let mut settings = absolute_settings();
    settings.round = 2;
    let result = compute(&table, &reference, &settings).unwrap();
    // Raw C is 0.12345; with round = 2 it becomes 0.12.
    assert_eq!(result.rows[0].sn123.c, Some(120_000_000));
    settings.round = 0;
    let unrounded = compute(&table, &reference, &settings).unwrap();
    assert_eq!(unrounded.rows[0].sn123.c, Some(123_450_000));
}

#[test]
fn relative_mode_scenario() {
    let reference = ReferenceTable::new(vec![record(
        18,
        entry(Some(10 * S), Some(0), Some(100 * S)),
        entry(Some(10 * S), Some(0), Some(100 * S)),
    )])
    .unwrap();
    let table = SourceTable { rows: vec![row(18, Some(40 * S), Some(20 * S))] };
    let mut settings = Settings::new();
    assert!(settings.relative);
    settings.round = 0;
    let result = compute(&table, &reference, &settings).unwrap();
    // Raw sn2 = 20 with sn123 = 40 transforms to 100 * 20 / 40 / 3, about
    // 16.667, which then feeds the same pipeline.
    assert_eq!(result.rows[0].sn2.b, Some(16_666_666_667));
    assert_eq!(result.rows[0].sn2.a, Some(16_666_666_667));
    assert_eq!(result.rows[0].sn2.c, Some(0));
    // Position 123 keeps the raw measurement.
    assert_eq!(result.rows[0].sn123.b, Some(40 * S));
}

#[test]
fn relative_mode_zero_base_gives_null() {
    let reference = ReferenceTable::new(vec![record(
        18,
        entry(Some(10 * S), Some(0), Some(100 * S)),
        entry(Some(10 * S), Some(0), Some(100 * S)),
    )])
    .unwrap();
    let table = SourceTable { rows: vec![row(18, Some(0), Some(20 * S))] };
    let result = compute(&table, &reference, &Settings::new()).unwrap();
    // A zero position-123 base makes the relative transform undefined, so
    // the position-2 tuple is null.
    assert_eq!(result.rows[0].sn2.b, None);
    assert_eq!(result.rows[0].sn2.a, None);
    assert_eq!(result.rows[0].sn2.e, None);
}

#[test]
fn null_propagation_unmatched_row() {
    let reference = ReferenceTable::new(vec![record(
        16,
        entry(Some(10 * S), Some(0), Some(10 * S)),
        blank_entry(),
    )])
    .unwrap();
    let table = SourceTable { rows: vec![row(18, Some(5 * S), None)] };
    let result = compute(&table, &reference, &absolute_settings()).unwrap();
    let metrics = result.rows[0].sn123;
    // The identity is absent from the reference: every metric is null, and
    // the row is kept rather than dropped.
    assert_eq!(metrics.a, None);
    assert_eq!(metrics.b, None);
    assert_eq!(metrics.c, None);
    assert_eq!(metrics.d, None);
    assert_eq!(metrics.e, None);
    assert_eq!(metrics.min, None);
    assert_eq!(metrics.max, None);
    assert_eq!(result.rows.len(), 1);
}

#[test]
fn null_propagation_missing_median() {
    let reference = ReferenceTable::new(vec![record(
        18,
        entry(None, Some(0), Some(10 * S)),
        blank_entry(),
    )])
    .unwrap();
    let table = SourceTable { rows: vec![row(18, Some(5 * S), None)] };
    let result = compute(&table, &reference, &absolute_settings()).unwrap();
    let metrics = result.rows[0].sn123;
    // The joined range is there but the median is not: the tuple is null
    // while the range passes through.
    assert_eq!(metrics.a, None);
    assert_eq!(metrics.c, None);
    assert_eq!(metrics.e, None);
    assert_eq!(metrics.min, Some(0));
    assert_eq!(metrics.max, Some(10 * S));
}

#[test]
fn null_propagation_zero_sum() {
    let reference = ReferenceTable::new(vec![record(
        18,
        entry(Some(0), Some(0), Some(10 * S)),
        blank_entry(),
    )])
    .unwrap();
    let table = SourceTable { rows: vec![row(18, Some(5 * S), None)] };
    let result = compute(&table, &reference, &absolute_settings()).unwrap();
    let metrics = result.rows[0].sn123;
    // The sum of medians is zero: E is null for the whole position even
    // though A and C are present.
    assert_eq!(metrics.a, Some(5 * S));
    assert_eq!(metrics.c, Some(0));
    assert_eq!(metrics.e, None);
    assert_eq!(result.sn123.sum, 0);
}

#[test]
fn combined_signal_adds_both_positions() {
    let reference = ReferenceTable::new(vec![record(
        18,
        entry(Some(10 * S), Some(0), Some(10 * S)),
        entry(Some(10 * S), Some(0), Some(10 * S)),
    )])
    .unwrap();
    let table = SourceTable { rows: vec![row(18, Some(15 * S), Some(15 * S))] };
    let result = compute(&table, &reference, &absolute_settings()).unwrap();
    let e123 = result.rows[0].sn123.e.unwrap();
    let e2 = result.rows[0].sn2.e.unwrap();
    assert_eq!(result.rows[0].f, Some(e123 + e2));
    // E = 50 * 0.5 * 10 / 10 = 25 per position.
    assert_eq!(e123, 25 * S);
    assert_eq!(result.residual_total(), (100 * S - 50 * S) as i128);
}

#[test]
fn duplicate_reference_identity_is_rejected() {
    let result = ReferenceTable::new(vec![
        record(18, entry(Some(S), Some(0), Some(S)), blank_entry()),
        record(18, blank_entry(), blank_entry()),
    ]);
    assert_eq!(result.err(), Some(Error::DuplicateReference));
}

#[test]
fn malformed_reference_value_is_rejected() {
    let result = ReferenceTable::new(vec![record(
        18,
        entry(Some(100_000_000_000_000_001), Some(0), Some(S)),
        blank_entry(),
    )]);
    assert_eq!(result.err(), Some(Error::ValueOutOfRange));
}

#[test]
fn inverted_reference_range_is_rejected() {
    let result = ReferenceTable::new(vec![record(
        18,
        entry(Some(S), Some(10 * S), Some(0)),
        blank_entry(),
    )]);
    assert_eq!(result.err(), Some(Error::ValueOutOfRange));
}

#[test]
fn relative_transform_out_of_range_fails() {
    let reference = ReferenceTable::new(vec![record(
        18,
        entry(Some(10 * S), Some(0), Some(100 * S)),
        entry(Some(10 * S), Some(0), Some(100 * S)),
    )])
    .unwrap();
    // A near-zero base blows the transformed value out of the representable
    // band; the whole computation fails and no partial result comes back.
    let table = SourceTable {
        rows: vec![row(18, Some(1), Some(100_000_000_000_000_000))],
    };
    let result = compute(&table, &reference, &Settings::new());
    assert_eq!(result.err(), Some(Error::ValueOutOfRange));
}

#[test]
fn empty_table_computes_empty_result() {
    let reference = ReferenceTable::new(vec![record(
        18,
        entry(Some(10 * S), Some(0), Some(10 * S)),
        blank_entry(),
    )])
    .unwrap();
    let table = SourceTable { rows: vec![] };
    let result = compute(&table, &reference, &absolute_settings()).unwrap();
    assert_eq!(result.rows.len(), 0);
    assert_eq!(result.sn123.sum, 0);
    assert_eq!(result.sn123.residual, (50 * S) as i128);
}

#[test]
fn error_labels() {
    assert_eq!(Error::DuplicateReference.text(), "duplicate reference identity");
    assert_eq!(Error::ValueOutOfRange.text(), "value out of range");
    assert!(!Error::ValueOutOfRange.hover_text().is_empty());
}

#[test]
fn table_edits() {
    let mut table = SourceTable::new();
    table.add_row();
    table.add_row();
    assert_eq!(table.height(), 2);
    assert_eq!(table.rows[0].sn123, Some(0));
    table.set_sn123(0, Some(7 * S));
    table.set_sn2(0, None);
    let mut acid = FattyAcid::new(18);
    acid.unsaturated.push(hmf::fatty_acid::Unsaturated {
        index: Some(9),
        isomerism: Some(hmf::fatty_acid::Isomerism::Cis),
        unsaturation: Some(hmf::fatty_acid::Unsaturation::One),
    });
    table.set_fatty_acid(0, acid);
    assert_eq!(table.rows[0].sn123, Some(7 * S));
    assert_eq!(table.rows[0].sn2, None);
    assert_eq!(table.rows[0].fatty_acid.carbons, 18);
    assert_eq!(table.rows[0].fatty_acid.unsaturated.len(), 1);
    table.delete_row(0);
    assert_eq!(table.height(), 1);
    assert_eq!(table.rows[0].sn123, Some(0));
}

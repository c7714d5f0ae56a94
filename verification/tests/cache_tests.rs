use hmf::cache::{fingerprint, Cache};
use hmf::error::Error;
use hmf::fatty_acid::FattyAcid;
use hmf::reference::{ReferenceEntry, ReferenceRecord, ReferenceTable};
use hmf::settings::{Control, Settings};
use hmf::source::{SourceRow, SourceTable};

const S: i64 = 1_000_000_000;

fn reference() -> ReferenceTable {
    ReferenceTable::new(vec![ReferenceRecord {
        fatty_acid: FattyAcid::new(18),
        sn123: ReferenceEntry {
            median: Some(10 * S),
            interquartile_range: Some(S),
            min: Some(0),
            max: Some(10 * S),
        },
        sn2: ReferenceEntry {
            median: None,
            interquartile_range: None,
            min: None,
            max: None,
        },
    }])
    .unwrap()
}

fn source() -> SourceTable {
    SourceTable {
        rows: vec![SourceRow { fatty_acid: FattyAcid::new(18), sn123: Some(5 * S), sn2: None }],
    }
}

fn absolute_settings() -> Settings {
    let mut settings = Settings::new();
    settings.relative = false;
    settings
}

#[test]
fn cache_computes_once_per_content() {
    let mut cache = Cache::new(reference());
    let table = source();
    let settings = absolute_settings();
    let first = cache.get_or_compute(&table, &settings).unwrap();
    assert_eq!(cache.computations, 1);
    assert_eq!(cache.len(), 1);
    let second = cache.get_or_compute(&table, &settings).unwrap();
    // The identical content hits the stored entry: no second computation,
    // and the results are identical.
    assert_eq!(cache.computations, 1);
    assert_eq!(cache.len(), 1);
    assert_eq!(first, second);
}

#[test]
fn cache_misses_on_changed_cell() {
    let mut cache = Cache::new(reference());
    let mut table = source();
    let settings = absolute_settings();
    cache.get_or_compute(&table, &settings).unwrap();
    assert_eq!(cache.computations, 1);
    table.set_sn123(0, Some(6 * S));
    let changed = cache.get_or_compute(&table, &settings).unwrap();
    // One changed cell is a different fingerprint: the next call computes.
    assert_eq!(cache.computations, 2);
    assert_eq!(cache.len(), 2);
    assert_eq!(changed.rows[0].sn123.b, Some(6 * S));
}

#[test]
fn cache_misses_on_changed_settings() {
    let mut cache = Cache::new(reference());
    let table = source();
    let mut settings = absolute_settings();
    cache.get_or_compute(&table, &settings).unwrap();
    settings.round = 3;
    cache.get_or_compute(&table, &settings).unwrap();
    assert_eq!(cache.computations, 2);
}

#[test]
fn cache_does_not_store_failures() {
    let mut cache = Cache::new(ReferenceTable::new(vec![ReferenceRecord {
        fatty_acid: FattyAcid::new(18),
        sn123: ReferenceEntry {
            median: Some(10 * S),
            interquartile_range: None,
            min: Some(0),
            max: Some(100 * S),
        },
        sn2: ReferenceEntry {
            median: Some(10 * S),
            interquartile_range: None,
            min: Some(0),
            max: Some(100 * S),
        },
    }])
    .unwrap());
    let table = SourceTable {
        rows: vec![SourceRow {
            fatty_acid: FattyAcid::new(18),
            sn123: Some(1),
            sn2: Some(100_000_000_000_000_000),
        }],
    };
    let settings = Settings::new();
    assert!(settings.relative);
    let first = cache.get_or_compute(&table, &settings);
    assert_eq!(first.err(), Some(Error::ValueOutOfRange));
    assert_eq!(cache.len(), 0);
    assert_eq!(cache.computations, 1);
    // The failure was not stored: the identical call retries from scratch.
    let second = cache.get_or_compute(&table, &settings);
    assert_eq!(second.err(), Some(Error::ValueOutOfRange));
    assert_eq!(cache.computations, 2);
}

#[test]
fn cache_clear_drops_entries() {
    let mut cache = Cache::new(reference());
    let table = source();
    let settings = absolute_settings();
    cache.get_or_compute(&table, &settings).unwrap();
    assert_eq!(cache.len(), 1);
    cache.clear();
    assert_eq!(cache.len(), 0);
    cache.get_or_compute(&table, &settings).unwrap();
    assert_eq!(cache.computations, 2);
}

#[test]
fn fingerprint_is_deterministic() {
    let table = source();
    let again = source();
    let settings = absolute_settings();
    assert_eq!(fingerprint(&table, &settings), fingerprint(&again, &settings));
}

#[test]
fn fingerprint_sees_every_cell_and_field() {
    let table = source();
    let settings = absolute_settings();
    let base = fingerprint(&table, &settings);
    let mut edited = source();
    edited.set_sn123(0, Some(5 * S + 1));
    assert_ne!(base, fingerprint(&edited, &settings));
    let mut renamed = absolute_settings();
    renamed.label = String::from("preset");
    assert_ne!(base, fingerprint(&table, &renamed));
    let mut rounded = absolute_settings();
    rounded.round = 1;
    assert_ne!(base, fingerprint(&table, &rounded));
}

#[test]
fn settings_defaults() {
    let settings = Settings::new();
    assert_eq!(settings.precision, 2);
    assert_eq!(settings.round, 0);
    assert!(settings.relative);
    assert!(settings.properties);
    assert!(!settings.editable);
    assert_eq!(settings, Settings::default());
    let control = Control::new();
    assert!(!control.opened);
    assert_eq!(control.settings.precision, 2);
}

//! Calculation settings: the small value object that participates in the
//! cache fingerprint and alters the metric formulas (`round` and `relative`);
//! the remaining fields only steer presentation and are carried through.

use vstd::prelude::*;

verus! {

/// Settings of one calculation view.
#[derive(Debug)]
pub struct Settings {
    pub resizable: bool,
    pub editable: bool,
    pub label: String,
    /// Display precision in decimal digits; never changes computed values.
    pub precision: usize,
    /// When positive, the relative deviation is rounded to this many decimal
    /// digits.
    pub round: u32,
    pub sticky: usize,
    pub truncate: bool,
    /// When set, the measured position-2 value is replaced by its relative
    /// form `100 * value / value123 / 3` before the metrics are computed.
    pub relative: bool,
    pub properties: bool,
}

impl Settings {
    /// The starting settings.
    pub fn new() -> (r: Self)
        ensures
            r.resizable == false,
            r.editable == false,
            r.label@ == Seq::<char>::empty(),
            r.precision == 2,
            r.round == 0,
            r.sticky == 0,
            r.truncate == false,
            r.relative == true,
            r.properties == true,
    {
        Self {
            resizable: false,
            editable: false,
            label: String::new(),
            precision: 2,
            round: 0,
            sticky: 0,
            truncate: false,
            relative: true,
            properties: true,
        }
    }
}

impl Clone for Settings {
    fn clone(&self) -> (r: Self)
        ensures
            r == *self,
    {
        Self {
            resizable: self.resizable,
            editable: self.editable,
            label: self.label.clone(),
            precision: self.precision,
            round: self.round,
            sticky: self.sticky,
            truncate: self.truncate,
            relative: self.relative,
            properties: self.properties,
        }
    }
}

/// Field-wise equality of two settings values. Every field takes part, as
/// every field takes part in the cache fingerprint.
pub open spec fn settings_eq(a: &Settings, b: &Settings) -> bool {
    &&& a.resizable == b.resizable
    &&& a.editable == b.editable
    &&& a.label@ == b.label@
    &&& a.precision == b.precision
    &&& a.round == b.round
    &&& a.sticky == b.sticky
    &&& a.truncate == b.truncate
    &&& a.relative == b.relative
    &&& a.properties == b.properties
}

impl PartialEq for Settings {
    fn eq(&self, other: &Settings) -> (r: bool) {
        self.resizable == other.resizable && self.editable == other.editable && self.label
            == other.label && self.precision == other.precision && self.round == other.round
            && self.sticky == other.sticky && self.truncate == other.truncate && self.relative
            == other.relative && self.properties == other.properties
    }
}

impl vstd::std_specs::cmp::PartialEqSpecImpl for Settings {
    open spec fn obeys_eq_spec() -> bool {
        true
    }

    open spec fn eq_spec(&self, other: &Settings) -> bool {
        settings_eq(self, other)
    }
}

impl Eq for Settings {}

impl Default for Settings {
    fn default() -> (r: Self)
        ensures
            r.resizable == false,
            r.editable == false,
            r.label@ == Seq::<char>::empty(),
            r.precision == 2,
            r.round == 0,
            r.sticky == 0,
            r.truncate == false,
            r.relative == true,
            r.properties == true,
    {
        Settings::new()
    }
}

/// A settings window: the settings together with whether the window shows.
#[derive(Debug)]
pub struct Control {
    pub settings: Settings,
    pub opened: bool,
}

impl Control {
    /// A closed window holding the starting settings.
    pub fn new() -> (r: Self)
        ensures
            r.settings.precision == 2,
            r.settings.round == 0,
            r.settings.relative == true,
            r.opened == false,
    {
        Self { settings: Settings::new(), opened: false }
    }
}

} // verus!

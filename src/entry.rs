//! Identifiers and records of the audio objects the mixer shows.
use vstd::prelude::*;

verus! {

/// Kind of audio object known to the audio server.
#[derive(Clone, Copy, Debug, PartialEq, Eq, Hash, Structural)]
pub enum EntryType {
    Sink,
    Source,
    SinkInput,
    SourceOutput,
    Card,
}

impl EntryType {
    /// Whether objects of this kind carry a peak-metering channel.
    pub open spec fn spec_has_meter(self) -> bool {
        !(self is Card)
    }

    pub fn has_meter(&self) -> (r: bool)
        ensures
            r == self.spec_has_meter(),
    {
        !matches!(self, EntryType::Card)
    }
}

/// Key of one audio object: its kind and its index within that kind.
#[derive(Clone, Copy, Debug, PartialEq, Eq, Hash, Structural)]
pub struct EntryIdentifier {
    pub entry_type: EntryType,
    pub index: u32,
}

impl EntryIdentifier {
    pub fn new(entry_type: EntryType, index: u32) -> (r: EntryIdentifier)
        ensures
            r.entry_type == entry_type,
            r.index == index,
    {
        EntryIdentifier { entry_type, index }
    }
}

/// Whether a stream is shown under its device.
#[derive(Clone, Copy, Debug, PartialEq, Eq, Hash, Structural)]
pub enum HiddenStatus {
    Visible,
    Hidden,
}

/// Peak-metering state of a playable object. Levels are fixed-point
/// fractions of full scale, `PEAK_SCALE` meaning full scale.
#[derive(Clone, Copy, Debug, PartialEq, Eq, Hash, Structural)]
pub struct PlayEntry {
    pub peak: u32,
}

/// Live state of one audio object.
#[derive(Clone, Copy, Debug, PartialEq, Eq, Hash, Structural)]
pub struct Entry {
    pub volume: u32,
    pub parent: Option<u32>,
    pub hidden: HiddenStatus,
    pub play_entry: Option<PlayEntry>,
}

/// Full scale of a peak level.
pub const PEAK_SCALE: u32 = 1_000_000;

/// Peak changes smaller than this are metering jitter and are ignored.
pub const PEAK_EPSILON: u32 = 1;

impl Entry {
    /// The record carries a metering sub-record exactly when its kind has one.
    pub open spec fn fits(self, t: EntryType) -> bool {
        self.play_entry.is_some() == t.spec_has_meter()
    }

    pub fn fits_type(&self, t: EntryType) -> (r: bool)
        ensures
            r == self.fits(t),
    {
        self.play_entry.is_some() == t.has_meter()
    }
}

} // verus!

//! The version codec: a guild database's migration state is persisted as one
//! unsigned integer whose low bit is an "initialized" flag and whose remaining
//! bits are the schema revision.
use vstd::prelude::*;
use vstd::arithmetic::div_mod::lemma_fundamental_div_mod;

verus! {

/// The low bit of an encoded version: set once the database is initialized.
pub const INITIALIZE_MASK: u32 = 1;

/// The largest schema revision that the encoding can carry.
pub const MAX_REVISION: u32 = 0x7FFF_FFFF;

/// The newest schema revision this crate knows migration steps for.
pub const LATEST_REVISION: u32 = 3;

/// A decoded database version: a schema revision plus the initialized flag.
///
/// Under upgrade the stored revision increases monotonically; under downgrade
/// it decreases. A newly created file starts at revision 0, uninitialized.
#[derive(Debug, Clone, Copy, PartialEq, Eq, Structural)]
pub struct DatabaseVersion {
    pub revision: u32,
    pub initialized: bool,
}

impl DatabaseVersion {
    /// The revision fits the bits left beside the initialized flag.
    pub open spec fn valid(self) -> bool {
        self.revision <= MAX_REVISION
    }

    /// The fixed bit layout: revision in the high bits, flag in the low bit.
    pub open spec fn spec_encode(self) -> u32 {
        (2 * self.revision + (if self.initialized { 1int } else { 0int })) as u32
    }

    /// The inverse layout of [`Self::spec_encode`].
    pub open spec fn spec_decode(raw: u32) -> DatabaseVersion {
        DatabaseVersion { revision: raw / 2, initialized: raw % 2 == 1 }
    }

    /// The newest version this crate knows: the latest revision, initialized.
    pub fn latest() -> (v: DatabaseVersion)
        ensures
            v == (DatabaseVersion { revision: LATEST_REVISION, initialized: true }),
    {
        DatabaseVersion { revision: LATEST_REVISION, initialized: true }
    }

    /// Packs the pair into a single integer.
    pub fn encode(self) -> (raw: u32)
        requires
            self.valid(),
        ensures
            raw == self.spec_encode(),
    {
        2 * self.revision + (if self.initialized { 1 } else { 0 })
    }

    /// Unpacks an integer into the (revision, initialized) pair.
    pub fn decode(raw: u32) -> (v: DatabaseVersion)
        ensures
            v == DatabaseVersion::spec_decode(raw),
            v.valid(),
    {
        DatabaseVersion { revision: raw / 2, initialized: raw % 2 == 1 }
    }
}

/// Round trip: decoding an encoded pair gives the pair back, for every valid
/// (revision, initialized) pair, and encoding a decoded integer gives the
/// integer back.
pub proof fn lemma_version_round_trip(v: DatabaseVersion, raw: u32)
    requires
        v.valid(),
    ensures
        DatabaseVersion::spec_decode(v.spec_encode()) == v,
        DatabaseVersion::spec_decode(raw).spec_encode() == raw,
{
    lemma_fundamental_div_mod(raw as int, 2);
    lemma_fundamental_div_mod(v.spec_encode() as int, 2);
}

} // verus!

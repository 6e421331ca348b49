//! Plain parts of the project model: metadata, the terrain reference, and the
//! `.atldp` schema-version gate.
//!
//! The rest of the project (conductor, stringing parameters, profile, towers) is
//! floating-point data and is kept, with its JSON form, by the application.
use vstd::prelude::*;

verus! {

/// Current `.atldp` schema version; a newer file is refused.
pub const SCHEMA_VERSION: u32 = 1;

/// Human-facing project metadata.
#[derive(Debug)]
pub struct Metadata {
    /// Project / line name.
    pub name: String,
    /// Free-form notes carried with the project.
    pub notes: String,
}

/// Provenance of the terrain source — enough to re-locate and re-load the DEM tile.
#[derive(Debug)]
pub struct TerrainRef {
    /// Path to the DEM tile as known when the project was saved.
    pub source_path: String,
    /// South-west corner latitude of the tile, degrees (HGT convention).
    pub sw_lat: i32,
    /// South-west corner longitude of the tile, degrees.
    pub sw_lon: i32,
}

/// The file name of a path, or `default` when the path has none (the seed of a
/// save dialog). `name` is the path's final component, when it has one that is
/// valid text.
pub fn file_name_or(name: Option<&str>, default: &str) -> (r: String)
    ensures
        r@ == (match name {
            Some(n) => n@,
            None => default@,
        }),
{
    match name {
        Some(n) => String::from_str(n),
        None => String::from_str(default),
    }
}

/// A project file whose schema is newer than this build understands.
#[derive(Debug, Clone, Copy, PartialEq, Eq, Structural)]
pub struct UnsupportedVersion {
    /// The file's schema version.
    pub found: u32,
    /// The newest schema version this build reads.
    pub supported: u32,
}

/// The schema version a file declares: its `schema_version` field read as an
/// unsigned integer (`1` when absent or not one), narrowed to 32 bits as the
/// reader stores it.
pub open spec fn declared_version(raw: Option<u64>) -> u32 {
    match raw {
        Some(v) => (v % 0x1_0000_0000) as u32,
        None => 1,
    }
}

/// The version gate of the `.atldp` reader: the declared version when this build can
/// read it, or [`UnsupportedVersion`] when it is newer than [`SCHEMA_VERSION`].
pub fn schema_gate(raw: Option<u64>) -> (r: Result<u32, UnsupportedVersion>)
    ensures
        declared_version(raw) <= SCHEMA_VERSION ==> r == Ok::<u32, UnsupportedVersion>(declared_version(raw)),
        declared_version(raw) > SCHEMA_VERSION ==> r == Err::<u32, UnsupportedVersion>(
            UnsupportedVersion { found: declared_version(raw), supported: SCHEMA_VERSION },
        ),
{
    let found: u32 = match raw {
        Some(v) => (v % 0x1_0000_0000) as u32,
        None => 1,
    };
    if found > SCHEMA_VERSION {
        Err(UnsupportedVersion { found, supported: SCHEMA_VERSION })
    } else {
        Ok(found)
    }
}

} // verus!

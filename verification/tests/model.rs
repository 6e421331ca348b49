use atldp::model::{
    file_name_or, schema_gate, Metadata, TerrainRef, UnsupportedVersion, SCHEMA_VERSION,
};

#[test]
fn schema_gate_accepts_current_and_older() {
    assert_eq!(schema_gate(Some(1)), Ok(1));
    assert_eq!(schema_gate(Some(0)), Ok(0));
    // A file without a version is read as version 1.
    assert_eq!(schema_gate(None), Ok(1));
}

#[test]
fn rejects_future_schema_version() {
    assert_eq!(
        schema_gate(Some(u64::from(SCHEMA_VERSION) + 1)),
        Err(UnsupportedVersion { found: SCHEMA_VERSION + 1, supported: SCHEMA_VERSION })
    );
    assert_eq!(
        schema_gate(Some(u64::from(u32::MAX))),
        Err(UnsupportedVersion { found: u32::MAX, supported: SCHEMA_VERSION })
    );
    // The declared version is narrowed to 32 bits.
    assert_eq!(schema_gate(Some((1u64 << 32) + 1)), Ok(1));
}

#[test]
fn plain_model_types() {
    let m = Metadata { name: "Line".to_string(), notes: String::new() };
    assert_eq!(m.name, "Line");
    let t = TerrainRef { source_path: "S23W043.hgt".to_string(), sw_lat: -23, sw_lon: -43 };
    assert_eq!((t.sw_lat, t.sw_lon), (-23, -43));
}

#[test]
fn file_name_or_falls_back_to_default() {
    assert_eq!(file_name_or(Some("line.atldp"), "project.atldp"), "line.atldp");
    assert_eq!(file_name_or(None, "project.atldp"), "project.atldp");
}

use vstd::prelude::*;

verus! {

/// The ways in which loading or querying the map can fail.
#[derive(Debug, Clone, Copy, PartialEq, Eq, Structural)]
pub enum MapError {
    /// A file is missing or unreadable.
    IoError,
    /// Bad magic, unsupported bit depth, truncated header or pixel data.
    FormatError,
    /// A malformed numeric field.
    ParseError,
    /// A query was made before a map was installed.
    NotInitialized,
    /// An unknown province or state id was requested.
    NotFound,
}

/// Outcome of loading one map input file.
pub struct MapLoadResult<T> {
    pub success: bool,
    pub message: String,
    pub data: Option<T>,
}

impl MapError {
    /// A human-readable description of the error.
    pub fn message(&self) -> (r: String) {
        match self {
            MapError::IoError => "file missing or unreadable".to_string(),
            MapError::FormatError => "unsupported or corrupt raster format".to_string(),
            MapError::ParseError => "malformed numeric field".to_string(),
            MapError::NotInitialized => "map not initialized".to_string(),
            MapError::NotFound => "id not found".to_string(),
        }
    }
}

} // verus!

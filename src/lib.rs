//! Map rendering engine for a province-based strategy map: decodes the
//! province raster, parses the definition, state, owner-color and map
//! configuration files, builds the color lookup tables and per-province
//! bounding boxes, detects province boundaries, answers point and outline
//! queries and renders previews and tiles.
//!
//! Beside it stand the editor helpers that share its text tools: bracket
//! matching, country-tag checking, plugin item merging and theme lists.

pub mod error;
pub mod text;
pub mod encoding;
pub mod script;

pub mod definitions;
pub mod states;
pub mod colors;
pub mod default_map;

pub mod raster;
pub mod spatial;
pub mod render;
pub mod outline;
pub mod edges;
pub mod context;
pub mod query;
pub mod render_out;
pub mod province_map;
pub mod color_map;
pub mod laws;

pub mod bracket_matcher;
pub mod tag_validator;
pub mod plugins;
pub mod themes;

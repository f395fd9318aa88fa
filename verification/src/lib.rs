//! Reverse geocoding for Japan: resolves a coordinate to the set of
//! administrative and hazard-zone regions that contain it, by a linear
//! point-in-polygon scan over an immutable polygon index with a
//! boundary-tolerant multi-probe search.
//!
//! Coordinates are held in fixed-point form: a longitude or latitude in
//! decimal degrees is represented by an integer number of 1e-7 degree units,
//! so every geometric computation is exact integer arithmetic.

pub mod engine;
pub mod geojson;
pub mod geometry;
pub mod ingest;
pub mod json;
pub mod laws;
pub mod propmap;
pub mod props;

pub use engine::ReverseJp;
pub use ingest::ConstructionError;
pub use ingest::DataError;
pub use ingest::get_class10s_data;
pub use ingest::get_landslide_data;
pub use propmap::PropertiesMap;
pub use geometry::Point;
pub use geometry::Polygon;
pub use props::Properties;

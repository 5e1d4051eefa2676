//! A template-resolution and compositing engine: a declarative layout schema
//! plus named placeholder values are turned into a single flattened raster
//! image, by substituting values into vector-graphics templates, rasterizing
//! each template fragment, and compositing the results onto a base image.

pub mod json;
pub mod placeholders;
pub mod render;
pub mod schema;
pub mod strutil;

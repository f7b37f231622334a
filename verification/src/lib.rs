//! Fixed-width flat-file parsing: an XML-declared schema with per-cell
//! formats and line conditions, a streaming record reader that splits on a
//! configurable separator, a record validator with stable diagnostic codes,
//! and a Java-style `DecimalFormat` pattern compiler.

pub mod cell_values;
pub mod decimal_format;
pub mod parser;
pub mod regex_support;
pub mod schema;
pub mod schema_load;
pub mod text;
pub mod validate;

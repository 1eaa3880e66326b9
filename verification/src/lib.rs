//! A spreadsheet document codec: an in-memory workbook model together with
//! the format-code grammar, date rendering and style-table bridging that the
//! two supported on-disk container formats share.
//!
//! Container I/O (ZIP packaging, XML tag emission) is left to thin adapters;
//! this crate holds the verified core: cell addressing, the document model,
//! the date-format grammar, the renderer and the style-table bridges.

pub mod address;
pub mod digits;
pub mod era;
pub mod instant;
pub mod markup;
pub mod model;
pub mod numeric;
pub mod ods;
pub mod style;
pub mod tokens;
pub mod xlsx;

pub use address::column_and_row_to_index;
pub use address::column_to_index;
pub use address::index_to_column;
pub use model::Book;
pub use model::Cell;
pub use model::Sheet;
pub use model::Value;

//! The OOXML-style target format's bridge: style-table construction and
//! decoding, worksheet records, shared strings, and the workbook and
//! relationship tables, all on plain values. The container and markup I/O
//! around them belongs to the adapters.

pub mod read_shared_strings;
pub mod read_sheet;
pub mod read_styles;
pub mod read_workbook;
pub mod read_workbook_xml_rels;
pub mod write_shared_strings;
pub mod write_sheet;
pub mod write_styles;

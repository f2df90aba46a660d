//! viewer: a read-only file viewer's logic. A registry maps file
//! extensions to a view kind and an editor command; the views turn file
//! contents (or a converter's output) into display text: highlighted text,
//! aligned tables from CSV and spreadsheets, slide outlines from pptx and
//! ODF presentations, and a hex dump for binary files.

pub mod text;
pub mod paths;
pub mod registry;
pub mod date;
pub mod fmt;
pub mod term;
pub mod syntax;
pub mod xml;
pub mod slides;
pub mod dump;
pub mod table;
pub mod documents;
pub mod ui;
pub mod view;

pub use registry::{Handler, Kind, Registry};

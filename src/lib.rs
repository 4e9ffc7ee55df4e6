//! Reconstruction of lesson-substitution tables from the drawing operators of
//! a school planning tool's PDF pages.
//!
//! A page's content stream is read into positioned texts and axis-aligned
//! segments; tables are found between "Block" and "15:15" landmarks, columns
//! under their header texts, and cells between the real row separators of
//! each column. The schedule maps each class to its six lesson blocks.

pub mod cells;
pub mod column;
pub mod date;
pub mod error;
pub mod extractor;
pub mod geometry;
pub mod laws;
pub mod order;
pub mod reader;
pub mod region;
pub mod schedule;
pub mod schedule_parser;
pub mod tabula;
pub mod text;

pub use error::ErrorKind;
pub use extractor::HbsTableExtractor;
pub use geometry::{Line, Point, TableObject, Text};
pub use reader::{Operand, Operation, PageObjects};
pub use schedule::{SubstitutionColumn, SubstitutionSchedule};
pub use schedule_parser::PdfScheduleParser;
pub use tabula::TabulaParser;

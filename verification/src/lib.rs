//! Range index over IP address databases.
//!
//! A database is a line-oriented text of `start,end,code` records, one per
//! line, for one address family. This crate parses such text, builds an
//! ordered index of non-overlapping ranges from it and answers the question
//! "which record, if any, contains this address?".
//!
//! Every function is verified against the contract written on it. The
//! contracts speak of plain mathematical models: a line is a `Seq<char>`, an
//! address is an unsigned integer, an index is a `Seq` of entries.

pub mod address;
pub mod builder;
pub mod catalog;
pub mod code;
pub mod config;
pub mod error;
pub mod index;
pub mod laws;
pub mod line;
pub mod number;
pub mod record;
pub mod report;
pub mod sort;
pub mod text;

pub use address::Family;
pub use builder::{build, BuildOptions, Builder};
pub use catalog::{
    get_country_list, get_location_version, output_lines, CountryPair, Lookup,
};
pub use code::CountryCode;
pub use config::{get_config, Config, Settings};
pub use error::{Error, Fault};
pub use index::{Conflict, RangeIndex};
pub use line::parse_line;
pub use record::{Entry, Record, Span};
pub use report::BuildReport;

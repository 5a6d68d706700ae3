//! The DILA archive dumps: datasets, tarballs and the XML records they hold.
pub mod fonds;
pub mod tarballs;
pub mod extractor;

//! Bulk ingestion of patent exchange documents.
//!
//! The pipeline has three stages: files of a product catalog are downloaded
//! and verified against their checksums, archives are unpacked, and the
//! exchange documents found are projected into flat records, written as
//! comma-separated values.
//!
//! This library holds the rules of the three stages, each with its contract:
//!
//! - [`download`]: where a file is fetched from, the steps of a download, and
//!   what becomes of a file once its checksum is known; [`size`] reads the
//!   sizes that the catalog states and [`checksum`] computes SHA-1 checksums.
//! - [`extract`]: which files are archives, how each kind is unpacked and
//!   when its source is removed; [`paths`] takes paths apart.
//! - [`projection`]: the record of a document and the output of a run;
//!   [`document`] reads documents from the element trees of [`xml`], and
//!   [`sink`] writes records.
//!
//! Reading and writing files, the network and the parsing of XML text are
//! left to the program that uses the library.

pub mod config;
pub mod models;
pub mod text;
pub mod ordered;
pub mod size;
pub mod checksum;
pub mod download;
pub mod paths;
pub mod extract;
pub mod xml;
pub mod document;
pub mod sink;
pub mod projection;

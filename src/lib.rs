//! Ingestion and search pipeline over the DILA legal open-data dumps,
//! and the request model of the Légifrance (Piste) JSON API.
//!
//! Everything here is pure logic with contracts: dataset naming, tarball
//! listing and date parsing, XML record extraction, document construction
//! for the full-text index, and query planning for the upstream API.
pub mod text;
pub mod dumps;
pub mod api;
pub mod tarballs;

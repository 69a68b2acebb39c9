//! Verified core of a command line podcast manager: reading RSS feeds into
//! podcast records, naming downloaded files, planning downloads and reading
//! command line arguments.

pub mod cli;
pub mod common;
pub mod feed;
pub mod models;
pub mod outside;
pub mod schema;
pub mod text;

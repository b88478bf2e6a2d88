//! Reading from and publishing to Debian package repositories.
//!
//! A Debian repository is a virtual filesystem rooted at a path or URL.
//! A distribution under `dists/` is described by a `Release` (or signed
//! `InRelease`) manifest that lists every index file with its size and
//! digest; index files in turn enumerate the packages stored in the pool.
//!
//! This crate provides the transport-agnostic core: parsing the manifest,
//! negotiating checksum flavor and compression format per index file,
//! expanding index files into fetch descriptors with end-to-end integrity
//! verification, and verified copy between a reader and a writer.
//! Concrete transports plug in through the [`io::DataResolver`] and
//! [`publish::RepositoryWriter`] interfaces.

pub mod checksum;
pub mod compression;
pub mod control;
pub mod dispatch;
pub mod error;
pub mod install_location;
pub mod io;
pub mod publish;
pub mod reader;
pub mod release;
pub mod strutil;

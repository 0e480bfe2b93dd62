//! A project-scaffolding tool's verified core: a structured build
//! configuration, its persisted document form, the compiler that renders it
//! into a CMake build script with an embedded staleness hash, and the
//! workflow that fetches, pins and caches git-hosted dependencies.

pub mod cmake;
pub mod codec;
pub mod config;
pub mod doc;
pub mod document;
pub mod error;
pub mod paths;
pub mod text;
pub mod version;
pub mod workflow;

//! An npm registry served from a directory of package tarballs.

pub mod error;
pub mod model;
pub mod package;
pub mod registry;
pub mod tarball;

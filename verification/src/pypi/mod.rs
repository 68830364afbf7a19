//! A PyPI "simple" repository served from a directory of sdists and wheels.

pub mod version;
pub mod package;
pub mod model;
pub mod index;
pub mod version_laws;

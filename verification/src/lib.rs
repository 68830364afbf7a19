//! Verified core logic of a set of small services and tools: package
//! registries for npm and PyPI, an HTML to Markdown converter, a feed to
//! Markdown converter, a WSGI gateway, and an AES-256-CBC file tool.

pub mod text;
pub mod paths;
pub mod assoc;
pub mod pypi;
pub mod digest;
pub mod host;
pub mod time;
pub mod npmjs;
pub mod html2md;
pub mod rss2md;
pub mod aes256;
pub mod field_attr;
pub mod wsgi;
pub mod grpc;

//! The JSON documents of the simple repository API (version 1.4).

use vstd::prelude::*;

verus! {

pub struct SimpleResponse {
    pub meta: SimpleMetadata,
    pub projects: Vec<SimpleProject>,
}

pub struct SimpleMetadata {
    pub api_version: String,
}

pub struct SimpleProject {
    pub name: String,
}

pub struct ProjectResponse {
    pub meta: ProjectMetadata,
    pub project_status: Option<ProjectStatus>,
    pub files: Vec<ProjectFile>,
    pub name: String,
    pub versions: Option<Vec<String>>,
}

pub struct ProjectMetadata {
    pub api_version: String,
}

pub struct ProjectStatus {
    pub status: String,
    pub reason: String,
}

pub struct ProjectFile {
    pub filename: String,
    pub url: String,
    /// Digests by algorithm name; no name occurs twice.
    pub hashes: Vec<(String, String)>,
    pub requires_python: Option<String>,
    pub gpg_sig: Option<bool>,
    pub yanked: Option<bool>,
    pub size: usize,
    pub upload_time: Option<String>,
    pub provenance: Option<String>,
}

} // verus!

//! The JSON documents of the npm registry API.

use vstd::prelude::*;

verus! {

/// A package document. Its maps are lists of pairs, read as `assoc_view`
/// reads them.
pub struct Package {
    pub dist_tags: Vec<(String, String)>,
    pub name: String,
    pub time: Vec<(String, String)>,
    pub users: Vec<(String, String)>,
    pub versions: Vec<(String, PackageVersion)>,
    pub author: Option<PackageAuthor>,
    pub description: Option<String>,
    pub readme: Option<String>,
    pub repository: Option<PackageRepository>,
}

pub struct PackageVersion {
    pub name: String,
    pub version: String,
    pub dependencies: Option<Vec<(String, String)>>,
    pub dev_dependencies: Option<Vec<(String, String)>>,
    pub dist: PackageDist,
}

pub struct PackageAuthor {
    pub name: String,
    pub email: Option<String>,
    pub url: Option<String>,
}

pub struct PackageRepository {
    pub ty: Option<String>,
    pub url: String,
}

pub struct PackageDist {
    pub shasum: String,
    pub tarball: String,
}

} // verus!

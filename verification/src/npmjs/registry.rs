//! Building the registry's documents from the package tarballs.

use crate::digest::{compute_hash, hex_lower, sha1_digest, HashAlgorithm};
use crate::npmjs::model;
use crate::assoc::{assoc_put, assoc_take, assoc_view};
use crate::npmjs::package::{stably_before, Package, PackageJsonPeople, PackageJsonRepository, Packages};
use crate::text::{push_lit, push_str, str_eq, string_from_lit};
use crate::time::{format_rfc3339_micros, rfc3339_micros};
use vstd::prelude::*;
use vstd::utf8::encode_utf8;

verus! {

pub open spec fn opt_text(s: Option<String>) -> Option<Seq<char>> {
    match s {
        Some(t) => Some(t@),
        None => None,
    }
}

pub open spec fn pairs_view(m: Seq<(String, String)>) -> Seq<(Seq<char>, Seq<char>)> {
    m.map_values(|e: (String, String)| (e.0@, e.1@))
}

pub open spec fn opt_pairs(m: Option<Vec<(String, String)>>) -> Option<Seq<(Seq<char>, Seq<char>)>> {
    match m {
        Some(v) => Some(pairs_view(v@)),
        None => None,
    }
}

fn clone_text(s: &Option<String>) -> (r: Option<String>)
    ensures
        opt_text(r) == opt_text(*s),
{
    match s {
        Some(t) => Some(t.clone()),
        None => None,
    }
}

fn clone_pairs(m: &Vec<(String, String)>) -> (r: Vec<(String, String)>)
    ensures
        pairs_view(r@) == pairs_view(m@),
{
    let mut r: Vec<(String, String)> = Vec::new();
    let mut i: usize = 0;
    while i < m.len()
        invariant
            i <= m@.len(),
            r@.len() == i,
            forall|k: int| 0 <= k < i ==> r@[k].0@ == m@[k].0@ && r@[k].1@ == m@[k].1@,
        decreases m.len() - i,
    {
        r.push((m[i].0.clone(), m[i].1.clone()));
        i = i + 1;
    }
    assert(pairs_view(r@) =~= pairs_view(m@));
    r
}

fn clone_opt_pairs(m: &Option<Vec<(String, String)>>) -> (r: Option<Vec<(String, String)>>)
    ensures
        opt_pairs(r) == opt_pairs(*m),
{
    match m {
        Some(v) => Some(clone_pairs(v)),
        None => None,
    }
}

// ---------------------------------------------------------------------------
// People and repositories
// ---------------------------------------------------------------------------

/// The author of a package document from the `author` of `package.json`:
/// a line becomes the name alone.
pub open spec fn author_of(a: Option<PackageJsonPeople>) -> Option<(Seq<char>, Option<Seq<char>>, Option<Seq<char>>)> {
    match a {
        Some(PackageJsonPeople::Line(s)) => Some((s@, None, None)),
        Some(PackageJsonPeople::Object(o)) => Some((o.name@, opt_text(o.email), opt_text(o.url))),
        None => None,
    }
}

pub open spec fn author_view(a: Option<model::PackageAuthor>) -> Option<(Seq<char>, Option<Seq<char>>, Option<Seq<char>>)> {
    match a {
        Some(x) => Some((x.name@, opt_text(x.email), opt_text(x.url))),
        None => None,
    }
}

/// The repository of a package document from that of `package.json`: a
/// line becomes the URL, with no type.
pub open spec fn repository_of(r: Option<PackageJsonRepository>) -> Option<(Option<Seq<char>>, Seq<char>)> {
    match r {
        Some(PackageJsonRepository::Line(s)) => Some((None, s@)),
        Some(PackageJsonRepository::Object(o)) => Some((opt_text(o.ty), o.url@)),
        None => None,
    }
}

pub open spec fn repository_view(r: Option<model::PackageRepository>) -> Option<(Option<Seq<char>>, Seq<char>)> {
    match r {
        Some(x) => Some((opt_text(x.ty), x.url@)),
        None => None,
    }
}

fn model_author(author: &Option<PackageJsonPeople>) -> (r: Option<model::PackageAuthor>)
    ensures
        author_view(r) == author_of(*author),
{
    match author {
        Some(PackageJsonPeople::Line(a)) => Some(
            model::PackageAuthor { name: a.clone(), email: None, url: None },
        ),
        Some(PackageJsonPeople::Object(a)) => Some(
            model::PackageAuthor {
                name: a.name.clone(),
                email: clone_text(&a.email),
                url: clone_text(&a.url),
            },
        ),
        None => None,
    }
}

fn model_repository(repository: &Option<PackageJsonRepository>) -> (r: Option<model::PackageRepository>)
    ensures
        repository_view(r) == repository_of(*repository),
{
    match repository {
        Some(PackageJsonRepository::Line(u)) => Some(
            model::PackageRepository { ty: None, url: u.clone() },
        ),
        Some(PackageJsonRepository::Object(o)) => Some(
            model::PackageRepository { ty: clone_text(&o.ty), url: o.url.clone() },
        ),
        None => None,
    }
}

// ---------------------------------------------------------------------------
// Percent-encoding of a path segment
// ---------------------------------------------------------------------------

/// The bytes escaped in a URL path segment besides non-ASCII ones: controls,
/// space, `"`, `#`, `<`, `>`, `?`, `^`, backquote, `{`, `}` and `/`.
pub open spec fn escaped_in_segment(b: u8) -> bool {
    b < 0x20 || b == 0x7f || b == 0x20 || b == 0x22 || b == 0x23 || b == 0x3c || b == 0x3e || b
        == 0x3f || b == 0x5e || b == 0x60 || b == 0x7b || b == 0x7d || b == 0x2f
}

/// The uppercase hexadecimal digit for `v < 16`.
pub open spec fn hex_upper(v: int) -> char {
    if v < 10 {
        ((v + 48) as u8) as char
    } else {
        ((v + 55) as u8) as char
    }
}

/// `bytes` with each non-ASCII or escaped byte written `%XX`.
pub open spec fn percent_encoded(bytes: Seq<u8>) -> Seq<char>
    decreases bytes.len(),
{
    if bytes.len() == 0 {
        seq![]
    } else {
        let b = bytes.last();
        percent_encoded(bytes.drop_last()) + if b >= 0x80 || escaped_in_segment(b) {
            seq!['%', hex_upper(b as int / 16), hex_upper(b as int % 16)]
        } else {
            seq![b as char]
        }
    }
}

fn hex_upper_exec(v: u8) -> (c: char)
    requires
        v < 16,
    ensures
        c == hex_upper(v as int),
{
    if v < 10 {
        (v + 48) as char
    } else {
        (v + 55) as char
    }
}

/// Appends `bytes`, percent-encoded as a URL path segment, to `out`.
fn push_percent_encoded(out: &mut String, bytes: &[u8])
    ensures
        final(out)@ == old(out)@ + percent_encoded(bytes@),
{
    let mut i: usize = 0;
    while i < bytes.len()
        invariant
            i <= bytes@.len(),
            out@ == old(out)@ + percent_encoded(bytes@.subrange(0, i as int)),
        decreases bytes.len() - i,
    {
        let b = bytes[i];
        assert(bytes@.subrange(0, i + 1).drop_last() =~= bytes@.subrange(0, i as int));
        let escaped = b < 0x20 || b == 0x7f || b == 0x20 || b == 0x22 || b == 0x23 || b == 0x3c
            || b == 0x3e || b == 0x3f || b == 0x5e || b == 0x60 || b == 0x7b || b == 0x7d || b
            == 0x2f;
        if b >= 0x80 || escaped {
            out.push('%');
            out.push(hex_upper_exec(b / 16));
            out.push(hex_upper_exec(b % 16));
        } else {
            out.push(b as char);
        }
        i = i + 1;
    }
    assert(bytes@.subrange(0, bytes@.len() as int) =~= bytes@);
}

/// `http://HOST/NAME/-/FILENAME`, with the name percent-encoded as a path
/// segment.
pub open spec fn tarball_url(host: Seq<char>, name_bytes: Seq<u8>, filename: Seq<char>) -> Seq<char> {
    seq!['h', 't', 't', 'p', ':', '/', '/'] + host + seq!['/'] + percent_encoded(name_bytes)
        + seq!['/', '-', '/'] + filename
}

// ---------------------------------------------------------------------------
// Request headers
// ---------------------------------------------------------------------------

/// A header value is read as text when all its bytes are visible ASCII or
/// tabs.
pub open spec fn is_visible_ascii(b: u8) -> bool {
    (b >= 32 && b < 127) || b == 9
}

/// The header's value as text when it is present and readable, else
/// `default`.
pub open spec fn header_text(value: Option<Seq<u8>>, default: Seq<char>) -> Seq<char> {
    match value {
        Some(v) => if forall|i: int| 0 <= i < v.len() ==> is_visible_ascii(#[trigger] v[i]) {
            v.map_values(|b: u8| b as char)
        } else {
            default
        },
        None => default,
    }
}

/// The value of a request header as text, or `default` when it is absent or
/// holds bytes other than visible ASCII and tabs.
pub fn get_header_value(value: Option<&[u8]>, default: &str) -> (r: String)
    ensures
        r@ == header_text(
            match value {
                Some(v) => Some(v@),
                None => None,
            },
            default@,
        ),
{
    match value {
        Some(v) => {
            let mut s = String::new();
            let mut i: usize = 0;
            while i < v.len()
                invariant
                    value == Some(v),
                    i <= v@.len(),
                    s@ == v@.subrange(0, i as int).map_values(|b: u8| b as char),
                    forall|k: int| 0 <= k < i ==> is_visible_ascii(#[trigger] v@[k]),
                decreases v.len() - i,
            {
                let b = v[i];
                if !((b >= 32 && b < 127) || b == 9) {
                    assert(!is_visible_ascii(v@[i as int]));
                    return default.to_owned();
                }
                s.push(b as char);
                assert(v@.subrange(0, i + 1).map_values(|b: u8| b as char) =~= v@.subrange(
                    0,
                    i as int,
                ).map_values(|b: u8| b as char).push(b as char));
                i = i + 1;
            }
            assert(v@.subrange(0, v@.len() as int) =~= v@);
            s
        },
        None => default.to_owned(),
    }
}

// ---------------------------------------------------------------------------
// Versions
// ---------------------------------------------------------------------------

/// The content of a version document.
pub struct VersionView {
    pub name: Seq<char>,
    pub version: Seq<char>,
    pub dependencies: Option<Seq<(Seq<char>, Seq<char>)>>,
    pub dev_dependencies: Option<Seq<(Seq<char>, Seq<char>)>>,
    pub shasum: Seq<char>,
    pub tarball: Seq<char>,
}

impl View for model::PackageVersion {
    type V = VersionView;

    open spec fn view(&self) -> VersionView {
        VersionView {
            name: self.name@,
            version: self.version@,
            dependencies: opt_pairs(self.dependencies),
            dev_dependencies: opt_pairs(self.dev_dependencies),
            shasum: self.dist.shasum@,
            tarball: self.dist.tarball@,
        }
    }
}

/// The version document of the tarball `p`, served from `host`.
pub open spec fn version_doc(p: Package, host: Seq<char>) -> VersionView {
    VersionView {
        name: p.metadata.name@,
        version: p.metadata.version@,
        dependencies: opt_pairs(p.metadata.dependencies),
        dev_dependencies: opt_pairs(p.metadata.dev_dependencies),
        shasum: p.shasum@,
        tarball: tarball_url(host, encode_utf8(p.metadata.name@), p.filename@),
    }
}

/// The version document of the tarball `p`, served from `host`.
pub fn model_version(p: &Package, host: &str) -> (r: model::PackageVersion)
    ensures
        r@ == version_doc(*p, host@),
{
    let mut tarball = string_from_lit(&['h', 't', 't', 'p', ':', '/', '/']);
    push_str(&mut tarball, host);
    tarball.push('/');
    push_percent_encoded(&mut tarball, p.metadata.name.as_str().as_bytes());
    push_lit(&mut tarball, &['/', '-', '/']);
    push_str(&mut tarball, p.filename.as_str());
    assert(tarball@ =~= tarball_url(host@, encode_utf8(p.metadata.name@), p.filename@));
    model::PackageVersion {
        name: p.metadata.name.clone(),
        version: p.metadata.version.clone(),
        dependencies: clone_opt_pairs(&p.metadata.dependencies),
        dev_dependencies: clone_opt_pairs(&p.metadata.dev_dependencies),
        dist: model::PackageDist { shasum: p.shasum.clone(), tarball },
    }
}

impl Package {
    /// Records the SHA-1 of the tarball's `content` when none is recorded
    /// yet.
    pub fn fill_shasum(&mut self, content: &[u8])
        ensures
            old(self).shasum@.len() == 0 ==> final(self).shasum@ == hex_lower(sha1_digest(content@)),
            old(self).shasum@.len() != 0 ==> final(self).shasum@ == old(self).shasum@,
            final(self).path == old(self).path,
            final(self).filename == old(self).filename,
            final(self).name == old(self).name,
            final(self).full_version == old(self).full_version,
            final(self).version == old(self).version,
            final(self).metadata == old(self).metadata,
            final(self).created_at == old(self).created_at,
            final(self).updated_at == old(self).updated_at,
    {
        if self.shasum.as_str().is_empty() {
            self.shasum = compute_hash(HashAlgorithm::Sha1, content);
        }
    }
}

// ---------------------------------------------------------------------------
// Package documents
// ---------------------------------------------------------------------------

/// `files[j]` is a tarball of the package `name`.
pub open spec fn of_package(files: Seq<Package>, name: Seq<char>, j: int) -> bool {
    0 <= j < files.len() && files[j].metadata.name@ == name
}

/// `files[j]` is the latest tarball of `name`: of the highest version, and
/// the last in the directory among those of that version.
pub open spec fn is_latest(files: Seq<Package>, name: Seq<char>, j: int) -> bool {
    &&& of_package(files, name, j)
    &&& forall|i: int|
        #[trigger] of_package(files, name, i) && i != j ==> stably_before(
            files[i].version,
            i,
            files[j].version,
            j,
        )
}

/// The latest tarball of a package carries its greatest version: no other
/// tarball of the package has a larger major number, nor, with the same
/// major number, a larger minor number, nor, with the same major and minor
/// numbers, a larger patch number.
pub proof fn lemma_latest_is_greatest(files: Seq<Package>, name: Seq<char>, j: int, i: int)
    requires
        is_latest(files, name, j),
        of_package(files, name, i),
    ensures
        files[i].version.0 <= files[j].version.0,
        files[i].version.0 == files[j].version.0 ==> files[i].version.1 <= files[j].version.1,
        files[i].version.0 == files[j].version.0 && files[i].version.1 == files[j].version.1
            ==> files[i].version.2 <= files[j].version.2,
{
    if i != j {
        assert(stably_before(files[i].version, i, files[j].version, j));
    }
}

/// `files[j]` is the oldest tarball of `name`: of the lowest version, and
/// the first in the directory among those of that version.
pub open spec fn is_oldest(files: Seq<Package>, name: Seq<char>, j: int) -> bool {
    &&& of_package(files, name, j)
    &&& forall|i: int|
        #[trigger] of_package(files, name, i) && i != j ==> stably_before(
            files[j].version,
            j,
            files[i].version,
            i,
        )
}

/// Among the tarballs of `name` whose `package.json` gives the version `v`,
/// `files[j]` comes last in the order of versions.
pub open spec fn is_last_of_version(files: Seq<Package>, name: Seq<char>, v: Seq<char>, j: int) -> bool {
    &&& of_package(files, name, j)
    &&& files[j].metadata.version@ == v
    &&& forall|i: int|
        #[trigger] of_package(files, name, i) && files[i].metadata.version@ == v && i != j
            ==> stably_before(files[i].version, i, files[j].version, j)
}

/// The creation time of the tarball as RFC 3339 text, when it is known and
/// representable.
pub open spec fn created_text(p: Package) -> Option<Seq<char>> {
    match p.created_at {
        Some(t) => rfc3339_micros(t.secs, t.nanos),
        None => None,
    }
}

pub open spec fn key_created() -> Seq<char> {
    seq!['c', 'r', 'e', 'a', 't', 'e', 'd']
}

pub open spec fn key_modified() -> Seq<char> {
    seq!['m', 'o', 'd', 'i', 'f', 'i', 'e', 'd']
}

/// `doc` is the document of the package `name` that the tarballs `files`
/// make, served from `host`: each version of a `package.json` once, from
/// its latest tarball; the times of creation of the oldest and the latest
/// tarball and of each version; and the author, description and
/// repository of the latest tarball.
pub open spec fn is_document(files: Seq<Package>, name: Seq<char>, host: Seq<char>, doc: model::Package) -> bool {
    let versions = assoc_view(doc.versions@);
    let time = assoc_view(doc.time@);
    &&& doc.name@ == name
    &&& doc.dist_tags@.len() == 0
    &&& doc.users@.len() == 0
    &&& doc.readme is None
    &&& forall|j: int|
        #[trigger] is_latest(files, name, j) ==> {
            &&& author_view(doc.author) == author_of(files[j].metadata.author)
            &&& opt_text(doc.description) == opt_text(files[j].metadata.description)
            &&& repository_view(doc.repository) == repository_of(files[j].metadata.repository)
        }
    &&& forall|v: Seq<char>|
        #[trigger] versions.contains_key(v) <==> exists|j: int|
            #[trigger] of_package(files, name, j) && files[j].metadata.version@ == v
    &&& forall|v: Seq<char>, j: int|
        #[trigger] is_last_of_version(files, name, v, j) ==> {
            &&& versions[v] == version_doc(files[j], host)
            &&& Some(time[v]) == created_text(files[j])
        }
    &&& forall|k: Seq<char>|
        #[trigger] time.contains_key(k) <==> (k == key_created() || k == key_modified()
            || versions.contains_key(k))
    &&& forall|j: int|
        #[trigger] is_oldest(files, name, j) && !versions.contains_key(key_created()) ==> Some(
            time[key_created()],
        ) == created_text(files[j])
    &&& forall|j: int|
        #[trigger] is_latest(files, name, j) && !versions.contains_key(key_modified()) ==> Some(
            time[key_modified()],
        ) == created_text(files[j])
}

/// A time that the document should hold cannot be written.
pub enum DocumentError {
    TimeOutOfRange,
}

fn time_text(p: &Package) -> (r: Result<String, DocumentError>)
    requires
        p.created_at is Some,
    ensures
        match r {
            Ok(s) => created_text(*p) == Some(s@),
            Err(_) => created_text(*p) is None,
        },
{
    match format_rfc3339_micros(p.created_at.unwrap()) {
        Some(s) => Ok(s),
        None => Err(DocumentError::TimeOutOfRange),
    }
}

/// No two tarballs precede each other, and a tarball does not precede
/// itself.
proof fn lemma_stably_before_asymmetric(a: (u16, u16, u16), i: int, b: (u16, u16, u16), j: int)
    requires
        stably_before(a, i, b, j),
    ensures
        !stably_before(b, j, a, i),
        i == j ==> a != b,
{
}

/// No later tarball in `order[..t]` gives the version of `order[s]`.
pub open spec fn last_in_prefix(files: Seq<Package>, order: Seq<usize>, s: int, t: int) -> bool {
    forall|u: int|
        s < u < t ==> files[#[trigger] order[u] as int].metadata.version@ != files[order[s] as int].metadata.version@
}

impl Packages {
    /// The document of the package `name` served from `host`, built from its
    /// tarballs in the order of their versions; `None` when no tarball
    /// belongs to it. Each version carries the SHA-1 recorded in its
    /// tarball (see `Package::fill_shasum`).
    pub fn package_document(&self, name: &str, host: &str) -> (r: Result<Option<model::Package>, DocumentError>)
        requires
            forall|j: int| #[trigger] of_package(self.files@, name@, j) ==> self.files@[j].created_at is Some,
        ensures
            (r matches Ok(None)) <==> forall|j: int| !#[trigger] of_package(self.files@, name@, j),
            (r is Err) <==> exists|j: int|
                #[trigger] of_package(self.files@, name@, j) && created_text(self.files@[j]) is None,
            r matches Ok(Some(doc)) ==> is_document(self.files@, name@, host@, doc),
    {
        let ghost files = self.files@;
        let order = self.versions_of(name);
        let n = order.len();
        if n == 0 {
            proof {
                assert forall|j: int| !#[trigger] of_package(files, name@, j) by {
                    if of_package(files, name@, j) {
                        let k = choose|k: int| 0 <= k < order@.len() && #[trigger] order@[k] == j;
                    }
                }
            }
            return Ok(None);
        }
        let first = order[0];
        let last = order[n - 1];
        assert(first < files.len() && of_package(files, name@, first as int));
        assert(last < files.len() && of_package(files, name@, last as int));
        let created = match time_text(&self.files[first]) {
            Ok(s) => s,
            Err(e) => return Err(e),
        };
        let modified = match time_text(&self.files[last]) {
            Ok(s) => s,
            Err(e) => return Err(e),
        };
        let ghost created_v = created@;
        let ghost modified_v = modified@;
        let mut time: Vec<(String, String)> = Vec::new();
        assoc_put(&mut time, string_from_lit(&['c', 'r', 'e', 'a', 't', 'e', 'd']), created);
        assoc_put(&mut time, string_from_lit(&['m', 'o', 'd', 'i', 'f', 'i', 'e', 'd']), modified);
        let mut versions: Vec<(String, model::PackageVersion)> = Vec::new();
        proof {
            assert(assoc_view(versions@) =~= Map::empty());
            assert(assoc_view(Seq::<(String, String)>::empty()) =~= Map::empty());
        }
        let mut t: usize = 0;
        while t < n
            invariant
                files == self.files@,
                n == order@.len(),
                0 < n,
                t <= n,
                first == order@[0],
                last == order@[n - 1],
                forall|k: int|
                    0 <= k < n ==> #[trigger] order@[k] < files.len() && of_package(
                        files,
                        name@,
                        order@[k] as int,
                    ),
                forall|j: int| #[trigger] of_package(files, name@, j) ==> files[j].created_at is Some,
                created_text(files[first as int]) == Some(created_v),
                created_text(files[last as int]) == Some(modified_v),
                forall|s: int| 0 <= s < t ==> created_text(files[#[trigger] order@[s] as int]) is Some,
                forall|v: Seq<char>|
                    #[trigger] assoc_view(versions@).contains_key(v) <==> exists|s: int|
                        0 <= s < t && files[#[trigger] order@[s] as int].metadata.version@ == v,
                forall|s: int|
                    0 <= s < t && #[trigger] last_in_prefix(files, order@, s, t as int) ==> {
                        &&& assoc_view(versions@)[files[order@[s] as int].metadata.version@]
                            == version_doc(files[order@[s] as int], host@)
                        &&& Some(assoc_view(time@)[files[order@[s] as int].metadata.version@])
                            == created_text(files[order@[s] as int])
                    },
                forall|k: Seq<char>|
                    #[trigger] assoc_view(time@).contains_key(k) <==> (k == key_created() || k
                        == key_modified() || assoc_view(versions@).contains_key(k)),
                !assoc_view(versions@).contains_key(key_created()) ==> assoc_view(time@)[key_created()]
                    == created_v,
                !assoc_view(versions@).contains_key(key_modified()) ==> assoc_view(time@)[key_modified()]
                    == modified_v,
            decreases n - t,
        {
            let j = order[t];
            assert(of_package(files, name@, j as int));
            let tm = match time_text(&self.files[j]) {
                Ok(s) => s,
                Err(e) => return Err(e),
            };
            let pv = model_version(&self.files[j], host);
            let ghost v = files[j as int].metadata.version@;
            let ghost old_versions = assoc_view(versions@);
            assoc_put(&mut versions, self.files[j].metadata.version.clone(), pv);
            assoc_put(&mut time, self.files[j].metadata.version.clone(), tm);
            proof {
                assert forall|w: Seq<char>|
                    #[trigger] assoc_view(versions@).contains_key(w) <==> exists|s: int|
                        0 <= s < t + 1 && files[#[trigger] order@[s] as int].metadata.version@ == w by {
                    if w == v {
                        assert(files[order@[t as int] as int].metadata.version@ == w);
                    } else if old_versions.contains_key(w) {
                        let s = choose|s: int|
                            0 <= s < t && files[#[trigger] order@[s] as int].metadata.version@ == w;
                    }
                }
                assert forall|s: int|
                    0 <= s < t + 1 && #[trigger] last_in_prefix(files, order@, s, t + 1) implies {
                        &&& assoc_view(versions@)[files[order@[s] as int].metadata.version@]
                            == version_doc(files[order@[s] as int], host@)
                        &&& Some(assoc_view(time@)[files[order@[s] as int].metadata.version@])
                            == created_text(files[order@[s] as int])
                    } by {
                    if s < t {
                        assert(files[order@[t as int] as int].metadata.version@ != files[order@[s] as int].metadata.version@);
                        assert(last_in_prefix(files, order@, s, t as int));
                    }
                }
            }
            t = t + 1;
        }
        let latest = &self.files[last];
        let doc = model::Package {
            dist_tags: Vec::new(),
            name: latest.metadata.name.clone(),
            time,
            users: Vec::new(),
            versions,
            author: model_author(&latest.metadata.author),
            description: clone_text(&latest.metadata.description),
            readme: None,
            repository: model_repository(&latest.metadata.repository),
        };
        proof {
            let ov = order@;
            assert forall|j: int| #[trigger] of_package(files, name@, j) implies created_text(files[j]) is Some by {
                let k = choose|k: int| 0 <= k < ov.len() && #[trigger] ov[k] == j;
            }
            assert forall|j: int| #[trigger] is_latest(files, name@, j) implies j == last by {
                let k = choose|k: int| 0 <= k < ov.len() && #[trigger] ov[k] == j;
                if k < n - 1 {
                    lemma_stably_before_asymmetric(files[j].version, j, files[last as int].version, last as int);
                    assert(of_package(files, name@, last as int));
                }
            }
            assert forall|j: int| #[trigger] is_oldest(files, name@, j) implies j == first by {
                let k = choose|k: int| 0 <= k < ov.len() && #[trigger] ov[k] == j;
                if k > 0 {
                    lemma_stably_before_asymmetric(files[first as int].version, first as int, files[j].version, j);
                    assert(of_package(files, name@, first as int));
                }
            }
            assert forall|v: Seq<char>, j: int| #[trigger] is_last_of_version(files, name@, v, j) implies last_in_prefix(files, ov, choose|k: int| 0 <= k < ov.len() && #[trigger] ov[k] == j, n as int) by {
                let k = choose|k: int| 0 <= k < ov.len() && #[trigger] ov[k] == j;
                assert forall|u: int| k < u < n implies files[#[trigger] ov[u] as int].metadata.version@ != files[ov[k] as int].metadata.version@ by {
                    if files[ov[u] as int].metadata.version@ == v {
                        lemma_stably_before_asymmetric(files[j].version, j, files[ov[u] as int].version, ov[u] as int);
                    }
                }
            }
            assert forall|v: Seq<char>|
                #[trigger] assoc_view(doc.versions@).contains_key(v) <==> exists|j: int|
                    #[trigger] of_package(files, name@, j) && files[j].metadata.version@ == v by {
                if assoc_view(doc.versions@).contains_key(v) {
                    let s = choose|s: int| 0 <= s < n && files[#[trigger] ov[s] as int].metadata.version@ == v;
                    assert(of_package(files, name@, ov[s] as int));
                }
                if exists|j: int| #[trigger] of_package(files, name@, j) && files[j].metadata.version@ == v {
                    let j = choose|j: int| #[trigger] of_package(files, name@, j) && files[j].metadata.version@ == v;
                    let k = choose|k: int| 0 <= k < ov.len() && #[trigger] ov[k] == j;
                    assert(files[ov[k] as int].metadata.version@ == v);
                }
            }
        }
        Ok(Some(doc))
    }
}

impl model::Package {
    /// The document of the version `version` of the package, when it has
    /// one.
    pub fn take_version(self, version: &str) -> (r: Option<model::PackageVersion>)
        ensures
            match r {
                Some(v) => assoc_view(self.versions@).contains_key(version@) && v@ == assoc_view(
                    self.versions@,
                )[version@],
                None => !assoc_view(self.versions@).contains_key(version@),
            },
    {
        assoc_take(self.versions, version)
    }
}

} // verus!

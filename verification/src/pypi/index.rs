//! The answers of the simple repository: the project list, and the files
//! and versions of one project.

use crate::digest::{compute_hash, digest_of, hex_lower, pypi_algorithm, pypi_algorithm_exec};
use crate::pypi::model::{
    ProjectFile, ProjectMetadata, ProjectResponse, SimpleMetadata, SimpleProject, SimpleResponse,
};
use crate::pypi::package::{normalize, normalized, Package, Packages};
use crate::pypi::version::VersionView;
use crate::text::{push_lit, push_str, str_eq, string_from_lit};
use crate::time::{format_rfc3339_micros, rfc3339_micros};
use vstd::prelude::*;

verus! {

/// The value stored under `k`: the first pair whose key is `k`.
pub open spec fn lookup(m: Seq<(String, String)>, k: Seq<char>) -> Option<Seq<char>>
    decreases m.len(),
{
    if m.len() == 0 {
        None
    } else if m[0].0@ == k {
        Some(m[0].1@)
    } else {
        lookup(m.drop_first(), k)
    }
}

/// No key occurs twice.
pub open spec fn keys_unique(m: Seq<(String, String)>) -> bool {
    forall|i: int, j: int| 0 <= i < j < m.len() ==> m[i].0@ != m[j].0@
}

pub open spec fn opt_text(s: Option<String>) -> Option<Seq<char>> {
    match s {
        Some(t) => Some(t@),
        None => None,
    }
}

/// The version of the simple API that the answers follow: `1.4`.
pub open spec fn api_version() -> Seq<char> {
    seq!['1', '.', '4']
}

/// `http://HOST/packages/FILENAME`.
pub open spec fn package_url(host: Seq<char>, filename: Seq<char>) -> Seq<char> {
    seq!['h', 't', 't', 'p', ':', '/', '/'] + host + seq![
        '/',
        'p',
        'a',
        'c',
        'k',
        'a',
        'g',
        'e',
        's',
        '/',
    ] + filename
}

proof fn lemma_lookup_index(m: Seq<(String, String)>, k: Seq<char>, i: int)
    requires
        0 <= i < m.len(),
        m[i].0@ == k,
        forall|j: int| 0 <= j < i ==> m[j].0@ != k,
    ensures
        lookup(m, k) == Some(m[i].1@),
    decreases i,
{
    if i > 0 {
        lemma_lookup_index(m.drop_first(), k, i - 1);
    }
}

proof fn lemma_lookup_absent(m: Seq<(String, String)>, k: Seq<char>)
    requires
        forall|j: int| 0 <= j < m.len() ==> m[j].0@ != k,
    ensures
        lookup(m, k) is None,
    decreases m.len(),
{
    if m.len() > 0 {
        lemma_lookup_absent(m.drop_first(), k);
    }
}

/// Position of the key `k` in `m`, if present.
fn find_key(m: &Vec<(String, String)>, k: &str) -> (r: Option<usize>)
    ensures
        match r {
            Some(i) => i < m@.len() && m@[i as int].0@ == k@ && forall|j: int|
                0 <= j < i ==> m@[j].0@ != k@,
            None => forall|j: int| 0 <= j < m@.len() ==> m@[j].0@ != k@,
        },
{
    let mut i: usize = 0;
    while i < m.len()
        invariant
            i <= m@.len(),
            forall|j: int| 0 <= j < i ==> m@[j].0@ != k@,
        decreases m.len() - i,
    {
        if str_eq(m[i].0.as_str(), k) {
            return Some(i);
        }
        i = i + 1;
    }
    None
}

impl Package {
    /// The digest stored for `algo`, if one was computed.
    pub fn hash_value(&self, algo: &str) -> (r: Option<String>)
        ensures
            opt_text(r) == lookup(self.hashes@, algo@),
    {
        match find_key(&self.hashes, algo) {
            Some(i) => {
                proof {
                    lemma_lookup_index(self.hashes@, algo@, i as int);
                }
                Some(self.hashes[i].1.clone())
            },
            None => {
                proof {
                    lemma_lookup_absent(self.hashes@, algo@);
                }
                None
            },
        }
    }

    /// Computes the `algo` digest of the file's `content` (`md5` or
    /// `sha256`), stores it under `algo` and returns it.
    pub fn insert_hash(&mut self, algo: &str, content: &[u8]) -> (r: String)
        requires
            pypi_algorithm(algo@) is Some,
        ensures
            r@ == hex_lower(digest_of(pypi_algorithm(algo@)->0, content@)),
            lookup(final(self).hashes@, algo@) == Some(r@),
            forall|k: Seq<char>|
                k != algo@ ==> lookup(final(self).hashes@, k) == lookup(old(self).hashes@, k),
            keys_unique(old(self).hashes@) ==> keys_unique(final(self).hashes@),
            final(self).path == old(self).path,
            final(self).filename == old(self).filename,
            final(self).distribution == old(self).distribution,
            final(self).version == old(self).version,
            final(self).size == old(self).size,
            final(self).created_at == old(self).created_at,
            final(self).updated_at == old(self).updated_at,
            final(self).ty == old(self).ty,
    {
        let a = pypi_algorithm_exec(algo).unwrap();
        let hash = compute_hash(a, content);
        let ghost old_m = self.hashes@;
        let key = string_from_lit_of(algo);
        match find_key(&self.hashes, algo) {
            Some(i) => {
                self.hashes.set(i, (key, hash.clone()));
                proof {
                    let m = self.hashes@;
                    lemma_lookup_index(m, algo@, i as int);
                    assert forall|k: Seq<char>| k != algo@ implies lookup(m, k) == lookup(
                        old_m,
                        k,
                    ) by {
                        lemma_lookup_same(old_m, m, k);
                    }
                }
            },
            None => {
                self.hashes.push((key, hash.clone()));
                proof {
                    let m = self.hashes@;
                    lemma_lookup_index(m, algo@, old_m.len() as int);
                    assert forall|k: Seq<char>| k != algo@ implies lookup(m, k) == lookup(
                        old_m,
                        k,
                    ) by {
                        lemma_lookup_same(old_m, m, k);
                    }
                }
            },
        }
        hash
    }

    /// The file entry of this package in a project page: its name, its URL
    /// under `host`, the digest `hash_value` under the name `hash`, its size
    /// and the time it was last modified.
    pub fn project_file(&self, host: &str, hash: &str, hash_value: &str) -> (r: ProjectFile)
        ensures
            r.filename@ == self.filename@,
            r.url@ == package_url(host@, self.filename@),
            r.hashes@.len() == 1,
            r.hashes@[0].0@ == hash@,
            r.hashes@[0].1@ == hash_value@,
            r.size == self.size,
            opt_text(r.upload_time) == match self.updated_at {
                Some(t) => rfc3339_micros(t.secs, t.nanos),
                None => None,
            },
            r.requires_python is None,
            r.gpg_sig is None,
            r.yanked is None,
            r.provenance is None,
    {
        let mut url = String::new();
        push_lit(&mut url, &['h', 't', 't', 'p', ':', '/', '/']);
        push_str(&mut url, host);
        push_lit(&mut url, &['/', 'p', 'a', 'c', 'k', 'a', 'g', 'e', 's', '/']);
        push_str(&mut url, self.filename.as_str());
        let mut hashes: Vec<(String, String)> = Vec::new();
        hashes.push((string_from_lit_of(hash), string_from_lit_of(hash_value)));
        let upload_time = match self.updated_at {
            Some(t) => format_rfc3339_micros(t),
            None => None,
        };
        ProjectFile {
            filename: self.filename.clone(),
            url,
            hashes,
            requires_python: None,
            gpg_sig: None,
            yanked: None,
            size: self.size,
            upload_time,
            provenance: None,
        }
    }
}

/// A `String` with the characters of `s`.
fn string_from_lit_of(s: &str) -> (r: String)
    ensures
        r@ == s@,
{
    let mut r = String::new();
    push_str(&mut r, s);
    r
}

/// Changing the value at one key, or adding a new key at the end, leaves
/// the other keys' values as they were.
proof fn lemma_lookup_same(a: Seq<(String, String)>, b: Seq<(String, String)>, k: Seq<char>)
    requires
        a.len() <= b.len() <= a.len() + 1,
        forall|j: int| 0 <= j < a.len() && a[j].0@ == k ==> b[j] == a[j],
        forall|j: int| 0 <= j < a.len() && a[j].0@ != k ==> b[j].0@ != k,
        b.len() == a.len() + 1 ==> b[a.len() as int].0@ != k,
    ensures
        lookup(b, k) == lookup(a, k),
    decreases a.len(),
{
    if a.len() == 0 {
        if b.len() == 1 {
            assert(lookup(b.drop_first(), k) is None);
        }
    } else if a[0].0@ != k {
        lemma_lookup_same(a.drop_first(), b.drop_first(), k);
    }
}

/// The normalized distribution name of each file, in order.
pub open spec fn project_of_files(files: Seq<Package>) -> Seq<Seq<char>> {
    files.map_values(|p: Package| normalized(p.distribution@))
}

/// `names` lists each normalized distribution name of `files` once, and
/// nothing else.
pub open spec fn is_project_list(files: Seq<Package>, names: Seq<Seq<char>>) -> bool {
    &&& forall|k: int| 0 <= k < names.len() ==> project_of_files(files).contains(#[trigger] names[k])
    &&& forall|j: int|
        0 <= j < files.len() ==> names.contains(#[trigger] project_of_files(files)[j])
    &&& names.no_duplicates()
}

/// The normalized distribution names of `files`, each once, in the order
/// of its first file.
pub open spec fn distinct_names(files: Seq<Package>) -> Seq<Seq<char>>
    decreases files.len(),
{
    if files.len() == 0 {
        seq![]
    } else {
        let prev = distinct_names(files.drop_last());
        let n = normalized(files.last().distribution@);
        if prev.contains(n) {
            prev
        } else {
            prev.push(n)
        }
    }
}

/// The project list names every project of the repository exactly once.
pub proof fn lemma_distinct_names(files: Seq<Package>)
    ensures
        is_project_list(files, distinct_names(files)),
    decreases files.len(),
{
    if files.len() > 0 {
        let init = files.drop_last();
        lemma_distinct_names(init);
        let prev = distinct_names(init);
        let names = distinct_names(files);
        let all = project_of_files(files);
        let all_init = project_of_files(init);
        let n = normalized(files.last().distribution@);
        assert(all_init =~= all.drop_last());
        assert(all[all.len() - 1] == n);
        assert forall|k: int| 0 <= k < names.len() implies all.contains(#[trigger] names[k]) by {
            if k < prev.len() {
                assert(names[k] == prev[k]);
                assert(all_init.contains(prev[k]));
                let j = choose|j: int| 0 <= j < all_init.len() && all_init[j] == prev[k];
                assert(all[j] == all_init[j]);
            } else {
                assert(names[k] == all[all.len() - 1]);
            }
        }
        assert forall|j: int| 0 <= j < files.len() implies names.contains(#[trigger] all[j]) by {
            if j < init.len() {
                assert(all[j] == all_init[j]);
                assert(prev.contains(all_init[j]));
                let k = choose|k: int| 0 <= k < prev.len() && prev[k] == all_init[j];
                assert(names[k] == prev[k]);
            } else if prev.contains(n) {
                let k = choose|k: int| 0 <= k < prev.len() && prev[k] == n;
                assert(names[k] == prev[k]);
            } else {
                assert(names[prev.len() as int] == n);
            }
        }
    }
}

/// Whether `name` is among `names`.
fn contains_text(names: &Vec<String>, name: &str) -> (r: bool)
    ensures
        r == names@.map_values(|s: String| s@).contains(name@),
{
    let mut k: usize = 0;
    while k < names.len()
        invariant
            k <= names@.len(),
            forall|m: int| 0 <= m < k ==> names@[m]@ != name@,
        decreases names.len() - k,
    {
        if str_eq(names[k].as_str(), name) {
            assert(names@.map_values(|s: String| s@)[k as int] == name@);
            return true;
        }
        k = k + 1;
    }
    let ghost views = names@.map_values(|s: String| s@);
    assert forall|m: int| 0 <= m < views.len() implies #[trigger] views[m] != name@ by {
        assert(views[m] == names@[m]@);
    }
    false
}

impl Packages {
    /// The distinct normalized distribution names of the repository, in the
    /// order of their first file.
    pub fn project_names(&self) -> (r: Vec<String>)
        ensures
            r@.map_values(|s: String| s@) == distinct_names(self.files@),
    {
        let mut out: Vec<String> = Vec::new();
        let mut i: usize = 0;
        while i < self.files.len()
            invariant
                i <= self.files@.len(),
                out@.map_values(|s: String| s@) == distinct_names(self.files@.take(i as int)),
            decreases self.files.len() - i,
        {
            let name = normalize(self.files[i].distribution.as_str());
            let ghost prev = out@.map_values(|s: String| s@);
            assert(self.files@.take(i + 1).drop_last() =~= self.files@.take(i as int));
            let found = contains_text(&out, name.as_str());
            if !found {
                out.push(name);
                assert(out@.map_values(|s: String| s@) =~= prev.push(normalized(self.files@[i as int].distribution@)));
            }
            i = i + 1;
        }
        assert(self.files@.take(self.files@.len() as int) =~= self.files@);
        out
    }

    /// The positions of the files whose normalized distribution name is
    /// `project`, in increasing order.
    pub fn project_indices(&self, project: &str) -> (r: Vec<usize>)
        ensures
            forall|k1: int, k2: int| 0 <= k1 < k2 < r@.len() ==> r@[k1] < r@[k2],
            forall|k: int|
                0 <= k < r@.len() ==> #[trigger] r@[k] < self.files@.len() && normalized(
                    self.files@[r@[k] as int].distribution@,
                ) == project@,
            forall|j: int|
                0 <= j < self.files@.len() && normalized(self.files@[j].distribution@)
                    == project@ ==> exists|k: int| 0 <= k < r@.len() && #[trigger] r@[k] == j,
    {
        let mut out: Vec<usize> = Vec::new();
        let mut i: usize = 0;
        while i < self.files.len()
            invariant
                i <= self.files@.len(),
                forall|k1: int, k2: int| 0 <= k1 < k2 < out@.len() ==> out@[k1] < out@[k2],
                forall|k: int|
                    0 <= k < out@.len() ==> #[trigger] out@[k] < i && normalized(
                        self.files@[out@[k] as int].distribution@,
                    ) == project@,
                forall|j: int|
                    0 <= j < i && normalized(self.files@[j].distribution@) == project@
                        ==> exists|k: int| 0 <= k < out@.len() && #[trigger] out@[k] == j,
            decreases self.files.len() - i,
        {
            let name = normalize(self.files[i].distribution.as_str());
            let ghost before = out@;
            if str_eq(name.as_str(), project) {
                out.push(i);
                assert(out@[before.len() as int] == i);
            }
            assert forall|j: int|
                0 <= j < i + 1 && normalized(self.files@[j].distribution@) == project@
                    implies exists|k: int| 0 <= k < out@.len() && #[trigger] out@[k] == j by {
                if j < i {
                    let k = choose|k: int| 0 <= k < before.len() && #[trigger] before[k] == j;
                    assert(out@[k] == before[k]);
                }
            }
            i = i + 1;
        }
        out
    }

    /// The answer to the project list request: every project once.
    pub fn simple_response(&self) -> (r: SimpleResponse)
        ensures
            r.meta.api_version@ == api_version(),
            r.projects@.map_values(|p: SimpleProject| p.name@) == distinct_names(self.files@),
    {
        let names = self.project_names();
        let mut projects: Vec<SimpleProject> = Vec::new();
        let mut i: usize = 0;
        while i < names.len()
            invariant
                i <= names@.len(),
                projects@.len() == i,
                forall|k: int| 0 <= k < i ==> projects@[k].name@ == names@[k]@,
            decreases names.len() - i,
        {
            projects.push(SimpleProject { name: names[i].clone() });
            i = i + 1;
        }
        assert(projects@.map_values(|p: SimpleProject| p.name@) =~= names@.map_values(
            |s: String| s@,
        ));
        SimpleResponse {
            meta: SimpleMetadata { api_version: string_from_lit(&['1', '.', '4']) },
            projects,
        }
    }
}

/// The versions of the files of `project`, each identifier once, in the
/// order of its first file.
pub open spec fn distinct_versions(files: Seq<Package>, project: Seq<char>) -> Seq<VersionView>
    decreases files.len(),
{
    if files.len() == 0 {
        seq![]
    } else {
        let prev = distinct_versions(files.drop_last(), project);
        let last = files.last();
        if normalized(last.distribution@) == project && !(exists|k: int|
            0 <= k < prev.len() && prev[k].identifier == last.version@.identifier) {
            prev.push(last.version@)
        } else {
            prev
        }
    }
}

impl Packages {
    /// The texts of the distinct versions among the files of `project`.
    pub fn project_versions(&self, project: &str) -> (r: Vec<String>)
        ensures
            r@.map_values(|s: String| s@) == distinct_versions(self.files@, project@).map_values(
                |v: VersionView| v.raw,
            ),
    {
        let mut chosen: Vec<usize> = Vec::new();
        let mut out: Vec<String> = Vec::new();
        let mut i: usize = 0;
        while i < self.files.len()
            invariant
                i <= self.files@.len(),
                chosen@.len() == distinct_versions(self.files@.take(i as int), project@).len(),
                out@.len() == chosen@.len(),
                forall|k: int|
                    0 <= k < chosen@.len() ==> #[trigger] chosen@[k] < i && self.files@[chosen@[
                        k
                    ] as int].version@ == distinct_versions(self.files@.take(i as int), project@)[k]
                        && out@[k]@ == self.files@[chosen@[k] as int].version@.raw,
            decreases self.files.len() - i,
        {
            let ghost prev = distinct_versions(self.files@.take(i as int), project@);
            assert(self.files@.take(i + 1).drop_last() =~= self.files@.take(i as int));
            assert(self.files@.take(i + 1).last() == self.files@[i as int]);
            let name = normalize(self.files[i].distribution.as_str());
            if str_eq(name.as_str(), project) {
                let mut seen = false;
                let mut k: usize = 0;
                while k < chosen.len()
                    invariant
                        k <= chosen@.len(),
                        chosen@.len() == prev.len(),
                        forall|m: int|
                            0 <= m < chosen@.len() ==> #[trigger] chosen@[m] < i
                                && self.files@[chosen@[m] as int].version@ == prev[m],
                        seen == (exists|m: int|
                            0 <= m < k && prev[m].identifier
                                == self.files@[i as int].version@.identifier),
                        i < self.files@.len(),
                    decreases chosen.len() - k,
                {
                    if self.files[chosen[k]].version == self.files[i].version {
                        seen = true;
                    }
                    k = k + 1;
                }
                if !seen {
                    chosen.push(i);
                    out.push(self.files[i].version.as_str().to_owned());
                }
            }
            i = i + 1;
        }
        assert(self.files@.take(self.files@.len() as int) =~= self.files@);
        let ghost d = distinct_versions(self.files@, project@);
        assert forall|k: int| 0 <= k < out@.len() implies #[trigger] out@[k]@ == d[k].raw by {
            assert(chosen@[k] < i);
        }
        assert(out@.map_values(|s: String| s@) =~= distinct_versions(self.files@, project@).map_values(
            |v: VersionView| v.raw,
        ));
        out
    }
}

/// The answer to a project page request.
pub fn project_response(name: String, files: Vec<ProjectFile>, versions: Vec<String>) -> (r:
    ProjectResponse)
    ensures
        r.meta.api_version@ == api_version(),
        r.project_status is None,
        r.files == files,
        r.name == name,
        r.versions == Some(versions),
{
    ProjectResponse {
        meta: ProjectMetadata { api_version: string_from_lit(&['1', '.', '4']) },
        project_status: None,
        files,
        name,
        versions: Some(versions),
    }
}

impl Packages {
    /// The first file named `filename`, which the repository serves.
    pub fn package_file(&self, filename: &str) -> (r: Option<usize>)
        ensures
            match r {
                Some(i) => i < self.files@.len() && self.files@[i as int].filename@ == filename@
                    && forall|j: int| 0 <= j < i ==> self.files@[j].filename@ != filename@,
                None => forall|j: int|
                    0 <= j < self.files@.len() ==> self.files@[j].filename@ != filename@,
            },
    {
        let mut i: usize = 0;
        while i < self.files.len()
            invariant
                i <= self.files@.len(),
                forall|j: int| 0 <= j < i ==> self.files@[j].filename@ != filename@,
            decreases self.files.len() - i,
        {
            if str_eq(self.files[i].filename.as_str(), filename) {
                return Some(i);
            }
            i = i + 1;
        }
        None
    }
}

} // verus!

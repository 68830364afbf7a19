//! The files of a package tarball, and those of them that may hold the
//! package's `package.json`.

use crate::npmjs::package::{is_metadata, is_metadata_path};
use vstd::prelude::*;

verus! {

/// The entries of the gzip-compressed tar archive `gz` that `tar` reads
/// through a `flate2` decoder, in archive order, each as its path (as text)
/// and its content (`None` when reading the content fails), up to the first
/// entry or path that cannot be read; and whether the reading came to the
/// end of the archive without such an error.
pub uninterp spec fn gzip_tar_files(gz: Seq<u8>) -> (Seq<(Seq<char>, Option<Seq<u8>>)>, bool);

pub open spec fn content_view(c: Option<Vec<u8>>) -> Option<Seq<u8>> {
    match c {
        Some(v) => Some(v@),
        None => None,
    }
}

/// The entries `files` as plain values.
pub open spec fn files_view(files: Seq<(String, Option<Vec<u8>>)>) -> Seq<(Seq<char>, Option<Seq<u8>>)> {
    files.map_values(|f: (String, Option<Vec<u8>>)| (f.0@, content_view(f.1)))
}

/// Calls `tar::Archive::entries` over `flate2::read::GzDecoder` on `gz` and
/// reads each entry's path and content, stopping at the first entry or path
/// that cannot be read: the entries read, and whether no such error came,
/// as named by `gzip_tar_files`.
#[verifier::external_body]
fn unpack_tarball(gz: &[u8]) -> (r: (Vec<(String, Option<Vec<u8>>)>, bool))
    ensures
        gzip_tar_files(gz@) == (files_view(r.0@), r.1),
{
    let mut files = Vec::new();
    let mut archive = tar::Archive::new(flate2::read::GzDecoder::new(gz));
    let entries = match archive.entries() { Ok(es) => es, Err(_) => return (files, false) };
    for entry in entries {
        let mut e = match entry { Ok(e) => e, Err(_) => return (files, false) };
        let path = match e.path() { Ok(p) => p.to_string_lossy().into_owned(), Err(_) => return (files, false) };
        let mut data = Vec::new();
        let content = std::io::Read::read_to_end(&mut e, &mut data).ok().map(|_| data);
        files.push((path, content));
    }
    (files, true)
}

/// The contents, in order, of the entries of `files` whose path names a
/// `package.json` and whose content could be read.
pub open spec fn metadata_files(files: Seq<(Seq<char>, Option<Seq<u8>>)>) -> Seq<Seq<u8>>
    decreases files.len(),
{
    if files.len() == 0 {
        Seq::<Seq<u8>>::empty()
    } else if is_metadata_path(files.last().0) && files.last().1 is Some {
        metadata_files(files.drop_last()).push(files.last().1->0)
    } else {
        metadata_files(files.drop_last())
    }
}

pub open spec fn bytes_view(v: Seq<Vec<u8>>) -> Seq<Seq<u8>> {
    v.map_values(|b: Vec<u8>| b@)
}

/// The contents, in archive order, of the entries of the tarball `gz` that
/// are a `package.json` and could be read, among the entries read before
/// the first entry or path that cannot be; and whether the archive was read
/// to its end without such an error. The package's metadata is the first of
/// them that reads as one.
pub fn metadata_candidates(gz: &[u8]) -> (r: (Vec<Vec<u8>>, bool))
    ensures
        bytes_view(r.0@) == metadata_files(gzip_tar_files(gz@).0),
        r.1 == gzip_tar_files(gz@).1,
{
    let (files, complete) = unpack_tarball(gz);
    let ghost all = files_view(files@);
    let mut files = files;
    let mut out: Vec<Vec<u8>> = Vec::new();
    let ghost mut k: int = 0;
    while files.len() > 0
        invariant
            0 <= k <= all.len(),
            files_view(files@) == all.skip(k),
            bytes_view(out@) == metadata_files(all.take(k)),
        decreases files.len(),
    {
        let ghost before = files@;
        let file = files.remove(0);
        proof {
            assert(file == before[0]);
            assert(files_view(before)[0] == (before[0].0@, content_view(before[0].1)));
            assert(files_view(before).len() == before.len());
            assert(k < all.len());
            assert(all.skip(k)[0] == all[k]);
            assert(files@ =~= before.drop_first());
            assert(files_view(files@) =~= all.skip(k + 1)) by {
                assert(files_view(files@).len() == all.skip(k + 1).len());
                assert forall|j: int| 0 <= j < files@.len() implies files_view(files@)[j]
                    == all.skip(k + 1)[j] by {
                    assert(files@[j] == before[j + 1]);
                    assert(files_view(before)[j + 1] == all.skip(k)[j + 1]);
                    assert(all.skip(k)[j + 1] == all.skip(k + 1)[j]);
                }
            }
        }
        let (path, content) = file;
        if is_metadata(path.as_str()) {
            if let Some(data) = content {
                out.push(data);
            }
        }
        proof {
            assert(all.take(k + 1).drop_last() =~= all.take(k));
            k = k + 1;
        }
    }
    assert(all.take(all.len() as int) =~= all);
    (out, complete)
}

} // verus!

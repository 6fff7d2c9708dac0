//! The two shapes a repository answers in, and the one entry shape that
//! both are brought to before ordering and rendering.

use vstd::prelude::*;
use crate::time::Timestamp;
use crate::version::VersionId;

verus! {

/// One object of the repository, as the enumeration of all objects gives it.
#[derive(Debug)]
pub struct ObjectSummary {
    pub identifier: String,
    pub head_version: VersionId,
    pub created: Timestamp,
    pub root_path: String,
}

/// One file of an object version.
#[derive(Debug)]
pub struct FileDetails {
    pub last_update_version: VersionId,
    pub last_update_created: Timestamp,
    pub storage_path: String,
    pub digest: String,
}

/// A logical path and the file found under it.
#[derive(Debug)]
pub struct FileEntry {
    pub path: String,
    pub details: FileDetails,
}

/// The state of one version of one object. `state` maps each logical path
/// to its file, in the order in which the repository handed the paths out.
#[derive(Debug)]
pub struct ObjectVersionView {
    pub id: String,
    pub version: VersionId,
    pub created: Timestamp,
    pub root: String,
    pub digest_algorithm: String,
    pub state: Vec<FileEntry>,
}

impl ObjectVersionView {
    /// No logical path occurs twice in `state`.
    pub open spec fn wf(&self) -> bool {
        forall|i: int, j: int|
            0 <= i < j < self.state@.len() ==> #[trigger] self.state@[i].path@
                != #[trigger] self.state@[j].path@
    }

    /// Whether `state` has `path` at index `i`.
    pub open spec fn has_at(&self, path: Seq<char>, i: int) -> bool {
        0 <= i < self.state@.len() && self.state@[i].path@ == path
    }

    /// Whether `state` has a file under `path`.
    pub open spec fn holds(&self, path: Seq<char>) -> bool {
        exists|i: int| #[trigger] self.has_at(path, i)
    }

    /// An object version without files.
    pub fn new(
        id: String,
        version: VersionId,
        created: Timestamp,
        root: String,
        digest_algorithm: String,
    ) -> (r: Self)
        ensures
            r.wf(),
            r.state@.len() == 0,
            r.id == id,
            r.version == version,
            r.created == created,
            r.root == root,
            r.digest_algorithm == digest_algorithm,
    {
        ObjectVersionView { id, version, created, root, digest_algorithm, state: Vec::new() }
    }

    /// Puts a file under `path`. A path that is new goes to the end of
    /// `state`; one that is there keeps its place, gets the new file, and
    /// the file it had is handed back.
    pub fn insert(&mut self, path: String, details: FileDetails) -> (replaced: Option<FileDetails>)
        requires
            old(self).wf(),
        ensures
            final(self).wf(),
            final(self).id == old(self).id,
            final(self).version == old(self).version,
            final(self).created == old(self).created,
            final(self).root == old(self).root,
            final(self).digest_algorithm == old(self).digest_algorithm,
            replaced is Some <==> old(self).holds(path@),
            !old(self).holds(path@) ==> final(self).state@ == old(self).state@.push(
                FileEntry { path, details },
            ),
            forall|i: int| #[trigger]
                old(self).has_at(path@, i) ==> replaced == Some(old(self).state@[i].details)
                    && final(self).state@ == old(self).state@.update(
                    i,
                    FileEntry { path, details },
                ),
    {
        let mut i: usize = 0;
        while i < self.state.len()
            invariant
                i <= self.state.len(),
                *self == *old(self),
                old(self).wf(),
                forall|k: int| 0 <= k < i ==> !#[trigger] old(self).has_at(path@, k),
            decreases self.state.len() - i,
        {
            if self.state[i].path == path {
                let previous = self.state.remove(i);
                self.state.insert(i, FileEntry { path, details });
                proof {
                    assert(old(self).has_at(path@, i as int));
                    assert(self.state@ =~= old(self).state@.update(
                        i as int,
                        FileEntry { path, details },
                    ));
                    assert forall|k: int| #[trigger] old(self).has_at(path@, k) implies k == i by {
                        if k < i {
                            assert(old(self).state@[k].path@ != old(self).state@[i as int].path@);
                        } else if k > i {
                            assert(old(self).state@[i as int].path@ != old(self).state@[k].path@);
                        }
                    }
                    assert forall|a: int, b: int| 0 <= a < b < self.state@.len() implies #[trigger]
                        self.state@[a].path@ != #[trigger] self.state@[b].path@ by {
                        assert(old(self).state@[a].path@ != old(self).state@[b].path@);
                    }
                }
                return Some(previous.details);
            }
            i += 1;
        }
        proof {
            assert(!old(self).holds(path@)) by {
                if old(self).holds(path@) {
                    let k = choose|k: int| #[trigger] old(self).has_at(path@, k);
                    assert(!old(self).has_at(path@, k));
                }
            }
        }
        self.state.push(FileEntry { path, details });
        proof {
            assert forall|a: int, b: int| 0 <= a < b < self.state@.len() implies #[trigger]
                self.state@[a].path@ != #[trigger] self.state@[b].path@ by {
                if b < old(self).state@.len() {
                    assert(old(self).state@[a].path@ != old(self).state@[b].path@);
                } else {
                    assert(!old(self).has_at(path@, a));
                }
            }
        }
        None
    }
}

/// The entry at index `k`.
pub open spec fn nth<'a>(entries: Seq<Listing<'a>>, k: usize) -> Listing<'a> {
    entries[k as int]
}

/// The entry that stands at position `i` of the order `p`.
pub open spec fn pick<'a>(entries: Seq<Listing<'a>>, p: Seq<usize>, i: int) -> Listing<'a> {
    entries[p[i] as int]
}

/// One line of a listing before it is rendered.
#[derive(Clone, Copy, Debug)]
pub struct Listing<'a> {
    pub version: VersionId,
    pub updated: Timestamp,
    pub name: &'a String,
    pub storage_path: &'a String,
    pub digest_algorithm: Option<&'a String>,
    pub digest: Option<&'a String>,
}

impl<'a> Listing<'a> {
    /// The entry that a file record under `path` becomes.
    pub open spec fn of_file(path: &'a String, details: &'a FileDetails, algorithm: &'a String) -> Listing<'a> {
        Listing {
            version: details.last_update_version,
            updated: details.last_update_created,
            name: path,
            storage_path: &details.storage_path,
            digest_algorithm: Some(algorithm),
            digest: Some(&details.digest),
        }
    }

    /// The entry that an object summary becomes.
    pub open spec fn of_object(object: &'a ObjectSummary) -> Listing<'a> {
        Listing {
            version: object.head_version,
            updated: object.created,
            name: &object.identifier,
            storage_path: &object.root_path,
            digest_algorithm: None,
            digest: None,
        }
    }

    /// Whether the entry has a digest to show: both the digest and the name
    /// of its algorithm.
    pub open spec fn carries_digest(&self) -> bool {
        self.digest is Some && self.digest_algorithm is Some
    }

    /// The version number as an integer key.
    pub open spec fn version_key(&self) -> int {
        self.version.value() as int
    }

    /// The entry of the file at `path`: the file's last update gives version
    /// and time, and the digest comes with the algorithm of its object.
    pub fn new(path: &'a String, details: &'a FileDetails, digest_algorithm: &'a String) -> (r: Self)
        ensures
            r == Self::of_file(path, details, digest_algorithm),
            r.name@ == path@,
            r.version == details.last_update_version,
            r.updated == details.last_update_created,
            r.storage_path@ == details.storage_path@,
            r.digest is Some && r.digest->Some_0@ == details.digest@,
            r.digest_algorithm is Some && r.digest_algorithm->Some_0@ == digest_algorithm@,
    {
        Listing {
            version: details.last_update_version,
            updated: details.last_update_created,
            name: path,
            storage_path: &details.storage_path,
            digest_algorithm: Some(digest_algorithm),
            digest: Some(&details.digest),
        }
    }

    /// The update time as `YYYY-MM-DD HH:MM:SS` in its display zone.
    pub fn updated_str(&self) -> (r: String)
        ensures
            r@ == self.updated.display_text(),
    {
        self.updated.updated_str()
    }

    /// The entry of an object: its identifier is the name, its head version
    /// and creation time stand for version and update, and it has no digest.
    pub fn from_object(object: &'a ObjectSummary) -> (r: Self)
        ensures
            r == Self::of_object(object),
            r.name@ == object.identifier@,
            r.version == object.head_version,
            r.updated == object.created,
            r.storage_path@ == object.root_path@,
            r.digest is None,
            r.digest_algorithm is None,
            !r.carries_digest(),
    {
        Listing {
            version: object.head_version,
            updated: object.created,
            name: &object.identifier,
            storage_path: &object.root_path,
            digest_algorithm: None,
            digest: None,
        }
    }
}

} // verus!

//! Where artifacts are kept, and how much the database holds.

use super::records::StorageError;
use crate::text::{cat2, cat4, chars_of, owned, text_of, views};
use vstd::prelude::*;

verus! {

/// Where artifacts are kept.
#[derive(Debug)]
pub struct ArtifactStorage {
    /// The directory of those that are kept as files.
    pub artifact_dir: String,
    /// How many bytes may be kept in the database.
    pub inline_threshold: usize,
}

impl Default for ArtifactStorage {
    fn default() -> (r: Self)
        ensures
            r.artifact_dir@ == "artifacts"@,
            r.inline_threshold == 1_048_576,
    {
        ArtifactStorage { artifact_dir: owned("artifacts"), inline_threshold: 1_048_576 }
    }
}

/// How much the database holds.
#[derive(Debug, Clone, Copy, PartialEq, Eq)]
pub struct DatabaseStats {
    pub flow_runs: u64,
    pub node_runs: u64,
    pub artifacts: u64,
    pub tasks: u64,
    pub shared_state_entries: u64,
}

/// How many bytes a character takes.
pub open spec fn char_bytes(c: char) -> nat {
    if (c as u32) < 0x80 {
        1
    } else if (c as u32) < 0x800 {
        2
    } else if (c as u32) < 0x1_0000 {
        3
    } else {
        4
    }
}

/// Whether an id that takes two bytes or more can be parted after two.
pub open spec fn parts_at_two(id: Seq<char>) -> bool {
    id.len() > 0 ==> char_bytes(id[0]) <= 2 && (char_bytes(id[0]) == 1 && id.len() > 1 ==> char_bytes(id[1]) == 1)
}

/// The first two bytes of an id, where it has so many.
pub open spec fn shard(id: Seq<char>) -> Option<Seq<char>> {
    if id.len() > 0 && char_bytes(id[0]) == 2 {
        Some(id.take(1))
    } else if id.len() > 1 {
        Some(id.take(2))
    } else {
        None
    }
}

/// The steps on the way to the file of an artifact: by its kind and the first two bytes of its
/// id.
pub open spec fn artifact_steps(id: Seq<char>, kind: Seq<char>) -> Seq<Seq<char>> {
    match shard(id) {
        Some(s) => seq![kind, s, id + ".dat"@],
        None => seq![kind, id + ".dat"@],
    }
}

impl ArtifactStorage {
    /// Whether so many bytes are kept in the database.
    pub fn keeps_inline(&self, len: usize) -> (r: bool)
        ensures
            r == (len <= self.inline_threshold),
    {
        len <= self.inline_threshold
    }

    /// The steps from the directory to the file of an artifact.
    pub fn generate_artifact_file_path(&self, artifact_id: &str, artifact_type: &str) -> (r: Vec<String>)
        requires
            parts_at_two(artifact_id@),
        ensures
            views(r@) == artifact_steps(artifact_id@, artifact_type@),
    {
        let cs = chars_of(artifact_id);
        let n: usize = cs.len();
        let mut r: Vec<String> = Vec::new();
        r.push(owned(artifact_type));
        if n > 0 && cs[0] as u32 >= 0x80 {
            let s = text_of(&cs, 0, 1);
            proof {
                assert(s@ =~= artifact_id@.take(1));
            }
            r.push(s);
        } else if n > 1 {
            let s = text_of(&cs, 0, 2);
            proof {
                assert(s@ =~= artifact_id@.take(2));
            }
            r.push(s);
        }
        r.push(cat2(artifact_id, ".dat"));
        proof {
            assert(views(r@) =~= artifact_steps(artifact_id@, artifact_type@));
        }
        r
    }
}

/// Where the bytes of an artifact are.
#[derive(Debug)]
pub enum ArtifactSource {
    /// In this JSON text.
    Inline(String),
    /// In this file.
    File(String),
}

/// What the database keeps of the bytes of an artifact.
#[derive(Debug)]
pub struct ArtifactRow {
    pub data: Option<String>,
    pub file_path: Option<String>,
}

/// Where the bytes of an artifact are: in the database before a file.
pub fn artifact_source(artifact_id: &str, row: Option<ArtifactRow>) -> (r: Result<ArtifactSource, StorageError>)
    ensures
        match row {
            Some(w) => match (w.data, w.file_path) {
                (Some(d), _) => r == Ok::<ArtifactSource, StorageError>(ArtifactSource::Inline(d)),
                (None, Some(f)) => r == Ok::<ArtifactSource, StorageError>(ArtifactSource::File(f)),
                (None, None) => r matches Err(StorageError::ArtifactNotFound(s)) && s@ == "No data found for artifact "@
                    + artifact_id@,
            },
            None => r matches Err(StorageError::ArtifactNotFound(s)) && s@ == artifact_id@,
        },
{
    match row {
        Some(w) => match w.data {
            Some(d) => Ok(ArtifactSource::Inline(d)),
            None => match w.file_path {
                Some(f) => Ok(ArtifactSource::File(f)),
                None => Err(StorageError::ArtifactNotFound(cat2("No data found for artifact ", artifact_id))),
            },
        },
        None => Err(StorageError::ArtifactNotFound(owned(artifact_id))),
    }
}

/// What is said of a file that could not be opened.
pub fn open_failure(file_path: &str, reason: &str) -> (r: StorageError)
    ensures
        r matches StorageError::FileOperation(s) && s@ == "Failed to open artifact file "@ + file_path@ + ": "@ + reason@,
{
    StorageError::FileOperation(cat4("Failed to open artifact file ", file_path, ": ", reason))
}

/// The file of an artifact lies under its kind and, where its id has two bytes or more, under the
/// first two of them; it is named after the id.
pub proof fn artifact_lies_under_its_kind(s: &ArtifactStorage, id: &str, kind: &str, r: Vec<String>)
    requires
        call_ensures(ArtifactStorage::generate_artifact_file_path, (s, id, kind), r),
    ensures
        r@.len() >= 2 && r@[0]@ == kind@ && r@.last()@ == id@ + ".dat"@,
        id@.len() >= 2 && (id@[0] as u32) < 0x80 && (id@[1] as u32) < 0x80 ==> r@.len() == 3 && r@[1]@ == seq![id@[0], id@[1]],
        id@.len() >= 1 && 0x80 <= (id@[0] as u32) < 0x800 ==> r@.len() == 3 && r@[1]@ == seq![id@[0]],
        id@.len() == 0 ==> r@.len() == 2,
        id@.len() == 1 && (id@[0] as u32) < 0x80 ==> r@.len() == 2,
{
    assert(views(r@).len() == r@.len());
    assert(views(r@)[0] == r@[0]@);
    assert(views(r@).last() == r@.last()@);
    if r@.len() == 3 {
        assert(views(r@)[1] == r@[1]@);
    }
    if id@.len() >= 2 {
        assert(id@.take(2) =~= seq![id@[0], id@[1]]);
    }
    if id@.len() >= 1 {
        assert(id@.take(1) =~= seq![id@[0]]);
    }
}

/// An artifact is read from its row where the row holds it, else from the file that the row
/// names; one without either is not found.
pub proof fn artifacts_are_read_where_they_lie(id: &str, row: Option<ArtifactRow>, r: Result<ArtifactSource, StorageError>)
    requires
        call_ensures(artifact_source, (id, row), r),
    ensures
        row is None ==> (r matches Err(StorageError::ArtifactNotFound(s)) && s@ == id@),
        row matches Some(w) ==> {
            &&& w.data is Some ==> (r matches Ok(ArtifactSource::Inline(d)) && d == w.data->0)
            &&& w.data is None && w.file_path is Some ==> (r matches Ok(ArtifactSource::File(f)) && f == w.file_path->0)
            &&& w.data is None && w.file_path is None ==> (r matches Err(StorageError::ArtifactNotFound(s)) && s@
                == "No data found for artifact "@ + id@)
        },
{
}

/// A file that cannot be opened is named, with the reason.
pub proof fn unopened_files_are_named(path: &str, reason: &str, r: StorageError)
    requires
        call_ensures(open_failure, (path, reason), r),
    ensures
        r matches StorageError::FileOperation(s) && s@ == "Failed to open artifact file "@ + path@ + ": "@ + reason@,
{
}

} // verus!

//! What a commit changed: the files, with lines added and removed.
//!
//! The repository backend reports one record per changed file and one per
//! changed line; `CommitDiffInfo::from_records` sums them up.

use vstd::prelude::*;

verus! {

/// At most this many files are listed.
pub const MAX_FILES_TO_DISPLAY: usize = 50;

#[derive(Debug, Clone, Copy, PartialEq, Eq, Structural)]
pub enum FileChangeKind {
    Added,
    Modified,
    Deleted,
    Renamed,
    Copied,
}

/// One listed file.
#[derive(Debug)]
pub struct FileDiffInfo {
    pub path: String,
    pub kind: FileChangeKind,
    /// Lines added.
    pub insertions: usize,
    /// Lines removed.
    pub deletions: usize,
}

/// The changes of one commit against its first parent.
#[derive(Debug)]
pub struct CommitDiffInfo {
    /// Listed files (at most `MAX_FILES_TO_DISPLAY`).
    pub files: Vec<FileDiffInfo>,
    pub total_insertions: usize,
    pub total_deletions: usize,
    /// Number of changed files, listed or not.
    pub total_files: usize,
    /// Whether some files are not listed.
    pub truncated: bool,
}

impl Default for CommitDiffInfo {
    fn default() -> (r: Self)
        ensures
            r.files@.len() == 0,
            r.total_insertions == 0,
            r.total_deletions == 0,
            r.total_files == 0,
            !r.truncated,
    {
        CommitDiffInfo { files: Vec::new(), total_insertions: 0, total_deletions: 0, total_files: 0, truncated: false }
    }
}

/// How the backend classifies a changed file.
#[derive(Debug, Clone, Copy, PartialEq, Eq, Structural)]
pub enum DeltaStatus {
    Added,
    Deleted,
    Modified,
    Renamed,
    Copied,
    /// Any other status (unmodified, ignored, untracked, ...).
    Other,
}

/// One changed file as the backend reports it.
#[derive(Debug)]
pub struct DeltaRecord {
    pub status: DeltaStatus,
    pub binary: bool,
    pub old_path: Option<String>,
    pub new_path: Option<String>,
}

/// One changed line as the backend reports it, with the file it is in.
#[derive(Debug)]
pub struct LineRecord {
    pub binary: bool,
    pub old_path: Option<String>,
    pub new_path: Option<String>,
    /// `'+'` for an added line, `'-'` for a removed one.
    pub origin: char,
}

pub open spec fn kind_of(s: DeltaStatus) -> Option<FileChangeKind> {
    match s {
        DeltaStatus::Added => Some(FileChangeKind::Added),
        DeltaStatus::Deleted => Some(FileChangeKind::Deleted),
        DeltaStatus::Modified => Some(FileChangeKind::Modified),
        DeltaStatus::Renamed => Some(FileChangeKind::Renamed),
        DeltaStatus::Copied => Some(FileChangeKind::Copied),
        DeltaStatus::Other => None,
    }
}

/// The path a listed file is shown under: the old one for a deletion.
pub open spec fn delta_path(d: DeltaRecord) -> Option<String> {
    if d.status == DeltaStatus::Deleted {
        d.old_path
    } else {
        d.new_path
    }
}

/// The files listed from the first `n` records: not binary, of a known
/// kind, and with a path.
pub open spec fn listed(deltas: Seq<DeltaRecord>, n: int) -> Seq<(Seq<char>, FileChangeKind)>
    decreases n,
{
    if n <= 0 {
        Seq::empty()
    } else {
        let d = deltas[n - 1];
        let prev = listed(deltas, n - 1);
        if !d.binary && kind_of(d.status) is Some && delta_path(d) is Some {
            prev.push((delta_path(d)->0@, kind_of(d.status)->0))
        } else {
            prev
        }
    }
}

pub open spec fn listed_files(deltas: Seq<DeltaRecord>) -> Seq<(Seq<char>, FileChangeKind)> {
    listed(
        deltas,
        if deltas.len() < MAX_FILES_TO_DISPLAY {
            deltas.len() as int
        } else {
            MAX_FILES_TO_DISPLAY as int
        },
    )
}

/// The path a line is counted under: its new path, else its old one.
pub open spec fn line_path(l: LineRecord) -> Option<String> {
    match l.new_path {
        Some(p) => Some(p),
        None => l.old_path,
    }
}

/// The first listed file with path `p`.
pub open spec fn file_index(files: Seq<(Seq<char>, FileChangeKind)>, p: Seq<char>, n: int) -> Option<int>
    decreases n,
{
    if n <= 0 {
        None
    } else {
        match file_index(files, p, n - 1) {
            Some(k) => Some(k),
            None => if files[n - 1].0 == p {
                Some(n - 1)
            } else {
                None
            },
        }
    }
}

/// The listed file that line `l` counts for, if any.
pub open spec fn line_file(files: Seq<(Seq<char>, FileChangeKind)>, l: LineRecord) -> Option<int> {
    if l.binary {
        None
    } else {
        match line_path(l) {
            Some(p) => file_index(files, p@, files.len() as int),
            None => None,
        }
    }
}

/// How many of the first `n` lines with `origin` count for file `k`.
pub open spec fn file_count(files: Seq<(Seq<char>, FileChangeKind)>, lines: Seq<LineRecord>, k: int, origin: char, n: int) -> int
    decreases n,
{
    if n <= 0 {
        0
    } else {
        file_count(files, lines, k, origin, n - 1) + if line_file(files, lines[n - 1]) == Some(k) && lines[n - 1].origin
            == origin {
            1int
        } else {
            0
        }
    }
}

/// How many of the first `n` lines with `origin` count for some listed file.
pub open spec fn total_count(files: Seq<(Seq<char>, FileChangeKind)>, lines: Seq<LineRecord>, origin: char, n: int) -> int
    decreases n,
{
    if n <= 0 {
        0
    } else {
        total_count(files, lines, origin, n - 1) + if line_file(files, lines[n - 1]) is Some && lines[n - 1].origin == origin {
            1int
        } else {
            0
        }
    }
}

proof fn lemma_file_index(files: Seq<(Seq<char>, FileChangeKind)>, p: Seq<char>, n: int)
    requires
        0 <= n <= files.len(),
    ensures
        match file_index(files, p, n) {
            Some(k) => 0 <= k < n,
            None => forall|j: int| 0 <= j < n ==> files[j].0 != p,
        },
    decreases n,
{
    if n > 0 {
        lemma_file_index(files, p, n - 1);
    }
}

proof fn lemma_file_index_kept(files: Seq<(Seq<char>, FileChangeKind)>, p: Seq<char>, n: int, m: int)
    requires
        0 <= n <= m <= files.len(),
        file_index(files, p, n) is Some,
    ensures
        file_index(files, p, m) == file_index(files, p, n),
    decreases m - n,
{
    if n < m {
        lemma_file_index_kept(files, p, n, m - 1);
    }
}

proof fn lemma_counts_bounded(files: Seq<(Seq<char>, FileChangeKind)>, lines: Seq<LineRecord>, k: int, origin: char, n: int)
    requires
        0 <= n <= lines.len(),
    ensures
        0 <= file_count(files, lines, k, origin, n) <= n,
        0 <= total_count(files, lines, origin, n) <= n,
    decreases n,
{
    if n > 0 {
        lemma_counts_bounded(files, lines, k, origin, n - 1);
    }
}

/// The first listed file whose path is `p`.
fn find_file(paths: &Vec<String>, p: &String, Ghost(files): Ghost<Seq<(Seq<char>, FileChangeKind)>>) -> (r: Option<usize>)
    requires
        paths@.len() == files.len(),
        forall|j: int| 0 <= j < files.len() ==> (#[trigger] paths@[j])@ == files[j].0,
    ensures
        match r {
            Some(k) => file_index(files, p@, files.len() as int) == Some(k as int),
            None => file_index(files, p@, files.len() as int) is None,
        },
{
    let mut j: usize = 0;
    while j < paths.len()
        invariant
            j <= paths@.len(),
            paths@.len() == files.len(),
            forall|i: int| 0 <= i < files.len() ==> (#[trigger] paths@[i])@ == files[i].0,
            file_index(files, p@, j as int) is None,
        decreases paths.len() - j,
    {
        if paths[j] == *p {
            proof {
                lemma_file_index_kept(files, p@, j + 1, files.len() as int);
            }
            return Some(j);
        }
        j += 1;
    }
    None
}

impl CommitDiffInfo {
    /// Sums up the changes of a commit from the backend's records: the first
    /// `MAX_FILES_TO_DISPLAY` file records are listed (binary files, files
    /// of another kind and files without a path left out), and each
    /// non-binary line counts for the first listed file with its path.
    pub fn from_records(deltas: &[DeltaRecord], lines: &[LineRecord]) -> (r: CommitDiffInfo)
        ensures
            r.total_files == deltas@.len(),
            r.truncated == (deltas@.len() > MAX_FILES_TO_DISPLAY),
            r.files@.len() == listed_files(deltas@).len(),
            forall|k: int|
                0 <= k < r.files@.len() ==> {
                    &&& (#[trigger] r.files@[k]).path@ == listed_files(deltas@)[k].0
                    &&& r.files@[k].kind == listed_files(deltas@)[k].1
                    &&& r.files@[k].insertions == file_count(listed_files(deltas@), lines@, k, '+', lines@.len() as int)
                    &&& r.files@[k].deletions == file_count(listed_files(deltas@), lines@, k, '-', lines@.len() as int)
                },
            r.total_insertions == total_count(listed_files(deltas@), lines@, '+', lines@.len() as int),
            r.total_deletions == total_count(listed_files(deltas@), lines@, '-', lines@.len() as int),
    {
        let total_files = deltas.len();
        let truncated = total_files > MAX_FILES_TO_DISPLAY;
        let limit = if total_files < MAX_FILES_TO_DISPLAY {
            total_files
        } else {
            MAX_FILES_TO_DISPLAY
        };
        let ghost files = listed_files(deltas@);

        // The listed files.
        let mut paths: Vec<String> = Vec::new();
        let mut kinds: Vec<FileChangeKind> = Vec::new();
        let mut i: usize = 0;
        while i < limit
            invariant
                limit <= deltas@.len(),
                i <= limit,
                paths@.len() == kinds@.len(),
                paths@.len() == listed(deltas@, i as int).len(),
                forall|j: int| 0 <= j < paths@.len() ==> (#[trigger] paths@[j])@ == listed(deltas@, i as int)[j].0,
                forall|j: int| 0 <= j < paths@.len() ==> #[trigger] kinds@[j] == listed(deltas@, i as int)[j].1,
            decreases limit - i,
        {
            let delta = &deltas[i];
            let ghost prev = listed(deltas@, i as int);
            let ghost d = deltas@[i as int];
            assert(listed(deltas@, i + 1) == if !d.binary && kind_of(d.status) is Some && delta_path(d) is Some {
                prev.push((delta_path(d)->0@, kind_of(d.status)->0))
            } else {
                prev
            });
            if !delta.binary {
                let kind = match delta.status {
                    DeltaStatus::Added => Some(FileChangeKind::Added),
                    DeltaStatus::Deleted => Some(FileChangeKind::Deleted),
                    DeltaStatus::Modified => Some(FileChangeKind::Modified),
                    DeltaStatus::Renamed => Some(FileChangeKind::Renamed),
                    DeltaStatus::Copied => Some(FileChangeKind::Copied),
                    DeltaStatus::Other => None,
                };
                assert(kind == kind_of(d.status));
                if let Some(kind) = kind {
                    let path = match delta.status {
                        DeltaStatus::Deleted => &delta.old_path,
                        _ => &delta.new_path,
                    };
                    assert(*path == delta_path(d));
                    if let Some(p) = path {
                        let ghost old_paths = paths@;
                        paths.push(p.clone());
                        kinds.push(kind);
                        assert forall|j: int| 0 <= j < paths@.len() implies (#[trigger] paths@[j])@ == listed(
                            deltas@,
                            i + 1,
                        )[j].0 by {
                            if j < old_paths.len() {
                                assert(paths@[j] == old_paths[j]);
                            }
                        }
                    }
                }
            }
            i += 1;
        }

        // Lines added and removed, per listed file.
        let mut insertions: Vec<usize> = Vec::new();
        let mut deletions: Vec<usize> = Vec::new();
        let mut k: usize = 0;
        while k < paths.len()
            invariant
                k <= paths@.len(),
                insertions@.len() == k,
                deletions@.len() == k,
                forall|j: int| 0 <= j < k ==> insertions@[j] == 0 && deletions@[j] == 0,
            decreases paths.len() - k,
        {
            insertions.push(0);
            deletions.push(0);
            k += 1;
        }
        let mut total_insertions: usize = 0;
        let mut total_deletions: usize = 0;
        let mut i: usize = 0;
        while i < lines.len()
            invariant
                i <= lines@.len(),
                paths@.len() == files.len(),
                kinds@.len() == files.len(),
                forall|j: int| 0 <= j < files.len() ==> (#[trigger] paths@[j])@ == files[j].0,
                forall|j: int| 0 <= j < files.len() ==> #[trigger] kinds@[j] == files[j].1,
                insertions@.len() == files.len(),
                deletions@.len() == files.len(),
                forall|j: int| 0 <= j < files.len() ==> #[trigger] insertions@[j] == file_count(files, lines@, j, '+', i as int),
                forall|j: int| 0 <= j < files.len() ==> #[trigger] deletions@[j] == file_count(files, lines@, j, '-', i as int),
                total_insertions == total_count(files, lines@, '+', i as int),
                total_deletions == total_count(files, lines@, '-', i as int),
            decreases lines.len() - i,
        {
            proof {
                assert forall|j: int| 0 <= j < files.len() implies file_count(files, lines@, j, '+', i as int) <= i
                    && file_count(files, lines@, j, '-', i as int) <= i by {
                    lemma_counts_bounded(files, lines@, j, '+', i as int);
                    lemma_counts_bounded(files, lines@, j, '-', i as int);
                }
                lemma_counts_bounded(files, lines@, 0, '+', i as int);
                lemma_counts_bounded(files, lines@, 0, '-', i as int);
            }
            let line = &lines[i];
            let ghost l = lines@[i as int];
            let ghost hit = line_file(files, l);
            assert forall|j: int| 0 <= j < files.len() implies #[trigger] file_count(files, lines@, j, '+', i + 1) == file_count(
                files,
                lines@,
                j,
                '+',
                i as int,
            ) + (if hit == Some(j) && l.origin == '+' {
                1int
            } else {
                0
            }) && file_count(files, lines@, j, '-', i + 1) == file_count(files, lines@, j, '-', i as int) + (if hit == Some(j)
                && l.origin == '-' {
                1int
            } else {
                0
            }) by {}
            assert(total_count(files, lines@, '+', i + 1) == total_count(files, lines@, '+', i as int) + (if hit is Some
                && l.origin == '+' {
                1int
            } else {
                0
            }));
            assert(total_count(files, lines@, '-', i + 1) == total_count(files, lines@, '-', i as int) + (if hit is Some
                && l.origin == '-' {
                1int
            } else {
                0
            }));
            let mut found: Option<usize> = None;
            if !line.binary {
                let path = match &line.new_path {
                    Some(p) => Some(p),
                    None => match &line.old_path {
                        Some(p) => Some(p),
                        None => None,
                    },
                };
                assert(match path {
                    Some(p) => line_path(l) == Some(*p),
                    None => line_path(l) is None,
                });
                if let Some(p) = path {
                    found = find_file(&paths, p, Ghost(files));
                    proof {
                        lemma_file_index(files, p@, files.len() as int);
                    }
                }
            }
            assert(match found {
                Some(k) => hit == Some(k as int) && k < files.len(),
                None => hit is None,
            });
            if let Some(k) = found {
                if line.origin == '+' {
                    insertions[k] = insertions[k] + 1;
                    total_insertions += 1;
                } else if line.origin == '-' {
                    deletions[k] = deletions[k] + 1;
                    total_deletions += 1;
                }
            }
            i += 1;
        }

        let mut result: Vec<FileDiffInfo> = Vec::new();
        let mut k: usize = 0;
        while k < paths.len()
            invariant
                k <= paths@.len(),
                paths@.len() == files.len(),
                kinds@.len() == files.len(),
                forall|j: int| 0 <= j < files.len() ==> (#[trigger] paths@[j])@ == files[j].0,
                forall|j: int| 0 <= j < files.len() ==> #[trigger] kinds@[j] == files[j].1,
                insertions@.len() == files.len(),
                deletions@.len() == files.len(),
                forall|j: int|
                    0 <= j < files.len() ==> #[trigger] insertions@[j] == file_count(files, lines@, j, '+', lines@.len() as int),
                forall|j: int|
                    0 <= j < files.len() ==> #[trigger] deletions@[j] == file_count(files, lines@, j, '-', lines@.len() as int),
                result@.len() == k,
                forall|j: int|
                    0 <= j < k ==> {
                        &&& (#[trigger] result@[j]).path@ == files[j].0
                        &&& result@[j].kind == files[j].1
                        &&& result@[j].insertions == file_count(files, lines@, j, '+', lines@.len() as int)
                        &&& result@[j].deletions == file_count(files, lines@, j, '-', lines@.len() as int)
                    },
            decreases paths.len() - k,
        {
            result.push(
                FileDiffInfo { path: paths[k].clone(), kind: kinds[k], insertions: insertions[k], deletions: deletions[k] },
            );
            k += 1;
        }
        CommitDiffInfo { files: result, total_insertions, total_deletions, total_files, truncated }
    }
}

} // verus!

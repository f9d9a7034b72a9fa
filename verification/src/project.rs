//! The project entity and the events that report on it.

use vstd::prelude::*;
use crate::order::{lemma_lex_transitive, lemma_lex_trichotomy, lex_lt, name_bytes, name_lt};

verus! {

/// The path of a project's directory: its identity for as long as it is known.
pub type ProjectKey = String;

/// A point in time, in nanoseconds since the Unix epoch (negative before it).
pub type Timestamp = i128;

/// One discovered project directory.
#[derive(Debug, Clone, PartialEq, Eq)]
pub struct Project {
    /// Last component of the path, for display.
    pub name: String,
    /// The directory's path, which is the project's key.
    pub path: ProjectKey,
    /// Text of the readme, if one was found at discovery.
    pub readme: Option<String>,
    /// Most recent modification seen so far.
    pub modified: Timestamp,
    /// Number of files counted so far.
    pub file_count: usize,
}

/// What the discovery and enrichment stages report.
#[derive(Debug, Clone, PartialEq, Eq)]
pub enum ProjectEvent {
    /// A newly discovered project with its provisional values.
    Add(Project),
    /// Refined modification time and file count for a known project.
    Update(ProjectKey, Timestamp, usize),
}

/// Why a path does not make a project.
#[derive(Debug, Clone, Copy, PartialEq, Eq)]
pub enum ProjectError {
    /// The path has no final component to name the project by.
    NoName,
}

/// The final component of a path as `std::path::Path::file_name` gives it,
/// or `None` where the path has none.
pub uninterp spec fn final_component(path: Seq<char>) -> Option<Seq<char>>;

/// The text of an optional string.
pub open spec fn text_of(s: Option<String>) -> Option<Seq<char>> {
    match s {
        Some(s) => Some(s@),
        None => None,
    }
}

/// Calls `std::path::Path::file_name` on the path. Trusted: the result is the
/// path's final component, a function of the path's text alone.
#[verifier::external_body]
fn file_name(path: &String) -> (r: Option<String>)
    ensures
        text_of(r) == final_component(path@),
{
    match std::path::Path::new(path).file_name() {
        Some(name) => Some(name.to_string_lossy().into_owned()),
        None => None,
    }
}

/// One entry met on a walk through a project.
#[derive(Debug, Clone, Copy, PartialEq, Eq)]
pub struct Walked {
    /// Whether the entry is a file, and not a directory or anything else.
    pub is_file: bool,
    /// When the entry was last modified.
    pub modified: Timestamp,
}

/// The modification times of the files among the entries, in walk order.
pub open spec fn file_times(entries: Seq<Walked>) -> Seq<Timestamp>
    decreases entries.len(),
{
    if entries.len() == 0 {
        Seq::empty()
    } else if entries.last().is_file {
        file_times(entries.drop_last()).push(entries.last().modified)
    } else {
        file_times(entries.drop_last())
    }
}

/// `latest` is the most recent of `floor` and `times`.
pub open spec fn is_latest(latest: Timestamp, floor: Timestamp, times: Seq<Timestamp>) -> bool {
    &&& latest >= floor
    &&& forall|i: int| 0 <= i < times.len() ==> latest >= times[i]
    &&& (latest == floor || times.contains(latest))
}

/// The most recent of `floor` and `times`.
pub open spec fn latest_of(floor: Timestamp, times: Seq<Timestamp>) -> Timestamp {
    choose|latest: Timestamp| is_latest(latest, floor, times)
}

/// Only one time is the most recent.
pub proof fn lemma_latest_is_unique(latest: Timestamp, floor: Timestamp, times: Seq<Timestamp>)
    requires
        is_latest(latest, floor, times),
    ensures
        latest_of(floor, times) == latest,
{
    let chosen = latest_of(floor, times);
    assert(is_latest(chosen, floor, times));
    if chosen != floor {
        let i = choose|i: int| 0 <= i < times.len() && times[i] == chosen;
        assert(latest >= times[i]);
    }
    if latest != floor {
        let i = choose|i: int| 0 <= i < times.len() && times[i] == latest;
        assert(chosen >= times[i]);
    }
}

/// Sums up a walk through a project: the most recent modification among the
/// directory's own (`floor`) and those of the files met, and how many files
/// were met. Entries that are not files count for neither.
pub fn get_file_summary(floor: Timestamp, entries: &Vec<Walked>) -> (r: (Timestamp, usize))
    ensures
        is_latest(r.0, floor, file_times(entries@)),
        r.0 == latest_of(floor, file_times(entries@)),
        r.1 == file_times(entries@).len(),
{
    let mut modified: Timestamp = floor;
    let mut file_count: usize = 0;
    let mut i: usize = 0;
    while i < entries.len()
        invariant
            i <= entries@.len(),
            file_count <= i,
            file_count == file_times(entries@.take(i as int)).len(),
            is_latest(modified, floor, file_times(entries@.take(i as int))),
        decreases entries@.len() - i,
    {
        let ghost seen = file_times(entries@.take(i as int));
        let ghost before = modified;
        proof {
            assert(entries@.take(i + 1).drop_last() =~= entries@.take(i as int));
        }
        if entries[i].is_file {
            if entries[i].modified > modified {
                modified = entries[i].modified;
            }
            file_count = file_count + 1;
            proof {
                let more = file_times(entries@.take(i + 1));
                assert(more == seen.push(entries@[i as int].modified));
                assert(more[seen.len() as int] == entries@[i as int].modified);
                assert forall|k: int| 0 <= k < more.len() implies modified >= more[k] by {
                    if k < seen.len() {
                        assert(seen[k] == more[k]);
                    }
                }
                if before != floor && modified == before {
                    let k = choose|k: int| 0 <= k < seen.len() && seen[k] == before;
                    assert(more[k] == before);
                }
            }
        }
        i = i + 1;
    }
    proof {
        assert(entries@.take(i as int) =~= entries@);
        lemma_latest_is_unique(modified, floor, file_times(entries@));
    }
    (modified, file_count)
}

impl Project {
    /// The project at `path` as discovery captures it: named by `name`, with
    /// no files counted yet. Without a name there is no project.
    pub fn named(
        name: Option<String>,
        path: ProjectKey,
        readme: Option<String>,
        modified: Timestamp,
    ) -> (r: Result<Project, ProjectError>)
        ensures
            match name {
                Some(name) => r == Ok::<Project, ProjectError>(
                    Project { name, path, readme, modified, file_count: 0 },
                ),
                None => r == Err::<Project, ProjectError>(ProjectError::NoName),
            },
    {
        match name {
            Some(name) => Ok(Project { name, path, readme, modified, file_count: 0 }),
            None => Err(ProjectError::NoName),
        }
    }

    /// The project at `path` as discovery captures it: named by the path's
    /// final component, with the readme and the directory's own modification
    /// time as they were read, and no files counted yet.
    pub fn from_path(path: ProjectKey, readme: Option<String>, modified: Timestamp) -> (r: Result<
        Project,
        ProjectError,
    >)
        ensures
            match final_component(path@) {
                Some(name) => r matches Ok(p) && p.name@ == name && p.path == path && p.readme
                    == readme && p.modified == modified && p.file_count == 0,
                None => r == Err::<Project, ProjectError>(ProjectError::NoName),
            },
    {
        let name = file_name(&path);
        Project::named(name, path, readme, modified)
    }

    /// The key under which the project is stored.
    pub fn key(&self) -> (k: &ProjectKey)
        ensures
            k == self.path,
    {
        &self.path
    }

    /// The project with its activity values replaced.
    pub open spec fn refined(self, modified: Timestamp, file_count: usize) -> Project {
        Project { modified, file_count, ..self }
    }

    /// `self` is listed strictly before `other`: it was modified later, or at
    /// the same time and its name is the smaller one.
    pub open spec fn outranks(self, other: Project) -> bool {
        self.modified > other.modified || (self.modified == other.modified && lex_lt(
            name_bytes(self.name@),
            name_bytes(other.name@),
        ))
    }

    /// Neither project outranks the other.
    pub open spec fn ties_with(self, other: Project) -> bool {
        self.modified == other.modified && name_bytes(self.name@) == name_bytes(other.name@)
    }

    /// Of two projects exactly one outranks the other, or they tie.
    pub proof fn lemma_rank_trichotomy(self, other: Project)
        ensures
            self.outranks(other) || other.outranks(self) || self.ties_with(other),
            !(self.outranks(other) && other.outranks(self)),
            self.ties_with(other) ==> !self.outranks(other) && !other.outranks(self),
    {
        lemma_lex_trichotomy(name_bytes(self.name@), name_bytes(other.name@));
    }

    /// Outranking carries over a third project.
    pub proof fn lemma_outranks_transitive(self, mid: Project, other: Project)
        requires
            self.outranks(mid),
            mid.outranks(other),
        ensures
            self.outranks(other),
    {
        if self.modified == mid.modified && mid.modified == other.modified {
            lemma_lex_transitive(
                name_bytes(self.name@),
                name_bytes(mid.name@),
                name_bytes(other.name@),
            );
        }
    }

    /// Decides whether `self` is listed strictly before `other`.
    pub fn ranks_before(&self, other: &Project) -> (r: bool)
        ensures
            r == self.outranks(*other),
    {
        if self.modified != other.modified {
            self.modified > other.modified
        } else {
            name_lt(&self.name, &other.name)
        }
    }
}

} // verus!

//! The rules of the discovery and enrichment pipeline: which roots are
//! listed, which entries become projects, what each stage reports, and what
//! the consumer is handed.

use vstd::prelude::*;
use crate::project::{
    file_times, final_component, get_file_summary, is_latest, latest_of, text_of, Project,
    ProjectEvent, ProjectKey, Timestamp, Walked,
};

verus! {

/// Events that may wait in the channel between the stages and the consumer.
pub const CHANNEL_CAPACITY: usize = 100;

/// Items that one stage works on at a time.
pub const FAN_OUT: usize = 8;

/// Why the pipeline as a whole fails.
#[derive(Debug, Clone, PartialEq, Eq)]
pub enum PipelineError {
    /// No root directory is configured.
    NoRoots,
    /// The root directory could not be listed.
    RootUnreadable(String),
}

/// `expanded` is `root` with its home-relative shorthand expanded. A leading
/// `~` that a `/` or nothing follows is replaced by the home directory. One
/// that a `\` follows is replaced where the platform reads `\` as a
/// separator, and left elsewhere. Every other root is left as it is, and so
/// is every root where no home directory is known.
pub open spec fn expanded_with(root: Seq<char>, home: Option<Seq<char>>, expanded: Seq<char>) -> bool {
    if home is Some && root.len() > 0 && root[0] == '~' {
        let replaced = home->0 + root.skip(1);
        if root.len() == 1 || root[1] == '/' {
            expanded == replaced
        } else if root[1] == '\\' {
            expanded == replaced || expanded == root
        } else {
            expanded == root
        }
    } else {
        expanded == root
    }
}

/// Calls `shellexpand::tilde_with_context` with the given home directory.
/// Trusted: a leading `~` that a path separator or nothing follows is
/// replaced by the home directory, where one is given; every other text
/// comes back unchanged. Only on Windows is `\` a separator here.
#[verifier::external_body]
fn expand_tilde(root: &String, home: &Option<String>) -> (expanded: String)
    ensures
        expanded_with(root@, text_of(*home), expanded@),
{
    shellexpand::tilde_with_context(root, || home.as_ref()).into_owned()
}

/// The root directories to list, in the configured order, each with its
/// home-relative shorthand expanded by the given home directory. Without
/// any root there is no pipeline.
pub fn expand_roots(roots: &Vec<String>, home: &Option<String>) -> (r: Result<
    Vec<String>,
    PipelineError,
>)
    ensures
        roots@.len() == 0 ==> r == Err::<Vec<String>, PipelineError>(PipelineError::NoRoots),
        roots@.len() > 0 ==> (r matches Ok(expanded) && expanded@.len() == roots@.len() && forall|
            i: int,
        |
            0 <= i < roots@.len() ==> expanded_with(
                roots@[i]@,
                text_of(*home),
                (#[trigger] expanded@[i])@,
            )),
{
    if roots.len() == 0 {
        return Err(PipelineError::NoRoots);
    }
    let mut expanded: Vec<String> = Vec::new();
    let mut i: usize = 0;
    while i < roots.len()
        invariant
            i <= roots@.len(),
            expanded@.len() == i,
            forall|k: int|
                0 <= k < i ==> expanded_with(roots@[k]@, text_of(*home), (#[trigger] expanded@[k])@),
        decreases roots@.len() - i,
    {
        expanded.push(expand_tilde(&roots[i], home));
        i = i + 1;
    }
    Ok(expanded)
}

/// One entry of a root directory's listing.
#[derive(Debug, Clone, PartialEq, Eq)]
pub struct Entry {
    pub path: ProjectKey,
    pub is_dir: bool,
}

/// The paths of the directories among the entries, in listing order.
pub open spec fn directories(entries: Seq<Entry>) -> Seq<ProjectKey>
    decreases entries.len(),
{
    if entries.len() == 0 {
        Seq::empty()
    } else if entries.last().is_dir {
        directories(entries.drop_last()).push(entries.last().path)
    } else {
        directories(entries.drop_last())
    }
}

/// Selects the candidate projects of a root: its entries that are
/// directories.
pub fn select_directories(entries: &Vec<Entry>) -> (paths: Vec<ProjectKey>)
    ensures
        paths@ == directories(entries@),
{
    let mut paths: Vec<ProjectKey> = Vec::new();
    let mut i: usize = 0;
    while i < entries.len()
        invariant
            i <= entries@.len(),
            paths@ == directories(entries@.take(i as int)),
        decreases entries@.len() - i,
    {
        proof {
            assert(entries@.take(i + 1).drop_last() =~= entries@.take(i as int));
        }
        if entries[i].is_dir {
            paths.push(entries[i].path.clone());
        }
        i = i + 1;
    }
    proof {
        assert(entries@.take(i as int) =~= entries@);
    }
    paths
}

/// The candidate projects of a root, given its listing. A root that could
/// not be listed ends discovery with a failure that names it.
pub fn candidates_of(root: String, listing: Option<Vec<Entry>>) -> (r: Result<
    Vec<ProjectKey>,
    PipelineError,
>)
    ensures
        match listing {
            Some(entries) => r matches Ok(paths) && paths@ == directories(entries@),
            None => r == Err::<Vec<ProjectKey>, PipelineError>(PipelineError::RootUnreadable(root)),
        },
{
    match listing {
        Some(entries) => Ok(select_directories(&entries)),
        None => Err(PipelineError::RootUnreadable(root)),
    }
}

/// What was read of a candidate directory at discovery.
#[derive(Debug, Clone, PartialEq, Eq)]
pub struct Probe {
    /// Text of the readme, if there is one.
    pub readme: Option<String>,
    /// The directory's own modification time.
    pub modified: Timestamp,
}

/// What discovery reports of one candidate. A candidate that could not be
/// read, or whose path names nothing, is left out and the others go on;
/// otherwise the project arrives with its provisional values, and its path
/// is the one to hand to enrichment.
pub fn discover(path: ProjectKey, probe: Option<Probe>) -> (r: Option<ProjectEvent>)
    ensures
        match (probe, final_component(path@)) {
            (Some(probe), Some(name)) => r matches Some(ProjectEvent::Add(p)) && p.name@ == name
                && p.path == path && p.readme == probe.readme && p.modified == probe.modified
                && p.file_count == 0,
            _ => r is None,
        },
{
    match probe {
        Some(probe) => match Project::from_path(path, probe.readme, probe.modified) {
            Ok(project) => Some(ProjectEvent::Add(project)),
            Err(_) => None,
        },
        None => None,
    }
}

/// A walk through one project, as far as it came.
#[derive(Debug, Clone, PartialEq, Eq)]
pub struct Walk {
    /// The project's key.
    pub path: ProjectKey,
    /// The directory's own modification time; missing where the walk could
    /// not start.
    pub floor: Option<Timestamp>,
    /// The entries that could be read, in walk order.
    pub entries: Vec<Walked>,
}

impl Walk {
    /// What enrichment reports of the walk. Where the walk could not start
    /// nothing is reported and the project keeps its provisional values;
    /// otherwise the refined values are the most recent modification among
    /// the directory's own and the files met, and the number of files met.
    pub open spec fn report(self) -> Option<ProjectEvent> {
        match self.floor {
            Some(floor) => Some(
                ProjectEvent::Update(
                    self.path,
                    latest_of(floor, file_times(self.entries@)),
                    file_times(self.entries@).len() as usize,
                ),
            ),
            None => None,
        }
    }
}

/// What enrichment reports of a sequence of walks, in the order in which
/// they ended: the report of each walk that has one.
pub open spec fn reports(walks: Seq<Walk>) -> Seq<ProjectEvent>
    decreases walks.len(),
{
    if walks.len() == 0 {
        Seq::empty()
    } else {
        match walks.last().report() {
            Some(event) => reports(walks.drop_last()).push(event),
            None => reports(walks.drop_last()),
        }
    }
}

/// What enrichment reports of one project after its walk: one refinement
/// from whatever the walk could read, or nothing where it could not start.
pub fn enrich(walk: Walk) -> (r: Option<ProjectEvent>)
    ensures
        r == walk.report(),
        r matches Some(ProjectEvent::Update(_, modified, _)) ==> is_latest(
            modified,
            walk.floor->0,
            file_times(walk.entries@),
        ),
{
    match walk.floor {
        Some(floor) => {
            let (modified, file_count) = get_file_summary(floor, &walk.entries);
            Some(ProjectEvent::Update(walk.path, modified, file_count))
        },
        None => None,
    }
}

/// What a poll of the channel found.
#[derive(Debug, Clone, PartialEq, Eq)]
pub enum Received {
    /// An event was waiting.
    Event(ProjectEvent),
    /// Nothing is waiting, and a stage may still send.
    Empty,
    /// Nothing is waiting, and both stages are done.
    Closed,
}

/// What the consumer is handed when it asks for the next event.
#[derive(Debug, Clone, PartialEq, Eq)]
pub enum Delivery {
    /// The next event.
    Event(ProjectEvent),
    /// No event yet: ask again.
    Pending,
    /// The pipeline has ended by a failure; no event will follow.
    Failed(PipelineError),
    /// The pipeline has ended; no event will follow.
    Finished,
}

/// What the consumer is handed. Events that wait are handed out first.
/// Once the channel is closed the end is final: a failure of a stage, if
/// there was one, and the plain end otherwise.
pub open spec fn delivery(received: Received, failure: Option<PipelineError>) -> Delivery {
    match received {
        Received::Event(event) => Delivery::Event(event),
        Received::Empty => Delivery::Pending,
        Received::Closed => match failure {
            Some(error) => Delivery::Failed(error),
            None => Delivery::Finished,
        },
    }
}

/// Decides what the consumer is handed.
pub fn deliver(received: Received, failure: Option<PipelineError>) -> (r: Delivery)
    ensures
        r == delivery(received, failure),
{
    match received {
        Received::Event(event) => Delivery::Event(event),
        Received::Empty => Delivery::Pending,
        Received::Closed => match failure {
            Some(error) => Delivery::Failed(error),
            None => Delivery::Finished,
        },
    }
}

} // verus!

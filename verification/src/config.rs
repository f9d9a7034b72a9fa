//! The configuration: where it is looked for and what it holds.

use vstd::prelude::*;
use crate::opener::ProjectOpener;

verus! {

/// What the user configures.
#[derive(Debug, Clone, PartialEq, Eq)]
pub struct Config {
    /// The root directories whose subdirectories are the projects.
    pub project_dirs: Vec<String>,
    /// How a project is opened.
    pub opener: ProjectOpener,
}

impl Default for Config {
    fn default() -> (c: Config)
        ensures
            c.project_dirs@.len() == 0,
            c.opener == ProjectOpener::Auto,
    {
        Config { project_dirs: Vec::new(), opener: ProjectOpener::Auto }
    }
}

/// The path `base` extended by `part`, as `std::path::Path::join` gives it.
pub uninterp spec fn joined(base: Seq<char>, part: Seq<char>) -> Seq<char>;

/// Calls `std::path::Path::join`. Trusted: the result is the joined path, a
/// function of the two texts alone.
#[verifier::external_body]
fn join_path(base: &String, part: &str) -> (r: String)
    ensures
        r@ == joined(base@, part@),
{
    std::path::Path::new(base).join(part).to_string_lossy().into_owned()
}

/// The configuration file under the platform's configuration directory.
pub open spec fn file_in_config_dir(config_dir: Seq<char>) -> Seq<char> {
    joined(joined(config_dir, "porgi"@), "porgi.toml"@)
}

/// The configuration file under the home directory.
pub open spec fn file_in_home_dir(home_dir: Seq<char>) -> Seq<char> {
    joined(joined(joined(home_dir, ".config"@), "porgi"@), "porgi.toml"@)
}

/// The places to look at, in order: the first, then the second unless it is
/// the same place; a place that is not known is left out.
pub open spec fn candidates(first: Option<Seq<char>>, second: Option<Seq<char>>) -> Seq<Seq<char>> {
    match (first, second) {
        (Some(a), Some(b)) => if a == b {
            seq![a]
        } else {
            seq![a, b]
        },
        (Some(a), None) => seq![a],
        (None, Some(b)) => seq![b],
        (None, None) => seq![],
    }
}

/// The texts of a list of paths.
pub open spec fn path_texts(paths: Seq<String>) -> Seq<Seq<char>> {
    Seq::new(paths.len(), |i: int| paths[i]@)
}

/// The text of an optional path.
pub open spec fn path_text(path: Option<String>) -> Option<Seq<char>> {
    match path {
        Some(p) => Some(p@),
        None => None,
    }
}

/// Lists two places to look at, leaving out what is unknown or repeated.
pub fn candidate_paths(first: Option<String>, second: Option<String>) -> (paths: Vec<String>)
    ensures
        path_texts(paths@) == candidates(path_text(first), path_text(second)),
{
    let mut paths: Vec<String> = Vec::new();
    match (first, second) {
        (Some(a), Some(b)) => {
            let same = a == b;
            paths.push(a);
            if !same {
                paths.push(b);
            }
        },
        (Some(a), None) => {
            paths.push(a);
        },
        (None, Some(b)) => {
            paths.push(b);
        },
        (None, None) => {},
    }
    proof {
        assert(path_texts(paths@) =~= candidates(path_text(first), path_text(second)));
    }
    paths
}

/// `i` is the first position that is marked present.
pub open spec fn is_first_present(present: Seq<bool>, i: int) -> bool {
    &&& 0 <= i < present.len()
    &&& present[i]
    &&& forall|k: int| 0 <= k < i ==> !present[k]
}

/// The path, if something exists there.
pub fn must_exist<'a>(p: &'a String, present: bool) -> (r: Option<&'a String>)
    ensures
        present ==> r == Some(p),
        !present ==> r is None,
{
    if present {
        Some(p)
    } else {
        None
    }
}

impl Config {
    /// The files in which the configuration is looked for, in order, given
    /// the platform's configuration directory and the home directory as far
    /// as they are known.
    pub fn get_paths(config_dir: Option<String>, home_dir: Option<String>) -> (paths: Vec<String>)
        ensures
            path_texts(paths@) == candidates(
                match config_dir {
                    Some(dir) => Some(file_in_config_dir(dir@)),
                    None => None,
                },
                match home_dir {
                    Some(dir) => Some(file_in_home_dir(dir@)),
                    None => None,
                },
            ),
    {
        let in_config_dir = match config_dir {
            Some(dir) => Some(join_path(&join_path(&dir, "porgi"), "porgi.toml")),
            None => None,
        };
        let in_home_dir = match home_dir {
            Some(dir) => Some(
                join_path(&join_path(&join_path(&dir, ".config"), "porgi"), "porgi.toml"),
            ),
            None => None,
        };
        candidate_paths(in_config_dir, in_home_dir)
    }

    /// The first of the files that is present, given for each whether it is.
    pub fn find_path<'a>(paths: &'a Vec<String>, present: &Vec<bool>) -> (r: Option<&'a String>)
        requires
            present@.len() == paths@.len(),
        ensures
            match r {
                Some(p) => exists|i: int| is_first_present(present@, i) && *p == paths@[i],
                None => forall|k: int| 0 <= k < present@.len() ==> !present@[k],
            },
    {
        let mut i: usize = 0;
        while i < paths.len()
            invariant
                i <= paths@.len(),
                present@.len() == paths@.len(),
                forall|k: int| 0 <= k < i ==> !present@[k],
            decreases paths@.len() - i,
        {
            match must_exist(&paths[i], present[i]) {
                Some(p) => {
                    proof {
                        assert(is_first_present(present@, i as int));
                    }
                    return Some(p);
                },
                None => {},
            }
            i = i + 1;
        }
        None
    }
}

} // verus!

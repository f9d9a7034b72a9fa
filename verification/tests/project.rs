use porgi::order::{bytes_lt, name_lt};
use porgi::project::{get_file_summary, Project, ProjectError, Walked};

fn project(name: &str, modified: i128) -> Project {
    Project {
        name: name.to_string(),
        path: format!("/r/{}", name),
        readme: None,
        modified,
        file_count: 0,
    }
}

#[test]
fn bytes_are_ordered_lexicographically() {
    assert!(bytes_lt(b"", b"a"));
    assert!(!bytes_lt(b"", b""));
    assert!(!bytes_lt(b"a", b""));
    assert!(bytes_lt(b"a", b"ab"));
    assert!(!bytes_lt(b"ab", b"a"));
    assert!(bytes_lt(b"ab", b"b"));
    assert!(!bytes_lt(b"abc", b"abc"));
    assert!(bytes_lt(b"abc", b"abd"));
    assert!(bytes_lt(&[0xff], &[0xff, 0x00]));
    assert!(!bytes_lt(&[0xff], &[0x7f, 0xff]));
}

#[test]
fn names_are_ordered_as_strings_are() {
    let texts = ["", "a", "A", "ab", "b", "é", "e", "zz", "日本", "a\u{10000}", "a\u{ffff}"];
    for a in texts {
        for b in texts {
            assert_eq!(name_lt(&a.to_string(), &b.to_string()), a < b, "{:?} {:?}", a, b);
        }
    }
}

#[test]
fn later_modification_ranks_first() {
    assert!(project("z", 2).ranks_before(&project("a", 1)));
    assert!(!project("a", 1).ranks_before(&project("z", 2)));
}

#[test]
fn equal_modification_ranks_by_name() {
    assert!(project("a", 1).ranks_before(&project("b", 1)));
    assert!(!project("b", 1).ranks_before(&project("a", 1)));
    assert!(!project("a", 1).ranks_before(&project("a", 1)));
}

#[test]
fn key_is_the_path() {
    let p = project("a", 1);
    assert_eq!(p.key(), "/r/a");
}

#[test]
fn from_path_names_the_project_by_its_last_component() {
    let p = Project::from_path("/home/u/src/porgi".to_string(), Some("# porgi".to_string()), 42).unwrap();
    assert_eq!(p.name, "porgi");
    assert_eq!(p.path, "/home/u/src/porgi");
    assert_eq!(p.readme, Some("# porgi".to_string()));
    assert_eq!(p.modified, 42);
    assert_eq!(p.file_count, 0);
}

#[test]
fn from_path_ignores_a_trailing_separator() {
    let p = Project::from_path("/home/u/src/porgi/".to_string(), None, -1).unwrap();
    assert_eq!(p.name, "porgi");
    assert_eq!(p.path, "/home/u/src/porgi/");
    assert_eq!(p.readme, None);
}

#[test]
fn from_path_refuses_a_path_without_a_name() {
    assert_eq!(Project::from_path("/".to_string(), None, 0), Err(ProjectError::NoName));
    assert_eq!(Project::from_path("/a/..".to_string(), None, 0), Err(ProjectError::NoName));
    assert_eq!(Project::from_path("".to_string(), None, 0), Err(ProjectError::NoName));
}

#[test]
fn named_takes_the_name_as_given() {
    let p = Project::named(Some("n".to_string()), "/p".to_string(), None, 3).unwrap();
    assert_eq!(p, Project { name: "n".to_string(), path: "/p".to_string(), readme: None, modified: 3, file_count: 0 });
    assert_eq!(Project::named(None, "/p".to_string(), None, 3), Err(ProjectError::NoName));
}

fn files(times: &[i128]) -> Vec<Walked> {
    times.iter().map(|t| Walked { is_file: true, modified: *t }).collect()
}

#[test]
fn summary_of_an_empty_walk_is_the_floor() {
    assert_eq!(get_file_summary(17, &vec![]), (17, 0));
}

#[test]
fn summary_takes_the_latest_time_and_counts_all() {
    assert_eq!(get_file_summary(10, &files(&[3, 12, 11])), (12, 3));
    assert_eq!(get_file_summary(10, &files(&[3, 4])), (10, 2));
    assert_eq!(get_file_summary(-10, &files(&[-3, -40, -3])), (-3, 3));
    assert_eq!(get_file_summary(5, &files(&[5])), (5, 1));
}

#[test]
fn summary_leaves_out_what_is_not_a_file() {
    let entries = vec![
        Walked { is_file: false, modified: 100 },
        Walked { is_file: true, modified: 12 },
        Walked { is_file: false, modified: 1 },
        Walked { is_file: true, modified: 3 },
    ];
    assert_eq!(get_file_summary(10, &entries), (12, 2));
    assert_eq!(get_file_summary(10, &vec![Walked { is_file: false, modified: 100 }]), (10, 0));
}

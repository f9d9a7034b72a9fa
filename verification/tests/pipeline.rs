use porgi::pipeline::{
    candidates_of, deliver, discover, enrich, expand_roots, select_directories, Delivery, Entry,
    PipelineError, Probe, Received, Walk, CHANNEL_CAPACITY, FAN_OUT,
};
use porgi::project::{Project, ProjectEvent, Walked};
use porgi::store::ProjectStore;
use tokio::sync::mpsc::error::{TryRecvError, TrySendError};

fn entry(path: &str, is_dir: bool) -> Entry {
    Entry { path: path.to_string(), is_dir }
}

fn file(modified: i128) -> Walked {
    Walked { is_file: true, modified }
}

fn dir(modified: i128) -> Walked {
    Walked { is_file: false, modified }
}

fn walk(path: &str, floor: Option<i128>, entries: Vec<Walked>) -> Walk {
    Walk { path: path.to_string(), floor, entries }
}

fn home() -> Option<String> {
    Some("/home/u".to_string())
}

#[test]
fn limits_are_as_designed() {
    assert_eq!(CHANNEL_CAPACITY, 100);
    assert_eq!(FAN_OUT, 8);
}

#[test]
fn no_roots_is_an_error() {
    assert_eq!(expand_roots(&vec![], &home()), Err(PipelineError::NoRoots));
    assert_eq!(expand_roots(&vec![], &None), Err(PipelineError::NoRoots));
}

#[test]
fn roots_without_tilde_stay_as_they_are() {
    let roots = vec![
        "/srv/code".to_string(),
        "relative/dir".to_string(),
        "a~b".to_string(),
        "~user/x".to_string(),
        "/a/~".to_string(),
        "".to_string(),
    ];
    assert_eq!(expand_roots(&roots, &home()), Ok(roots.clone()));
    assert_eq!(expand_roots(&roots, &None), Ok(roots.clone()));
}

#[test]
fn tilde_is_replaced_by_the_home_directory() {
    let roots = vec!["~/code".to_string(), "~".to_string(), "/plain".to_string(), "~/".to_string()];
    let expanded = expand_roots(&roots, &home()).unwrap();
    assert_eq!(expanded, vec!["/home/u/code", "/home/u", "/plain", "/home/u/"]);
    let expanded = expand_roots(&roots, &Some("".to_string())).unwrap();
    assert_eq!(expanded, vec!["/code", "", "/plain", "/"]);
}

#[test]
fn without_a_home_directory_the_tilde_stays() {
    let roots = vec!["~/code".to_string(), "~".to_string()];
    assert_eq!(expand_roots(&roots, &None), Ok(roots.clone()));
}

#[test]
fn only_directories_are_candidates() {
    let entries = vec![
        entry("/r/a", true),
        entry("/r/notes.txt", false),
        entry("/r/b", true),
        entry("/r/.hidden", true),
        entry("/r/z.tar", false),
    ];
    assert_eq!(select_directories(&entries), vec!["/r/a", "/r/b", "/r/.hidden"]);
    assert_eq!(select_directories(&vec![]), Vec::<String>::new());
    assert_eq!(select_directories(&vec![entry("/r/f", false)]), Vec::<String>::new());
}

#[test]
fn a_listed_root_gives_its_directories() {
    let listing = vec![entry("/r/a", true), entry("/r/f", false), entry("/r/b", true)];
    assert_eq!(candidates_of("/r".to_string(), Some(listing)), Ok(vec!["/r/a".to_string(), "/r/b".to_string()]));
    assert_eq!(candidates_of("/r".to_string(), Some(vec![])), Ok(vec![]));
}

#[test]
fn a_root_that_cannot_be_listed_is_fatal() {
    assert_eq!(
        candidates_of("/nowhere".to_string(), None),
        Err(PipelineError::RootUnreadable("/nowhere".to_string()))
    );
    let failure = candidates_of("/nowhere".to_string(), None).err();
    assert_eq!(
        deliver(Received::Closed, failure),
        Delivery::Failed(PipelineError::RootUnreadable("/nowhere".to_string()))
    );
}

#[test]
fn discovery_reports_the_project_with_provisional_values() {
    let probe = Probe { readme: Some("text".to_string()), modified: 99 };
    let event = discover("/r/proj".to_string(), Some(probe));
    let expected = Project {
        name: "proj".to_string(),
        path: "/r/proj".to_string(),
        readme: Some("text".to_string()),
        modified: 99,
        file_count: 0,
    };
    assert_eq!(event, Some(ProjectEvent::Add(expected)));
}

#[test]
fn discovery_leaves_out_what_it_could_not_read() {
    assert_eq!(discover("/r/proj".to_string(), None), None);
    assert_eq!(discover("/".to_string(), Some(Probe { readme: None, modified: 1 })), None);
}

#[test]
fn one_unreadable_candidate_does_not_stop_the_others() {
    let candidates = vec![
        ("/r/a", Some(Probe { readme: None, modified: 1 })),
        ("/r/gone", None),
        ("/r/c", Some(Probe { readme: None, modified: 3 })),
    ];
    let mut store = ProjectStore::new();
    for (path, probe) in candidates {
        if let Some(event) = discover(path.to_string(), probe) {
            store.update(event).unwrap();
        }
    }
    let names: Vec<String> = store.iter().into_iter().map(|p| p.name.clone()).collect();
    assert_eq!(names, vec!["c", "a"]);
}

#[test]
fn enrichment_reports_the_latest_time_and_the_count() {
    let event = enrich(walk("/r/proj", Some(10), vec![file(4), file(25), file(7)]));
    assert_eq!(event, Some(ProjectEvent::Update("/r/proj".to_string(), 25, 3)));
    let event = enrich(walk("/r/proj", Some(10), vec![]));
    assert_eq!(event, Some(ProjectEvent::Update("/r/proj".to_string(), 10, 0)));
}

#[test]
fn enrichment_counts_files_only() {
    let entries = vec![dir(50), file(4), dir(60), file(25), dir(7)];
    let event = enrich(walk("/r/proj", Some(10), entries));
    assert_eq!(event, Some(ProjectEvent::Update("/r/proj".to_string(), 25, 2)));
    let event = enrich(walk("/r/proj", Some(10), vec![dir(99)]));
    assert_eq!(event, Some(ProjectEvent::Update("/r/proj".to_string(), 10, 0)));
}

#[test]
fn walk_of_a_removed_path_does_not_end_the_stream() {
    // the walk could not start: nothing is reported for the project
    assert_eq!(enrich(walk("/r/gone", None, vec![])), None);
    assert_eq!(enrich(walk("/r/gone", None, vec![file(3)])), None);
    // the path vanished half way: what was seen is reported
    let partial = enrich(walk("/r/gone", Some(10), vec![file(12)]));
    assert_eq!(partial, Some(ProjectEvent::Update("/r/gone".to_string(), 12, 1)));
    // either way the consumer is not handed an end or a failure
    assert_eq!(deliver(Received::Empty, None), Delivery::Pending);
    let mut store = ProjectStore::new();
    store.update(discover("/r/gone".to_string(), Some(Probe { readme: None, modified: 10 })).unwrap()).unwrap();
    store.update(discover("/r/here".to_string(), Some(Probe { readme: None, modified: 10 })).unwrap()).unwrap();
    if let Delivery::Event(event) = deliver(Received::Event(partial.unwrap()), None) {
        assert_eq!(store.update(event), Ok(()));
    } else {
        panic!("the event was not handed out");
    }
    assert_eq!(store.index(0).path, "/r/gone");
    assert_eq!(store.index(0).modified, 12);
    assert_eq!(store.index(1).path, "/r/here");
}

#[test]
fn a_failed_walk_spares_the_other_walks() {
    let walks = vec![
        walk("/r/a", Some(1), vec![file(5)]),
        walk("/r/gone", None, vec![]),
        walk("/r/b", Some(2), vec![dir(9)]),
    ];
    let mut reported = Vec::new();
    for walked in walks {
        if let Some(event) = enrich(walked) {
            match deliver(Received::Event(event), None) {
                Delivery::Event(event) => reported.push(event),
                other => panic!("the stream ended: {:?}", other),
            }
        }
    }
    assert_eq!(
        reported,
        vec![
            ProjectEvent::Update("/r/a".to_string(), 5, 1),
            ProjectEvent::Update("/r/b".to_string(), 2, 0),
        ]
    );
}

#[test]
fn waiting_events_are_handed_out_first() {
    let event = ProjectEvent::Update("/r/a".to_string(), 1, 2);
    assert_eq!(deliver(Received::Event(event.clone()), None), Delivery::Event(event.clone()));
    let failure = Some(PipelineError::RootUnreadable("/r".to_string()));
    assert_eq!(deliver(Received::Event(event.clone()), failure), Delivery::Event(event));
}

#[test]
fn an_open_channel_without_events_is_pending() {
    assert_eq!(deliver(Received::Empty, None), Delivery::Pending);
    assert_eq!(deliver(Received::Empty, Some(PipelineError::NoRoots)), Delivery::Pending);
}

#[test]
fn a_closed_channel_is_the_end() {
    assert_eq!(deliver(Received::Closed, None), Delivery::Finished);
    assert_eq!(
        deliver(Received::Closed, Some(PipelineError::RootUnreadable("/nowhere".to_string()))),
        Delivery::Failed(PipelineError::RootUnreadable("/nowhere".to_string()))
    );
    assert_eq!(deliver(Received::Closed, Some(PipelineError::NoRoots)), Delivery::Failed(PipelineError::NoRoots));
}

#[test]
fn a_full_channel_holds_producers_back_and_loses_nothing() {
    let event = |i: usize| ProjectEvent::Update(format!("/r/{}", i), i as i128, i);
    let (tx, mut rx) = tokio::sync::mpsc::channel::<ProjectEvent>(CHANNEL_CAPACITY);
    let mut sent = 0;
    let mut received: Vec<ProjectEvent> = Vec::new();
    // the consumer pauses: one hundred events fit, the next has to wait
    while sent < 100 {
        assert!(tx.try_send(event(sent)).is_ok());
        sent += 1;
    }
    assert!(matches!(tx.try_send(event(sent)), Err(TrySendError::Full(_))));
    // one slot is drained: one more event fits, and no more
    received.push(rx.try_recv().unwrap());
    assert!(tx.try_send(event(sent)).is_ok());
    sent += 1;
    assert!(matches!(tx.try_send(event(sent)), Err(TrySendError::Full(_))));
    // the rest goes through as the consumer drains
    while sent < 150 {
        received.push(rx.try_recv().unwrap());
        assert!(tx.try_send(event(sent)).is_ok());
        sent += 1;
    }
    drop(tx);
    loop {
        match rx.try_recv() {
            Ok(event) => received.push(event),
            Err(TryRecvError::Disconnected) => break,
            Err(TryRecvError::Empty) => panic!("the channel is closed"),
        }
    }
    assert_eq!(received.len(), 150);
    for (i, got) in received.into_iter().enumerate() {
        assert_eq!(got, event(i));
    }
}

use porgi::opener::{has_placeholder, AddPathToArgs, Command, Launch, OpenError, ProjectOpener};
use porgi::project::Project;

fn project() -> Project {
    Project {
        name: "proj".to_string(),
        path: "/r/proj".to_string(),
        readme: None,
        modified: 0,
        file_count: 0,
    }
}

fn strings(items: &[&str]) -> Vec<String> {
    items.iter().map(|s| s.to_string()).collect()
}

fn command(args: &[&str], chdir: bool, add_path_to_args: AddPathToArgs) -> Command {
    Command { args: strings(args), chdir, add_path_to_args }
}

#[test]
fn defaults() {
    assert_eq!(AddPathToArgs::default(), AddPathToArgs::Auto);
    assert_eq!(ProjectOpener::default(), ProjectOpener::Auto);
    assert!(ProjectOpener::chdir_default());
}

#[test]
fn code_gets_the_path_and_stays_where_it_is() {
    let launch = ProjectOpener::open_code(&project());
    assert_eq!(launch, Launch { program: "code".to_string(), args: strings(&["/r/proj"]), current_dir: None });
    assert_eq!(ProjectOpener::Code.open(&project(), false, None), Ok(launch));
}

#[test]
fn editor_starts_in_the_project() {
    let expected = Launch {
        program: "vim".to_string(),
        args: strings(&["/r/proj"]),
        current_dir: Some("/r/proj".to_string()),
    };
    assert_eq!(ProjectOpener::open_editor(&project(), Some("vim".to_string())), Ok(expected.clone()));
    assert_eq!(ProjectOpener::Editor.open(&project(), true, Some("vim".to_string())), Ok(expected));
}

#[test]
fn editor_needs_to_be_set() {
    assert_eq!(ProjectOpener::open_editor(&project(), None), Err(OpenError::NoEditor));
    assert_eq!(ProjectOpener::Editor.open(&project(), true, None), Err(OpenError::NoEditor));
}

#[test]
fn auto_prefers_code_then_the_editor() {
    let auto = ProjectOpener::Auto;
    let with_code = auto.open(&project(), true, Some("vim".to_string())).unwrap();
    assert_eq!(with_code.program, "code");
    assert_eq!(with_code.current_dir, None);
    let with_editor = auto.open(&project(), false, Some("vim".to_string())).unwrap();
    assert_eq!(with_editor.program, "vim");
    assert_eq!(with_editor.current_dir, Some("/r/proj".to_string()));
    assert_eq!(auto.open(&project(), false, None), Err(OpenError::NoOpener));
    assert_eq!(auto.open(&project(), true, None).unwrap().program, "code");
}

#[test]
fn command_appends_the_path_unless_never() {
    let p = project();
    let auto = ProjectOpener::open_command(&p, &command(&["tmux", "new", "-c"], true, AddPathToArgs::Auto));
    assert_eq!(
        auto,
        Ok(Launch {
            program: "tmux".to_string(),
            args: strings(&["new", "-c", "/r/proj"]),
            current_dir: Some("/r/proj".to_string()),
        })
    );
    let last = ProjectOpener::open_command(&p, &command(&["tmux", "new"], false, AddPathToArgs::Last));
    assert_eq!(
        last,
        Ok(Launch { program: "tmux".to_string(), args: strings(&["new", "/r/proj"]), current_dir: None })
    );
    let never = ProjectOpener::open_command(&p, &command(&["tmux", "new"], true, AddPathToArgs::Never));
    assert_eq!(
        never,
        Ok(Launch {
            program: "tmux".to_string(),
            args: strings(&["new"]),
            current_dir: Some("/r/proj".to_string()),
        })
    );
}

#[test]
fn command_of_one_word() {
    let p = project();
    let r = ProjectOpener::open_command(&p, &command(&["open"], false, AddPathToArgs::Never));
    assert_eq!(r, Ok(Launch { program: "open".to_string(), args: vec![], current_dir: None }));
    let r = ProjectOpener::Command(command(&["open"], false, AddPathToArgs::Auto)).open(&p, true, None);
    assert_eq!(r, Ok(Launch { program: "open".to_string(), args: strings(&["/r/proj"]), current_dir: None }));
}

#[test]
fn command_without_a_program_is_refused() {
    let p = project();
    let r = ProjectOpener::open_command(&p, &command(&[], true, AddPathToArgs::Auto));
    assert_eq!(r, Err(OpenError::EmptyCommand));
    let r = ProjectOpener::Command(command(&[], true, AddPathToArgs::Auto)).open(&p, true, Some("vi".to_string()));
    assert_eq!(r, Err(OpenError::EmptyCommand));
}

#[test]
fn the_placeholder_is_one_exact_word() {
    assert!(has_placeholder(&strings(&["{path}"])));
    assert!(has_placeholder(&strings(&["tmux", "-c", "{path}", "x"])));
    assert!(!has_placeholder(&strings(&[])));
    assert!(!has_placeholder(&strings(&["tmux", "-c", "{path}/src", "{ path }", "{}", "path"])));
}

#[test]
fn auto_leaves_the_path_out_where_a_placeholder_stands() {
    let p = project();
    let with = command(&["tmux", "new", "-c", "{path}"], false, AddPathToArgs::Auto);
    assert_eq!(
        ProjectOpener::open_command(&p, &with),
        Ok(Launch { program: "tmux".to_string(), args: strings(&["new", "-c", "{path}"]), current_dir: None })
    );
    let as_program = command(&["{path}", "x"], false, AddPathToArgs::Auto);
    assert_eq!(
        ProjectOpener::open_command(&p, &as_program),
        Ok(Launch { program: "{path}".to_string(), args: strings(&["x"]), current_dir: None })
    );
    let without = command(&["tmux", "new", "-c"], false, AddPathToArgs::Auto);
    assert_eq!(
        ProjectOpener::open_command(&p, &without),
        Ok(Launch { program: "tmux".to_string(), args: strings(&["new", "-c", "/r/proj"]), current_dir: None })
    );
}

#[test]
fn last_and_never_do_not_look_for_a_placeholder() {
    let p = project();
    let last = command(&["tmux", "{path}"], false, AddPathToArgs::Last);
    assert_eq!(
        ProjectOpener::open_command(&p, &last),
        Ok(Launch { program: "tmux".to_string(), args: strings(&["{path}", "/r/proj"]), current_dir: None })
    );
    let never = command(&["tmux", "x"], false, AddPathToArgs::Never);
    assert_eq!(
        ProjectOpener::open_command(&p, &never),
        Ok(Launch { program: "tmux".to_string(), args: strings(&["x"]), current_dir: None })
    );
}

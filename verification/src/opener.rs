//! How a project is opened: which program is launched, with which arguments
//! and from which directory.

use vstd::prelude::*;
use crate::project::{text_of, Project};

verus! {

/// Whether the project's path is appended to a command's arguments.
#[derive(Debug, Clone, Copy, PartialEq, Eq)]
pub enum AddPathToArgs {
    /// Appended, unless one of the command's words is the placeholder for
    /// the path.
    Auto,
    /// Always appended as the last argument.
    Last,
    /// Never appended.
    Never,
}

impl Default for AddPathToArgs {
    fn default() -> (r: AddPathToArgs)
        ensures
            r == AddPathToArgs::Auto,
    {
        AddPathToArgs::Auto
    }
}

/// A command of the user's own to open projects with.
#[derive(Debug, Clone, PartialEq, Eq)]
pub struct Command {
    /// The program, followed by its arguments.
    pub args: Vec<String>,
    /// Whether the program starts in the project's directory.
    pub chdir: bool,
    /// Whether the project's path is appended to the arguments.
    pub add_path_to_args: AddPathToArgs,
}

/// The way projects are opened.
#[derive(Debug, Clone, PartialEq, Eq)]
pub enum ProjectOpener {
    /// The code editor if it is installed, else the user's editor.
    Auto,
    /// The code editor.
    Code,
    /// The user's editor.
    Editor,
    /// A command of the user's own.
    Command(Command),
}

impl Default for ProjectOpener {
    fn default() -> (r: ProjectOpener)
        ensures
            r == ProjectOpener::Auto,
    {
        ProjectOpener::Auto
    }
}

/// A program to launch.
#[derive(Debug, Clone, PartialEq, Eq)]
pub struct Launch {
    pub program: String,
    pub args: Vec<String>,
    /// The directory to start the program in, where it is not the current one.
    pub current_dir: Option<String>,
}

/// A launch as plain text.
pub struct LaunchView {
    pub program: Seq<char>,
    pub args: Seq<Seq<char>>,
    pub current_dir: Option<Seq<char>>,
}

/// Why a project cannot be opened.
#[derive(Debug, Clone, Copy, PartialEq, Eq)]
pub enum OpenError {
    /// The code editor is not installed and no editor is set.
    NoOpener,
    /// No editor is set.
    NoEditor,
    /// The command names no program.
    EmptyCommand,
}

/// The texts of a sequence of strings.
pub open spec fn texts(strings: Seq<String>) -> Seq<Seq<char>> {
    Seq::new(strings.len(), |i: int| strings[i]@)
}

impl View for Launch {
    type V = LaunchView;

    open spec fn view(&self) -> LaunchView {
        LaunchView {
            program: self.program@,
            args: texts(self.args@),
            current_dir: text_of(self.current_dir),
        }
    }
}

/// The code editor, given the project's path.
pub open spec fn code_launch(path: Seq<char>) -> LaunchView {
    LaunchView { program: "code"@, args: seq![path], current_dir: None }
}

/// The user's editor, started in the project's directory and given its path.
pub open spec fn editor_launch(path: Seq<char>, editor: Seq<char>) -> LaunchView {
    LaunchView { program: editor, args: seq![path], current_dir: Some(path) }
}

/// The word is the placeholder for the project's path: `{path}`.
pub open spec fn is_placeholder(word: Seq<char>) -> bool {
    word == "{path}"@
}

/// One of the words is the placeholder for the project's path.
pub open spec fn holds_placeholder(words: Seq<String>) -> bool {
    exists|i: int| 0 <= i < words.len() && is_placeholder(#[trigger] words[i]@)
}

/// The command gets the project's path as its last argument: always, never,
/// or, left to itself, when none of its words is the placeholder.
pub open spec fn adds_path(command: Command) -> bool {
    match command.add_path_to_args {
        AddPathToArgs::Auto => !holds_placeholder(command.args@),
        AddPathToArgs::Last => true,
        AddPathToArgs::Never => false,
    }
}

/// The user's command: its first word is the program, the others are handed
/// on as they are, followed by the project's path where the command adds it;
/// it starts in the project's directory where the command asks for that.
pub open spec fn command_launch(path: Seq<char>, command: Command) -> LaunchView {
    let given = texts(command.args@.skip(1));
    LaunchView {
        program: command.args@[0]@,
        args: if adds_path(command) {
            given.push(path)
        } else {
            given
        },
        current_dir: if command.chdir {
            Some(path)
        } else {
            None
        },
    }
}

/// The launch of a result, as plain text.
pub open spec fn planned(r: Result<Launch, OpenError>) -> Result<LaunchView, OpenError> {
    match r {
        Ok(launch) => Ok(launch@),
        Err(e) => Err(e),
    }
}

/// Tells whether one of the words is the placeholder for the project's path.
pub fn has_placeholder(words: &Vec<String>) -> (r: bool)
    ensures
        r == holds_placeholder(words@),
{
    let placeholder = "{path}".to_owned();
    let mut i: usize = 0;
    while i < words.len()
        invariant
            i <= words@.len(),
            placeholder@ == "{path}"@,
            forall|k: int| 0 <= k < i ==> !is_placeholder(#[trigger] words@[k]@),
        decreases words@.len() - i,
    {
        if words[i] == placeholder {
            return true;
        }
        i = i + 1;
    }
    false
}

impl ProjectOpener {
    /// What opening a project comes to, given whether the code editor is
    /// installed and which editor, if any, the user has set.
    pub open spec fn plan(
        self,
        path: Seq<char>,
        code_found: bool,
        editor: Option<Seq<char>>,
    ) -> Result<LaunchView, OpenError> {
        match self {
            ProjectOpener::Auto => if code_found {
                Ok(code_launch(path))
            } else {
                match editor {
                    Some(editor) => Ok(editor_launch(path, editor)),
                    None => Err(OpenError::NoOpener),
                }
            },
            ProjectOpener::Code => Ok(code_launch(path)),
            ProjectOpener::Editor => match editor {
                Some(editor) => Ok(editor_launch(path, editor)),
                None => Err(OpenError::NoEditor),
            },
            ProjectOpener::Command(command) => if command.args@.len() == 0 {
                Err(OpenError::EmptyCommand)
            } else {
                Ok(command_launch(path, command))
            },
        }
    }

    /// A command starts in the project's directory unless it says otherwise.
    pub fn chdir_default() -> (r: bool)
        ensures
            r,
    {
        true
    }

    /// Plans the launch that opens the project.
    pub fn open(&self, project: &Project, code_found: bool, editor: Option<String>) -> (r: Result<
        Launch,
        OpenError,
    >)
        ensures
            planned(r) == self.plan(project.path@, code_found, text_of(editor)),
    {
        match self {
            ProjectOpener::Auto => {
                if code_found {
                    Ok(Self::open_code(project))
                } else {
                    match editor {
                        Some(editor) => Self::open_editor(project, Some(editor)),
                        None => Err(OpenError::NoOpener),
                    }
                }
            },
            ProjectOpener::Code => Ok(Self::open_code(project)),
            ProjectOpener::Editor => Self::open_editor(project, editor),
            ProjectOpener::Command(command) => Self::open_command(project, command),
        }
    }

    /// Plans the launch of the code editor on the project.
    pub fn open_code(project: &Project) -> (r: Launch)
        ensures
            r@ == code_launch(project.path@),
    {
        let mut args: Vec<String> = Vec::new();
        args.push(project.path.clone());
        let r = Launch { program: "code".to_owned(), args, current_dir: None };
        proof {
            assert(r@.args =~= seq![project.path@]);
        }
        r
    }

    /// Plans the launch of the user's editor on the project.
    pub fn open_editor(project: &Project, editor: Option<String>) -> (r: Result<Launch, OpenError>)
        ensures
            planned(r) == match editor {
                Some(editor) => Ok::<LaunchView, OpenError>(editor_launch(project.path@, editor@)),
                None => Err::<LaunchView, OpenError>(OpenError::NoEditor),
            },
    {
        match editor {
            Some(editor) => {
                let mut args: Vec<String> = Vec::new();
                args.push(project.path.clone());
                let r = Launch { program: editor, args, current_dir: Some(project.path.clone()) };
                proof {
                    assert(r@.args =~= seq![project.path@]);
                }
                Ok(r)
            },
            None => Err(OpenError::NoEditor),
        }
    }

    /// Plans the launch of the user's command on the project.
    pub fn open_command(project: &Project, command: &Command) -> (r: Result<Launch, OpenError>)
        ensures
            planned(r) == if command.args@.len() == 0 {
                Err::<LaunchView, OpenError>(OpenError::EmptyCommand)
            } else {
                Ok::<LaunchView, OpenError>(command_launch(project.path@, *command))
            },
    {
        if command.args.len() == 0 {
            return Err(OpenError::EmptyCommand);
        }
        let mut args: Vec<String> = Vec::new();
        let mut i: usize = 1;
        while i < command.args.len()
            invariant
                1 <= i <= command.args@.len(),
                texts(args@) == texts(command.args@.skip(1)).take(i - 1),
            decreases command.args@.len() - i,
        {
            let ghost before = texts(args@);
            args.push(command.args[i].clone());
            proof {
                assert(texts(args@) =~= before.push(command.args@[i as int]@));
                assert(texts(args@) =~= texts(command.args@.skip(1)).take(i as int));
            }
            i = i + 1;
        }
        proof {
            assert(texts(args@) =~= texts(command.args@.skip(1)));
        }
        let add_path = match command.add_path_to_args {
            AddPathToArgs::Auto => !has_placeholder(&command.args),
            AddPathToArgs::Last => true,
            AddPathToArgs::Never => false,
        };
        if add_path {
            args.push(project.path.clone());
        }
        let current_dir = if command.chdir {
            Some(project.path.clone())
        } else {
            None
        };
        let r = Launch { program: command.args[0].clone(), args, current_dir };
        proof {
            assert(r@.args =~= command_launch(project.path@, *command).args);
        }
        Ok(r)
    }
}

} // verus!

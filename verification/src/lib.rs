//! A terminal todo list: active and completed todos kept in line-oriented
//! text files, with an optional reconciliation against a copy kept in a gist.

pub mod cli;
pub mod config;
pub mod sync;
pub mod text;
pub mod todo;

pub use cli::{parse_command_line, Command, Invocation, UsageError};
pub use config::{
    archive_file, data_dir, data_file, end_sound_command, end_sound_path, env_flag, expand_home,
    EndSound, SettingError,
};
pub use todo::{
    add_todo, complete_todo, latest_local_update, next_active_id, parse_todos, read_all_todos,
    todo_file_contents, todo_line, write_all_todos, LineFault, Todo, TodoFileError, TodoFileKind,
};

use vstd::prelude::*;

verus! {

/// Name of the file that holds the active todos.
pub const ACTIVE_FILE: &'static str = "todos.txt";

/// Name of the file that holds the completed todos.
pub const COMPLETED_FILE: &'static str = "completed.txt";

/// Environment variable naming an extra file that completed todos are
/// appended to.
pub const ARCHIVE_ENV_VAR: &'static str = "TODO_ARCHIVE_PATH";

/// Environment variable choosing the sound played when a todo is completed.
pub const END_SOUND_ENV_VAR: &'static str = "TODO_END_SOUND";

/// Environment variable that turns on verbose output.
pub const VERBOSE_ENV_VAR: &'static str = "TODO_VERBOSE";

/// Directory, relative to the home directory, that holds the data files.
pub const DATA_DIR: &'static str = ".local/share/todo-cli";

/// File name of the bundled completion sound.
pub const DEFAULT_END_SOUND_FILE: &'static str = "achievement-bell.wav";

} // verus!

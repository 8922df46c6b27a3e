use std::path::PathBuf;

use todo_cli::text::{is_whitespace, trim_chars};
use todo_cli::{
    archive_file, data_dir, data_file, end_sound_command, end_sound_path, env_flag, expand_home,
    EndSound, SettingError, ACTIVE_FILE, DATA_DIR,
};

#[test]
fn whitespace_matches_std() {
    for code in 0u32..=0x10FFFF {
        if let Some(c) = char::from_u32(code) {
            assert_eq!(is_whitespace(c), c.is_whitespace(), "U+{:04X}", code);
        }
    }
}

#[test]
fn trim_matches_std() {
    for s in ["", "  ", " a ", "\u{3000}x y\u{85}", "a", "\t\r\n b\n", "\u{200B}z"] {
        let chars: Vec<char> = s.chars().collect();
        let trimmed: String = trim_chars(&chars).into_iter().collect();
        assert_eq!(trimmed, s.trim());
    }
}

#[test]
fn flag_values() {
    assert!(!env_flag(None));
    assert!(!env_flag(Some("")));
    assert!(!env_flag(Some("  ")));
    assert!(!env_flag(Some(" 0 ")));
    assert!(!env_flag(Some("FALSE")));
    assert!(!env_flag(Some("Off")));
    assert!(env_flag(Some("1")));
    assert!(env_flag(Some("yes")));
    assert!(env_flag(Some("00")));
    assert!(env_flag(Some("offf")));
}

#[test]
fn data_paths_join_like_pathbuf() {
    assert_eq!(data_dir("/home/u"), "/home/u/.local/share/todo-cli");
    assert_eq!(data_dir("/home/u/"), "/home/u/.local/share/todo-cli");
    let expected = PathBuf::from("/home/u").join(DATA_DIR).join(ACTIVE_FILE);
    assert_eq!(PathBuf::from(data_file("/home/u", ACTIVE_FILE)), expected);
    assert_eq!(data_file("/home/u", "/abs"), "/abs");
}

#[test]
fn expand_home_cases() {
    assert_eq!(expand_home("~", Some("/home/u")), Ok("/home/u".to_string()));
    assert_eq!(expand_home("~/done.txt", Some("/home/u")), Ok("/home/u/done.txt".to_string()));
    assert_eq!(
        PathBuf::from(expand_home("~/", Some("/home/u")).unwrap()),
        PathBuf::from("/home/u").join("")
    );
    assert_eq!(expand_home("~//etc", Some("/home/u")), Ok("/etc".to_string()));
    assert_eq!(expand_home("~user/x", None), Ok("~user/x".to_string()));
    assert_eq!(expand_home("/tmp/x", None), Ok("/tmp/x".to_string()));
    assert_eq!(expand_home("~/x", None), Err(SettingError::HomeNotFound));
    assert_eq!(expand_home("~", None), Err(SettingError::HomeNotFound));
}

#[test]
fn archive_file_cases() {
    assert_eq!(archive_file(None, None), Ok(None));
    assert_eq!(archive_file(Some(" \t"), None), Err(SettingError::EmptyArchivePath));
    assert_eq!(
        archive_file(Some(" ~/a/done.txt "), Some("/h")),
        Ok(Some("/h/a/done.txt".to_string()))
    );
    assert_eq!(archive_file(Some("~/x"), None), Err(SettingError::HomeNotFound));
}

#[test]
fn end_sound_cases() {
    assert_eq!(end_sound_path(None, None), EndSound::Bundled);
    assert_eq!(end_sound_path(Some(" OFF "), None), EndSound::Off);
    assert_eq!(end_sound_path(Some(""), None), EndSound::Off);
    assert_eq!(end_sound_path(Some("~/s.wav"), None), EndSound::Off);
    assert_eq!(
        end_sound_path(Some(" ~/s.wav"), Some("/h")),
        EndSound::File("/h/s.wav".to_string())
    );
}

#[test]
fn end_sound_command_quotes_path() {
    assert_eq!(
        end_sound_command("/a/it's.wav"),
        "nohup afplay '/a/it'\\''s.wav' >/dev/null 2>&1 </dev/null &"
    );
}

use todo_cli::sync::SyncMeta;
use todo_cli::{
    add_todo, complete_todo, latest_local_update, next_active_id, parse_todos, read_all_todos,
    todo_file_contents, todo_line, write_all_todos, LineFault, Todo, TodoFileError, TodoFileKind,
};

fn todo(id: u32, text: &str) -> Todo {
    Todo {
        id,
        text: text.to_string(),
    }
}

#[test]
fn next_active_id_starts_at_one() {
    assert_eq!(next_active_id(&[]), 1);
}

#[test]
fn next_active_id_fills_smallest_gap() {
    let active = vec![
        Todo {
            id: 1,
            text: "first".to_string(),
        },
        Todo {
            id: 3,
            text: "third".to_string(),
        },
        Todo {
            id: 4,
            text: "fourth".to_string(),
        },
    ];

    assert_eq!(next_active_id(&active), 2);
}

#[test]
fn next_active_id_ignores_order() {
    let active = vec![
        Todo {
            id: 5,
            text: "fifth".to_string(),
        },
        Todo {
            id: 2,
            text: "second".to_string(),
        },
        Todo {
            id: 1,
            text: "first".to_string(),
        },
    ];

    assert_eq!(next_active_id(&active), 3);
}

#[test]
fn sync_meta_defaults_empty() {
    let meta = SyncMeta::default();
    assert!(meta.last_remote_updated_at.is_none());
    assert!(meta.last_snapshot.is_none());
}

#[test]
fn next_active_id_skips_duplicates_and_zero() {
    let active = vec![todo(0, "zero"), todo(1, "a"), todo(1, "b"), todo(2, "c")];
    assert_eq!(next_active_id(&active), 3);
}

#[test]
fn next_active_id_same_ids_same_answer() {
    let a = vec![todo(3, "x"), todo(1, "y"), todo(2, "z")];
    let b = vec![todo(2, "p"), todo(2, "q"), todo(1, "r"), todo(3, "s")];
    assert_eq!(next_active_id(&a), next_active_id(&b));
    assert_eq!(next_active_id(&a), 4);
}

#[test]
fn next_active_id_above_large_ids() {
    let active = vec![todo(u32::MAX, "last"), todo(1, "first")];
    assert_eq!(next_active_id(&active), 2);
}

#[test]
fn todo_line_puts_text_on_one_line() {
    assert_eq!(todo_line(&todo(12, "buy\nmilk|now")), "12|buy milk|now");
    assert_eq!(todo_line(&todo(0, "")), "0|");
}

#[test]
fn write_then_read_gives_back_the_todos() {
    let todos = vec![todo(1, "buy milk"), todo(7, "a|b"), todo(40, "two\nlines")];
    let contents = todo_file_contents(&todos);
    assert_eq!(contents, "1|buy milk\n7|a|b\n40|two lines\n");
    let read = parse_todos(&contents).unwrap();
    assert_eq!(
        read,
        vec![todo(1, "buy milk"), todo(7, "a|b"), todo(40, "two lines")]
    );
}

#[test]
fn appending_a_line_extends_the_file() {
    let mut todos = vec![todo(1, "a"), todo(2, "b")];
    let before = todo_file_contents(&todos);
    let extra = todo(5, "c");
    let appended = format!("{}{}\n", before, todo_line(&extra));
    todos.push(extra);
    assert_eq!(appended, todo_file_contents(&todos));
}

#[test]
fn parse_skips_blank_lines_and_handles_crlf() {
    let read = parse_todos("\n  \t\n3|x\r\n\r\n+4|y\r").unwrap();
    assert_eq!(read, vec![todo(3, "x"), todo(4, "y\r")]);
    assert_eq!(parse_todos("").unwrap(), vec![]);
    assert_eq!(parse_todos("\u{3000}\n").unwrap(), vec![]);
}

#[test]
fn parse_reports_missing_separator() {
    assert_eq!(
        parse_todos("1|ok\n\nno separator\n2|x"),
        Err(TodoFileError {
            fault: LineFault::InvalidData,
            line: 3
        })
    );
}

#[test]
fn parse_reports_bad_id() {
    assert_eq!(
        parse_todos("1|ok\n 2|spaced"),
        Err(TodoFileError {
            fault: LineFault::InvalidId,
            line: 2
        })
    );
    assert_eq!(
        parse_todos("4294967296|too big"),
        Err(TodoFileError {
            fault: LineFault::InvalidId,
            line: 1
        })
    );
    assert_eq!(
        parse_todos("-1|neg"),
        Err(TodoFileError {
            fault: LineFault::InvalidId,
            line: 1
        })
    );
    assert_eq!(parse_todos("4294967295|max").unwrap(), vec![todo(u32::MAX, "max")]);
}

#[test]
fn read_all_reports_which_file() {
    assert_eq!(
        read_all_todos("1|a\n", "x\n"),
        Err((
            TodoFileKind::Completed,
            TodoFileError {
                fault: LineFault::InvalidData,
                line: 1
            }
        ))
    );
    assert_eq!(
        read_all_todos("x|a\n", "x\n"),
        Err((
            TodoFileKind::Active,
            TodoFileError {
                fault: LineFault::InvalidId,
                line: 1
            }
        ))
    );
    let (active, completed) = read_all_todos("1|a\n", "2|b\n").unwrap();
    assert_eq!(active, vec![todo(1, "a")]);
    assert_eq!(completed, vec![todo(2, "b")]);
}

#[test]
fn write_all_formats_both_files() {
    let (a, c) = write_all_todos(&[todo(1, "a")], &[]);
    assert_eq!(a, "1|a\n");
    assert_eq!(c, "");
}

#[test]
fn add_uses_lowest_free_id() {
    let mut active = vec![todo(2, "b")];
    let id = add_todo(&mut active, "new".to_string());
    assert_eq!(id, 1);
    assert_eq!(active, vec![todo(2, "b"), todo(1, "new")]);
}

#[test]
fn complete_removes_first_match() {
    let mut active = vec![todo(1, "a"), todo(2, "b"), todo(2, "c")];
    assert_eq!(complete_todo(&mut active, 2), Some(todo(2, "b")));
    assert_eq!(active, vec![todo(1, "a"), todo(2, "c")]);
    assert_eq!(complete_todo(&mut active, 9), None);
    assert_eq!(active, vec![todo(1, "a"), todo(2, "c")]);
}

#[test]
fn latest_update_is_the_later_time() {
    assert_eq!(latest_local_update(5, 9), 9);
    assert_eq!(latest_local_update(9, 5), 9);
    assert_eq!(latest_local_update(0, 0), 0);
}

#[test]
fn completing_a_new_todo_undoes_adding_it() {
    let original = vec![todo(1, "a"), todo(3, "c")];
    let mut active = original.clone();
    let id = add_todo(&mut active, "b".to_string());
    assert_eq!(id, 2);
    assert_eq!(complete_todo(&mut active, id), Some(todo(2, "b")));
    assert_eq!(active, original);
}

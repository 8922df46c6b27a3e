use todo_cli::sync::{
    decide_sync, gist_id_from_env, gist_id_from_gh_output, gist_id_from_stored, gist_url,
    run_sync_command, sync_configured, token_from_env, token_from_gh_output, SyncConfig,
    SyncError, SyncMeta, SyncOutcome, SyncRule,
};
use todo_cli::sync::{
    gist_file_content, local_sync_state, push_step, sync_step, token_setting, SyncState,
};
use todo_cli::{parse_command_line, Command, Todo, UsageError};

fn args(list: &[&str]) -> Vec<String> {
    list.iter().map(|s| s.to_string()).collect()
}

#[test]
fn command_add_joins_and_trims() {
    let inv = parse_command_line(&args(&["todo", "add", " buy", "milk ", "-v"]));
    assert!(inv.verbose_flag);
    assert_eq!(inv.command, Ok(Command::Add("buy milk".to_string())));
    let inv = parse_command_line(&args(&["todo", "a"]));
    assert!(!inv.verbose_flag);
    assert_eq!(inv.command, Err(UsageError::MissingText));
    let inv = parse_command_line(&args(&["todo", "--verbose", "a", "  "]));
    assert_eq!(inv.command, Err(UsageError::MissingText));
}

#[test]
fn command_end_parses_id() {
    assert_eq!(
        parse_command_line(&args(&["todo", "e", "12"])).command,
        Ok(Command::End(12))
    );
    assert_eq!(
        parse_command_line(&args(&["todo", "end"])).command,
        Err(UsageError::MissingId)
    );
    assert_eq!(
        parse_command_line(&args(&["todo", "end", "x"])).command,
        Err(UsageError::InvalidId)
    );
}

#[test]
fn command_other_words() {
    assert_eq!(parse_command_line(&args(&["todo"])).command, Ok(Command::Help));
    assert_eq!(parse_command_line(&args(&["todo", "l"])).command, Ok(Command::List));
    assert_eq!(parse_command_line(&args(&["todo", "list"])).command, Ok(Command::List));
    assert_eq!(parse_command_line(&args(&["todo", "setup"])).command, Ok(Command::Setup));
    assert_eq!(parse_command_line(&args(&["todo", "LIST"])).command, Ok(Command::Help));
    assert_eq!(
        parse_command_line(&args(&["todo", "sync", "-v", "once"])).command,
        Ok(Command::Sync(args(&["once"])))
    );
}

fn meta(t: Option<u64>, s: Option<&str>) -> SyncMeta {
    SyncMeta {
        last_remote_updated_at: t,
        last_snapshot: s.map(|x| x.to_string()),
    }
}

#[test]
fn sync_direction_cases() {
    let l = "[[local],[]]".to_string();
    let r = "[[remote],[]]".to_string();
    let cases = [
        (decide_sync(&l, &l, 5, 9, &meta(None, None)), SyncRule::InSync, SyncOutcome::Unchanged),
        (decide_sync(&l, &r, 7, 9, &meta(Some(5), Some(&l))), SyncRule::RemoteChanged, SyncOutcome::Pulled),
        (decide_sync(&l, &r, 5, 9, &meta(Some(5), Some(&r))), SyncRule::LocalChanged, SyncOutcome::Pushed),
        (decide_sync(&l, &r, 10, 9, &meta(None, None)), SyncRule::RemoteNewer, SyncOutcome::Pulled),
        (decide_sync(&l, &r, 9, 9, &meta(None, None)), SyncRule::LocalNotOlder, SyncOutcome::Pushed),
        (decide_sync(&l, &r, 5, 9, &meta(Some(5), Some(&l))), SyncRule::RemoteChanged, SyncOutcome::Pulled),
        (decide_sync(&l, &r, 5, 9, &meta(Some(5), Some("[[x],[]]"))), SyncRule::LocalNotOlder, SyncOutcome::Pushed),
    ];
    for (rule, expected_rule, expected_outcome) in cases {
        assert_eq!(rule, expected_rule);
        assert_eq!(rule.outcome(), expected_outcome);
    }
}

#[test]
fn sync_meta_recorded() {
    let m = SyncMeta::recorded(42, "snap".to_string());
    assert_eq!(m.last_remote_updated_at, Some(42));
    assert_eq!(m.last_snapshot.as_deref(), Some("snap"));
}

#[test]
fn gist_settings() {
    assert_eq!(gist_id_from_env(" abc "), Ok("abc".to_string()));
    assert_eq!(gist_id_from_env("  "), Err(SyncError::EmptyGistIdSetting));
    assert_eq!(gist_id_from_stored(" abc ".to_string()), Ok(" abc ".to_string()));
    assert_eq!(gist_id_from_stored(" ".to_string()), Err(SyncError::EmptyStoredGistId));
    assert_eq!(token_from_env("\ttok\n"), Ok("tok".to_string()));
    assert_eq!(token_from_env(""), Err(SyncError::EmptyTokenSetting));
    assert_eq!(token_from_gh_output("gho_x\n"), Ok("gho_x".to_string()));
    assert_eq!(token_from_gh_output("\n"), Err(SyncError::EmptyGhToken));
}

#[test]
fn gist_id_from_created_url() {
    assert_eq!(
        gist_id_from_gh_output("https://gist.github.com/abc123\n"),
        Ok("abc123".to_string())
    );
    assert_eq!(gist_id_from_gh_output("plainid"), Ok("plainid".to_string()));
    assert_eq!(
        gist_id_from_gh_output("https://x/\n"),
        Err(SyncError::UnparsableGistUrl("https://x/".to_string()))
    );
    assert_eq!(gist_url("abc"), "https://api.github.com/gists/abc");
}

#[test]
fn sync_command_arguments() {
    let config = || {
        Ok(SyncConfig {
            gist_id: "g".to_string(),
            token: "t".to_string(),
        })
    };
    assert_eq!(run_sync_command(config(), &args(&[])).unwrap().gist_id, "g");
    assert_eq!(run_sync_command(config(), &args(&["once"])).unwrap().token, "t");
    assert_eq!(
        run_sync_command(config(), &args(&["twice"])).unwrap_err(),
        SyncError::UnknownSubcommand("twice".to_string())
    );
    assert_eq!(
        run_sync_command(Err(SyncError::NoGistConfigured), &args(&["twice"])).unwrap_err(),
        SyncError::NoGistConfigured
    );
    assert!(sync_configured(&config()));
    assert!(!sync_configured(&Err(SyncError::NoGistConfigured)));
}

#[test]
fn second_sync_changes_nothing() {
    let l = "[[a],[]]".to_string();
    let r = "[[b],[]]".to_string();
    let first = decide_sync(&l, &r, 20, 10, &meta(Some(5), Some("[[old],[]]")));
    assert_eq!(first.outcome(), SyncOutcome::Pulled);
    let after = SyncMeta::recorded(20, r.clone());
    assert_eq!(decide_sync(&r, &r, 20, 30, &after), SyncRule::InSync);
}

fn todo(id: u32, text: &str) -> Todo {
    Todo {
        id,
        text: text.to_string(),
    }
}

fn state(updated_at: u64, active: Vec<Todo>) -> SyncState {
    SyncState {
        version: 1,
        updated_at,
        active,
        completed: vec![],
    }
}

#[test]
fn hand_edit_of_gist_is_pulled_even_with_old_timestamp() {
    let local = state(100, vec![todo(1, "milk")]);
    let remote = state(50, vec![todo(1, "milk"), todo(2, "bread")]);
    let l = "L".to_string();
    let r = "R".to_string();
    let plan = sync_step(&local, &remote, &l, &r, &meta(Some(50), Some("L")));
    assert_eq!(plan.rule, SyncRule::RemoteChanged);
    let (active, completed) = plan.local_files.unwrap();
    assert_eq!(active, remote.active);
    assert!(completed.is_empty());
    let record = plan.record.unwrap();
    assert_eq!(record.last_remote_updated_at, Some(50));
    assert_eq!(record.last_snapshot.as_deref(), Some("R"));
}

#[test]
fn sync_step_in_sync_records_remote() {
    let local = state(10, vec![todo(1, "a")]);
    let remote = state(7, vec![todo(1, "a")]);
    let s = "S".to_string();
    let plan = sync_step(&local, &remote, &s, &s, &meta(None, None));
    assert_eq!(plan.rule, SyncRule::InSync);
    assert!(plan.local_files.is_none());
    let record = plan.record.unwrap();
    assert_eq!(record.last_remote_updated_at, Some(7));
    assert_eq!(record.last_snapshot.as_deref(), Some("S"));
}

#[test]
fn sync_step_push_then_push_step() {
    let local = state(10, vec![todo(1, "new")]);
    let remote = state(7, vec![todo(1, "old")]);
    let l = "L".to_string();
    let r = "R".to_string();
    let plan = sync_step(&local, &remote, &l, &r, &meta(Some(7), Some("R")));
    assert_eq!(plan.rule, SyncRule::LocalChanged);
    assert!(plan.local_files.is_none());
    assert!(plan.record.is_none());
    let (pushed, record) = push_step(&local, &l, 99);
    assert_eq!(pushed.version, 1);
    assert_eq!(pushed.updated_at, 99);
    assert_eq!(pushed.active, local.active);
    assert_eq!(record.last_remote_updated_at, Some(99));
    assert_eq!(record.last_snapshot.as_deref(), Some("L"));
}

#[test]
fn local_state_is_stamped() {
    let s = local_sync_state(vec![todo(1, "a")], vec![todo(2, "b")], 33);
    assert_eq!(s.version, 1);
    assert_eq!(s.updated_at, 33);
    assert_eq!(s.completed, vec![todo(2, "b")]);
}

#[test]
fn token_precedence() {
    assert_eq!(token_setting(Some(" a "), Some("b")), Some(Ok("a".to_string())));
    assert_eq!(
        token_setting(Some(" "), Some("b")),
        Some(Err(SyncError::EmptyTokenSetting))
    );
    assert_eq!(token_setting(None, Some("b\n")), Some(Ok("b".to_string())));
    assert_eq!(token_setting(None, None), None);
}

#[test]
fn gist_file_lookup() {
    let files = vec![
        ("other.txt".to_string(), Some("x".to_string())),
        ("wundercli.json".to_string(), Some("{}".to_string())),
    ];
    assert_eq!(gist_file_content(files), Ok("{}".to_string()));
    assert_eq!(
        gist_file_content(vec![("wundercli.json".to_string(), None)]),
        Err(SyncError::NoGistFileContent)
    );
    assert_eq!(
        gist_file_content(vec![("a".to_string(), Some("x".to_string()))]),
        Err(SyncError::MissingGistFile)
    );
}

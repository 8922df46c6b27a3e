//! Reconciling the local todo files with the copy kept in a gist: which way
//! a sync goes, what it records, and the settings it needs.

use vstd::prelude::*;

use crate::text::{after_last, after_last_chars, append_chars, chars_of, string_of, trim, trim_chars};
use crate::todo::{views, Todo, TodoView};

verus! {

/// Name of the file in the gist that holds the todos.
pub const GIST_FILE_NAME: &'static str = "wundercli.json";

/// Environment variable naming the gist to sync with.
pub const GIST_ID_ENV_VAR: &'static str = "TODO_GIST_ID";

/// Environment variable holding the token for the gist API.
pub const GIST_TOKEN_ENV_VAR: &'static str = "TODO_GIST_TOKEN";

/// Environment variable read for a token when the previous one is unset.
pub const GITHUB_TOKEN_ENV_VAR: &'static str = "GITHUB_TOKEN";

/// Address of the gist API.
pub const GIST_API_BASE_URL: &'static str = "https://api.github.com/gists";

/// The gist to sync with and the token to reach it.
#[derive(Clone, Debug)]
pub struct SyncConfig {
    pub gist_id: String,
    pub token: String,
}

/// What the last sync recorded: the remote timestamp it saw and the
/// snapshot of the todos both sides held afterwards.
#[derive(Clone, Debug)]
pub struct SyncMeta {
    pub last_remote_updated_at: Option<u64>,
    pub last_snapshot: Option<String>,
}

/// The value of a [`SyncMeta`].
pub struct SyncMetaView {
    pub last_remote_updated_at: Option<u64>,
    pub last_snapshot: Option<Seq<char>>,
}

impl View for SyncMeta {
    type V = SyncMetaView;

    open spec fn view(&self) -> SyncMetaView {
        SyncMetaView {
            last_remote_updated_at: self.last_remote_updated_at,
            last_snapshot: match self.last_snapshot {
                Some(s) => Some(s@),
                None => None,
            },
        }
    }
}

impl Default for SyncMeta {
    /// Nothing recorded yet.
    fn default() -> (meta: SyncMeta)
        ensures
            meta.last_remote_updated_at is None,
            meta.last_snapshot is None,
    {
        SyncMeta { last_remote_updated_at: None, last_snapshot: None }
    }
}

impl SyncMeta {
    /// The record of a sync after which both sides hold the todos whose
    /// snapshot is `snapshot`, the remote one stamped `updated_at`.
    pub fn recorded(updated_at: u64, snapshot: String) -> (meta: SyncMeta)
        ensures
            meta.last_remote_updated_at == Some(updated_at),
            meta.last_snapshot == Some(snapshot),
    {
        SyncMeta { last_remote_updated_at: Some(updated_at), last_snapshot: Some(snapshot) }
    }
}

/// Which way a sync went.
#[derive(Clone, Copy, Debug, PartialEq, Eq, Structural)]
pub enum SyncOutcome {
    /// The remote todos replaced the local ones.
    Pulled,
    /// The local todos replaced the remote ones.
    Pushed,
    /// Both sides already held the same todos.
    Unchanged,
}

/// Why a sync goes the way it does.
#[derive(Clone, Copy, Debug, PartialEq, Eq, Structural)]
pub enum SyncRule {
    /// Both sides hold the same todos.
    InSync,
    /// Only the remote side changed since the last sync.
    RemoteChanged,
    /// Only the local side changed since the last sync.
    LocalChanged,
    /// Both changed, or nothing was recorded, and the remote side is newer.
    RemoteNewer,
    /// Both changed, or nothing was recorded, and the remote side is not newer.
    LocalNotOlder,
}

/// Which rule decides a sync, given the snapshots of the local and the
/// remote todos, the remote timestamp, the time the local files last
/// changed, and the record of the last sync. The sides agree: in sync.
/// The local side is as recorded, so only the gist was edited: the edit
/// becomes local. The remote side is as recorded, so only the local files
/// changed: they are pushed. Otherwise the timestamps decide.
pub open spec fn sync_rule(
    local: Seq<char>,
    remote: Seq<char>,
    remote_updated_at: u64,
    local_updated_at: u64,
    meta: SyncMetaView,
) -> SyncRule {
    if local == remote {
        SyncRule::InSync
    } else if meta.last_snapshot == Some(local) {
        SyncRule::RemoteChanged
    } else if meta.last_snapshot == Some(remote) {
        SyncRule::LocalChanged
    } else if remote_updated_at > local_updated_at {
        SyncRule::RemoteNewer
    } else {
        SyncRule::LocalNotOlder
    }
}

/// The way a sync decided by `rule` goes.
pub open spec fn outcome_of(rule: SyncRule) -> SyncOutcome {
    match rule {
        SyncRule::InSync => SyncOutcome::Unchanged,
        SyncRule::RemoteChanged | SyncRule::RemoteNewer => SyncOutcome::Pulled,
        SyncRule::LocalChanged | SyncRule::LocalNotOlder => SyncOutcome::Pushed,
    }
}

/// Which way a sync goes: nothing when both sides agree, the remote todos
/// replacing the local ones when only the remote side changed, the local
/// todos replacing the remote ones when only the local side changed, and
/// otherwise the newer side winning, a tie going to the local side.
pub open spec fn sync_direction(
    local: Seq<char>,
    remote: Seq<char>,
    remote_updated_at: u64,
    local_updated_at: u64,
    meta: SyncMetaView,
) -> SyncOutcome {
    outcome_of(sync_rule(local, remote, remote_updated_at, local_updated_at, meta))
}

impl SyncRule {
    /// The way a sync decided by this rule goes.
    pub fn outcome(&self) -> (outcome: SyncOutcome)
        ensures
            outcome == outcome_of(*self),
    {
        match self {
            SyncRule::InSync => SyncOutcome::Unchanged,
            SyncRule::RemoteChanged => SyncOutcome::Pulled,
            SyncRule::RemoteNewer => SyncOutcome::Pulled,
            SyncRule::LocalChanged => SyncOutcome::Pushed,
            SyncRule::LocalNotOlder => SyncOutcome::Pushed,
        }
    }
}

fn same_snapshot(a: &Option<String>, b: &String) -> (r: bool)
    ensures
        r == (match a {
            Some(s) => s@ == b@,
            None => false,
        }),
{
    match a {
        Some(s) => s.eq(b),
        None => false,
    }
}

/// Decides which rule a sync follows, and so which way it goes.
pub fn decide_sync(
    local_snapshot: &String,
    remote_snapshot: &String,
    remote_updated_at: u64,
    local_updated_at: u64,
    meta: &SyncMeta,
) -> (rule: SyncRule)
    ensures
        rule == sync_rule(
            local_snapshot@,
            remote_snapshot@,
            remote_updated_at,
            local_updated_at,
            meta@,
        ),
        local_snapshot@ == remote_snapshot@ ==> rule == SyncRule::InSync,
        local_snapshot@ != remote_snapshot@ && meta@.last_snapshot == Some(local_snapshot@)
            ==> rule == SyncRule::RemoteChanged,
        local_snapshot@ != remote_snapshot@ && meta@.last_snapshot == Some(remote_snapshot@)
            ==> rule == SyncRule::LocalChanged,
        local_snapshot@ != remote_snapshot@ && meta@.last_snapshot != Some(local_snapshot@)
            && meta@.last_snapshot != Some(remote_snapshot@) ==> (rule == SyncRule::RemoteNewer
            && remote_updated_at > local_updated_at) || (rule == SyncRule::LocalNotOlder
            && remote_updated_at <= local_updated_at),
{
    if local_snapshot.eq(remote_snapshot) {
        return SyncRule::InSync;
    }
    if same_snapshot(&meta.last_snapshot, local_snapshot) {
        return SyncRule::RemoteChanged;
    }
    if same_snapshot(&meta.last_snapshot, remote_snapshot) {
        return SyncRule::LocalChanged;
    }
    if remote_updated_at > local_updated_at {
        SyncRule::RemoteNewer
    } else {
        SyncRule::LocalNotOlder
    }
}

/// The todos, as a gist file holds them: a format version, the time of the
/// last change, and the active and completed lists.
pub struct SyncState {
    pub version: u32,
    pub updated_at: u64,
    pub active: Vec<Todo>,
    pub completed: Vec<Todo>,
}

/// The value of a [`SyncState`].
pub struct SyncStateView {
    pub version: u32,
    pub updated_at: u64,
    pub active: Seq<TodoView>,
    pub completed: Seq<TodoView>,
}

impl View for SyncState {
    type V = SyncStateView;

    open spec fn view(&self) -> SyncStateView {
        SyncStateView {
            version: self.version,
            updated_at: self.updated_at,
            active: views(self.active@),
            completed: views(self.completed@),
        }
    }
}

/// Format version of the gist file.
pub const SYNC_STATE_VERSION: u32 = 1;

/// The local todos as a gist file would hold them, stamped with the time the
/// local files last changed.
pub fn local_sync_state(
    active: Vec<Todo>,
    completed: Vec<Todo>,
    latest_local_update: u64,
) -> (state: SyncState)
    ensures
        state@ == (SyncStateView {
            version: SYNC_STATE_VERSION,
            updated_at: latest_local_update,
            active: views(active@),
            completed: views(completed@),
        }),
{
    SyncState { version: SYNC_STATE_VERSION, updated_at: latest_local_update, active, completed }
}

/// The record a sync leaves after `outcome`: the remote timestamp and
/// snapshot after a pull or when already in sync, the push time and the
/// pushed (local) snapshot after a push.
pub open spec fn record_after(
    outcome: SyncOutcome,
    local_snapshot: Seq<char>,
    remote_snapshot: Seq<char>,
    remote_updated_at: u64,
    pushed_at: u64,
) -> SyncMetaView {
    match outcome {
        SyncOutcome::Pushed => SyncMetaView {
            last_remote_updated_at: Some(pushed_at),
            last_snapshot: Some(local_snapshot),
        },
        _ => SyncMetaView {
            last_remote_updated_at: Some(remote_updated_at),
            last_snapshot: Some(remote_snapshot),
        },
    }
}

/// The lists the local files hold after a sync that went `outcome`: the
/// remote lists after a pull, else the local ones, untouched.
pub open spec fn local_after(
    outcome: SyncOutcome,
    local: SyncStateView,
    remote: SyncStateView,
) -> (Seq<TodoView>, Seq<TodoView>) {
    match outcome {
        SyncOutcome::Pulled => (remote.active, remote.completed),
        _ => (local.active, local.completed),
    }
}

/// What the gist holds after a sync that went `outcome`: after a push, the
/// local lists stamped with the push time; else the remote state, untouched.
pub open spec fn remote_after(
    outcome: SyncOutcome,
    local: SyncStateView,
    remote: SyncStateView,
    pushed_at: u64,
) -> SyncStateView {
    match outcome {
        SyncOutcome::Pushed => SyncStateView {
            version: SYNC_STATE_VERSION,
            updated_at: pushed_at,
            active: local.active,
            completed: local.completed,
        },
        _ => remote,
    }
}

/// What a sync does, once its direction is known: the lists to write to the
/// local files (after a pull), and the record to keep, unless a push is
/// still due ([`push_step`] gives the state to push and its record).
pub struct SyncPlan {
    pub rule: SyncRule,
    pub local_files: Option<(Vec<Todo>, Vec<Todo>)>,
    pub record: Option<SyncMeta>,
}

fn copy_todos(todos: &Vec<Todo>) -> (r: Vec<Todo>)
    ensures
        views(r@) == views(todos@),
{
    let mut r: Vec<Todo> = Vec::new();
    let mut i: usize = 0;
    while i < todos.len()
        invariant
            i <= todos@.len(),
            views(r@) == views(todos@).take(i as int),
        decreases todos@.len() - i,
    {
        let t = &todos[i];
        let ghost before = r@;
        r.push(Todo { id: t.id, text: t.text.clone() });
        assert(views(r@) == views(before).push(todos@[i as int]@));
        assert(views(todos@).take(i + 1) == views(todos@).take(i as int).push(
            views(todos@)[i as int],
        ));
        i += 1;
    }
    assert(views(todos@).take(todos@.len() as int) == views(todos@));
    r
}

/// Plans one sync between the local todos `local` and the gist's `remote`,
/// given their snapshots and the record of the last sync: which rule
/// applies; after a pull, the remote lists to write locally; and, unless a
/// push is due, the record to keep (the remote timestamp and snapshot).
pub fn sync_step(
    local: &SyncState,
    remote: &SyncState,
    local_snapshot: &String,
    remote_snapshot: &String,
    meta: &SyncMeta,
) -> (plan: SyncPlan)
    ensures
        plan.rule == sync_rule(
            local_snapshot@,
            remote_snapshot@,
            remote.updated_at,
            local.updated_at,
            meta@,
        ),
        match plan.local_files {
            Some((active, completed)) => outcome_of(plan.rule) == SyncOutcome::Pulled && (views(
                active@,
            ), views(completed@)) == local_after(outcome_of(plan.rule), local@, remote@),
            None => outcome_of(plan.rule) != SyncOutcome::Pulled,
        },
        match plan.record {
            Some(record) => outcome_of(plan.rule) != SyncOutcome::Pushed && record@
                == (SyncMetaView {
                last_remote_updated_at: Some(remote.updated_at),
                last_snapshot: Some(remote_snapshot@),
            }),
            None => outcome_of(plan.rule) == SyncOutcome::Pushed,
        },
{
    let rule = decide_sync(
        local_snapshot,
        remote_snapshot,
        remote.updated_at,
        local.updated_at,
        meta,
    );
    match rule.outcome() {
        SyncOutcome::Unchanged => SyncPlan {
            rule,
            local_files: None,
            record: Some(SyncMeta::recorded(remote.updated_at, remote_snapshot.clone())),
        },
        SyncOutcome::Pulled => SyncPlan {
            rule,
            local_files: Some((copy_todos(&remote.active), copy_todos(&remote.completed))),
            record: Some(SyncMeta::recorded(remote.updated_at, remote_snapshot.clone())),
        },
        SyncOutcome::Pushed => SyncPlan { rule, local_files: None, record: None },
    }
}

/// What a push sends and records: the local lists stamped with the push time
/// `pushed_at`, and a record of that time and the local snapshot.
pub fn push_step(local: &SyncState, local_snapshot: &String, pushed_at: u64) -> (r: (SyncState, SyncMeta))
    ensures
        r.0@ == remote_after(SyncOutcome::Pushed, local@, local@, pushed_at),
        r.1@ == record_after(
            SyncOutcome::Pushed,
            local_snapshot@,
            local_snapshot@,
            0,
            pushed_at,
        ),
{
    let state = SyncState {
        version: SYNC_STATE_VERSION,
        updated_at: pushed_at,
        active: copy_todos(&local.active),
        completed: copy_todos(&local.completed),
    };
    (state, SyncMeta::recorded(pushed_at, local_snapshot.clone()))
}

/// After any sync, both sides hold the same todos and the record names
/// them: for any way of taking snapshots of two lists, if the snapshots the
/// sync was given are those of the local and the remote lists, then the
/// snapshots of the local lists and of the gist's lists afterwards are
/// equal, the record holds that snapshot and the gist's timestamp, and an
/// immediate second sync finds both sides in sync, whatever the timestamps.
pub proof fn lemma_sync_converges(
    local: SyncStateView,
    remote: SyncStateView,
    meta: SyncMetaView,
    pushed_at: u64,
    next_local_updated_at: u64,
    snapshot: spec_fn(Seq<TodoView>, Seq<TodoView>) -> Seq<char>,
)
    ensures
        ({
            let sl = snapshot(local.active, local.completed);
            let sr = snapshot(remote.active, remote.completed);
            let outcome = sync_direction(sl, sr, remote.updated_at, local.updated_at, meta);
            let (la, lc) = local_after(outcome, local, remote);
            let gist = remote_after(outcome, local, remote, pushed_at);
            let record = record_after(outcome, sl, sr, remote.updated_at, pushed_at);
            &&& snapshot(la, lc) == snapshot(gist.active, gist.completed)
            &&& record.last_snapshot == Some(snapshot(la, lc))
            &&& record.last_remote_updated_at == Some(gist.updated_at)
            &&& sync_rule(
                snapshot(la, lc),
                snapshot(gist.active, gist.completed),
                gist.updated_at,
                next_local_updated_at,
                record,
            ) == SyncRule::InSync
        }),
{
}

/// The rule a sync follows, case by case, in terms of its inputs: equal
/// snapshots are in sync; otherwise a local side as recorded means the gist
/// changed (pull), a remote side as recorded means the local files changed
/// (push); and when neither side is as recorded, the remote side wins
/// exactly when its timestamp is later than the local files' change time,
/// whatever timestamp the record holds.
pub proof fn lemma_sync_rule_cases(
    local: Seq<char>,
    remote: Seq<char>,
    remote_updated_at: u64,
    local_updated_at: u64,
    meta: SyncMetaView,
)
    ensures
        local == remote ==> sync_rule(local, remote, remote_updated_at, local_updated_at, meta)
            == SyncRule::InSync,
        local != remote && meta.last_snapshot == Some(local) ==> sync_rule(
            local,
            remote,
            remote_updated_at,
            local_updated_at,
            meta,
        ) == SyncRule::RemoteChanged,
        local != remote && meta.last_snapshot == Some(remote) ==> sync_rule(
            local,
            remote,
            remote_updated_at,
            local_updated_at,
            meta,
        ) == SyncRule::LocalChanged,
        local != remote && meta.last_snapshot != Some(local) && meta.last_snapshot != Some(remote)
            && remote_updated_at > local_updated_at ==> sync_rule(
            local,
            remote,
            remote_updated_at,
            local_updated_at,
            meta,
        ) == SyncRule::RemoteNewer,
        local != remote && meta.last_snapshot != Some(local) && meta.last_snapshot != Some(remote)
            && remote_updated_at <= local_updated_at ==> sync_rule(
            local,
            remote,
            remote_updated_at,
            local_updated_at,
            meta,
        ) == SyncRule::LocalNotOlder,
{
}

/// Only the snapshots, the two timestamps and the recorded snapshot decide a
/// sync: two records that differ only in the remote timestamp they hold
/// lead to the same rule.
pub proof fn lemma_sync_rule_ignores_recorded_time(
    local: Seq<char>,
    remote: Seq<char>,
    remote_updated_at: u64,
    local_updated_at: u64,
    meta: SyncMetaView,
    other_time: Option<u64>,
)
    ensures
        sync_rule(local, remote, remote_updated_at, local_updated_at, meta) == sync_rule(
            local,
            remote,
            remote_updated_at,
            local_updated_at,
            SyncMetaView { last_remote_updated_at: other_time, last_snapshot: meta.last_snapshot },
        ),
{
}

/// A gist edited by hand since the last sync, while the local files were
/// not changed, is pulled: the manual edits become local state.
pub proof fn lemma_remote_edit_is_pulled(
    local: Seq<char>,
    remote: Seq<char>,
    remote_updated_at: u64,
    local_updated_at: u64,
    meta: SyncMetaView,
)
    requires
        local != remote,
        meta.last_snapshot == Some(local),
    ensures
        sync_direction(local, remote, remote_updated_at, local_updated_at, meta)
            == SyncOutcome::Pulled,
{
}

/// Local changes made since the last sync, while the gist was not edited,
/// are pushed: they are never overwritten by the unchanged remote copy.
pub proof fn lemma_local_edit_is_pushed(
    local: Seq<char>,
    remote: Seq<char>,
    remote_updated_at: u64,
    local_updated_at: u64,
    meta: SyncMetaView,
)
    requires
        local != remote,
        meta.last_snapshot == Some(remote),
    ensures
        sync_direction(local, remote, remote_updated_at, local_updated_at, meta)
            == SyncOutcome::Pushed,
{
}

/// Why synchronisation could not be set up or run.
#[derive(Clone, Debug, PartialEq, Eq)]
pub enum SyncError {
    /// The gist id variable is set to only whitespace.
    EmptyGistIdSetting,
    /// The stored configuration names a gist id of only whitespace.
    EmptyStoredGistId,
    /// No gist is configured.
    NoGistConfigured,
    /// The token variable is set to only whitespace.
    EmptyTokenSetting,
    /// The GitHub command line printed only whitespace as the token.
    EmptyGhToken,
    /// No gist id could be read from the address the GitHub command line printed.
    UnparsableGistUrl(String),
    /// The gist holds no file of the expected name.
    MissingGistFile,
    /// The gist's file came without content.
    NoGistFileContent,
    /// `sync` was followed by something other than `once`.
    UnknownSubcommand(String),
    /// Reading, writing or reaching something failed, as described.
    Failed(String),
}

/// `value` trimmed, or `None` when that leaves nothing.
fn trimmed_nonempty(value: &str) -> (r: Option<String>)
    ensures
        match r {
            Some(t) => trim(value@).len() != 0 && t@ == trim(value@),
            None => trim(value@).len() == 0,
        },
{
    let t = trim_chars(&chars_of(value));
    if t.len() == 0 {
        None
    } else {
        Some(string_of(&t))
    }
}

/// The gist id given by the gist id variable's value: trimmed, and not empty.
pub fn gist_id_from_env(value: &str) -> (r: Result<String, SyncError>)
    ensures
        match r {
            Ok(id) => trim(value@).len() != 0 && id@ == trim(value@),
            Err(e) => trim(value@).len() == 0 && e == SyncError::EmptyGistIdSetting,
        },
{
    match trimmed_nonempty(value) {
        Some(id) => Ok(id),
        None => Err(SyncError::EmptyGistIdSetting),
    }
}

/// The gist id stored in the configuration file, which must not be only
/// whitespace; it is used as stored.
pub fn gist_id_from_stored(stored: String) -> (r: Result<String, SyncError>)
    ensures
        match r {
            Ok(id) => trim(stored@).len() != 0 && id == stored,
            Err(e) => trim(stored@).len() == 0 && e == SyncError::EmptyStoredGistId,
        },
{
    let t = trim_chars(&chars_of(stored.as_str()));
    if t.len() == 0 {
        Err(SyncError::EmptyStoredGistId)
    } else {
        Ok(stored)
    }
}

/// The gist id the configuration names, if any.
pub fn configured_gist_id(gist_id: Option<String>) -> (r: Result<String, SyncError>)
    ensures
        match gist_id {
            Some(id) => r == Ok::<String, SyncError>(id),
            None => r == Err::<String, SyncError>(SyncError::NoGistConfigured),
        },
{
    match gist_id {
        Some(id) => Ok(id),
        None => Err(SyncError::NoGistConfigured),
    }
}

/// The token given by a token variable's value: trimmed, and not empty.
pub fn token_from_env(value: &str) -> (r: Result<String, SyncError>)
    ensures
        match r {
            Ok(t) => trim(value@).len() != 0 && t@ == trim(value@),
            Err(e) => trim(value@).len() == 0 && e == SyncError::EmptyTokenSetting,
        },
{
    match trimmed_nonempty(value) {
        Some(t) => Ok(t),
        None => Err(SyncError::EmptyTokenSetting),
    }
}

/// What a token variable's value gives: the value trimmed, or an error
/// when that leaves nothing.
pub open spec fn token_result(value: Seq<char>, r: Result<String, SyncError>) -> bool {
    match r {
        Ok(t) => trim(value).len() != 0 && t@ == trim(value),
        Err(e) => trim(value).len() == 0 && e == SyncError::EmptyTokenSetting,
    }
}

/// The token the environment gives, from the values of the gist token
/// variable and of the GitHub token variable (`None`: not set): the first
/// of them that is set decides, even if it holds only whitespace; `None`
/// when neither is set, and the GitHub command line is to be asked.
pub fn token_setting(gist_token: Option<&str>, github_token: Option<&str>) -> (r: Option<
    Result<String, SyncError>,
>)
    ensures
        match gist_token {
            Some(v) => r matches Some(x) && token_result(v@, x),
            None => match github_token {
                Some(v) => r matches Some(x) && token_result(v@, x),
                None => r is None,
            },
        },
{
    match gist_token {
        Some(v) => Some(token_from_env(v)),
        None => match github_token {
            Some(v) => Some(token_from_env(v)),
            None => None,
        },
    }
}

/// `i` is the position of the first file named like the gist's todo file.
pub open spec fn is_first_gist_file(files: Seq<(String, Option<String>)>, i: int) -> bool {
    &&& 0 <= i < files.len()
    &&& files[i].0@ == GIST_FILE_NAME@
    &&& forall|j: int| 0 <= j < i ==> files[j].0@ != GIST_FILE_NAME@
}

/// The content of the gist's todo file, given the gist's files as (name,
/// content) pairs: an error when no file has that name or when the file
/// came without content.
pub fn gist_file_content(gist_files: Vec<(String, Option<String>)>) -> (r: Result<String, SyncError>)
    ensures
        (forall|i: int| 0 <= i < gist_files@.len() ==> gist_files@[i].0@ != GIST_FILE_NAME@) ==> r
            == Err::<String, SyncError>(SyncError::MissingGistFile),
        forall|i: int|
            is_first_gist_file(gist_files@, i) ==> match gist_files@[i].1 {
                Some(c) => r == Ok::<String, SyncError>(c),
                None => r == Err::<String, SyncError>(SyncError::NoGistFileContent),
            },
{
    let name = chars_of(GIST_FILE_NAME);
    let ghost all = gist_files@;
    let mut files = gist_files;
    let mut i: usize = 0;
    while i < files.len()
        invariant
            i <= files@.len(),
            files@ == all,
            all == gist_files@,
            name@ == GIST_FILE_NAME@,
            forall|j: int| 0 <= j < i ==> files@[j].0@ != GIST_FILE_NAME@,
        decreases files@.len() - i,
    {
        let n = chars_of(files[i].0.as_str());
        if crate::text::same_chars(&n, name.as_slice()) {
            assert(is_first_gist_file(all, i as int));
            let entry = files.swap_remove(i);
            assert forall|k: int| is_first_gist_file(all, k) implies k == i by {
                if k < i {
                    assert(all[k].0@ != GIST_FILE_NAME@);
                } else if k > i {
                    assert(all[i as int].0@ != GIST_FILE_NAME@);
                }
            }
            return match entry.1 {
                Some(c) => Ok(c),
                None => Err(SyncError::NoGistFileContent),
            };
        }
        i += 1;
    }
    Err(SyncError::MissingGistFile)
}

/// The token printed by `gh auth token`: its output trimmed, and not empty.
pub fn token_from_gh_output(stdout: &str) -> (r: Result<String, SyncError>)
    ensures
        match r {
            Ok(t) => trim(stdout@).len() != 0 && t@ == trim(stdout@),
            Err(e) => trim(stdout@).len() == 0 && e == SyncError::EmptyGhToken,
        },
{
    match trimmed_nonempty(stdout) {
        Some(t) => Ok(t),
        None => Err(SyncError::EmptyGhToken),
    }
}

/// The id of the gist that `gh gist create` made, read from the address it
/// printed: the part after the last `/` of the trimmed output, which must
/// not be empty.
pub fn gist_id_from_gh_output(stdout: &str) -> (r: Result<String, SyncError>)
    ensures
        ({
            let url = trim(stdout@);
            let id = after_last(url, '/');
            match r {
                Ok(g) => id.len() != 0 && g@ == id,
                Err(SyncError::UnparsableGistUrl(u)) => id.len() == 0 && u@ == url,
                Err(_) => false,
            }
        }),
{
    let url = trim_chars(&chars_of(stdout));
    let id = after_last_chars(&url, '/');
    if id.len() == 0 {
        Err(SyncError::UnparsableGistUrl(string_of(&url)))
    } else {
        Ok(string_of(&id))
    }
}

/// The API address of the gist `gist_id`.
pub fn gist_url(gist_id: &str) -> (url: String)
    ensures
        url@ == GIST_API_BASE_URL@ + seq!['/'] + gist_id@,
{
    let mut out = chars_of(GIST_API_BASE_URL);
    out.push('/');
    append_chars(&mut out, chars_of(gist_id).as_slice());
    string_of(&out)
}

/// Whether the sync arguments `args` ask for one sync: none, or `once`.
pub open spec fn sync_once_args(args: Seq<Seq<char>>) -> bool {
    args.len() == 0 || args[0] == seq!['o', 'n', 'c', 'e']
}

/// Runs the `sync` command given its further arguments, once the sync
/// configuration has been looked up: the configuration to sync with, or the
/// error of the lookup, or an unknown subcommand.
pub fn run_sync_command(config: Result<SyncConfig, SyncError>, args: &Vec<String>) -> (r: Result<
    SyncConfig,
    SyncError,
>)
    ensures
        match config {
            Err(e) => r == Err::<SyncConfig, SyncError>(e),
            Ok(c) => if sync_once_args(crate::cli::arg_chars(args@)) {
                r == Ok::<SyncConfig, SyncError>(c)
            } else {
                r matches Err(SyncError::UnknownSubcommand(other)) && other@ == args@[0]@
            },
        },
{
    let config = match config {
        Ok(c) => c,
        Err(e) => return Err(e),
    };
    if args.len() == 0 {
        return Ok(config);
    }
    let first = chars_of(args[0].as_str());
    let once = ['o', 'n', 'c', 'e'];
    assert(once@ == seq!['o', 'n', 'c', 'e']);
    if crate::text::same_chars(&first, &once) {
        Ok(config)
    } else {
        Err(SyncError::UnknownSubcommand(args[0].clone()))
    }
}

/// Whether synchronisation is configured, given the result of looking up
/// its configuration.
pub fn sync_configured(config: &Result<SyncConfig, SyncError>) -> (configured: bool)
    ensures
        configured == config is Ok,
{
    config.is_ok()
}

} // verus!

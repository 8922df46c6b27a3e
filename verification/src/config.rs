//! Settings read from the environment: flags, paths under the home
//! directory, the archive file and the completion sound.

use vstd::prelude::*;

use crate::text::{
    append_chars, chars_of, eq_ignore_ascii_case, eq_ignore_ascii_case_chars, string_of, trim, trim_chars,
};
use crate::DATA_DIR;

verus! {

/// Whether a flag variable with value `value` is on (`None`: not set): set
/// to something other than, once trimmed, nothing, `0`, `false` or `off`
/// (the last two in any ASCII case).
pub open spec fn flag_on(value: Option<Seq<char>>) -> bool {
    match value {
        None => false,
        Some(v) => {
            let t = trim(v);
            &&& t.len() != 0
            &&& t != seq!['0']
            &&& !eq_ignore_ascii_case(t, seq!['f', 'a', 'l', 's', 'e'])
            &&& !eq_ignore_ascii_case(t, seq!['o', 'f', 'f'])
        },
    }
}

pub open spec fn opt_view(value: Option<&str>) -> Option<Seq<char>> {
    match value {
        None => None,
        Some(v) => Some(v@),
    }
}

/// Whether the flag variable whose value is `value` is on.
pub fn env_flag(value: Option<&str>) -> (on: bool)
    ensures
        on == flag_on(opt_view(value)),
{
    match value {
        None => false,
        Some(v) => {
            let t = trim_chars(&chars_of(v));
            let zero = t.len() == 1 && t[0] == '0';
            proof {
                if zero {
                    assert(t@ == seq!['0']);
                }
            }
            let word_false = ['f', 'a', 'l', 's', 'e'];
            let word_off = ['o', 'f', 'f'];
            assert(word_false@ == seq!['f', 'a', 'l', 's', 'e']);
            assert(word_off@ == seq!['o', 'f', 'f']);
            t.len() != 0 && !zero && !eq_ignore_ascii_case_chars(&t, &word_false)
                && !eq_ignore_ascii_case_chars(&t, &word_off)
        },
    }
}

/// `base` extended by `part` the way `PathBuf::push` does on Unix: an
/// absolute `part` replaces `base`; otherwise a `/` separates the two unless
/// `base` is empty or already ends with one.
pub open spec fn join_path(base: Seq<char>, part: Seq<char>) -> Seq<char> {
    if part.len() > 0 && part[0] == '/' {
        part
    } else if base.len() > 0 && base.last() != '/' {
        base + seq!['/'] + part
    } else {
        base + part
    }
}

fn join_path_chars(base: &Vec<char>, part: &Vec<char>) -> (r: Vec<char>)
    ensures
        r@ == join_path(base@, part@),
{
    let mut r: Vec<char> = Vec::new();
    if part.len() > 0 && part[0] == '/' {
        append_chars(&mut r, part.as_slice());
        return r;
    }
    append_chars(&mut r, base.as_slice());
    if base.len() > 0 && base[base.len() - 1] != '/' {
        r.push('/');
    }
    append_chars(&mut r, part.as_slice());
    r
}

/// The directory that holds the data files, under home directory `home`.
pub fn data_dir(home: &str) -> (dir: String)
    ensures
        dir@ == join_path(home@, DATA_DIR@),
{
    string_of(&join_path_chars(&chars_of(home), &chars_of(DATA_DIR)))
}

/// The data file `name`, under home directory `home`.
pub fn data_file(home: &str, name: &str) -> (path: String)
    ensures
        path@ == join_path(join_path(home@, DATA_DIR@), name@),
{
    let dir = join_path_chars(&chars_of(home), &chars_of(DATA_DIR));
    string_of(&join_path_chars(&dir, &chars_of(name)))
}

/// Why a setting could not be used.
#[derive(Clone, Copy, Debug, PartialEq, Eq, Structural)]
pub enum SettingError {
    /// A path starts with `~` but the home directory is unknown.
    HomeNotFound,
    /// The archive path variable is set but holds only whitespace.
    EmptyArchivePath,
}

/// `path` with a leading `~` (alone, or followed by `/`) standing for the
/// home directory `home`; `None` when that is needed but `home` is unknown.
pub open spec fn expand_home_spec(path: Seq<char>, home: Option<Seq<char>>) -> Option<Seq<char>> {
    if path == seq!['~'] {
        home
    } else if path.len() >= 2 && path[0] == '~' && path[1] == '/' {
        match home {
            Some(h) => Some(join_path(h, path.skip(2))),
            None => None,
        }
    } else {
        Some(path)
    }
}

fn expand_home_chars(path: &Vec<char>, home: Option<&str>) -> (r: Option<Vec<char>>)
    ensures
        match r {
            Some(p) => expand_home_spec(path@, opt_view(home)) == Some(p@),
            None => expand_home_spec(path@, opt_view(home)) is None,
        },
{
    let len = path.len();
    if len == 1 && path[0] == '~' {
        assert(path@ == seq!['~']);
        return match home {
            Some(h) => Some(chars_of(h)),
            None => None,
        };
    }
    assert(path@ != seq!['~']);
    if len >= 2 && path[0] == '~' && path[1] == '/' {
        return match home {
            Some(h) => {
                let rest = crate::text::sub_chars(path, 2, len);
                assert(rest@ == path@.skip(2));
                Some(join_path_chars(&chars_of(h), &rest))
            },
            None => None,
        };
    }
    let len = path.len();
    assert(path@.subrange(0, len as int) == path@);
    Some(crate::text::sub_chars(path, 0, len))
}

/// `path` with a leading `~` (alone, or followed by `/`) replaced by the
/// home directory `home`.
pub fn expand_home(path: &str, home: Option<&str>) -> (r: Result<String, SettingError>)
    ensures
        match r {
            Ok(p) => expand_home_spec(path@, opt_view(home)) == Some(p@),
            Err(e) => e == SettingError::HomeNotFound && expand_home_spec(path@, opt_view(home))
                is None,
        },
{
    match expand_home_chars(&chars_of(path), home) {
        Some(p) => Ok(string_of(&p)),
        None => Err(SettingError::HomeNotFound),
    }
}

/// The archive file chosen by the archive path variable, whose value is
/// `value` (`None`: not set): none when unset, an error when set to only
/// whitespace, else the trimmed value with `~` expanded.
pub fn archive_file(value: Option<&str>, home: Option<&str>) -> (r: Result<
    Option<String>,
    SettingError,
>)
    ensures
        match value {
            None => r == Ok::<Option<String>, SettingError>(None),
            Some(v) => {
                let t = trim(v@);
                if t.len() == 0 {
                    r == Err::<Option<String>, SettingError>(SettingError::EmptyArchivePath)
                } else {
                    match expand_home_spec(t, opt_view(home)) {
                        Some(p) => r matches Ok(Some(q)) && q@ == p,
                        None => r == Err::<Option<String>, SettingError>(
                            SettingError::HomeNotFound,
                        ),
                    }
                }
            },
        },
{
    match value {
        None => Ok(None),
        Some(v) => {
            let t = trim_chars(&chars_of(v));
            if t.len() == 0 {
                return Err(SettingError::EmptyArchivePath);
            }
            match expand_home_chars(&t, home) {
                Some(p) => Ok(Some(string_of(&p))),
                None => Err(SettingError::HomeNotFound),
            }
        },
    }
}

/// Which sound to play when a todo is completed.
#[derive(Clone, Debug, PartialEq, Eq)]
pub enum EndSound {
    /// No sound.
    Off,
    /// The sound file at this path.
    File(String),
    /// The bundled sound, kept in the data directory.
    Bundled,
}

/// The completion sound chosen by the end sound variable, whose value is
/// `value` (`None`: not set): the bundled sound when unset; none when set,
/// once trimmed, to nothing or to `off` in any ASCII case, or to a path
/// under an unknown home directory; else the trimmed path with `~` expanded.
pub fn end_sound_path(value: Option<&str>, home: Option<&str>) -> (r: EndSound)
    ensures
        match value {
            None => r == EndSound::Bundled,
            Some(v) => {
                let t = trim(v@);
                if t.len() == 0 || eq_ignore_ascii_case(t, seq!['o', 'f', 'f']) {
                    r == EndSound::Off
                } else {
                    match expand_home_spec(t, opt_view(home)) {
                        Some(p) => r matches EndSound::File(q) && q@ == p,
                        None => r == EndSound::Off,
                    }
                }
            },
        },
{
    match value {
        None => EndSound::Bundled,
        Some(v) => {
            let t = trim_chars(&chars_of(v));
            let word_off = ['o', 'f', 'f'];
            assert(word_off@ == seq!['o', 'f', 'f']);
            if t.len() == 0 || eq_ignore_ascii_case_chars(&t, &word_off) {
                return EndSound::Off;
            }
            match expand_home_chars(&t, home) {
                Some(p) => EndSound::File(string_of(&p)),
                None => EndSound::Off,
            }
        },
    }
}

/// `path` with each `'` written as `'\''`, so that it can stand between
/// single quotes in a shell command.
pub open spec fn shell_quoted(path: Seq<char>) -> Seq<char>
    decreases path.len(),
{
    if path.len() == 0 {
        Seq::empty()
    } else {
        shell_quoted(path.drop_last()) + if path.last() == '\'' {
            seq!['\'', '\\', '\'', '\'']
        } else {
            seq![path.last()]
        }
    }
}

/// Quoting works character by character: the quoted form of two parts
/// put together is the two quoted forms put together.
pub proof fn lemma_shell_quoted_concat(p: Seq<char>, q: Seq<char>)
    ensures
        shell_quoted(p + q) == shell_quoted(p) + shell_quoted(q),
    decreases q.len(),
{
    if q.len() == 0 {
        assert(p + q == p);
        assert(shell_quoted(q) == Seq::<char>::empty());
    } else {
        lemma_shell_quoted_concat(p, q.drop_last());
        assert((p + q).drop_last() == p + q.drop_last());
        assert((p + q).last() == q.last());
    }
}

/// A path without `'` stands unchanged between the single quotes, spaces,
/// backslashes and all; only `'` is rewritten, as `'\''`.
pub proof fn lemma_shell_quoted_chars(p: Seq<char>)
    ensures
        (forall|i: int| 0 <= i < p.len() ==> p[i] != '\'') ==> shell_quoted(p) == p,
        shell_quoted(seq!['\'']) == seq!['\'', '\\', '\'', '\''],
    decreases p.len(),
{
    if p.len() > 0 {
        lemma_shell_quoted_chars(p.drop_last());
        if forall|i: int| 0 <= i < p.len() ==> p[i] != '\'' {
            assert forall|i: int| 0 <= i < p.drop_last().len() implies p.drop_last()[i] != '\'' by {
                assert(p.drop_last()[i] == p[i]);
            }
            assert(p.drop_last().push(p.last()) == p);
        }
    }
    let one = seq!['\''];
    assert(one.drop_last() == Seq::<char>::empty());
    assert(one.last() == '\'');
    assert(shell_quoted(Seq::<char>::empty()) == Seq::<char>::empty());
    assert(Seq::<char>::empty() + seq!['\'', '\\', '\'', '\''] == seq!['\'', '\\', '\'', '\'']);
}

/// What `sh` reads out of the text between a pair of single quotes: `'\''`
/// (close the quotes, an escaped quote, reopen them) stands for one `'`; any
/// other `'` would close the quotes, so the text does not read back as one
/// word (`None`); every other character, `\` and spaces included, stands for
/// itself.
pub open spec fn sh_unquote(s: Seq<char>) -> Option<Seq<char>>
    decreases s.len(),
{
    if s.len() == 0 {
        Some(Seq::empty())
    } else if s[0] == '\'' {
        if s.len() >= 4 && s[1] == '\\' && s[2] == '\'' && s[3] == '\'' {
            match sh_unquote(s.skip(4)) {
                Some(r) => Some(seq!['\''] + r),
                None => None,
            }
        } else {
            None
        }
    } else {
        match sh_unquote(s.drop_first()) {
            Some(r) => Some(seq![s[0]] + r),
            None => None,
        }
    }
}

proof fn lemma_sh_unquote_prefix(p: Seq<char>, q: Seq<char>, r: Seq<char>)
    requires
        forall|i: int| 0 <= i < p.len() ==> p[i] != '\'',
        sh_unquote(q) == Some(r),
    ensures
        sh_unquote(p + q) == Some(p + r),
    decreases p.len(),
{
    if p.len() > 0 {
        assert((p + q)[0] == p[0]);
        assert((p + q).drop_first() == p.drop_first() + q);
        lemma_sh_unquote_prefix(p.drop_first(), q, r);
        assert(p + r == seq![p[0]] + (p.drop_first() + r));
    } else {
        assert(p + q == q);
        assert(p + r == r);
    }
}

/// Read back the way `sh` reads single-quoted text, the quoted path is
/// exactly the path: the command plays the file at `path`.
pub proof fn lemma_shell_quoted_reads_back(path: Seq<char>)
    ensures
        sh_unquote(shell_quoted(path)) == Some(path),
    decreases path.len(),
{
    if path.len() > 0 {
        let c = path[0];
        let rest = path.drop_first();
        lemma_shell_quoted_reads_back(rest);
        lemma_shell_quoted_concat(seq![c], rest);
        assert(seq![c] + rest == path);
        assert(seq![c].drop_last() == Seq::<char>::empty());
        assert(shell_quoted(Seq::<char>::empty()) == Seq::<char>::empty());
        if c == '\'' {
            let q = seq!['\'', '\\', '\'', '\''] + shell_quoted(rest);
            assert(q.skip(4) == shell_quoted(rest));
            assert(q[0] == '\'' && q[1] == '\\' && q[2] == '\'' && q[3] == '\'');
        } else {
            assert(shell_quoted(seq![c]) == seq![c]);
            lemma_sh_unquote_prefix(seq![c], shell_quoted(rest), rest);
        }
    }
}

/// The shell command that plays the sound file at `path` in the background.
pub fn end_sound_command(path: &str) -> (command: String)
    ensures
        command@ == "nohup afplay '"@ + shell_quoted(path@) + "' >/dev/null 2>&1 </dev/null &"@,
        exists|quoted: Seq<char>|
            command@ == "nohup afplay '"@ + quoted + "' >/dev/null 2>&1 </dev/null &"@
                && #[trigger] sh_unquote(quoted) == Some(path@),
{
    let mut out = chars_of("nohup afplay '");
    let ghost head = out@;
    let p = chars_of(path);
    let mut i: usize = 0;
    while i < p.len()
        invariant
            i <= p@.len(),
            p@ == path@,
            out@ == head + shell_quoted(p@.take(i as int)),
        decreases p@.len() - i,
    {
        let c = p[i];
        assert(p@.take(i + 1).drop_last() == p@.take(i as int));
        if c == '\'' {
            append_chars(&mut out, &['\'', '\\', '\'', '\'']);
        } else {
            out.push(c);
        }
        i += 1;
    }
    assert(p@.take(p@.len() as int) == p@);
    let tail = chars_of("' >/dev/null 2>&1 </dev/null &");
    append_chars(&mut out, tail.as_slice());
    proof {
        lemma_shell_quoted_reads_back(path@);
    }
    string_of(&out)
}

} // verus!

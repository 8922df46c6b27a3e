//! The command line: which command the arguments ask for.

use vstd::prelude::*;

use crate::text::{append_chars, chars_of, parse_u32, parse_u32_chars, same_chars, string_of, trim, trim_chars};

verus! {

/// The characters of each argument.
pub open spec fn arg_chars(args: Seq<String>) -> Seq<Seq<char>> {
    args.map_values(|a: String| a@)
}

/// `--verbose` or `-v`.
pub open spec fn is_verbose_flag(a: Seq<char>) -> bool {
    a == seq!['-', '-', 'v', 'e', 'r', 'b', 'o', 's', 'e'] || a == seq!['-', 'v']
}

/// Some argument is a verbose flag.
pub open spec fn has_verbose_flag(args: Seq<Seq<char>>) -> bool {
    exists|i: int| 0 <= i < args.len() && is_verbose_flag(args[i])
}

/// The arguments that are not verbose flags, in order.
pub open spec fn without_flags(args: Seq<Seq<char>>) -> Seq<Seq<char>>
    decreases args.len(),
{
    if args.len() == 0 {
        Seq::empty()
    } else if is_verbose_flag(args.last()) {
        without_flags(args.drop_last())
    } else {
        without_flags(args.drop_last()).push(args.last())
    }
}

/// The words joined with single spaces (`<[String]>::join(" ")`).
pub open spec fn join_words(ws: Seq<Seq<char>>) -> Seq<char>
    decreases ws.len(),
{
    if ws.len() == 0 {
        Seq::empty()
    } else if ws.len() == 1 {
        ws[0]
    } else {
        join_words(ws.drop_last()) + seq![' '] + ws.last()
    }
}

/// A verbose flag counts wherever it stands: the command line has one
/// exactly when some argument, at any position, is `--verbose` or `-v`.
pub proof fn lemma_verbose_flag_anywhere(args: Seq<Seq<char>>)
    ensures
        has_verbose_flag(args) == exists|i: int|
            0 <= i < args.len() && (args[i] == seq!['-', '-', 'v', 'e', 'r', 'b', 'o', 's', 'e']
                || args[i] == seq!['-', 'v']),
{
}

/// One word joins to itself, and no words to nothing.
pub proof fn lemma_join_single(w: Seq<char>)
    ensures
        join_words(seq![w]) == w,
        join_words(Seq::<Seq<char>>::empty()) == Seq::<char>::empty(),
{
}

/// Joining two non-empty runs of words puts exactly one space between the
/// joined runs: the words are separated by single spaces throughout.
pub proof fn lemma_join_concat(a: Seq<Seq<char>>, b: Seq<Seq<char>>)
    requires
        a.len() > 0,
        b.len() > 0,
    ensures
        join_words(a + b) == join_words(a) + seq![' '] + join_words(b),
    decreases b.len(),
{
    if b.len() == 1 {
        assert((a + b).drop_last() == a);
        assert((a + b).last() == b[0]);
    } else {
        lemma_join_concat(a, b.drop_last());
        assert((a + b).drop_last() == a + b.drop_last());
        assert((a + b).last() == b.last());
    }
}

/// The joined text is as long as the words together plus one space between
/// each pair of neighbouring words.
pub proof fn lemma_join_len(ws: Seq<Seq<char>>)
    requires
        ws.len() > 0,
    ensures
        join_words(ws).len() == words_len(ws) + ws.len() - 1,
    decreases ws.len(),
{
    if ws.len() > 1 {
        lemma_join_len(ws.drop_last());
        let j = join_words(ws.drop_last()) + seq![' '] + ws.last();
        assert(join_words(ws) == j);
        assert(j.len() == join_words(ws.drop_last()).len() + 1 + ws.last().len());
        assert(words_len(ws) == words_len(ws.drop_last()) + ws.last().len());
    } else {
        assert(join_words(ws) == ws[0]);
        assert(ws.drop_last().len() == 0);
        assert(words_len(ws.drop_last()) == 0);
        assert(words_len(ws) == words_len(ws.drop_last()) + ws.last().len());
    }
}

/// The total length of the words.
pub open spec fn words_len(ws: Seq<Seq<char>>) -> nat
    decreases ws.len(),
{
    if ws.len() == 0 {
        0
    } else {
        words_len(ws.drop_last()) + ws.last().len()
    }
}

/// A command the program carries out.
#[derive(Clone, Debug, PartialEq, Eq)]
pub enum Command {
    /// Add a todo with this text.
    Add(String),
    /// Complete the todo with this identifier.
    End(u32),
    /// List the active todos.
    List,
    /// Synchronise, with these further arguments.
    Sync(Vec<String>),
    /// Set up synchronisation.
    Setup,
    /// Show the usage.
    Help,
}

/// The value of a [`Command`].
pub enum CommandView {
    Add(Seq<char>),
    End(u32),
    List,
    Sync(Seq<Seq<char>>),
    Setup,
    Help,
}

impl View for Command {
    type V = CommandView;

    open spec fn view(&self) -> CommandView {
        match self {
            Command::Add(t) => CommandView::Add(t@),
            Command::End(id) => CommandView::End(*id),
            Command::List => CommandView::List,
            Command::Sync(args) => CommandView::Sync(arg_chars(args@)),
            Command::Setup => CommandView::Setup,
            Command::Help => CommandView::Help,
        }
    }
}

/// Why the arguments do not form a command.
#[derive(Clone, Copy, Debug, PartialEq, Eq, Structural)]
pub enum UsageError {
    /// `add` without any text.
    MissingText,
    /// `end` without an identifier.
    MissingId,
    /// `end` with something other than a number.
    InvalidId,
}

/// The command that the arguments `args` (the program name first, verbose
/// flags already removed) ask for.
pub open spec fn command_of(args: Seq<Seq<char>>) -> Result<CommandView, UsageError> {
    if args.len() < 2 {
        Ok(CommandView::Help)
    } else {
        let c = args[1];
        if c == seq!['a', 'd', 'd'] || c == seq!['a'] {
            let text = trim(join_words(args.skip(2)));
            if text.len() == 0 {
                Err(UsageError::MissingText)
            } else {
                Ok(CommandView::Add(text))
            }
        } else if c == seq!['e', 'n', 'd'] || c == seq!['e'] {
            if args.len() < 3 {
                Err(UsageError::MissingId)
            } else {
                match parse_u32(args[2]) {
                    Some(id) => Ok(CommandView::End(id)),
                    None => Err(UsageError::InvalidId),
                }
            }
        } else if c == seq!['l', 'i', 's', 't'] || c == seq!['l'] {
            Ok(CommandView::List)
        } else if c == seq!['s', 'y', 'n', 'c'] {
            Ok(CommandView::Sync(args.skip(2)))
        } else if c == seq!['s', 'e', 't', 'u', 'p'] {
            Ok(CommandView::Setup)
        } else {
            Ok(CommandView::Help)
        }
    }
}

/// What a command line asks for: whether it holds a verbose flag, and the
/// command the other arguments form.
pub struct Invocation {
    pub verbose_flag: bool,
    pub command: Result<Command, UsageError>,
}

fn is_verbose_arg(a: &Vec<char>) -> (r: bool)
    ensures
        r == is_verbose_flag(a@),
{
    let long = ['-', '-', 'v', 'e', 'r', 'b', 'o', 's', 'e'];
    let short = ['-', 'v'];
    assert(long@ == seq!['-', '-', 'v', 'e', 'r', 'b', 'o', 's', 'e']);
    assert(short@ == seq!['-', 'v']);
    same_chars(a, &long) || same_chars(a, &short)
}

fn is_word(a: &Vec<char>, w: &[char]) -> (r: bool)
    ensures
        r == (a@ == w@),
{
    same_chars(a, w)
}

/// Reads the command line `args`, the program name first.
pub fn parse_command_line(args: &Vec<String>) -> (inv: Invocation)
    ensures
        inv.verbose_flag == has_verbose_flag(arg_chars(args@)),
        inv.verbose_flag == exists|i: int|
            0 <= i < args@.len() && (args@[i]@ == seq!['-', '-', 'v', 'e', 'r', 'b', 'o', 's', 'e']
                || args@[i]@ == seq!['-', 'v']),
        match inv.command {
            Ok(c) => command_of(without_flags(arg_chars(args@))) == Ok::<
                CommandView,
                UsageError,
            >(c@),
            Err(e) => command_of(without_flags(arg_chars(args@))) == Err::<
                CommandView,
                UsageError,
            >(e),
        },
{
    let ghost all = arg_chars(args@);
    let mut kept: Vec<String> = Vec::new();
    let mut kept_chars: Vec<Vec<char>> = Vec::new();
    let mut verbose = false;
    let mut i: usize = 0;
    while i < args.len()
        invariant
            i <= args@.len(),
            all == arg_chars(args@),
            arg_chars(kept@) == without_flags(all.take(i as int)),
            kept_chars@.len() == kept@.len(),
            forall|k: int| 0 <= k < kept@.len() ==> kept_chars@[k]@ == #[trigger] kept@[k]@,
            verbose == has_verbose_flag(all.take(i as int)),
        decreases args@.len() - i,
    {
        let a = chars_of(args[i].as_str());
        assert(all.take(i + 1).drop_last() == all.take(i as int));
        assert(all.take(i + 1).last() == a@);
        if is_verbose_arg(&a) {
            verbose = true;
        } else {
            let ghost before = kept@;
            kept.push(args[i].clone());
            kept_chars.push(a);
            assert(arg_chars(kept@) == arg_chars(before).push(a@));
        }
        proof {
            let t0 = all.take(i as int);
            let t1 = all.take(i + 1);
            assert forall|k: int| 0 <= k < i implies t1[k] == t0[k] by {}
            assert(t1[i as int] == a@);
            if has_verbose_flag(t1) && !is_verbose_flag(a@) {
                let k = choose|k: int| 0 <= k < t1.len() && #[trigger] is_verbose_flag(t1[k]);
                assert(k < i);
                assert(is_verbose_flag(t0[k]));
            }
            if has_verbose_flag(t0) {
                let k = choose|k: int| 0 <= k < t0.len() && #[trigger] is_verbose_flag(t0[k]);
                assert(is_verbose_flag(t1[k]));
            }
        }
        i += 1;
    }
    assert(all.take(args@.len() as int) == all);
    proof {
        if verbose {
            let k = choose|k: int| 0 <= k < all.len() && #[trigger] is_verbose_flag(all[k]);
            assert(all[k] == args@[k]@);
            assert(args@[k]@ == seq!['-', '-', 'v', 'e', 'r', 'b', 'o', 's', 'e']
                || args@[k]@ == seq!['-', 'v']);
        } else {
            assert forall|k: int| 0 <= k < args@.len() implies !(args@[k]@ == seq![
                '-',
                '-',
                'v',
                'e',
                'r',
                'b',
                'o',
                's',
                'e',
            ] || args@[k]@ == seq!['-', 'v']) by {
                assert(all[k] == args@[k]@);
                if is_verbose_flag(args@[k]@) {
                    assert(is_verbose_flag(all[k]));
                }
            }
        }
    }
    let ghost f = without_flags(all);
    assert(f == arg_chars(kept@));
    let command = if kept.len() < 2 {
        Ok(Command::Help)
    } else {
        let c = &kept_chars[1];
        assert(c@ == f[1]);
        if is_word(c, &['a', 'd', 'd']) || is_word(c, &['a']) {
            assert(['a', 'd', 'd']@ == seq!['a', 'd', 'd']);
            assert(['a']@ == seq!['a']);
            let mut words: Vec<char> = Vec::new();
            let mut j: usize = 2;
            let ghost ws = f.skip(2);
            while j < kept.len()
                invariant
                    2 <= j <= kept@.len(),
                    f == arg_chars(kept@),
                    ws == f.skip(2),
                    kept_chars@.len() == kept@.len(),
                    forall|k: int| 0 <= k < kept@.len() ==> kept_chars@[k]@ == #[trigger] kept@[k]@,
                    words@ == join_words(ws.take(j - 2)),
                decreases kept@.len() - j,
            {
                let ghost prev = ws.take(j - 2);
                assert(ws.take(j - 1).drop_last() == prev);
                assert(ws.take(j - 1).last() == kept_chars@[j as int]@);
                if j > 2 {
                    words.push(' ');
                }
                append_chars(&mut words, kept_chars[j].as_slice());
                proof {
                    if j == 2 {
                        assert(ws.take(1) == seq![ws[0]]);
                    }
                }
                j += 1;
            }
            assert(ws.take(kept@.len() - 2) == ws);
            let text = trim_chars(&words);
            if text.len() == 0 {
                Err(UsageError::MissingText)
            } else {
                Ok(Command::Add(string_of(&text)))
            }
        } else if is_word(c, &['e', 'n', 'd']) || is_word(c, &['e']) {
            assert(['e', 'n', 'd']@ == seq!['e', 'n', 'd']);
            assert(['e']@ == seq!['e']);
            if kept.len() < 3 {
                Err(UsageError::MissingId)
            } else {
                match parse_u32_chars(&kept_chars[2]) {
                    Some(id) => Ok(Command::End(id)),
                    None => Err(UsageError::InvalidId),
                }
            }
        } else if is_word(c, &['l', 'i', 's', 't']) || is_word(c, &['l']) {
            assert(['l', 'i', 's', 't']@ == seq!['l', 'i', 's', 't']);
            assert(['l']@ == seq!['l']);
            Ok(Command::List)
        } else if is_word(c, &['s', 'y', 'n', 'c']) {
            assert(['s', 'y', 'n', 'c']@ == seq!['s', 'y', 'n', 'c']);
            let mut rest: Vec<String> = Vec::new();
            let mut j: usize = 2;
            while j < kept.len()
                invariant
                    2 <= j <= kept@.len(),
                    f == arg_chars(kept@),
                    arg_chars(rest@) == f.subrange(2, j as int),
                decreases kept@.len() - j,
            {
                let ghost before = rest@;
                rest.push(kept[j].clone());
                assert(arg_chars(rest@) == arg_chars(before).push(kept@[j as int]@));
                j += 1;
            }
            Ok(Command::Sync(rest))
        } else if is_word(c, &['s', 'e', 't', 'u', 'p']) {
            assert(['s', 'e', 't', 'u', 'p']@ == seq!['s', 'e', 't', 'u', 'p']);
            Ok(Command::Setup)
        } else {
            assert(['a', 'd', 'd']@ == seq!['a', 'd', 'd']);
            assert(['a']@ == seq!['a']);
            assert(['e', 'n', 'd']@ == seq!['e', 'n', 'd']);
            assert(['e']@ == seq!['e']);
            assert(['l', 'i', 's', 't']@ == seq!['l', 'i', 's', 't']);
            assert(['l']@ == seq!['l']);
            assert(['s', 'y', 'n', 'c']@ == seq!['s', 'y', 'n', 'c']);
            assert(['s', 'e', 't', 'u', 'p']@ == seq!['s', 'e', 't', 'u', 'p']);
            Ok(Command::Help)
        }
    };
    Invocation { verbose_flag: verbose, command }
}

} // verus!

//! Todos, their identifiers, and the list operations of the command line.

use vstd::prelude::*;

use crate::text::{
    all_ws, chars_of, is_digit, is_first_index_of, lemma_decimal_digits, lemma_parse_decimal,
    lemma_trim_empty_iff_all_ws, decimal, is_blank, parse_u32, parse_u32_chars, push_decimal, split_once,
    split_once_chars, string_of, trim,
};

verus! {

/// One todo: a numeric identifier and its text.
#[derive(Clone, Debug, PartialEq, Eq)]
pub struct Todo {
    pub id: u32,
    pub text: String,
}

/// The mathematical value of a todo: its identifier and its characters.
pub struct TodoView {
    pub id: u32,
    pub text: Seq<char>,
}

impl View for Todo {
    type V = TodoView;

    open spec fn view(&self) -> TodoView {
        TodoView { id: self.id, text: self.text@ }
    }
}

/// The values of a list of todos.
pub open spec fn views(todos: Seq<Todo>) -> Seq<TodoView> {
    todos.map_values(|t: Todo| t@)
}

/// Whether some todo in `todos` carries identifier `id`.
pub open spec fn id_used(todos: Seq<Todo>, id: int) -> bool {
    exists|i: int| 0 <= i < todos.len() && todos[i].id == id
}

/// `n` is the smallest positive identifier that no todo in `todos` carries.
pub open spec fn is_lowest_free_id(todos: Seq<Todo>, n: int) -> bool {
    &&& 1 <= n
    &&& !id_used(todos, n)
    &&& forall|k: int| 1 <= k < n ==> id_used(todos, k)
}

/// Some identifier in `1..=u32::MAX` is still free.
pub open spec fn has_free_id(todos: Seq<Todo>) -> bool {
    exists|k: int| 1 <= k <= u32::MAX && !id_used(todos, k)
}

/// `s` is in ascending order.
pub open spec fn sorted_u32(s: Seq<u32>) -> bool {
    forall|i: int, j: int| 0 <= i <= j < s.len() ==> s[i] <= s[j]
}

/// Sorts the identifiers in ascending order (`slice::sort_unstable`).
#[verifier::external_body]
fn sort_ids(ids: &mut Vec<u32>)
    ensures
        final(ids)@.to_multiset() == old(ids)@.to_multiset(),
        sorted_u32(final(ids)@),
{
    ids.sort_unstable();
}

/// The identifier for a new todo: the smallest positive identifier that no
/// active todo carries.
pub fn next_active_id(active: &[Todo]) -> (next: u32)
    requires
        has_free_id(active@),
    ensures
        is_lowest_free_id(active@, next as int),
{
    let mut used_ids: Vec<u32> = Vec::new();
    let mut i: usize = 0;
    while i < active.len()
        invariant
            i <= active@.len(),
            used_ids@.len() == i,
            forall|j: int| 0 <= j < i ==> used_ids@[j] == active@[j].id,
        decreases active@.len() - i,
    {
        used_ids.push(active[i].id);
        i += 1;
    }
    let ghost unsorted = used_ids@;
    assert forall|x: u32| unsorted.contains(x) <==> id_used(active@, x as int) by {
        if id_used(active@, x as int) {
            let j = choose|j: int| 0 <= j < active@.len() && active@[j].id == x;
            assert(unsorted[j] == x);
        }
        if unsorted.contains(x) {
            let j = choose|j: int| 0 <= j < unsorted.len() && unsorted[j] == x;
            assert(active@[j].id == x);
        }
    }
    sort_ids(&mut used_ids);
    proof {
        broadcast use vstd::seq_lib::group_to_multiset_ensures;

        assert forall|x: u32| used_ids@.contains(x) <==> unsorted.contains(x) by {
            assert(used_ids@.contains(x) <==> used_ids@.to_multiset().count(x) > 0);
            assert(unsorted.contains(x) <==> unsorted.to_multiset().count(x) > 0);
        }
        assert forall|x: u32| used_ids@.contains(x) <==> id_used(active@, x as int) by {
            assert(used_ids@.contains(x) <==> unsorted.contains(x));
            assert(unsorted.contains(x) <==> id_used(active@, x as int));
        }
    }
    let mut next_id: u32 = 1;
    let mut j: usize = 0;
    while j < used_ids.len()
        invariant
            j <= used_ids@.len(),
            sorted_u32(used_ids@),
            has_free_id(active@),
            1 <= next_id,
            forall|x: u32| used_ids@.contains(x) <==> id_used(active@, x as int),
            forall|k: int| 1 <= k < next_id ==> id_used(active@, k),
            forall|m: int| 0 <= m < j ==> used_ids@[m] < next_id,
        ensures
            forall|m: int| 0 <= m < used_ids@.len() ==> used_ids@[m] != next_id,
            1 <= next_id,
            forall|k: int| 1 <= k < next_id ==> id_used(active@, k),
        decreases used_ids@.len() - j,
    {
        let id = used_ids[j];
        if id < next_id {
            j += 1;
            continue;
        }
        if id > next_id {
            assert forall|m: int| 0 <= m < used_ids@.len() implies used_ids@[m] != next_id by {
                if m >= j {
                    assert(used_ids@[j as int] <= used_ids@[m]);
                }
            }
            break;
        }
        assert(used_ids@.contains(id));
        if next_id == u32::MAX {
            assert(forall|k: int| 1 <= k <= u32::MAX ==> id_used(active@, k));
            assert(false);
        }
        next_id += 1;
        j += 1;
    }
    proof {
        if id_used(active@, next_id as int) {
            assert(used_ids@.contains(next_id));
        }
    }
    next_id
}

/// `text` with each line break replaced by a space, so that it fits on one
/// line (`str::replace('\n', " ")`).
pub open spec fn one_line_text(text: Seq<char>) -> Seq<char> {
    text.map_values(|c: char| if c == '\n' { ' ' } else { c })
}

/// The line that stores a todo: its identifier in decimal, `|`, and its
/// text on one line.
pub open spec fn line_of(t: TodoView) -> Seq<char> {
    decimal(t.id as nat) + seq!['|'] + one_line_text(t.text)
}

/// The line of a todo, position by position: the decimal identifier, then
/// `|` right after it, then the text with exactly its length, holding a
/// space where the text holds a line break and the text's own character
/// everywhere else.
pub proof fn lemma_line_of_positions(t: TodoView)
    ensures
        ({
            let d = decimal(t.id as nat);
            let line = line_of(t);
            &&& line.len() == d.len() + 1 + t.text.len()
            &&& line.take(d.len() as int) == d
            &&& line[d.len() as int] == '|'
            &&& forall|i: int|
                0 <= i < t.text.len() ==> line[d.len() + 1 + i] == if t.text[i] == '\n' {
                    ' '
                } else {
                    t.text[i]
                }
        }),
{
    let d = decimal(t.id as nat);
    let line = line_of(t);
    assert(line.take(d.len() as int) == d);
}

/// The contents of a todo file: one line per todo, each ended by `\n`.
pub open spec fn todo_file(todos: Seq<TodoView>) -> Seq<char>
    decreases todos.len(),
{
    if todos.len() == 0 {
        Seq::empty()
    } else {
        line_of(todos[0]) + seq!['\n'] + todo_file(todos.drop_first())
    }
}

fn push_todo_line(out: &mut Vec<char>, todo: &Todo)
    ensures
        final(out)@ == old(out)@ + line_of(todo@),
{
    let ghost start = out@;
    push_decimal(out, todo.id);
    out.push('|');
    let text = chars_of(todo.text.as_str());
    let ghost mid = out@;
    let mut i: usize = 0;
    while i < text.len()
        invariant
            i <= text@.len(),
            text@ == todo.text@,
            mid == start + decimal(todo.id as nat) + seq!['|'],
            out@ == mid + one_line_text(text@).take(i as int),
        decreases text@.len() - i,
    {
        let c = text[i];
        if c == '\n' {
            out.push(' ');
        } else {
            out.push(c);
        }
        assert(one_line_text(text@).take(i + 1) == one_line_text(text@).take(i as int).push(
            one_line_text(text@)[i as int],
        ));
        i += 1;
    }
    assert(one_line_text(text@).take(text@.len() as int) == one_line_text(text@));
}

/// The line that stores `todo`, without its line break.
pub fn todo_line(todo: &Todo) -> (line: String)
    ensures
        line@ == line_of(todo@),
        line@.len() == decimal(todo.id as nat).len() + 1 + todo.text@.len(),
        line@.take(decimal(todo.id as nat).len() as int) == decimal(todo.id as nat),
        line@[decimal(todo.id as nat).len() as int] == '|',
        forall|i: int|
            0 <= i < todo.text@.len() ==> line@[decimal(todo.id as nat).len() + 1 + i] == if todo.text@[i]
                == '\n' {
                ' '
            } else {
                todo.text@[i]
            },
{
    let mut out: Vec<char> = Vec::new();
    push_todo_line(&mut out, todo);
    proof {
        lemma_line_of_positions(todo@);
    }
    string_of(&out)
}

/// The contents of a todo file that holds `todos`, in order.
pub fn todo_file_contents(todos: &[Todo]) -> (contents: String)
    ensures
        contents@ == todo_file(views(todos@)),
{
    let ghost all = views(todos@);
    let mut out: Vec<char> = Vec::new();
    let mut i: usize = 0;
    assert(all.skip(0) == all);
    while i < todos.len()
        invariant
            i <= todos@.len(),
            all == views(todos@),
            out@ + todo_file(all.skip(i as int)) == todo_file(all),
        decreases todos@.len() - i,
    {
        assert(all.skip(i as int).drop_first() == all.skip(i + 1));
        assert(all.skip(i as int)[0] == todos@[i as int]@);
        push_todo_line(&mut out, &todos[i]);
        out.push('\n');
        i += 1;
    }
    assert(all.skip(i as int) == Seq::<TodoView>::empty());
    string_of(&out)
}

/// The contents of the active and the completed todo files.
pub fn write_all_todos(active: &[Todo], completed: &[Todo]) -> (files: (String, String))
    ensures
        files.0@ == todo_file(views(active@)),
        files.1@ == todo_file(views(completed@)),
{
    (todo_file_contents(active), todo_file_contents(completed))
}

/// `line` without the `\r` of a `\r\n` line ending.
pub open spec fn strip_cr(line: Seq<char>) -> Seq<char> {
    if line.len() > 0 && line.last() == '\r' {
        line.drop_last()
    } else {
        line
    }
}

/// The lines of `s` (`str::lines`), when `cur` has already been read of the
/// current line: lines end at `\n` or `\r\n`, which are not part of them, and
/// a final line ending adds no empty line.
pub open spec fn lines_from(s: Seq<char>, cur: Seq<char>) -> Seq<Seq<char>>
    decreases s.len(),
{
    if s.len() == 0 {
        if cur.len() == 0 {
            Seq::empty()
        } else {
            seq![cur]
        }
    } else if s[0] == '\n' {
        seq![strip_cr(cur)] + lines_from(s.drop_first(), Seq::empty())
    } else {
        lines_from(s.drop_first(), cur.push(s[0]))
    }
}

/// The lines of `s` (`str::lines`).
pub open spec fn lines(s: Seq<char>) -> Seq<Seq<char>> {
    lines_from(s, Seq::empty())
}

/// Why a line of a todo file could not be read.
#[derive(Clone, Copy, Debug, PartialEq, Eq, Structural)]
pub enum LineFault {
    /// The line holds no `|` between identifier and text.
    InvalidData,
    /// The part before the first `|` is not an unsigned 32-bit number.
    InvalidId,
}

/// What one line of a todo file holds.
pub enum LineContent {
    Blank,
    Entry(TodoView),
    Fault(LineFault),
}

/// How one line of a todo file reads: lines that trim to nothing are
/// skipped; otherwise the identifier is what precedes the first `|` and the
/// text is all that follows it.
pub open spec fn parse_line(line: Seq<char>) -> LineContent {
    if trim(line).len() == 0 {
        LineContent::Blank
    } else {
        match split_once(line, '|') {
            None => LineContent::Fault(LineFault::InvalidData),
            Some((id, text)) => match parse_u32(id) {
                None => LineContent::Fault(LineFault::InvalidId),
                Some(n) => LineContent::Entry(TodoView { id: n, text }),
            },
        }
    }
}

/// Reads the lines `ls`, the first of which has number `first`: the todos
/// in order, or the fault of the first bad line with its number.
pub open spec fn parse_lines(ls: Seq<Seq<char>>, first: nat) -> Result<
    Seq<TodoView>,
    (LineFault, nat),
>
    decreases ls.len(),
{
    if ls.len() == 0 {
        Ok(Seq::empty())
    } else {
        match parse_line(ls[0]) {
            LineContent::Blank => parse_lines(ls.drop_first(), first + 1),
            LineContent::Entry(t) => match parse_lines(ls.drop_first(), first + 1) {
                Ok(rest) => Ok(seq![t] + rest),
                Err(e) => Err(e),
            },
            LineContent::Fault(f) => Err((f, first)),
        }
    }
}

/// What reading a todo file with contents `s` gives; lines are numbered
/// from 1.
pub open spec fn parse_todo_file(s: Seq<char>) -> Result<Seq<TodoView>, (LineFault, nat)> {
    parse_lines(lines(s), 1)
}

/// A line of a todo file that could not be read, numbered from 1.
#[derive(Clone, Copy, Debug, PartialEq, Eq, Structural)]
pub struct TodoFileError {
    pub fault: LineFault,
    pub line: usize,
}

/// The character sequences of a list of character vectors.
pub open spec fn char_lines(r: Seq<Vec<char>>) -> Seq<Seq<char>> {
    r.map_values(|v: Vec<char>| v@)
}

/// The lines of `s`.
fn split_lines(s: &Vec<char>) -> (r: Vec<Vec<char>>)
    ensures
        char_lines(r@) == lines(s@),
{
    let mut out: Vec<Vec<char>> = Vec::new();
    let mut cur: Vec<char> = Vec::new();
    let mut i: usize = 0;
    assert(s@.skip(0) == s@);
    assert(char_lines(out@) == Seq::<Seq<char>>::empty());
    while i < s.len()
        invariant
            i <= s@.len(),
            char_lines(out@) + lines_from(s@.skip(i as int), cur@) == lines(s@),
        decreases s@.len() - i,
    {
        let ghost rest = s@.skip(i as int);
        assert(rest[0] == s@[i as int]);
        assert(rest.drop_first() == s@.skip(i + 1));
        let c = s[i];
        if c == '\n' {
            let ghost cur_before = cur@;
            let n = cur.len();
            if n > 0 && cur[n - 1] == '\r' {
                cur.pop();
            }
            assert(cur@ == strip_cr(cur_before));
            let ghost before = out@;
            out.push(cur);
            assert(char_lines(out@) == char_lines(before).push(strip_cr(cur_before)));
            assert(char_lines(out@) + lines_from(s@.skip(i + 1), Seq::empty()) == char_lines(
                before,
            ) + lines_from(rest, cur_before));
            cur = Vec::new();
        } else {
            cur.push(c);
        }
        i += 1;
    }
    assert(s@.skip(i as int) == Seq::<char>::empty());
    if cur.len() > 0 {
        let ghost before = out@;
        let ghost last = cur@;
        out.push(cur);
        assert(char_lines(out@) == char_lines(before).push(last));
    }
    out
}

fn parse_line_chars(line: &Vec<char>) -> (r: Result<Option<Todo>, LineFault>)
    ensures
        match r {
            Ok(None) => parse_line(line@) == LineContent::Blank,
            Ok(Some(t)) => parse_line(line@) == LineContent::Entry(t@),
            Err(f) => parse_line(line@) == LineContent::Fault(f),
        },
{
    if is_blank(line) {
        return Ok(None);
    }
    match split_once_chars(line, '|') {
        None => Err(LineFault::InvalidData),
        Some((id, text)) => match parse_u32_chars(&id) {
            None => Err(LineFault::InvalidId),
            Some(n) => Ok(Some(Todo { id: n, text: string_of(&text) })),
        },
    }
}

/// Reads a todo file: the todos it holds, in order, or the first line that
/// cannot be read.
pub fn parse_todos(contents: &str) -> (r: Result<Vec<Todo>, TodoFileError>)
    ensures
        match r {
            Ok(todos) => parse_todo_file(contents@) == Ok::<Seq<TodoView>, (LineFault, nat)>(
                views(todos@),
            ),
            Err(e) => parse_todo_file(contents@) == Err::<Seq<TodoView>, (LineFault, nat)>(
                (e.fault, e.line as nat),
            ),
        },
{
    let chars = chars_of(contents);
    let ls = split_lines(&chars);
    let ghost all = char_lines(ls@);
    let mut todos: Vec<Todo> = Vec::new();
    let mut i: usize = 0;
    assert(all.skip(0) == all);
    while i < ls.len()
        invariant
            i <= ls@.len(),
            all == char_lines(ls@),
            all == lines(contents@),
            match parse_lines(all.skip(i as int), (i + 1) as nat) {
                Ok(rest) => parse_lines(all, 1) == Ok::<Seq<TodoView>, (LineFault, nat)>(
                    views(todos@) + rest,
                ),
                Err(e) => parse_lines(all, 1) == Err::<Seq<TodoView>, (LineFault, nat)>(e),
            },
        decreases ls@.len() - i,
    {
        let ghost rest = all.skip(i as int);
        assert(rest[0] == ls@[i as int]@);
        assert(rest.drop_first() == all.skip(i + 1));
        match parse_line_chars(&ls[i]) {
            Ok(None) => {},
            Ok(Some(t)) => {
                let ghost before = todos@;
                todos.push(t);
                assert(views(todos@) == views(before) + seq![t@]);
                assert forall|r: Seq<TodoView>| views(todos@) + r == views(before) + (seq![t@] + r) by {
                    assert(views(todos@) + r =~= views(before) + (seq![t@] + r));
                }
            },
            Err(f) => {
                return Err(TodoFileError { fault: f, line: i + 1 });
            },
        }
        i += 1;
    }
    assert(all.skip(i as int) == Seq::<Seq<char>>::empty());
    assert(views(todos@) + Seq::<TodoView>::empty() == views(todos@));
    Ok(todos)
}

/// Which of the two todo files something concerns.
#[derive(Clone, Copy, Debug, PartialEq, Eq, Structural)]
pub enum TodoFileKind {
    Active,
    Completed,
}

/// Reads the active and the completed todo files, given their contents:
/// both lists, or the first error, the active file being read first.
pub fn read_all_todos(active_contents: &str, completed_contents: &str) -> (r: Result<
    (Vec<Todo>, Vec<Todo>),
    (TodoFileKind, TodoFileError),
>)
    ensures
        match r {
            Ok((active, completed)) => {
                &&& parse_todo_file(active_contents@) == Ok::<Seq<TodoView>, (LineFault, nat)>(
                    views(active@),
                )
                &&& parse_todo_file(completed_contents@) == Ok::<
                    Seq<TodoView>,
                    (LineFault, nat),
                >(views(completed@))
            },
            Err((TodoFileKind::Active, e)) => parse_todo_file(active_contents@) == Err::<
                Seq<TodoView>,
                (LineFault, nat),
            >((e.fault, e.line as nat)),
            Err((TodoFileKind::Completed, e)) => {
                &&& parse_todo_file(active_contents@) is Ok
                &&& parse_todo_file(completed_contents@) == Err::<Seq<TodoView>, (LineFault, nat)>(
                    (e.fault, e.line as nat),
                )
            },
        },
{
    let active = match parse_todos(active_contents) {
        Ok(v) => v,
        Err(e) => return Err((TodoFileKind::Active, e)),
    };
    let completed = match parse_todos(completed_contents) {
        Ok(v) => v,
        Err(e) => return Err((TodoFileKind::Completed, e)),
    };
    Ok((active, completed))
}

/// A todo as it reads back after being written: its text on one line.
pub open spec fn as_stored(t: TodoView) -> TodoView {
    TodoView { id: t.id, text: one_line_text(t.text) }
}

/// The text does not end with a carriage return, which a line break right
/// after it would swallow.
pub open spec fn storable_text(text: Seq<char>) -> bool {
    text.len() == 0 || text.last() != '\r'
}

proof fn lemma_lines_from_line(x: Seq<char>, rest: Seq<char>, cur: Seq<char>)
    requires
        forall|i: int| 0 <= i < x.len() ==> x[i] != '\n',
    ensures
        lines_from(x + seq!['\n'] + rest, cur) == seq![strip_cr(cur + x)] + lines_from(
            rest,
            Seq::empty(),
        ),
    decreases x.len(),
{
    let s = x + seq!['\n'] + rest;
    if x.len() == 0 {
        assert(s[0] == '\n');
        assert(s.drop_first() == rest);
        assert(cur + x == cur);
    } else {
        assert(s[0] == x[0]);
        assert(s.drop_first() == x.drop_first() + seq!['\n'] + rest);
        lemma_lines_from_line(x.drop_first(), rest, cur.push(x[0]));
        assert(cur.push(x[0]) + x.drop_first() == cur + x);
    }
}

proof fn lemma_line_shape(t: TodoView)
    requires
        storable_text(t.text),
    ensures
        forall|i: int| 0 <= i < line_of(t).len() ==> line_of(t)[i] != '\n',
        strip_cr(line_of(t)) == line_of(t),
        is_first_index_of(line_of(t), '|', decimal(t.id as nat).len() as int),
{
    let d = decimal(t.id as nat);
    let line = line_of(t);
    let o = one_line_text(t.text);
    lemma_decimal_digits(t.id as nat);
    assert forall|i: int| 0 <= i < line.len() implies line[i] != '\n' by {
        if i < d.len() {
            assert(line[i] == d[i]);
            assert(is_digit(d[i]));
        } else if i > d.len() {
            assert(line[i] == o[i - d.len() - 1]);
        }
    }
    assert forall|j: int| 0 <= j < d.len() implies line[j] != '|' by {
        assert(line[j] == d[j]);
        assert(is_digit(d[j]));
    }
    if o.len() > 0 {
        assert(line.last() == o.last());
    }
}

proof fn lemma_lines_of_file(todos: Seq<TodoView>)
    requires
        forall|i: int| 0 <= i < todos.len() ==> storable_text(#[trigger] todos[i].text),
    ensures
        lines(todo_file(todos)) == todos.map_values(|t: TodoView| line_of(t)),
    decreases todos.len(),
{
    if todos.len() > 0 {
        let rest = todos.drop_first();
        assert forall|i: int| 0 <= i < rest.len() implies storable_text(#[trigger] rest[i].text) by {
            assert(rest[i] == todos[i + 1]);
        }
        lemma_lines_of_file(rest);
        lemma_line_shape(todos[0]);
        lemma_lines_from_line(line_of(todos[0]), todo_file(rest), Seq::empty());
        assert(Seq::<char>::empty() + line_of(todos[0]) == line_of(todos[0]));
        assert(todos.map_values(|t: TodoView| line_of(t)) == seq![line_of(todos[0])]
            + rest.map_values(|t: TodoView| line_of(t)));
    } else {
        assert(todo_file(todos) == Seq::<char>::empty());
    }
}

proof fn lemma_parse_stored_line(t: TodoView)
    requires
        storable_text(t.text),
    ensures
        parse_line(line_of(t)) == LineContent::Entry(as_stored(t)),
{
    let d = decimal(t.id as nat);
    let line = line_of(t);
    lemma_line_shape(t);
    lemma_parse_decimal(t.id);
    lemma_trim_empty_iff_all_ws(line);
    assert(line[d.len() as int] == '|');
    assert(!all_ws(line));
    let k = choose|k: int| is_first_index_of(line, '|', k);
    assert(k == d.len()) by {
        if k < d.len() {
            assert(line[k] != '|');
        } else if k > d.len() {
            assert(line[d.len() as int] != '|');
        }
    }
    assert(line.take(k) == d);
    assert(line.skip(k + 1) == one_line_text(t.text));
}

proof fn lemma_parse_stored_lines(todos: Seq<TodoView>, first: nat)
    requires
        forall|i: int| 0 <= i < todos.len() ==> storable_text(#[trigger] todos[i].text),
    ensures
        parse_lines(todos.map_values(|t: TodoView| line_of(t)), first) == Ok::<
            Seq<TodoView>,
            (LineFault, nat),
        >(todos.map_values(|t: TodoView| as_stored(t))),
    decreases todos.len(),
{
    let ls = todos.map_values(|t: TodoView| line_of(t));
    if todos.len() > 0 {
        let rest = todos.drop_first();
        assert forall|i: int| 0 <= i < rest.len() implies storable_text(#[trigger] rest[i].text) by {
            assert(rest[i] == todos[i + 1]);
        }
        lemma_parse_stored_lines(rest, first + 1);
        lemma_parse_stored_line(todos[0]);
        assert(ls[0] == line_of(todos[0]));
        assert(ls.drop_first() == rest.map_values(|t: TodoView| line_of(t)));
        assert(todos.map_values(|t: TodoView| as_stored(t)) == seq![as_stored(todos[0])]
            + rest.map_values(|t: TodoView| as_stored(t)));
    } else {
        assert(todos.map_values(|t: TodoView| as_stored(t)) == Seq::<TodoView>::empty());
    }
}

/// Reading back what was written: a todo file written from `todos` reads
/// as the same todos, in the same order, each text on one line, provided no
/// text ends with a carriage return.
pub proof fn lemma_read_back_written(todos: Seq<TodoView>)
    requires
        forall|i: int| 0 <= i < todos.len() ==> storable_text(#[trigger] todos[i].text),
    ensures
        parse_todo_file(todo_file(todos)) == Ok::<Seq<TodoView>, (LineFault, nat)>(
            todos.map_values(|t: TodoView| as_stored(t)),
        ),
{
    lemma_lines_of_file(todos);
    lemma_parse_stored_lines(todos, 1);
}

/// Appending a todo's line to a todo file gives the file of the list with
/// that todo added at the end.
pub proof fn lemma_append_line(todos: Seq<TodoView>, t: TodoView)
    ensures
        todo_file(todos.push(t)) == todo_file(todos) + line_of(t) + seq!['\n'],
    decreases todos.len(),
{
    if todos.len() == 0 {
        assert(todos.push(t).drop_first() == Seq::<TodoView>::empty());
        assert(todo_file(Seq::<TodoView>::empty()) == Seq::<char>::empty());
        assert(todo_file(todos.push(t)) == line_of(t) + seq!['\n'] + Seq::<char>::empty());
    } else {
        lemma_append_line(todos.drop_first(), t);
        assert(todos.push(t).drop_first() == todos.drop_first().push(t));
        assert(todos.push(t)[0] == todos[0]);
    }
}

/// The identifier `next_active_id` picks depends only on which identifiers
/// are in use, not on the order or multiplicity of the todos: two lists that
/// use the same identifiers have the same lowest free identifier.
pub proof fn lemma_lowest_free_id_depends_only_on_ids(a: Seq<Todo>, b: Seq<Todo>, x: int, y: int)
    requires
        forall|k: int| id_used(a, k) <==> id_used(b, k),
        is_lowest_free_id(a, x),
        is_lowest_free_id(b, y),
    ensures
        x == y,
{
    if x < y {
        assert(id_used(b, x));
    } else if y < x {
        assert(id_used(a, y));
    }
}

/// A list with fewer than `u32::MAX` todos always leaves an identifier in
/// `1..=u32::MAX` free, so `next_active_id` can be called on it.
pub proof fn lemma_short_list_has_free_id(todos: Seq<Todo>)
    requires
        todos.len() < u32::MAX,
    ensures
        has_free_id(todos),
{
    let ids = todos.map_values(|t: Todo| t.id as int);
    let used = ids.to_set();
    let range = vstd::set_lib::set_int_range(1, u32::MAX + 1);
    ids.lemma_cardinality_of_set();
    vstd::set_lib::lemma_int_range(1, u32::MAX + 1);
    if !has_free_id(todos) {
        assert forall|k: int| range.contains(k) implies used.contains(k) by {
            assert(id_used(todos, k));
            let i = choose|i: int| 0 <= i < todos.len() && todos[i].id == k;
            assert(ids[i] == k);
        }
        assert(range.subset_of(used));
        vstd::seq_lib::seq_to_set_is_finite(ids);
        vstd::set_lib::lemma_len_subset(range, used);
        assert(false);
    }
}

/// No two todos in `todos` share an identifier.
pub open spec fn ids_distinct(todos: Seq<Todo>) -> bool {
    forall|i: int, j: int| 0 <= i < todos.len() && 0 <= j < todos.len() && i != j ==> todos[i].id
        != todos[j].id
}

/// `i` is the position of the first todo in `todos` with identifier `id`.
pub open spec fn is_first_with_id(todos: Seq<Todo>, id: u32, i: int) -> bool {
    &&& 0 <= i < todos.len()
    &&& todos[i].id == id
    &&& forall|j: int| 0 <= j < i ==> todos[j].id != id
}

/// Adds a todo with text `text` at the end of the active list, under the
/// lowest free identifier, and returns that identifier. Distinct
/// identifiers stay distinct.
pub fn add_todo(active: &mut Vec<Todo>, text: String) -> (id: u32)
    requires
        has_free_id(old(active)@),
    ensures
        is_lowest_free_id(old(active)@, id as int),
        final(active)@ == old(active)@.push(Todo { id, text }),
        ids_distinct(old(active)@) ==> ids_distinct(final(active)@),
{
    let id = next_active_id(active.as_slice());
    let ghost before = active@;
    active.push(Todo { id, text });
    proof {
        if ids_distinct(before) {
            assert forall|i: int, j: int|
                0 <= i < active@.len() && 0 <= j < active@.len() && i != j implies active@[i].id
                != active@[j].id by {
                if i == before.len() {
                    assert(before[j].id == active@[j].id);
                } else if j == before.len() {
                    assert(before[i].id == active@[i].id);
                }
            }
        }
    }
    id
}

/// Marks the first active todo with identifier `id` as done: removes it from
/// the active list and returns it, or returns `None`, leaving the list
/// alone, when no active todo has that identifier. Distinct identifiers stay
/// distinct.
pub fn complete_todo(active: &mut Vec<Todo>, id: u32) -> (done: Option<Todo>)
    ensures
        match done {
            Some(t) => exists|i: int|
                is_first_with_id(old(active)@, id, i) && t == old(active)@[i] && final(active)@
                    == old(active)@.remove(i),
            None => !id_used(old(active)@, id as int) && final(active)@ == old(active)@,
        },
        ids_distinct(old(active)@) ==> ids_distinct(final(active)@),
        ids_distinct(old(active)@) ==> !id_used(final(active)@, id as int),
{
    let mut i: usize = 0;
    while i < active.len()
        invariant
            i <= active@.len(),
            active@ == old(active)@,
            forall|j: int| 0 <= j < i ==> active@[j].id != id,
        decreases active@.len() - i,
    {
        if active[i].id == id {
            let ghost before = active@;
            let t = active.remove(i);
            proof {
                assert(is_first_with_id(before, id, i as int));
                if ids_distinct(before) {
                    if id_used(active@, id as int) {
                        let k = choose|k: int| 0 <= k < active@.len() && active@[k].id == id;
                        let k0 = if k < i { k } else { k + 1 };
                        assert(active@[k] == before[k0]);
                        assert(before[i as int].id == id);
                    }
                    assert forall|a: int, b: int|
                        0 <= a < active@.len() && 0 <= b < active@.len() && a != b implies active@[a].id
                        != active@[b].id by {
                        let a0 = if a < i { a } else { a + 1 };
                        let b0 = if b < i { b } else { b + 1 };
                        assert(active@[a] == before[a0]);
                        assert(active@[b] == before[b0]);
                    }
                }
            }
            return Some(t);
        }
        i += 1;
    }
    None
}

/// Completing a todo that was just added undoes the addition: it is the
/// first todo with the new identifier, so completing that identifier gives
/// back the added todo and leaves the list as it was.
pub proof fn lemma_complete_undoes_add(active: Seq<Todo>, added: Todo)
    requires
        is_lowest_free_id(active, added.id as int),
    ensures
        is_first_with_id(active.push(added), added.id, active.len() as int),
        active.push(added)[active.len() as int] == added,
        active.push(added).remove(active.len() as int) == active,
{
    let after = active.push(added);
    assert forall|j: int| 0 <= j < active.len() implies after[j].id != added.id by {
        assert(after[j] == active[j]);
    }
    assert(after.remove(active.len() as int) =~= active);
}

/// When the local todo files last changed: the later of the two files'
/// modification times (0 standing for a missing file).
pub fn latest_local_update(active_modified: u64, completed_modified: u64) -> (latest: u64)
    ensures
        latest == if active_modified >= completed_modified {
            active_modified
        } else {
            completed_modified
        },
{
    if active_modified >= completed_modified {
        active_modified
    } else {
        completed_modified
    }
}

} // verus!

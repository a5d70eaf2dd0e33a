use vstd::prelude::*;
use vstd::string::*;

use crate::world::{
    action_spec, query_spec, Action, ActionError, Direction, Karel, Query, QueryError,
    WorldView,
};

verus! {

/// Unicode white space, the characters that separate the words of a line.
pub open spec fn is_blank(c: char) -> bool {
    let n = c as u32;
    ||| 9 <= n <= 13
    ||| n == 32
    ||| n == 0x85
    ||| n == 0xA0
    ||| n == 0x1680
    ||| 0x2000 <= n <= 0x200A
    ||| n == 0x2028
    ||| n == 0x2029
    ||| n == 0x202F
    ||| n == 0x205F
    ||| n == 0x3000
}

fn is_blank_char(c: char) -> (r: bool)
    ensures
        r == is_blank(c),
{
    let n = c as u32;
    (9 <= n && n <= 13) || n == 32 || n == 0x85 || n == 0xA0 || n == 0x1680 || (0x2000 <= n && n
        <= 0x200A) || n == 0x2028 || n == 0x2029 || n == 0x202F || n == 0x205F || n == 0x3000
}

/// The words of `s` from position `i` on, given the word `cur` being read and the
/// words `acc` already complete.
pub open spec fn words_from(s: Seq<char>, i: int, cur: Seq<char>, acc: Seq<Seq<char>>) -> Seq<
    Seq<char>,
>
    decreases s.len() - i,
{
    if i >= s.len() {
        if cur.len() > 0 {
            acc.push(cur)
        } else {
            acc
        }
    } else if is_blank(s[i]) {
        words_from(
            s,
            i + 1,
            Seq::empty(),
            if cur.len() > 0 {
                acc.push(cur)
            } else {
                acc
            },
        )
    } else {
        words_from(s, i + 1, cur.push(s[i]), acc)
    }
}

/// The maximal runs of non-blank characters of `s`, in order.
pub open spec fn words(s: Seq<char>) -> Seq<Seq<char>> {
    words_from(s, 0, Seq::empty(), Seq::empty())
}

/// The position of the first `#` at or after `i`, or the length of `s`.
pub open spec fn comment_from(s: Seq<char>, i: int) -> int
    decreases s.len() - i,
{
    if i >= s.len() {
        s.len() as int
    } else if s[i] == '#' {
        i
    } else {
        comment_from(s, i + 1)
    }
}

/// The words of a source line before its comment.
pub open spec fn line_words(line: Seq<char>) -> Seq<Seq<char>> {
    words(line.take(comment_from(line, 0)))
}

/// The lines of `s` from position `i` on, split at each `\n`.
pub open spec fn lines_from(s: Seq<char>, i: int, cur: Seq<char>, acc: Seq<Seq<char>>) -> Seq<
    Seq<char>,
>
    decreases s.len() - i,
{
    if i >= s.len() {
        acc.push(cur)
    } else if s[i] == '\n' {
        lines_from(s, i + 1, Seq::empty(), acc.push(cur))
    } else {
        lines_from(s, i + 1, cur.push(s[i]), acc)
    }
}

pub open spec fn split_lines(s: Seq<char>) -> Seq<Seq<char>> {
    lines_from(s, 0, Seq::empty(), Seq::empty())
}

/// The instruction lines of raw lines: their words, for those that have any.
pub open spec fn kept_lines(lines: Seq<Seq<char>>) -> Seq<Seq<Seq<char>>>
    decreases lines.len(),
{
    if lines.len() == 0 {
        Seq::empty()
    } else {
        let rest = kept_lines(lines.drop_last());
        let ws = line_words(lines.last());
        if ws.len() > 0 {
            rest.push(ws)
        } else {
            rest
        }
    }
}

/// The program made of several source texts, in the order given.
pub open spec fn program_of(sources: Seq<Seq<char>>) -> Seq<Seq<Seq<char>>>
    decreases sources.len(),
{
    if sources.len() == 0 {
        Seq::empty()
    } else {
        program_of(sources.drop_last()) + kept_lines(split_lines(sources.last()))
    }
}


/// Blocks of the language; each has its own opening and closing word.
#[derive(Clone, Copy, Debug, PartialEq, Eq, Structural)]
pub enum SyntaxBlock {
    Repeat,
    If,
    Def,
    While,
}

/// What the first word of a line asks for.
#[derive(Clone, Copy, Debug, PartialEq, Eq, Structural)]
pub enum Command {
    /// `move`, `turn-left`, `take` or `put`.
    Primitive(Action),
    /// `die`: leave the innermost running block.
    Die,
    /// `if`, `repeat`, `while` or `def`.
    Open(SyntaxBlock),
    /// `endif`, `endrepeat`, `endwhile` or `enddef`.
    Close(SyntaxBlock),
    /// `call`.
    Call,
    /// Anything else.
    Unknown,
}

pub open spec fn command_of(w: Seq<char>) -> Command {
    if w == "move"@ {
        Command::Primitive(Action::Move)
    } else if w == "turn-left"@ {
        Command::Primitive(Action::TurnLeft)
    } else if w == "take"@ {
        Command::Primitive(Action::RemoveItem)
    } else if w == "put"@ {
        Command::Primitive(Action::PlaceItem)
    } else if w == "die"@ {
        Command::Die
    } else if w == "if"@ {
        Command::Open(SyntaxBlock::If)
    } else if w == "repeat"@ {
        Command::Open(SyntaxBlock::Repeat)
    } else if w == "while"@ {
        Command::Open(SyntaxBlock::While)
    } else if w == "def"@ {
        Command::Open(SyntaxBlock::Def)
    } else if w == "endif"@ {
        Command::Close(SyntaxBlock::If)
    } else if w == "endrepeat"@ {
        Command::Close(SyntaxBlock::Repeat)
    } else if w == "endwhile"@ {
        Command::Close(SyntaxBlock::While)
    } else if w == "enddef"@ {
        Command::Close(SyntaxBlock::Def)
    } else if w == "call"@ {
        Command::Call
    } else {
        Command::Unknown
    }
}

/// The query a condition word of `if` or `while` stands for.
pub open spec fn condition_of(w: Seq<char>) -> Option<Query> {
    if w == "wall"@ {
        Some(Query::WallInFrontOfMe)
    } else if w == "beeper"@ {
        Some(Query::ItemHere)
    } else if w == "north"@ {
        Some(Query::Direction(Direction::North))
    } else if w == "south"@ {
        Some(Query::Direction(Direction::South))
    } else if w == "east"@ {
        Some(Query::Direction(Direction::East))
    } else if w == "west"@ {
        Some(Query::Direction(Direction::West))
    } else {
        None
    }
}

fn is_word(w: &Vec<char>, k: &str) -> (r: bool)
    ensures
        r == (w@ == k@),
{
    let n = k.unicode_len();
    if w.len() != n {
        return false;
    }
    let mut i: usize = 0;
    while i < n
        invariant
            n == k@.len(),
            w@.len() == n,
            i <= n,
            forall|j: int| 0 <= j < i ==> w@[j] == k@[j],
        decreases n - i,
    {
        if w[i] != k.get_char(i) {
            return false;
        }
        i += 1;
    }
    assert(w@ =~= k@);
    true
}

fn command(w: &Vec<char>) -> (r: Command)
    ensures
        r == command_of(w@),
{
    if is_word(w, "move") {
        Command::Primitive(Action::Move)
    } else if is_word(w, "turn-left") {
        Command::Primitive(Action::TurnLeft)
    } else if is_word(w, "take") {
        Command::Primitive(Action::RemoveItem)
    } else if is_word(w, "put") {
        Command::Primitive(Action::PlaceItem)
    } else if is_word(w, "die") {
        Command::Die
    } else if is_word(w, "if") {
        Command::Open(SyntaxBlock::If)
    } else if is_word(w, "repeat") {
        Command::Open(SyntaxBlock::Repeat)
    } else if is_word(w, "while") {
        Command::Open(SyntaxBlock::While)
    } else if is_word(w, "def") {
        Command::Open(SyntaxBlock::Def)
    } else if is_word(w, "endif") {
        Command::Close(SyntaxBlock::If)
    } else if is_word(w, "endrepeat") {
        Command::Close(SyntaxBlock::Repeat)
    } else if is_word(w, "endwhile") {
        Command::Close(SyntaxBlock::While)
    } else if is_word(w, "enddef") {
        Command::Close(SyntaxBlock::Def)
    } else if is_word(w, "call") {
        Command::Call
    } else {
        Command::Unknown
    }
}

fn condition(w: &Vec<char>) -> (r: Option<Query>)
    ensures
        r == condition_of(w@),
{
    if is_word(w, "wall") {
        Some(Query::WallInFrontOfMe)
    } else if is_word(w, "beeper") {
        Some(Query::ItemHere)
    } else if is_word(w, "north") {
        Some(Query::Direction(Direction::North))
    } else if is_word(w, "south") {
        Some(Query::Direction(Direction::South))
    } else if is_word(w, "east") {
        Some(Query::Direction(Direction::East))
    } else if is_word(w, "west") {
        Some(Query::Direction(Direction::West))
    } else {
        None
    }
}

pub open spec fn is_digit(c: char) -> bool {
    48 <= (c as u32) <= 57
}

/// The number written by a sequence of decimal digits.
pub open spec fn digits_value(s: Seq<char>) -> int
    decreases s.len(),
{
    if s.len() == 0 {
        0
    } else {
        digits_value(s.drop_last()) * 10 + (s.last() as u32 - 48)
    }
}

/// The repetition count a word writes: one or more decimal digits whose value fits
/// in `usize`.
pub open spec fn parse_count(w: Seq<char>) -> Option<usize> {
    if w.len() > 0 && (forall|i: int| 0 <= i < w.len() ==> is_digit(#[trigger] w[i]))
        && digits_value(w) <= usize::MAX {
        Some(digits_value(w) as usize)
    } else {
        None
    }
}

proof fn lemma_digits_grow(s: Seq<char>, k: int)
    requires
        0 <= k <= s.len(),
        forall|i: int| 0 <= i < s.len() ==> is_digit(#[trigger] s[i]),
    ensures
        0 <= digits_value(s.take(k)) <= digits_value(s),
    decreases s.len(),
{
    if k == s.len() {
        assert(s.take(k) =~= s);
        if s.len() > 0 {
            lemma_digits_grow(s.drop_last(), k - 1);
            assert(s.drop_last().take(k - 1) =~= s.drop_last());
        }
    } else {
        lemma_digits_grow(s.drop_last(), k);
        assert(s.drop_last().take(k) =~= s.take(k));
        assert(s.drop_last().take(s.len() - 1) =~= s.drop_last());
        lemma_digits_grow(s.drop_last(), s.len() - 1);
    }
}

fn parse_count_of(w: &Vec<char>) -> (r: Option<usize>)
    ensures
        r == parse_count(w@),
{
    if w.len() == 0 {
        return None;
    }
    let mut value: usize = 0;
    let mut i: usize = 0;
    assert(w@.take(0) =~= Seq::<char>::empty());
    while i < w.len()
        invariant
            i <= w.len(),
            value == digits_value(w@.take(i as int)),
            forall|j: int| 0 <= j < i ==> is_digit(#[trigger] w@[j]),
        decreases w.len() - i,
    {
        let c = w[i];
        if !(48 <= c as u32 && c as u32 <= 57) {
            return None;
        }
        assert(w@.take(i + 1).drop_last() =~= w@.take(i as int));
        let next: u128 = value as u128 * 10 + (c as u32 - 48) as u128;
        if next > usize::MAX as u128 {
            proof {
                if forall|j: int| 0 <= j < w@.len() ==> is_digit(#[trigger] w@[j]) {
                    lemma_digits_grow(w@, i + 1);
                }
            }
            return None;
        }
        value = next as usize;
        i += 1;
    }
    assert(w@.take(i as int) =~= w@);
    Some(value)
}

fn copy_chars(v: &Vec<char>) -> (r: Vec<char>)
    ensures
        r@ == v@,
{
    let mut r: Vec<char> = Vec::new();
    let mut i: usize = 0;
    while i < v.len()
        invariant
            i <= v.len(),
            r@ == v@.take(i as int),
        decreases v.len() - i,
    {
        r.push(v[i]);
        i += 1;
        assert(r@ =~= v@.take(i as int));
    }
    assert(v@.take(i as int) =~= v@);
    r
}

fn same_chars(a: &Vec<char>, b: &Vec<char>) -> (r: bool)
    ensures
        r == (a@ == b@),
{
    if a.len() != b.len() {
        return false;
    }
    let mut i: usize = 0;
    while i < a.len()
        invariant
            a@.len() == b@.len(),
            i <= a.len(),
            forall|j: int| 0 <= j < i ==> a@[j] == b@[j],
        decreases a.len() - i,
    {
        if a[i] != b[i] {
            return false;
        }
        i += 1;
    }
    assert(a@ =~= b@);
    true
}

/// A line that defines a procedure of this name.
pub open spec fn is_def_of(line: Seq<Seq<char>>, name: Seq<char>) -> bool {
    line.len() >= 2 && line[0] == "def"@ && line[1] == name
}

/// The line after the last definition of `name` among the first `n` lines.
pub open spec fn def_before(lines: Seq<Seq<Seq<char>>>, n: int, name: Seq<char>) -> Option<int>
    decreases n,
{
    if n <= 0 {
        None
    } else if is_def_of(lines[n - 1], name) {
        Some(n)
    } else {
        def_before(lines, n - 1, name)
    }
}

/// Where the body of procedure `name` starts: after its last definition.
pub open spec fn method_start(lines: Seq<Seq<Seq<char>>>, name: Seq<char>) -> Option<int> {
    def_before(lines, lines.len() as int, name)
}

/// The start recorded by the last of the first `n` index entries for `name`.
pub open spec fn entry_before(entries: Seq<(Seq<char>, usize)>, n: int, name: Seq<char>) -> Option<
    int,
>
    decreases n,
{
    if n <= 0 {
        None
    } else if entries[n - 1].0 == name {
        Some(entries[n - 1].1 as int)
    } else {
        entry_before(entries, n - 1, name)
    }
}

pub open spec fn entries_view(m: Seq<(Vec<char>, usize)>) -> Seq<(Seq<char>, usize)> {
    m.map_values(|e: (Vec<char>, usize)| (e.0@, e.1))
}

/// The index gives, for every name, the start that the lines give.
pub open spec fn index_matches(entries: Seq<(Seq<char>, usize)>, lines: Seq<Seq<Seq<char>>>) -> bool {
    forall|name: Seq<char>|
        entry_before(entries, entries.len() as int, name) == #[trigger] method_start(lines, name)
}

proof fn lemma_entry_prefix(e: Seq<(Seq<char>, usize)>, x: (Seq<char>, usize), n: int, name: Seq<char>)
    requires
        n <= e.len(),
    ensures
        entry_before(e.push(x), n, name) == entry_before(e, n, name),
    decreases n,
{
    if n > 0 {
        lemma_entry_prefix(e, x, n - 1, name);
    }
}

/// Record, for each `def <name>` line, the index of the line after it.
fn index_methods(lines: &Vec<Vec<Vec<char>>>) -> (r: Vec<(Vec<char>, usize)>)
    ensures
        index_matches(entries_view(r@), lines.deep_view()),
{
    let ghost ls = lines.deep_view();
    let mut entries: Vec<(Vec<char>, usize)> = Vec::new();
    let mut i: usize = 0;
    while i < lines.len()
        invariant
            i <= lines.len(),
            ls == lines.deep_view(),
            forall|name: Seq<char>|
                entry_before(entries_view(entries@), entries@.len() as int, name) == #[trigger] def_before(
                    ls,
                    i as int,
                    name,
                ),
        decreases lines.len() - i,
    {
        let line = &lines[i];
        assert(ls[i as int] == line.deep_view());
        let ghost old_e = entries_view(entries@);
        if line.len() >= 2 && is_word(&line[0], "def") {
            let name = copy_chars(&line[1]);
            entries.push((name, i + 1));
            assert(entries_view(entries@) =~= old_e.push((line@[1]@, (i + 1) as usize)));
            assert(line.deep_view()[0] =~= line@[0]@);
            assert(line.deep_view()[1] =~= line@[1]@);
            assert forall|nm: Seq<char>|
                entry_before(entries_view(entries@), entries@.len() as int, nm) == #[trigger] def_before(
                    ls,
                    i + 1,
                    nm,
                ) by {
                lemma_entry_prefix(old_e, (line@[1]@, (i + 1) as usize), old_e.len() as int, nm);
                assert(entry_before(old_e, old_e.len() as int, nm) == def_before(ls, i as int, nm));
                if nm == line@[1]@ {
                    assert(is_def_of(ls[i as int], nm));
                } else {
                    assert(!is_def_of(ls[i as int], nm));
                }
            }
        } else {
            assert(line.len() >= 2 ==> line.deep_view()[0] =~= line@[0]@);
            assert forall|nm: Seq<char>|
                entry_before(entries_view(entries@), entries@.len() as int, nm) == #[trigger] def_before(
                    ls,
                    i + 1,
                    nm,
                ) by {
                assert(entry_before(old_e, old_e.len() as int, nm) == def_before(ls, i as int, nm));
                assert(!is_def_of(ls[i as int], nm));
            }
        }
        i += 1;
    }
    entries
}


/// An open block: its kind, the line that opened it, whether its body is being
/// skipped, the iterations of a `repeat` still to run (the current one included)
/// and, for a procedure entered by `call`, the line to resume at.
#[derive(Clone, Copy, Debug)]
pub struct Frame {
    pub kind: SyntaxBlock,
    pub start: usize,
    pub skip: bool,
    pub remaining: usize,
    pub ret: Option<usize>,
}

/// Errors in the program text.
#[derive(Clone, Copy, Debug, PartialEq, Eq, Structural)]
pub enum SyntaxError {
    /// `call` names a procedure that no `def` defines; the line is given.
    MethodNotDefined(usize),
    /// The line holds a command or a condition that the language does not have.
    NotDefined(usize),
    /// The line closes a block other than the innermost open one.
    WrongBlockEnd(usize),
    /// The program ended while a block was still open.
    UnexpectedEndOfFile,
    /// The count of the `repeat` on the line is not a number.
    NotANumber(usize),
    /// The line lacks the argument its command needs.
    NotEnoughArguments(usize),
}

/// Errors that end a run.
#[derive(Clone, Copy, Debug, PartialEq, Eq, Structural)]
pub enum RuntimeError {
    /// No procedure named `main` is defined.
    NoEntryPointDefined,
    RuntimeActionError(ActionError),
    RuntimeQueryError(QueryError),
    RuntimeSyntaxError(SyntaxError),
    /// The run took the largest number of steps it was allowed.
    StepLimitReached,
}

/// What a step left behind.
#[derive(Clone, Copy, Debug, PartialEq, Eq, Structural)]
pub enum StepOutcome {
    /// There is more to run.
    Running,
    /// The entry procedure has returned.
    Finished,
}

/// The interpreter as the contracts see it.
pub struct ParserView {
    /// The program: its lines, each split into words.
    pub lines: Seq<Seq<Seq<char>>>,
    /// The next line to interpret; `None` when there is no entry point.
    pub pointer: Option<usize>,
    /// The open blocks, innermost last.
    pub frames: Seq<Frame>,
    pub ignore_runtime_errors: bool,
}

pub open spec fn at(p: ParserView, ip: usize, frames: Seq<Frame>) -> ParserView {
    ParserView { pointer: Some(ip), frames, ..p }
}

pub open spec fn line_command(line: Seq<Seq<char>>) -> Command {
    if line.len() > 0 {
        command_of(line[0])
    } else {
        Command::Unknown
    }
}

pub open spec fn syntax_err(e: SyntaxError) -> Result<StepOutcome, RuntimeError> {
    Err(RuntimeError::RuntimeSyntaxError(e))
}

pub open spec fn skipped_frame(kind: SyntaxBlock, ip: usize) -> Frame {
    Frame { kind, start: ip, skip: true, remaining: 0, ret: None }
}

pub open spec fn outcome_after(rest: Seq<Frame>) -> StepOutcome {
    if rest.len() == 0 {
        StepOutcome::Finished
    } else {
        StepOutcome::Running
    }
}

/// Reaching the terminator of the innermost block at line `ip`: a running
/// `repeat` with iterations left goes back to the top of its body, a running
/// `while` goes back to its condition, a procedure entered by `call` returns to
/// its caller, and any other block is left for the line after the terminator.
pub open spec fn close_spec(p: ParserView, w: WorldView, ip: usize) -> (ParserView, WorldView, Result<
    StepOutcome,
    RuntimeError,
>) {
    let top = p.frames.last();
    let rest = p.frames.drop_last();
    if !top.skip && top.kind == SyntaxBlock::Repeat && top.remaining > 1 {
        (
            at(
                p,
                (top.start + 1) as usize,
                p.frames.update(
                    p.frames.len() - 1,
                    Frame { remaining: (top.remaining - 1) as usize, ..top },
                ),
            ),
            w,
            Ok(StepOutcome::Running),
        )
    } else if !top.skip && top.kind == SyntaxBlock::While {
        (at(p, top.start, rest), w, Ok(outcome_after(rest)))
    } else {
        let back = match top.ret {
            Some(r) => r,
            None => (ip + 1) as usize,
        };
        (at(p, back, rest), w, Ok(outcome_after(rest)))
    }
}

/// Opening an `if` or a `while` at line `ip`: its body runs when the condition holds.
pub open spec fn condition_spec(p: ParserView, w: WorldView, ip: usize, kind: SyntaxBlock) -> (
    ParserView,
    WorldView,
    Result<StepOutcome, RuntimeError>,
) {
    let line = p.lines[ip as int];
    let next = (ip + 1) as usize;
    if line.len() < 2 {
        (p, w, syntax_err(SyntaxError::NotEnoughArguments(ip)))
    } else {
        match condition_of(line[1]) {
            None => (p, w, syntax_err(SyntaxError::NotDefined(ip))),
            Some(q) => match query_spec(w, q) {
                Ok(b) => (
                    at(
                        p,
                        next,
                        p.frames.push(Frame { kind, start: ip, skip: !b, remaining: 0, ret: None }),
                    ),
                    w,
                    Ok(StepOutcome::Running),
                ),
                Err(e) => if p.ignore_runtime_errors {
                    (at(p, next, p.frames.push(skipped_frame(kind, ip))), w, Ok(StepOutcome::Running))
                } else {
                    (p, w, Err(RuntimeError::RuntimeQueryError(e)))
                },
            },
        }
    }
}

/// Opening a `repeat` at line `ip`: its body runs as many times as its count says.
pub open spec fn repeat_spec(p: ParserView, w: WorldView, ip: usize) -> (ParserView, WorldView, Result<
    StepOutcome,
    RuntimeError,
>) {
    let line = p.lines[ip as int];
    if line.len() < 2 {
        (p, w, syntax_err(SyntaxError::NotEnoughArguments(ip)))
    } else {
        match parse_count(line[1]) {
            None => (p, w, syntax_err(SyntaxError::NotANumber(ip))),
            Some(n) => (
                at(
                    p,
                    (ip + 1) as usize,
                    p.frames.push(
                        Frame {
                            kind: SyntaxBlock::Repeat,
                            start: ip,
                            skip: n == 0,
                            remaining: n,
                            ret: None,
                        },
                    ),
                ),
                w,
                Ok(StepOutcome::Running),
            ),
        }
    }
}

/// Interpreting line `ip` inside the innermost open block. In a skipped block
/// only blocks are tracked, so that their terminators are matched; nothing is
/// run and the world is not touched.
pub open spec fn line_spec(p: ParserView, w: WorldView, ip: usize) -> (ParserView, WorldView, Result<
    StepOutcome,
    RuntimeError,
>) {
    let line = p.lines[ip as int];
    let top = p.frames.last();
    let next = (ip + 1) as usize;
    let pass = (at(p, next, p.frames), w, Ok(StepOutcome::Running));
    match line_command(line) {
        Command::Close(kind) => if kind != top.kind {
            (p, w, syntax_err(SyntaxError::WrongBlockEnd(ip)))
        } else {
            close_spec(p, w, ip)
        },
        Command::Open(kind) => if top.skip || kind == SyntaxBlock::Def {
            (at(p, next, p.frames.push(skipped_frame(kind, ip))), w, Ok(StepOutcome::Running))
        } else if kind == SyntaxBlock::Repeat {
            repeat_spec(p, w, ip)
        } else {
            condition_spec(p, w, ip, kind)
        },
        Command::Primitive(a) => if top.skip {
            pass
        } else {
            match action_spec(w, a).1 {
                Ok(_) => (at(p, next, p.frames), action_spec(w, a).0, Ok(StepOutcome::Running)),
                Err(e) => if p.ignore_runtime_errors {
                    pass
                } else {
                    (p, w, Err(RuntimeError::RuntimeActionError(e)))
                },
            }
        },
        Command::Die => if top.skip {
            pass
        } else {
            (
                at(p, next, p.frames.update(p.frames.len() - 1, Frame { skip: true, ..top })),
                w,
                Ok(StepOutcome::Running),
            )
        },
        Command::Call => if top.skip {
            pass
        } else if line.len() < 2 {
            (p, w, syntax_err(SyntaxError::NotEnoughArguments(ip)))
        } else {
            match method_start(p.lines, line[1]) {
                None => (p, w, syntax_err(SyntaxError::MethodNotDefined(ip))),
                Some(s) => (
                    at(
                        p,
                        s as usize,
                        p.frames.push(
                            Frame {
                                kind: SyntaxBlock::Def,
                                start: ip,
                                skip: false,
                                remaining: 0,
                                ret: Some(next),
                            },
                        ),
                    ),
                    w,
                    Ok(StepOutcome::Running),
                ),
            }
        },
        Command::Unknown => if top.skip {
            pass
        } else {
            (p, w, syntax_err(SyntaxError::NotDefined(ip)))
        },
    }
}

/// One step of the interpreter: the new interpreter state, the new world, and
/// whether the run goes on, has finished, or has failed (then nothing changes).
pub open spec fn step_spec(p: ParserView, w: WorldView) -> (ParserView, WorldView, Result<
    StepOutcome,
    RuntimeError,
>) {
    match p.pointer {
        None => (p, w, Err(RuntimeError::NoEntryPointDefined)),
        Some(ip) => if p.frames.len() == 0 {
            (p, w, Ok(StepOutcome::Finished))
        } else if ip >= p.lines.len() {
            (p, w, syntax_err(SyntaxError::UnexpectedEndOfFile))
        } else {
            line_spec(p, w, ip)
        },
    }
}

/// Steps until the run finishes or fails, taking at most `fuel` steps.
pub open spec fn run_spec(p: ParserView, w: WorldView, fuel: nat) -> (ParserView, WorldView, Result<
    (),
    RuntimeError,
>)
    decreases fuel,
{
    if fuel == 0 {
        (p, w, Err(RuntimeError::StepLimitReached))
    } else {
        let (p2, w2, r) = step_spec(p, w);
        match r {
            Err(e) => (p2, w2, Err(e)),
            Ok(StepOutcome::Finished) => (p2, w2, Ok(())),
            Ok(StepOutcome::Running) => run_spec(p2, w2, (fuel - 1) as nat),
        }
    }
}

/// Every open block starts on a line of the program, and without an entry
/// point no block is open.
pub open spec fn parser_wf(p: ParserView) -> bool {
    &&& forall|i: int| 0 <= i < p.frames.len() ==> #[trigger] p.frames[i].start < p.lines.len()
    &&& (p.pointer is None ==> p.frames.len() == 0)
}

/// The frame that runs the entry procedure, whose body starts at `s`.
pub open spec fn entry_frame(s: int) -> Frame {
    Frame { kind: SyntaxBlock::Def, start: (s - 1) as usize, skip: false, remaining: 0, ret: None }
}

/// A block still open when the program runs out of lines ends the run with
/// `UnexpectedEndOfFile`; a terminator that does not close the innermost open
/// block ends it with `WrongBlockEnd`. Neither changes anything.
pub proof fn lemma_unclosed_or_mismatched_block(p: ParserView, w: WorldView)
    requires
        p.pointer is Some,
        p.frames.len() > 0,
    ensures
        p.pointer->0 >= p.lines.len() ==> step_spec(p, w) == (
            p,
            w,
            syntax_err(SyntaxError::UnexpectedEndOfFile),
        ),
        p.pointer->0 < p.lines.len() && line_command(p.lines[p.pointer->0 as int]) is Close
            && line_command(p.lines[p.pointer->0 as int])->Close_0 != p.frames.last().kind
            ==> step_spec(p, w) == (p, w, syntax_err(SyntaxError::WrongBlockEnd(p.pointer->0))),
{
}


/// No line from `ip` to the end of the program closes a block or calls a procedure.
pub open spec fn no_close_or_call_from(lines: Seq<Seq<Seq<char>>>, ip: int) -> bool {
    forall|i: int|
        ip <= i < lines.len() ==> !(#[trigger] line_command(lines[i]) is Close) && !(line_command(
            lines[i],
        ) is Call)
}

/// A run whose open blocks are never closed, because no line from the pointer on
/// closes a block or calls a procedure, never succeeds; given more steps than
/// lines are left, it fails with `UnexpectedEndOfFile` unless another error comes
/// first.
pub proof fn lemma_unclosed_run_fails(p: ParserView, w: WorldView, fuel: nat)
    requires
        p.pointer is Some,
        p.frames.len() > 0,
        p.lines.len() <= usize::MAX,
        no_close_or_call_from(p.lines, p.pointer->0 as int),
    ensures
        run_spec(p, w, fuel).2 is Err,
        fuel > 0 && fuel + p.pointer->0 > p.lines.len() ==> run_spec(p, w, fuel).2 != Err::<(), RuntimeError>(
            RuntimeError::StepLimitReached,
        ),
    decreases fuel,
{
    if fuel > 0 {
        let ip = p.pointer->0;
        let (p2, w2, r) = step_spec(p, w);
        if ip < p.lines.len() {
            assert(!(line_command(p.lines[ip as int]) is Close));
            assert(!(line_command(p.lines[ip as int]) is Call));
            if r is Ok {
                assert(r == Ok::<StepOutcome, RuntimeError>(StepOutcome::Running));
                assert(p2.pointer == Some((ip + 1) as usize));
                assert(p2.frames.len() > 0);
                assert(p2.lines == p.lines);
                assert(no_close_or_call_from(p2.lines, (ip + 1) as int));
                lemma_unclosed_run_fails(p2, w2, (fuel - 1) as nat);
            }
        }
    }
}

/// A running `repeat 0` opens a skipped block: its body will not run, and the
/// world is untouched.
pub proof fn lemma_repeat_zero(p: ParserView, w: WorldView)
    requires
        p.pointer is Some,
        p.pointer->0 < p.lines.len(),
        p.frames.len() > 0,
        !p.frames.last().skip,
        line_command(p.lines[p.pointer->0 as int]) == Command::Open(SyntaxBlock::Repeat),
        p.lines[p.pointer->0 as int].len() >= 2,
        parse_count(p.lines[p.pointer->0 as int][1]) == Some(0usize),
    ensures
        step_spec(p, w) == (
            at(
                p,
                (p.pointer->0 + 1) as usize,
                p.frames.push(skipped_frame(SyntaxBlock::Repeat, p.pointer->0)),
            ),
            w,
            Ok::<StepOutcome, RuntimeError>(StepOutcome::Running),
        ),
{
}

/// The terminator of a skipped block that no `call` entered resumes at the line
/// after it.
pub proof fn lemma_close_skipped(p: ParserView, w: WorldView)
    requires
        p.pointer is Some,
        p.pointer->0 < p.lines.len(),
        p.frames.len() > 0,
        p.frames.last().skip,
        p.frames.last().ret is None,
        line_command(p.lines[p.pointer->0 as int]) == Command::Close(p.frames.last().kind),
    ensures
        step_spec(p, w) == (
            at(p, (p.pointer->0 + 1) as usize, p.frames.drop_last()),
            w,
            Ok::<StepOutcome, RuntimeError>(outcome_after(p.frames.drop_last())),
        ),
{
}

/// The open blocks from position `d` on are all skipped.
pub open spec fn skipping_from(frames: Seq<Frame>, d: int) -> bool {
    forall|i: int| d <= i < frames.len() ==> #[trigger] frames[i].skip
}

/// Inside a skipped block nothing runs: while the blocks from position `d` on
/// are skipped, a step leaves the world as it is and the blocks below `d` as they
/// are, and every block it opens is skipped too.
pub proof fn lemma_skipped_blocks_are_inert(p: ParserView, w: WorldView, d: int)
    requires
        0 <= d < p.frames.len(),
        skipping_from(p.frames, d),
    ensures
        step_spec(p, w).1 == w,
        step_spec(p, w).0.frames.len() >= d,
        step_spec(p, w).0.frames.subrange(0, d) == p.frames.subrange(0, d),
        skipping_from(step_spec(p, w).0.frames, d),
{
    let (p2, w2, r) = step_spec(p, w);
    assert(p.frames.last().skip);
    if p2.frames.len() > p.frames.len() {
        assert(p2.frames.subrange(0, d) =~= p.frames.subrange(0, d));
    } else if p2.frames.len() < p.frames.len() {
        assert(p2.frames.subrange(0, d) =~= p.frames.subrange(0, d));
    } else {
        assert(p2.frames.subrange(0, d) =~= p.frames.subrange(0, d));
    }
}


/// The state after `n` steps; a step that fails or finishes changes nothing, so
/// the state stays as it was from then on.
pub open spec fn steps(p: ParserView, w: WorldView, n: nat) -> (ParserView, WorldView)
    decreases n,
{
    if n == 0 {
        (p, w)
    } else {
        let (p2, w2, _) = step_spec(p, w);
        steps(p2, w2, (n - 1) as nat)
    }
}

/// Nothing inside a skipped block touches the world: from a state whose blocks
/// from position `d` on are skipped, as long as more than `d` blocks stay open,
/// the world is what it was.
pub proof fn lemma_skipped_region_leaves_world(p: ParserView, w: WorldView, d: int, n: nat)
    requires
        0 <= d < p.frames.len(),
        skipping_from(p.frames, d),
        forall|k: nat| k < n ==> (#[trigger] steps(p, w, k)).0.frames.len() > d,
    ensures
        steps(p, w, n).1 == w,
    decreases n,
{
    if n > 0 {
        let (p2, w2, r) = step_spec(p, w);
        lemma_skipped_blocks_are_inert(p, w, d);
        if n > 1 {
            assert forall|k: nat| k < n - 1 implies (#[trigger] steps(p2, w2, k)).0.frames.len() > d by {
                assert(steps(p, w, k + 1) == steps(p2, w2, k));
            }
            assert(steps(p, w, 1) == steps(p2, w2, 0));
            lemma_skipped_region_leaves_world(p2, w2, d, (n - 1) as nat);
        }
    }
}

/// `call` of a defined procedure enters its body and records the line after the
/// call as the place to return to, keeping the blocks open at the call.
pub proof fn lemma_call_enters(p: ParserView, w: WorldView)
    requires
        p.pointer is Some,
        p.pointer->0 < p.lines.len(),
        p.frames.len() > 0,
        !p.frames.last().skip,
        line_command(p.lines[p.pointer->0 as int]) == Command::Call,
        p.lines[p.pointer->0 as int].len() >= 2,
        method_start(p.lines, p.lines[p.pointer->0 as int][1]) is Some,
    ensures
        ({
            let ip = p.pointer->0;
            let s = method_start(p.lines, p.lines[ip as int][1])->0;
            step_spec(p, w) == (
                at(
                    p,
                    s as usize,
                    p.frames.push(
                        Frame {
                            kind: SyntaxBlock::Def,
                            start: ip,
                            skip: false,
                            remaining: 0,
                            ret: Some((ip + 1) as usize),
                        },
                    ),
                ),
                w,
                Ok::<StepOutcome, RuntimeError>(StepOutcome::Running),
            )
        }),
{
}

/// The `enddef` of a procedure entered by `call` returns to the recorded line,
/// with the blocks that were open at the call open again.
pub proof fn lemma_enddef_returns(p: ParserView, w: WorldView)
    requires
        p.pointer is Some,
        p.pointer->0 < p.lines.len(),
        p.frames.len() > 1,
        p.frames.last().kind == SyntaxBlock::Def,
        p.frames.last().ret is Some,
        line_command(p.lines[p.pointer->0 as int]) == Command::Close(SyntaxBlock::Def),
    ensures
        step_spec(p, w) == (
            at(p, p.frames.last().ret->0, p.frames.drop_last()),
            w,
            Ok::<StepOutcome, RuntimeError>(StepOutcome::Running),
        ),
{
}

/// Interpreter of a program over a world.
pub struct SyntaxParser {
    pointer: Option<usize>,
    source: Vec<Vec<Vec<char>>>,
    methods: Vec<(Vec<char>, usize)>,
    frames: Vec<Frame>,
    ignore_runtime_errors: bool,
}

impl View for SyntaxParser {
    type V = ParserView;

    closed spec fn view(&self) -> ParserView {
        ParserView {
            lines: self.source.deep_view(),
            pointer: self.pointer,
            frames: self.frames@,
            ignore_runtime_errors: self.ignore_runtime_errors,
        }
    }
}

impl SyntaxParser {
    pub closed spec fn wf(&self) -> bool {
        &&& index_matches(entries_view(self.methods@), self.source.deep_view())
        &&& parser_wf(self@)
    }

    /// Load a program from source texts (libraries first, the main text last) and
    /// get ready to run its `main` procedure.
    pub fn new(sources: Vec<String>) -> (r: SyntaxParser)
        ensures
            r.wf(),
            r@.lines == program_of(sources.deep_view()),
            !r@.ignore_runtime_errors,
            match method_start(r@.lines, "main"@) {
                Some(s) => r@.pointer == Some(s as usize) && r@.frames == seq![entry_frame(s)],
                None => r@.pointer is None && r@.frames.len() == 0,
            },
    {
        let source = preprocess(sources);
        let methods = index_methods(&source);
        let mut main_name: Vec<char> = Vec::new();
        main_name.push('m');
        main_name.push('a');
        main_name.push('i');
        main_name.push('n');
        proof {
            reveal_strlit("main");
            assert(main_name@ =~= "main"@);
        }
        let mut sp = SyntaxParser {
            pointer: None,
            source,
            methods,
            frames: Vec::new(),
            ignore_runtime_errors: false,
        };
        match sp.find_method(&main_name) {
            Some(s) => {
                sp.pointer = Some(s);
                sp.frames.push(
                    Frame { kind: SyntaxBlock::Def, start: s - 1, skip: false, remaining: 0, ret: None },
                );
                assert(sp.frames@ =~= seq![entry_frame(s as int)]);
            },
            None => {},
        }
        sp
    }

    /// Make failed actions and failed conditions end the run (`false`), or
    /// skip a failed action and treat a failed condition as false (`true`).
    pub fn set_ignore_runtime_errors(&mut self, ignore: bool)
        requires
            old(self).wf(),
        ensures
            final(self).wf(),
            final(self)@ == (ParserView { ignore_runtime_errors: ignore, ..old(self)@ }),
    {
        self.ignore_runtime_errors = ignore;
    }

    /// The words of the program's line `i`.
    pub fn line(&self, i: usize) -> (r: &Vec<Vec<char>>)
        requires
            i < self@.lines.len(),
        ensures
            r.deep_view() == self@.lines[i as int],
    {
        &self.source[i]
    }

    /// Number of lines in the program.
    pub fn line_count(&self) -> (r: usize)
        ensures
            r == self@.lines.len(),
    {
        self.source.len()
    }

    /// Leave the innermost block at its terminator on line `ip`.
    fn close_block(&mut self, environment: &Karel, ip: usize) -> (r: Result<StepOutcome, RuntimeError>)
        requires
            old(self).wf(),
            old(self)@.frames.len() > 0,
            ip < old(self)@.lines.len(),
        ensures
            final(self).wf(),
            (final(self)@, environment@, r) == close_spec(old(self)@, environment@, ip),
    {
        assert(self@.lines.len() == self.source.len());
        let last = self.frames.len() - 1;
        let top = self.frames[last];
        if !top.skip && top.kind == SyntaxBlock::Repeat && top.remaining > 1 {
            self.frames.set(last, Frame { remaining: top.remaining - 1, ..top });
            self.pointer = Some(top.start + 1);
            assert(parser_wf(self@)) by {
                assert forall|i: int| 0 <= i < self@.frames.len() implies #[trigger] self@.frames[i].start
                    < self@.lines.len() by {
                    assert(old(self)@.frames[i].start < self@.lines.len());
                }
            }
            return Ok(StepOutcome::Running);
        }
        let _ = self.frames.pop();
        assert(self.frames@ =~= old(self)@.frames.drop_last());
        assert(parser_wf(self@)) by {
            assert forall|i: int| 0 <= i < self@.frames.len() implies #[trigger] self@.frames[i].start
                < self@.lines.len() by {
                assert(old(self)@.frames[i].start < self@.lines.len());
            }
        }
        let outcome = if self.frames.len() == 0 {
            StepOutcome::Finished
        } else {
            StepOutcome::Running
        };
        if !top.skip && top.kind == SyntaxBlock::While {
            self.pointer = Some(top.start);
        } else {
            self.pointer = match top.ret {
                Some(back) => Some(back),
                None => Some(ip + 1),
            };
        }
        Ok(outcome)
    }

    /// Open a block on line `ip` whose body is skipped.
    fn open_skipped(&mut self, ip: usize, kind: SyntaxBlock) -> (r: Result<
        StepOutcome,
        RuntimeError,
    >)
        requires
            old(self).wf(),
            ip < old(self)@.lines.len(),
        ensures
            final(self).wf(),
            final(self)@ == at(old(self)@, (ip + 1) as usize, old(self)@.frames.push(skipped_frame(kind, ip))),
            r == Ok::<StepOutcome, RuntimeError>(StepOutcome::Running),
    {
        assert(self@.lines.len() == self.source.len());
        self.frames.push(Frame { kind, start: ip, skip: true, remaining: 0, ret: None });
        self.pointer = Some(ip + 1);
        assert(parser_wf(self@)) by {
            assert forall|i: int| 0 <= i < self@.frames.len() implies #[trigger] self@.frames[i].start
                < self@.lines.len() by {
                if i < old(self)@.frames.len() {
                    assert(old(self)@.frames[i].start < self@.lines.len());
                }
            }
        }
        Ok(StepOutcome::Running)
    }

    /// Open the `repeat` on line `ip`.
    fn open_repeat(&mut self, environment: &Karel, ip: usize) -> (r: Result<StepOutcome, RuntimeError>)
        requires
            old(self).wf(),
            ip < old(self)@.lines.len(),
        ensures
            final(self).wf(),
            (final(self)@, environment@, r) == repeat_spec(old(self)@, environment@, ip),
    {
        assert(self@.lines.len() == self.source.len());
        let line = &self.source[ip];
        assert(self@.lines[ip as int] == line.deep_view());
        if line.len() < 2 {
            return Err(RuntimeError::RuntimeSyntaxError(SyntaxError::NotEnoughArguments(ip)));
        }
        assert(line.deep_view()[1] =~= line@[1]@);
        match parse_count_of(&line[1]) {
            None => Err(RuntimeError::RuntimeSyntaxError(SyntaxError::NotANumber(ip))),
            Some(n) => {
                self.frames.push(
                    Frame { kind: SyntaxBlock::Repeat, start: ip, skip: n == 0, remaining: n, ret: None },
                );
                self.pointer = Some(ip + 1);
                assert(parser_wf(self@)) by {
                    assert forall|i: int| 0 <= i < self@.frames.len() implies #[trigger] self@.frames[i].start
                        < self@.lines.len() by {
                        if i < old(self)@.frames.len() {
                            assert(old(self)@.frames[i].start < self@.lines.len());
                        }
                    }
                }
                Ok(StepOutcome::Running)
            },
        }
    }

    /// Open the `if` or `while` on line `ip`.
    fn open_condition(&mut self, environment: &Karel, ip: usize, kind: SyntaxBlock) -> (r: Result<
        StepOutcome,
        RuntimeError,
    >)
        requires
            old(self).wf(),
            environment.wf(),
            ip < old(self)@.lines.len(),
        ensures
            final(self).wf(),
            (final(self)@, environment@, r) == condition_spec(old(self)@, environment@, ip, kind),
    {
        assert(self@.lines.len() == self.source.len());
        let line = &self.source[ip];
        assert(self@.lines[ip as int] == line.deep_view());
        if line.len() < 2 {
            return Err(RuntimeError::RuntimeSyntaxError(SyntaxError::NotEnoughArguments(ip)));
        }
        assert(line.deep_view()[1] =~= line@[1]@);
        let q = match condition(&line[1]) {
            None => {
                return Err(RuntimeError::RuntimeSyntaxError(SyntaxError::NotDefined(ip)));
            },
            Some(q) => q,
        };
        let holds = match environment.query(q) {
            Ok(b) => b,
            Err(e) => {
                if self.ignore_runtime_errors {
                    false
                } else {
                    return Err(RuntimeError::RuntimeQueryError(e));
                }
            },
        };
        self.frames.push(Frame { kind, start: ip, skip: !holds, remaining: 0, ret: None });
        self.pointer = Some(ip + 1);
        assert(parser_wf(self@)) by {
            assert forall|i: int| 0 <= i < self@.frames.len() implies #[trigger] self@.frames[i].start
                < self@.lines.len() by {
                if i < old(self)@.frames.len() {
                    assert(old(self)@.frames[i].start < self@.lines.len());
                }
            }
        }
        Ok(StepOutcome::Running)
    }

    /// Enter the procedure named on the `call` line `ip`.
    fn call_method(&mut self, environment: &Karel, ip: usize) -> (r: Result<StepOutcome, RuntimeError>)
        requires
            old(self).wf(),
            ip < old(self)@.lines.len(),
        ensures
            final(self).wf(),
            ({
                let line = old(self)@.lines[ip as int];
                let next = (ip + 1) as usize;
                (final(self)@, environment@, r) == if line.len() < 2 {
                    (old(self)@, environment@, syntax_err(SyntaxError::NotEnoughArguments(ip)))
                } else {
                    match method_start(old(self)@.lines, line[1]) {
                        None => (old(self)@, environment@, syntax_err(SyntaxError::MethodNotDefined(ip))),
                        Some(s) => (
                            at(
                                old(self)@,
                                s as usize,
                                old(self)@.frames.push(
                                    Frame {
                                        kind: SyntaxBlock::Def,
                                        start: ip,
                                        skip: false,
                                        remaining: 0,
                                        ret: Some(next),
                                    },
                                ),
                            ),
                            environment@,
                            Ok(StepOutcome::Running),
                        ),
                    }
                }
            }),
    {
        assert(self@.lines.len() == self.source.len());
        let line = &self.source[ip];
        assert(self@.lines[ip as int] == line.deep_view());
        if line.len() < 2 {
            return Err(RuntimeError::RuntimeSyntaxError(SyntaxError::NotEnoughArguments(ip)));
        }
        assert(line.deep_view()[1] =~= line@[1]@);
        match self.find_method(&line[1]) {
            None => Err(RuntimeError::RuntimeSyntaxError(SyntaxError::MethodNotDefined(ip))),
            Some(s) => {
                self.frames.push(
                    Frame { kind: SyntaxBlock::Def, start: ip, skip: false, remaining: 0, ret: Some(ip + 1) },
                );
                self.pointer = Some(s);
                assert(parser_wf(self@)) by {
                    assert forall|i: int| 0 <= i < self@.frames.len() implies #[trigger] self@.frames[i].start
                        < self@.lines.len() by {
                        if i < old(self)@.frames.len() {
                            assert(old(self)@.frames[i].start < self@.lines.len());
                        }
                    }
                }
                Ok(StepOutcome::Running)
            },
        }
    }

    /// Interpret the line the pointer is at: one primitive, one condition, one
    /// call, or the opening or closing of one block.
    pub fn step(&mut self, environment: &mut Karel) -> (r: Result<StepOutcome, RuntimeError>)
        requires
            old(self).wf(),
            old(environment).wf(),
        ensures
            final(self).wf(),
            final(environment).wf(),
            (final(self)@, final(environment)@, r) == step_spec(old(self)@, old(environment)@),
    {
        assert(self@.lines.len() == self.source.len());
        let ip = match self.pointer {
            None => {
                return Err(RuntimeError::NoEntryPointDefined);
            },
            Some(ip) => ip,
        };
        if self.frames.len() == 0 {
            return Ok(StepOutcome::Finished);
        }
        if ip >= self.source.len() {
            return Err(RuntimeError::RuntimeSyntaxError(SyntaxError::UnexpectedEndOfFile));
        }
        assert(self@.lines[ip as int] == self.source@[ip as int].deep_view());
        assert(self.source@[ip as int].len() > 0 ==> self.source@[ip as int].deep_view()[0]
            =~= self.source@[ip as int]@[0]@);
        let cmd = if self.source[ip].len() > 0 {
            command(&self.source[ip][0])
        } else {
            Command::Unknown
        };
        let last = self.frames.len() - 1;
        let top = self.frames[last];
        match cmd {
            Command::Close(kind) => {
                if kind != top.kind {
                    return Err(RuntimeError::RuntimeSyntaxError(SyntaxError::WrongBlockEnd(ip)));
                }
                self.close_block(environment, ip)
            },
            Command::Open(kind) => {
                if top.skip || kind == SyntaxBlock::Def {
                    self.open_skipped(ip, kind)
                } else if kind == SyntaxBlock::Repeat {
                    self.open_repeat(environment, ip)
                } else {
                    self.open_condition(environment, ip, kind)
                }
            },
            Command::Call => {
                if top.skip {
                    self.pointer = Some(ip + 1);
                    return Ok(StepOutcome::Running);
                }
                self.call_method(environment, ip)
            },
            Command::Primitive(a) => {
                if top.skip {
                    self.pointer = Some(ip + 1);
                    return Ok(StepOutcome::Running);
                }
                match environment.action(a) {
                    Ok(()) => {
                        self.pointer = Some(ip + 1);
                        Ok(StepOutcome::Running)
                    },
                    Err(e) => {
                        if self.ignore_runtime_errors {
                            self.pointer = Some(ip + 1);
                            Ok(StepOutcome::Running)
                        } else {
                            Err(RuntimeError::RuntimeActionError(e))
                        }
                    },
                }
            },
            Command::Die => {
                if !top.skip {
                    self.frames.set(last, Frame { skip: true, ..top });
                    assert(parser_wf(self@)) by {
                        assert forall|i: int| 0 <= i < self@.frames.len() implies #[trigger] self@.frames[i].start
                            < self@.lines.len() by {
                            assert(old(self)@.frames[i].start < self@.lines.len());
                        }
                    }
                }
                self.pointer = Some(ip + 1);
                Ok(StepOutcome::Running)
            },
            Command::Unknown => {
                if top.skip {
                    self.pointer = Some(ip + 1);
                    Ok(StepOutcome::Running)
                } else {
                    Err(RuntimeError::RuntimeSyntaxError(SyntaxError::NotDefined(ip)))
                }
            },
        }
    }

    /// Step until the run finishes or fails, or `max_steps` steps have been taken.
    pub fn run_steps(&mut self, environment: &mut Karel, max_steps: usize) -> (r: Result<
        (),
        RuntimeError,
    >)
        requires
            old(self).wf(),
            old(environment).wf(),
        ensures
            final(self).wf(),
            final(environment).wf(),
            (final(self)@, final(environment)@, r) == run_spec(
                old(self)@,
                old(environment)@,
                max_steps as nat,
            ),
    {
        let mut fuel: usize = max_steps;
        while fuel > 0
            invariant
                self.wf(),
                environment.wf(),
                run_spec(self@, environment@, fuel as nat) == run_spec(
                    old(self)@,
                    old(environment)@,
                    max_steps as nat,
                ),
            decreases fuel,
        {
            match self.step(environment) {
                Err(e) => {
                    return Err(e);
                },
                Ok(StepOutcome::Finished) => {
                    return Ok(());
                },
                Ok(StepOutcome::Running) => {},
            }
            fuel -= 1;
        }
        Err(RuntimeError::StepLimitReached)
    }

    /// Run the program until its `main` procedure returns or an error occurs.
    /// The run is cut off, with `StepLimitReached`, after `usize::MAX` steps.
    pub fn run(&mut self, environment: &mut Karel) -> (r: Result<(), RuntimeError>)
        requires
            old(self).wf(),
            old(environment).wf(),
        ensures
            final(self).wf(),
            final(environment).wf(),
            (final(self)@, final(environment)@, r) == run_spec(
                old(self)@,
                old(environment)@,
                usize::MAX as nat,
            ),
    {
        self.run_steps(environment, usize::MAX)
    }

    /// Where the body of the procedure `name` starts.
    fn find_method(&self, name: &Vec<char>) -> (r: Option<usize>)
        requires
            index_matches(entries_view(self.methods@), self.source.deep_view()),
        ensures
            match method_start(self@.lines, name@) {
                Some(s) => r == Some(s as usize) && 0 < s <= self@.lines.len() <= usize::MAX,
                None => r is None,
            },
    {
        let ghost ev = entries_view(self.methods@);
        assert(self@.lines.len() == self.source.len());
        let mut j: usize = self.methods.len();
        while j > 0
            invariant
                j <= self.methods.len(),
                index_matches(entries_view(self.methods@), self.source.deep_view()),
                self@.lines.len() == self.source.len(),
                ev == entries_view(self.methods@),
                entry_before(ev, j as int, name@) == entry_before(ev, ev.len() as int, name@),
            decreases j,
        {
            assert(ev[j - 1] == (self.methods@[j - 1].0@, self.methods@[j - 1].1));
            if same_chars(&self.methods[j - 1].0, name) {
                proof {
                    assert(entry_before(ev, ev.len() as int, name@) == method_start(
                        self@.lines,
                        name@,
                    ));
                    lemma_method_start_bounds(self@.lines, self@.lines.len() as int, name@);
                }
                return Some(self.methods[j - 1].1);
            }
            j -= 1;
        }
        assert(entry_before(ev, ev.len() as int, name@) == method_start(self@.lines, name@));
        None
    }
}

proof fn lemma_method_start_bounds(lines: Seq<Seq<Seq<char>>>, n: int, name: Seq<char>)
    requires
        n <= lines.len(),
    ensures
        def_before(lines, n, name) matches Some(s) ==> 0 < s <= n,
    decreases n,
{
    if n > 0 {
        lemma_method_start_bounds(lines, n - 1, name);
    }
}

/// Relies on str::chars: the characters of the string, in order.
#[verifier::external_body]
fn chars_of(s: &String) -> (r: Vec<char>)
    ensures
        r@ == s@,
{
    s.chars().collect()
}

/// The words of a line before its comment.
fn find_command(line: &Vec<char>) -> (r: Vec<Vec<char>>)
    ensures
        r.deep_view() == line_words(line@),
{
    let mut k: usize = 0;
    while k < line.len() && line[k] != '#'
        invariant
            k <= line.len(),
            comment_from(line@, k as int) == comment_from(line@, 0),
        decreases line.len() - k,
    {
        k += 1;
    }
    let ghost s = line@.take(k as int);
    let mut acc: Vec<Vec<char>> = Vec::new();
    let mut cur: Vec<char> = Vec::new();
    let mut i: usize = 0;
    assert(acc.deep_view() =~= Seq::<Seq<char>>::empty());
    assert(cur@ =~= Seq::<char>::empty());
    while i < k
        invariant
            k <= line.len(),
            s == line@.take(k as int),
            i <= k,
            words_from(s, i as int, cur@, acc.deep_view()) == words(s),
        decreases k - i,
    {
        let c = line[i];
        if is_blank_char(c) {
            if cur.len() > 0 {
                let ghost before = acc.deep_view();
                assert(cur.deep_view() =~= cur@);
                acc.push(cur);
                assert(acc.deep_view() =~= before.push(cur@));
            }
            cur = Vec::new();
            assert(cur@ =~= Seq::<char>::empty());
        } else {
            cur.push(c);
        }
        i += 1;
    }
    if cur.len() > 0 {
        let ghost before = acc.deep_view();
        assert(cur.deep_view() =~= cur@);
        acc.push(cur);
        assert(acc.deep_view() =~= before.push(cur@));
    }
    acc
}

/// The raw lines of a text.
fn split_lines_of(text: &Vec<char>) -> (r: Vec<Vec<char>>)
    ensures
        r.deep_view() == split_lines(text@),
{
    let mut acc: Vec<Vec<char>> = Vec::new();
    let mut cur: Vec<char> = Vec::new();
    let mut i: usize = 0;
    assert(acc.deep_view() =~= Seq::<Seq<char>>::empty());
    assert(cur@ =~= Seq::<char>::empty());
    while i < text.len()
        invariant
            i <= text.len(),
            lines_from(text@, i as int, cur@, acc.deep_view()) == split_lines(text@),
        decreases text.len() - i,
    {
        let c = text[i];
        if c == '\n' {
            let ghost before = acc.deep_view();
            assert(cur.deep_view() =~= cur@);
            acc.push(cur);
            assert(acc.deep_view() =~= before.push(cur@));
            cur = Vec::new();
            assert(cur@ =~= Seq::<char>::empty());
        } else {
            cur.push(c);
        }
        i += 1;
    }
    let ghost before = acc.deep_view();
    assert(cur.deep_view() =~= cur@);
    acc.push(cur);
    assert(acc.deep_view() =~= before.push(cur@));
    acc
}

/// Strip comments, surrounding blanks and empty lines from the source texts
/// and concatenate what is left, each line split into its words.
fn preprocess(source_files_content: Vec<String>) -> (r: Vec<Vec<Vec<char>>>)
    ensures
        r.deep_view() == program_of(source_files_content.deep_view()),
{
    let ghost srcs = source_files_content.deep_view();
    let mut lines: Vec<Vec<Vec<char>>> = Vec::new();
    let mut f: usize = 0;
    assert(lines.deep_view() =~= Seq::<Seq<Seq<char>>>::empty());
    while f < source_files_content.len()
        invariant
            f <= source_files_content.len(),
            srcs == source_files_content.deep_view(),
            lines.deep_view() == program_of(srcs.take(f as int)),
        decreases source_files_content.len() - f,
    {
        let text = chars_of(&source_files_content[f]);
        let raw = split_lines_of(&text);
        let ghost start = lines.deep_view();
        let mut j: usize = 0;
        while j < raw.len()
            invariant
                j <= raw.len(),
                lines.deep_view() == start + kept_lines(raw.deep_view().take(j as int)),
            decreases raw.len() - j,
        {
            let ws = find_command(&raw[j]);
            let ghost before = lines.deep_view();
            assert(raw.deep_view().take(j + 1).drop_last() =~= raw.deep_view().take(j as int));
            assert(raw@[j as int].deep_view() =~= raw@[j as int]@);
            assert(raw.deep_view().take(j + 1).last() == raw@[j as int].deep_view());
            if ws.len() > 0 {
                lines.push(ws);
                assert(lines.deep_view() =~= before.push(ws.deep_view()));
            }
            assert(kept_lines(raw.deep_view().take(j + 1)) == {
                let rest = kept_lines(raw.deep_view().take(j as int));
                if ws.deep_view().len() > 0 {
                    rest.push(ws.deep_view())
                } else {
                    rest
                }
            });
            j += 1;
        }
        assert(raw.deep_view().take(raw.len() as int) =~= raw.deep_view());
        assert(srcs.take(f + 1).drop_last() =~= srcs.take(f as int));
        f += 1;
    }
    assert(srcs.take(f as int) =~= srcs);
    lines
}

} // verus!

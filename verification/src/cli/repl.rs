//! Talking line by line.
use crate::cli::command::{command_of, parse_session_command, CommandView, SessionCommand};
use crate::text::{
    chars_of, is_white, part, same, skip_white, str_strip, str_trim, string_of, stripped, trim_start, trimmed, white,
};
use vstd::prelude::*;

verus! {

/// What a line asks for.
#[derive(Debug, Clone, PartialEq, Eq)]
pub enum LineAction {
    Exit,
    Skip,
    SetScope(String),
    Command(SessionCommand),
    Turn(String),
}

/// The mathematical form of what a line asks for.
pub enum ActionView {
    Exit,
    Skip,
    SetScope(Seq<char>),
    Command(CommandView),
    Turn(Seq<char>),
}

impl View for LineAction {
    type V = ActionView;

    open spec fn view(&self) -> ActionView {
        match self {
            LineAction::Exit => ActionView::Exit,
            LineAction::Skip => ActionView::Skip,
            LineAction::SetScope(s) => ActionView::SetScope(s@),
            LineAction::Command(c) => ActionView::Command(c@),
            LineAction::Turn(t) => ActionView::Turn(t@),
        }
    }
}

/// Where the first word of a text ends.
pub open spec fn word_end(s: Seq<char>) -> int
    decreases s.len(),
{
    if s.len() == 0 || white(s[0]) {
        0
    } else {
        1 + word_end(s.drop_first())
    }
}

/// What a line behind its slash asks for; nothing where no command has that name.
pub open spec fn slash_action(rest: Seq<char>) -> ActionView {
    let s = trim_start(rest);
    match command_of(s.take(word_end(s)), s.skip(word_end(s))) {
        Some(c) => ActionView::Command(c),
        None => ActionView::Skip,
    }
}

/// What a line asks for.
pub open spec fn action_of(line: Seq<char>) -> ActionView {
    let t = trimmed(line);
    if t.len() == 0 {
        ActionView::Skip
    } else if t == "/exit"@ || t == "/quit"@ {
        ActionView::Exit
    } else if t == "/scope"@ {
        ActionView::Skip
    } else {
        match stripped(t, "/scope "@) {
            Some(rest) => if trimmed(rest).len() == 0 {
                ActionView::Skip
            } else {
                ActionView::SetScope(trimmed(rest))
            },
            None => match stripped(t, "/"@) {
                Some(rest) => slash_action(rest),
                None => ActionView::Turn(t),
            },
        }
    }
}

proof fn word_end_at(s: Seq<char>, i: int)
    requires
        0 <= i <= s.len(),
        forall|k: int| 0 <= k < i ==> !white(#[trigger] s[k]),
        i < s.len() ==> white(s[i]),
    ensures
        word_end(s) == i,
    decreases s.len(),
{
    if i > 0 {
        let d = s.drop_first();
        assert(!white(s[0]));
        assert forall|k: int| 0 <= k < i - 1 implies !white(#[trigger] d[k]) by {
            assert(d[k] == s[k + 1]);
        }
        if i < s.len() {
            assert(d[i - 1] == s[i]);
        }
        word_end_at(d, i - 1);
    }
}

fn slash_command(rest: &str) -> (r: LineAction)
    ensures
        r@ == slash_action(rest@),
{
    let v = chars_of(rest);
    let s = skip_white(v.as_slice());
    let mut i: usize = 0;
    while i < s.len() && !is_white(s[i])
        invariant
            i <= s@.len(),
            forall|k: int| 0 <= k < i ==> !white(#[trigger] s@[k]),
        decreases s@.len() - i,
    {
        i = i + 1;
    }
    proof {
        word_end_at(s@, i as int);
        assert(s@.subrange(0, i as int) =~= s@.take(i as int));
        assert(s@.subrange(i as int, s@.len() as int) =~= s@.skip(i as int));
    }
    let name = string_of(part(s, 0, i));
    let args = string_of(part(s, i, s.len()));
    match parse_session_command(name.as_str(), args.as_str()) {
        Some(c) => LineAction::Command(c),
        None => LineAction::Skip,
    }
}

/// What a line asks for.
pub fn classify_line(line: &str) -> (r: LineAction)
    ensures
        r@ == action_of(line@),
{
    let t = str_trim(line);
    let t = t.as_str();
    if t.is_empty() {
        return LineAction::Skip;
    }
    if same(t, "/exit") || same(t, "/quit") {
        return LineAction::Exit;
    }
    if same(t, "/scope") {
        return LineAction::Skip;
    }
    if let Some(rest) = str_strip(t, "/scope ") {
        let s = str_trim(rest.as_str());
        if s.as_str().is_empty() {
            return LineAction::Skip;
        }
        return LineAction::SetScope(s);
    }
    if let Some(rest) = str_strip(t, "/") {
        return slash_command(rest.as_str());
    }
    LineAction::Turn(t.to_owned())
}

/// A talk: the scope it is in, and how many turns it has had.
#[derive(Debug, Clone, PartialEq, Eq)]
pub struct Repl {
    pub scope: String,
    pub turns: usize,
}

/// What is done about a line.
#[derive(Debug, Clone, PartialEq, Eq)]
pub enum ReplMove {
    /// The talk is over.
    Stop,
    /// There is nothing to do.
    Nothing,
    /// Carry out a command in the scope of the talk.
    Command(SessionCommand),
    /// Run a turn in the scope of the talk.
    Turn(String),
}

impl Repl {
    /// A talk in a scope.
    pub fn new(scope: &str) -> (r: Repl)
        ensures
            r.scope@ == scope@,
            r.turns == 0,
    {
        Repl { scope: scope.to_owned(), turns: 0 }
    }

    /// What is done about a line. A line may move the talk to another scope.
    pub fn next_move(&mut self, line: &str) -> (r: ReplMove)
        ensures
            final(self).turns == old(self).turns,
            match action_of(line@) {
                ActionView::Exit => r is Stop && final(self).scope@ == old(self).scope@,
                ActionView::Skip => r is Nothing && final(self).scope@ == old(self).scope@,
                ActionView::SetScope(s) => r is Nothing && final(self).scope@ == s,
                ActionView::Command(c) => (r matches ReplMove::Command(d) && d@ == c) && final(self).scope@ == old(
                    self,
                ).scope@,
                ActionView::Turn(t) => (r matches ReplMove::Turn(u) && u@ == t) && final(self).scope@ == old(self).scope@,
            },
    {
        match classify_line(line) {
            LineAction::Exit => ReplMove::Stop,
            LineAction::Skip => ReplMove::Nothing,
            LineAction::SetScope(s) => {
                self.scope = s;
                ReplMove::Nothing
            },
            LineAction::Command(c) => ReplMove::Command(c),
            LineAction::Turn(t) => ReplMove::Turn(t),
        }
    }

    /// Counts a turn that was answered.
    pub fn turn_answered(&mut self)
        requires
            old(self).turns < usize::MAX,
        ensures
            final(self).turns == old(self).turns + 1,
            final(self).scope == old(self).scope,
    {
        self.turns = self.turns + 1;
    }
}

} // verus!

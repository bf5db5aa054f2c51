//! Server-sent events, line by line.
use crate::text::{chars_of, join, joined, opt_text, part, str_strip, string_of, stripped, texts};
use vstd::prelude::*;

verus! {

/// Collects the data lines of one event until a blank line ends it.
#[derive(Default)]
pub struct SseParser {
    pub data_lines: Vec<String>,
}

/// The line without carriage returns at its end.
pub open spec fn cr_stripped(s: Seq<char>) -> Seq<char>
    decreases s.len(),
{
    if s.len() > 0 && s.last() == '\r' {
        cr_stripped(s.drop_last())
    } else {
        s
    }
}

/// The data that a line carries: what follows `data:` and one space. A line that starts with a
/// colon is a comment and carries none.
pub open spec fn data_on(line: Seq<char>) -> Option<Seq<char>> {
    match stripped(line, "data:"@) {
        Some(data) => Some(
            match stripped(data, " "@) {
                Some(rest) => rest,
                None => data,
            },
        ),
        None => None,
    }
}

/// The data lines collected after one more line.
pub open spec fn data_after(lines: Seq<Seq<char>>, line: Seq<char>) -> Seq<Seq<char>> {
    let l = cr_stripped(line);
    if l.len() == 0 {
        Seq::empty()
    } else {
        match data_on(l) {
            Some(data) => lines.push(data),
            None => lines,
        }
    }
}

/// The event that a line ends, if any: a blank line ends the data lines collected.
pub open spec fn event_ended(lines: Seq<Seq<char>>, line: Seq<char>) -> Option<Seq<char>> {
    if cr_stripped(line).len() == 0 && lines.len() > 0 {
        Some(joined(lines, "\n"@))
    } else {
        None
    }
}

fn strip_cr(s: &[char]) -> (r: &[char])
    ensures
        r@ == cr_stripped(s@),
{
    let mut n: usize = s.len();
    assert(s@.take(n as int) =~= s@);
    while n > 0 && s[n - 1] == '\r'
        invariant
            n <= s.len(),
            cr_stripped(s@) == cr_stripped(s@.take(n as int)),
        decreases n,
    {
        assert(s@.take(n as int).drop_last() =~= s@.take(n - 1));
        n = n - 1;
    }
    assert(s@.subrange(0, n as int) =~= s@.take(n as int));
    part(s, 0, n)
}

impl SseParser {
    /// A parser that has read nothing.
    pub fn new() -> (r: SseParser)
        ensures
            texts(r.data_lines@) == Seq::<Seq<char>>::empty(),
    {
        let r = SseParser { data_lines: Vec::new() };
        assert(texts(r.data_lines@) =~= Seq::empty());
        r
    }

    /// Reads one line; gives the data of the event that it ends, if it ends one.
    pub fn feed_line(&mut self, line: &str) -> (r: Option<String>)
        ensures
            opt_text(r) == event_ended(texts(old(self).data_lines@), line@),
            texts(final(self).data_lines@) == data_after(texts(old(self).data_lines@), line@),
    {
        let ghost before = texts(self.data_lines@);
        let v = chars_of(line);
        let kept = string_of(strip_cr(v.as_slice()));
        if kept.as_str().is_empty() {
            if self.data_lines.len() == 0 {
                assert(texts(self.data_lines@) =~= Seq::empty());
                return None;
            }
            let text = join(&self.data_lines, "\n");
            self.data_lines = Vec::new();
            assert(texts(self.data_lines@) =~= Seq::empty());
            return Some(text);
        }
        if let Some(data) = str_strip(kept.as_str(), "data:") {
            let value = match str_strip(data.as_str(), " ") {
                Some(rest) => rest,
                None => data,
            };
            self.data_lines.push(value);
            assert(texts(self.data_lines@) =~= before.push(value@));
        }
        None
    }
}

/// A line that is a comment changes nothing and ends nothing.
pub proof fn comments_are_ignored(lines: Seq<Seq<char>>, line: Seq<char>)
    requires
        cr_stripped(line).len() > 0,
        cr_stripped(line)[0] == ':',
    ensures
        data_after(lines, line) == lines,
        event_ended(lines, line) is None,
{
    reveal_strlit("data:");
    let l = cr_stripped(line);
    if crate::text::begins(l, "data:"@) {
        assert(l.subrange(0, 5)[0] == "data:"@[0]);
    }
}

} // verus!

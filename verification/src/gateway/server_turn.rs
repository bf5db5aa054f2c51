//! The course of a turn with the agent server: its stages, the files remembered for a session, and
//! the events it sends.
use crate::gateway::backend::{attachments_of, AgentAttachment, AgentRequest, AttachmentView, RequestForm};
use crate::gateway::error::GatewayError;
use crate::gateway::event_map::{action_for, map_server_event, seen_after, ActionView, ServerEventAction};
use crate::gateway::sse::{data_after, event_ended, SseParser};
use crate::gateway::stream::{events_of, EventView, StreamEvent};
use crate::json::{parse_json, parsed_json, Json, JsonView};
use crate::text::{chars_of, clone_opt, extend, same, split, texts};
use vstd::prelude::*;

verus! {

// ---------------------------------------------------------------------------
// Stages
// ---------------------------------------------------------------------------

/// What is done next in a turn.
#[derive(Debug, Clone, Copy, PartialEq, Eq, Structural)]
pub enum Stage {
    CheckHealth,
    CreateSession,
    OpenStream,
    Send,
    /// The session is gone: create another one.
    ReplaceSession,
    /// Send again, to the new session, with the files remembered for the old one.
    Resend,
    ConsumeStream,
    ListMessages,
    Finished,
    Failed,
}

/// How a stage ended.
#[derive(Debug, Clone, Copy, PartialEq, Eq, Structural)]
pub enum StageEnd {
    Done,
    /// The server did not know the session.
    NotFound,
    Error,
}

/// The first stage that sends.
pub open spec fn first_sending(streaming: bool) -> Stage {
    if streaming {
        Stage::OpenStream
    } else {
        Stage::Send
    }
}

/// The stage after the message was sent.
pub open spec fn after_sending(streaming: bool) -> Stage {
    if streaming {
        Stage::ConsumeStream
    } else {
        Stage::Finished
    }
}

/// The next stage of a turn.
pub open spec fn stage_after(stage: Stage, streaming: bool, has_session: bool, end: StageEnd) -> Stage {
    match (stage, end) {
        (Stage::CheckHealth, StageEnd::Done) => if has_session {
            first_sending(streaming)
        } else {
            Stage::CreateSession
        },
        (Stage::CreateSession, StageEnd::Done) => first_sending(streaming),
        (Stage::OpenStream, StageEnd::Done) => Stage::Send,
        (Stage::Send, StageEnd::Done) => after_sending(streaming),
        (Stage::Send, StageEnd::NotFound) => Stage::ReplaceSession,
        (Stage::ReplaceSession, StageEnd::Done) => Stage::Resend,
        (Stage::Resend, StageEnd::Done) => after_sending(streaming),
        (Stage::ConsumeStream, StageEnd::Done) => Stage::ListMessages,
        (Stage::ListMessages, StageEnd::Done) => Stage::Finished,
        (Stage::Finished, _) => Stage::Finished,
        _ => Stage::Failed,
    }
}

/// The next stage of a turn.
pub fn next_stage(stage: Stage, streaming: bool, has_session: bool, end: StageEnd) -> (r: Stage)
    ensures
        r == stage_after(stage, streaming, has_session, end),
{
    let sending = if streaming {
        Stage::OpenStream
    } else {
        Stage::Send
    };
    let sent = if streaming {
        Stage::ConsumeStream
    } else {
        Stage::Finished
    };
    match (stage, end) {
        (Stage::CheckHealth, StageEnd::Done) => if has_session {
            sending
        } else {
            Stage::CreateSession
        },
        (Stage::CreateSession, StageEnd::Done) => sending,
        (Stage::OpenStream, StageEnd::Done) => Stage::Send,
        (Stage::Send, StageEnd::Done) => sent,
        (Stage::Send, StageEnd::NotFound) => Stage::ReplaceSession,
        (Stage::ReplaceSession, StageEnd::Done) => Stage::Resend,
        (Stage::Resend, StageEnd::Done) => sent,
        (Stage::ConsumeStream, StageEnd::Done) => Stage::ListMessages,
        (Stage::ListMessages, StageEnd::Done) => Stage::Finished,
        (Stage::Finished, _) => Stage::Finished,
        _ => Stage::Failed,
    }
}

/// How far a stage is from the end.
pub open spec fn distance(stage: Stage) -> nat {
    match stage {
        Stage::CheckHealth => 8,
        Stage::CreateSession => 7,
        Stage::OpenStream => 6,
        Stage::Send => 5,
        Stage::ReplaceSession => 4,
        Stage::Resend => 3,
        Stage::ConsumeStream => 2,
        Stage::ListMessages => 1,
        Stage::Finished | Stage::Failed => 0,
    }
}

/// Every stage brings a turn nearer to its end, so a message is sent again at most once.
pub proof fn turns_end(stage: Stage, streaming: bool, has_session: bool, end: StageEnd)
    requires
        distance(stage) > 0,
    ensures
        distance(stage_after(stage, streaming, has_session, end)) < distance(stage),
{
}

/// The server did not know the session.
pub open spec fn not_found(e: GatewayError) -> bool {
    e matches GatewayError::AgentFailed { code, .. } && code == Some(404i32)
}

/// Whether the server did not know the session.
pub fn is_not_found(e: &GatewayError) -> (r: bool)
    ensures
        r == not_found(*e),
{
    match e {
        GatewayError::AgentFailed { code, .. } => match code {
            Some(c) => *c == 404,
            None => false,
        },
        _ => false,
    }
}

// ---------------------------------------------------------------------------
// Remembered attachments
// ---------------------------------------------------------------------------

/// The files last sent in each session.
pub struct SessionAttachments {
    pub entries: Vec<(String, Vec<AgentAttachment>)>,
}

/// The files of a session in a list of entries.
pub open spec fn entry_of(entries: Seq<(String, Vec<AgentAttachment>)>, session_id: Seq<char>) -> Seq<
    AttachmentView,
>
    decreases entries.len(),
{
    if entries.len() == 0 {
        Seq::empty()
    } else if entries.last().0@ == session_id {
        attachments_of(entries.last().1@)
    } else {
        entry_of(entries.drop_last(), session_id)
    }
}

impl SessionAttachments {
    /// The files last sent in a session; none where none were.
    pub open spec fn files(&self, session_id: Seq<char>) -> Seq<AttachmentView> {
        entry_of(self.entries@, session_id)
    }
}

/// A copy of an attachment.
pub fn copy_attachment(a: &AgentAttachment) -> (r: AgentAttachment)
    ensures
        r@ == a@,
{
    AgentAttachment {
        path: a.path.clone(),
        original_name: a.original_name.clone(),
        mime_type: clone_opt(&a.mime_type),
    }
}

/// A copy of a list of attachments.
pub fn copy_attachments(v: &Vec<AgentAttachment>) -> (r: Vec<AgentAttachment>)
    ensures
        attachments_of(r@) == attachments_of(v@),
{
    let mut r: Vec<AgentAttachment> = Vec::new();
    let mut i: usize = 0;
    while i < v.len()
        invariant
            i <= v.len(),
            r@.len() == i,
            forall|k: int| 0 <= k < i ==> (#[trigger] r@[k])@ == v@[k]@,
        decreases v.len() - i,
    {
        r.push(copy_attachment(&v[i]));
        i = i + 1;
    }
    assert(attachments_of(r@) =~= attachments_of(v@));
    r
}

impl SessionAttachments {
    /// A memory of no session.
    pub fn new() -> (r: SessionAttachments)
        ensures
            forall|id: Seq<char>| #[trigger] r.files(id) == Seq::<AttachmentView>::empty(),
    {
        SessionAttachments { entries: Vec::new() }
    }

    /// Remembers the files of a request for its session; a request without files changes nothing.
    pub fn remember_attachments(&mut self, session_id: &str, req: &AgentRequest)
        ensures
            forall|id: Seq<char>|
                #[trigger] final(self).files(id) == (if id == session_id@ && req@.attachments.len() > 0 {
                    req@.attachments
                } else {
                    old(self).files(id)
                }),
    {
        if req.attachments.len() == 0 {
            return;
        }
        let files = copy_attachments(&req.attachments);
        let ghost before = self.entries@;
        self.entries.push((session_id.to_owned(), files));
        assert(self.entries@.drop_last() =~= before);
    }

    /// The request sent again when its session is gone: with the files remembered for the session
    /// where it brings none itself.
    pub fn rehydrate_request(&self, session_id: &str, req: &AgentRequest) -> (r: AgentRequest)
        ensures
            r@ == (RequestForm {
                attachments: if req@.attachments.len() > 0 {
                    req@.attachments
                } else {
                    self.files(session_id@)
                },
                ..req@
            }),
    {
        let attachments = if req.attachments.len() > 0 {
            copy_attachments(&req.attachments)
        } else {
            self.remembered(session_id)
        };
        let r = AgentRequest {
            prompt: req.prompt.clone(),
            session_id: clone_opt(&req.session_id),
            thinking: req.thinking,
            model: clone_opt(&req.model),
            agent: clone_opt(&req.agent),
            tool_overrides: copy_switches(&req.tool_overrides),
            attachments,
        };
        r
    }

    fn remembered(&self, session_id: &str) -> (r: Vec<AgentAttachment>)
        ensures
            attachments_of(r@) == self.files(session_id@),
    {
        let ghost all = self.entries@;
        let mut n: usize = self.entries.len();
        assert(all.take(n as int) =~= all);
        while n > 0
            invariant
                n <= self.entries.len(),
                all == self.entries@,
                entry_of(all, session_id@) == entry_of(all.take(n as int), session_id@),
            decreases n,
        {
            assert(all.take(n as int).drop_last() =~= all.take(n - 1));
            if same(self.entries[n - 1].0.as_str(), session_id) {
                return copy_attachments(&self.entries[n - 1].1);
            }
            n = n - 1;
        }
        let none: Vec<AgentAttachment> = Vec::new();
        assert(attachments_of(none@) =~= Seq::empty());
        none
    }
}

fn copy_switches(v: &Vec<(String, bool)>) -> (r: Vec<(String, bool)>)
    ensures
        crate::gateway::backend::switches_of(r@) == crate::gateway::backend::switches_of(v@),
{
    let mut r: Vec<(String, bool)> = Vec::new();
    let mut i: usize = 0;
    while i < v.len()
        invariant
            i <= v.len(),
            r@.len() == i,
            forall|k: int| 0 <= k < i ==> (#[trigger] r@[k]).0@ == v@[k].0@ && r@[k].1 == v@[k].1,
        decreases v.len() - i,
    {
        r.push((v[i].0.clone(), v[i].1));
        i = i + 1;
    }
    assert(crate::gateway::backend::switches_of(r@) =~= crate::gateway::backend::switches_of(v@));
    r
}

// ---------------------------------------------------------------------------
// The event stream
// ---------------------------------------------------------------------------

/// What has been read of the event stream.
pub struct FeedView {
    /// The start of a line that has not ended yet.
    pub rest: Seq<char>,
    /// The data lines of an event that has not ended yet.
    pub data: Seq<Seq<char>>,
    /// The uses of tools that were shown.
    pub seen: Seq<Seq<char>>,
    /// The events to show.
    pub shown: Seq<EventView>,
    /// The session has nothing more to say.
    pub idle: bool,
}

/// The text split at its line feeds: the pieces before the last line feed, and what follows it.
pub open spec fn line_rest(s: Seq<char>) -> Seq<char> {
    split(s, '\n').last()
}

/// The lines of a text that have ended.
pub open spec fn ended_lines(s: Seq<char>) -> Seq<Seq<char>> {
    split(s, '\n').drop_last()
}

/// What has been read after one more line. Nothing is read once the session is idle.
pub open spec fn after_line(f: FeedView, line: Seq<char>, session_id: Seq<char>) -> FeedView {
    if f.idle {
        f
    } else {
        let data = data_after(f.data, line);
        match event_ended(f.data, line) {
            None => FeedView { data, ..f },
            Some(text) => match parsed_json(text) {
                None => FeedView { data, ..f },
                Some(v) => after_value(FeedView { data, ..f }, v, session_id),
            },
        }
    }
}

/// What has been read after one more event of the server.
pub open spec fn after_value(f: FeedView, v: JsonView, session_id: Seq<char>) -> FeedView {
    let seen = seen_after(v, session_id, f.seen);
    match action_for(v, session_id, f.seen) {
        ActionView::Emit(e) => FeedView { seen, shown: f.shown.push(e), ..f },
        ActionView::Idle => FeedView { seen, idle: true, ..f },
        ActionView::Ignore => FeedView { seen, ..f },
    }
}

/// What has been read after several lines.
pub open spec fn after_lines(f: FeedView, lines: Seq<Seq<char>>, session_id: Seq<char>) -> FeedView
    decreases lines.len(),
{
    if lines.len() == 0 {
        f
    } else {
        after_line(after_lines(f, lines.drop_last(), session_id), lines.last(), session_id)
    }
}

/// What has been read after one more chunk of the stream.
pub open spec fn after_chunk(f: FeedView, chunk: Seq<char>, session_id: Seq<char>) -> FeedView {
    let all = f.rest + chunk;
    FeedView { rest: line_rest(all), ..after_lines(FeedView { rest: Seq::empty(), ..f }, ended_lines(all), session_id) }
}

/// Reads the server's event stream for one session.
pub struct EventFeed {
    pub rest: Vec<char>,
    pub parser: SseParser,
    pub seen_tools: Vec<String>,
    pub shown: Vec<StreamEvent>,
    pub idle: bool,
}

impl View for EventFeed {
    type V = FeedView;

    open spec fn view(&self) -> FeedView {
        FeedView {
            rest: self.rest@,
            data: texts(self.parser.data_lines@),
            seen: texts(self.seen_tools@),
            shown: events_of(self.shown@),
            idle: self.idle,
        }
    }
}

impl EventFeed {
    /// A feed that has read nothing.
    pub fn new() -> (r: EventFeed)
        ensures
            r@ == (FeedView {
                rest: Seq::empty(),
                data: Seq::empty(),
                seen: Seq::empty(),
                shown: Seq::empty(),
                idle: false,
            }),
    {
        let r = EventFeed {
            rest: Vec::new(),
            parser: SseParser::new(),
            seen_tools: Vec::new(),
            shown: Vec::new(),
            idle: false,
        };
        assert(r@.rest =~= Seq::empty());
        assert(r@.seen =~= Seq::empty());
        assert(r@.shown =~= Seq::empty());
        r
    }

    /// Takes in one event of the server.
    pub fn accept(&mut self, value: &Json, session_id: &str)
        ensures
            final(self)@ == after_value(old(self)@, value@, session_id@),
    {
        let ghost before = self@;
        match map_server_event(value, session_id, &mut self.seen_tools) {
            ServerEventAction::Emit(e) => {
                self.shown.push(e);
                assert(self@.shown =~= before.shown.push(e@));
            },
            ServerEventAction::Idle => {
                self.idle = true;
            },
            ServerEventAction::Ignore => {},
        }
    }

    fn read_line(&mut self, line: &str, session_id: &str)
        ensures
            final(self)@ == after_line(old(self)@, line@, session_id@),
    {
        if self.idle {
            return;
        }
        if let Some(text) = self.parser.feed_line(line) {
            if let Some(value) = parse_json(text.as_str()) {
                self.accept(&value, session_id);
            }
        }
    }

    /// Reads one more chunk of the stream: shows what its ended lines ask for and keeps the rest.
    pub fn read_chunk(&mut self, chunk: &str, session_id: &str)
        ensures
            final(self)@ == after_chunk(old(self)@, chunk@, session_id@),
    {
        let piece = chars_of(chunk);
        let mut all: Vec<char> = Vec::new();
        std::mem::swap(&mut all, &mut self.rest);
        extend(&mut all, piece.as_slice());
        let lines = crate::text::split_on(all.as_slice(), '\n');
        let ghost pieces = texts(lines@);
        proof {
            crate::text::split_not_empty(all@, '\n');
        }
        let n: usize = lines.len() - 1;
        let ghost start = self@;
        let ghost ended = pieces.drop_last();
        assert(start.rest =~= Seq::empty());
        let mut i: usize = 0;
        assert(ended.take(0) =~= Seq::empty());
        while i < n
            invariant
                i <= n < lines.len(),
                pieces == texts(lines@),
                ended == pieces.drop_last(),
                ended.len() == n,
                self@ == after_lines(start, ended.take(i as int), session_id@),
            decreases n - i,
        {
            assert(ended.take(i + 1).drop_last() =~= ended.take(i as int));
            assert(ended.take(i + 1).last() == lines@[i as int]@);
            self.read_line(lines[i].as_str(), session_id);
            i = i + 1;
        }
        assert(ended.take(i as int) =~= ended);
        self.rest = chars_of(lines[n].as_str());
        assert(pieces.last() == lines@[n as int]@);
    }
}

/// Nothing is shown once the session is idle.
pub proof fn idle_feeds_stay_idle(f: FeedView, lines: Seq<Seq<char>>, session_id: Seq<char>)
    requires
        f.idle,
    ensures
        after_lines(f, lines, session_id) == f,
    decreases lines.len(),
{
    if lines.len() > 0 {
        idle_feeds_stay_idle(f, lines.drop_last(), session_id);
    }
}

/// How the stream is cut into chunks does not matter: reading two chunks one after another is
/// reading them as one.
pub proof fn chunk_borders_do_not_matter(f: FeedView, a: Seq<char>, b: Seq<char>, session_id: Seq<char>)
    ensures
        after_chunk(after_chunk(f, a, session_id), b, session_id) == after_chunk(f, a + b, session_id),
{
    let x = f.rest + a;
    let r = line_rest(x);
    crate::text::split_not_empty(x, '\n');
    assert(f.rest + (a + b) =~= x + b);
    split_tail(x, b);
    let start = FeedView { rest: Seq::empty(), ..f };
    let first = ended_lines(x);
    let more = ended_lines(r + b);
    after_lines_concat(start, first, more, session_id);
    lines_keep_rest(start, first, session_id);
    lines_keep_rest(start, first + more, session_id);
}

proof fn lines_keep_rest(f: FeedView, lines: Seq<Seq<char>>, session_id: Seq<char>)
    ensures
        after_lines(f, lines, session_id).rest == f.rest,
    decreases lines.len(),
{
    if lines.len() > 0 {
        lines_keep_rest(f, lines.drop_last(), session_id);
    }
}

proof fn after_lines_concat(f: FeedView, a: Seq<Seq<char>>, b: Seq<Seq<char>>, session_id: Seq<char>)
    ensures
        after_lines(f, a + b, session_id) == after_lines(after_lines(f, a, session_id), b, session_id),
    decreases b.len(),
{
    if b.len() == 0 {
        assert(a + b =~= a);
    } else {
        assert((a + b).drop_last() =~= a + b.drop_last());
        after_lines_concat(f, a, b.drop_last(), session_id);
    }
}

proof fn split_tail(x: Seq<char>, b: Seq<char>)
    ensures
        line_rest(x + b) == line_rest(line_rest(x) + b),
        ended_lines(x + b) == ended_lines(x) + ended_lines(line_rest(x) + b),
    decreases b.len(),
{
    let r = line_rest(x);
    crate::text::split_not_empty(x, '\n');
    if b.len() == 0 {
        assert(x + b =~= x);
        assert(r + b =~= r);
        crate::text::split_pieces_lack_separator(x, '\n');
        piece_alone(r);
        assert(ended_lines(x) + ended_lines(r) =~= ended_lines(x));
    } else {
        let d = b.drop_last();
        split_tail(x, d);
        assert((x + b).drop_last() =~= x + d);
        assert((r + b).drop_last() =~= r + d);
        crate::text::split_not_empty(x + d, '\n');
        crate::text::split_not_empty(r + d, '\n');
        let sx = split(x + d, '\n');
        let sr = split(r + d, '\n');
        if b.last() == '\n' {
            assert(sx.push(Seq::empty()).drop_last() =~= sx);
            assert(sr.push(Seq::empty()).drop_last() =~= sr);
            assert(sx =~= sx.drop_last().push(sx.last()));
            assert(sr =~= sr.drop_last().push(sr.last()));
            assert(ended_lines(x + b) =~= ended_lines(x) + ended_lines(r + b));
        } else {
            assert(ended_lines(x + b) =~= sx.drop_last());
            assert(ended_lines(r + b) =~= sr.drop_last());
        }
    }
}

proof fn piece_alone(r: Seq<char>)
    requires
        !r.contains('\n'),
    ensures
        split(r, '\n') == seq![r],
    decreases r.len(),
{
    if r.len() > 0 {
        let d = r.drop_last();
        assert(!d.contains('\n')) by {
            if d.contains('\n') {
                let i = d.index_of('\n');
                assert(r[i] == '\n');
            }
        }
        piece_alone(d);
        assert(r.last() != '\n') by {
            assert(r.contains(r[r.len() - 1]));
        }
        assert(d.push(r.last()) =~= r);
        assert(split(r, '\n') =~= seq![r]);
    } else {
        assert(r =~= Seq::<char>::empty());
    }
}

} // verus!

//! Requests to the agent, its command line, and the text that it streams.
use crate::gateway::error::GatewayError;
use crate::gateway::stream::{
    event_on, opt_event, parse_event, parse_session_id, session_on, EventView, StreamEvent,
};
use crate::json::opt_str;
use crate::text::{
    begins, blank, chars_of, copied, extend, find, first_index, is_blank, opt_text, parse_unsigned,
    parsed_unsigned, part, push_text, same, stands_at, str_begins, str_trim, string_of, texts,
    trim, trimmed, first_index_is_first, occurs_at, joined,
};
use vstd::prelude::*;

verus! {

/// The mark at which a block of tool calls starts in the agent's text.
pub const DSML_TOOL_CALLS_START: &'static str = "<｜｜DSML｜｜tool_calls>";

/// The mark at which a block of tool calls ends.
pub const DSML_TOOL_CALLS_END: &'static str = "</｜｜DSML｜｜tool_calls>";

/// How long the agent may take unless configured otherwise, in seconds.
pub const DEFAULT_AGENT_TIMEOUT_SECS: u64 = 1200;

/// A file that goes with a request.
#[derive(Debug, Clone, PartialEq, Eq)]
pub struct AgentAttachment {
    pub path: String,
    pub original_name: String,
    pub mime_type: Option<String>,
}

/// A request to the agent.
#[derive(Debug, Clone, PartialEq, Eq)]
pub struct AgentRequest {
    pub prompt: String,
    /// The session to continue; none for a fresh one.
    pub session_id: Option<String>,
    /// Ask for reasoning to be shown.
    pub thinking: bool,
    /// The model to use instead of the configured one.
    pub model: Option<String>,
    /// The agent to use instead of the default one, such as `plan`.
    pub agent: Option<String>,
    /// Tools switched on or off for this request, by name.
    pub tool_overrides: Vec<(String, bool)>,
    pub attachments: Vec<AgentAttachment>,
}

/// The agent's answer.
#[derive(Debug, Clone, PartialEq, Eq)]
pub struct AgentResponse {
    pub text: String,
    /// The session that the answer belongs to, where the agent named it.
    pub session_id: Option<String>,
}

/// The mathematical form of an answer.
pub struct ResponseView {
    pub text: Seq<char>,
    pub session_id: Option<Seq<char>>,
}

impl View for AgentResponse {
    type V = ResponseView;

    open spec fn view(&self) -> ResponseView {
        ResponseView { text: self.text@, session_id: opt_text(self.session_id) }
    }
}

/// The mathematical form of an attachment.
pub struct AttachmentView {
    pub path: Seq<char>,
    pub original_name: Seq<char>,
    pub mime_type: Option<Seq<char>>,
}

impl View for AgentAttachment {
    type V = AttachmentView;

    open spec fn view(&self) -> AttachmentView {
        AttachmentView {
            path: self.path@,
            original_name: self.original_name@,
            mime_type: opt_text(self.mime_type),
        }
    }
}

/// The mathematical forms of a sequence of attachments.
pub open spec fn attachments_of(v: Seq<AgentAttachment>) -> Seq<AttachmentView> {
    v.map_values(|a: AgentAttachment| a@)
}

/// The mathematical forms of a sequence of tool switches.
pub open spec fn switches_of(v: Seq<(String, bool)>) -> Seq<(Seq<char>, bool)> {
    v.map_values(|s: (String, bool)| (s.0@, s.1))
}

/// The mathematical form of a request.
pub struct RequestForm {
    pub prompt: Seq<char>,
    pub session_id: Option<Seq<char>>,
    pub thinking: bool,
    pub model: Option<Seq<char>>,
    pub agent: Option<Seq<char>>,
    pub tool_overrides: Seq<(Seq<char>, bool)>,
    pub attachments: Seq<AttachmentView>,
}

impl View for AgentRequest {
    type V = RequestForm;

    open spec fn view(&self) -> RequestForm {
        RequestForm {
            prompt: self.prompt@,
            session_id: opt_text(self.session_id),
            thinking: self.thinking,
            model: opt_text(self.model),
            agent: opt_text(self.agent),
            tool_overrides: switches_of(self.tool_overrides@),
            attachments: attachments_of(self.attachments@),
        }
    }
}

/// A request that asks for nothing but an answer to a prompt.
pub open spec fn plain_request(prompt: Seq<char>) -> RequestForm {
    RequestForm {
        prompt,
        session_id: None,
        thinking: false,
        model: None,
        agent: None,
        tool_overrides: Seq::empty(),
        attachments: Seq::empty(),
    }
}

impl AgentRequest {
    /// A request that asks for nothing but an answer to a prompt.
    pub fn plain(prompt: String) -> (r: AgentRequest)
        ensures
            r@ == plain_request(prompt@),
    {
        let r = AgentRequest {
            prompt,
            session_id: None,
            thinking: false,
            model: None,
            agent: None,
            tool_overrides: Vec::new(),
            attachments: Vec::new(),
        };
        assert(r@.tool_overrides =~= Seq::empty());
        assert(r@.attachments =~= Seq::empty());
        r
    }

    /// The request that compacts a session.
    pub fn compaction(session_id: &str, model: Option<&str>) -> (r: AgentRequest)
        ensures
            r@ == (RequestForm {
                session_id: Some(session_id@),
                model: opt_str(model),
                ..plain_request("/compact"@)
            }),
    {
        let mut r = AgentRequest::plain("/compact".to_owned());
        r.session_id = Some(session_id.to_owned());
        r.model = match model {
            Some(m) => Some(m.to_owned()),
            None => None,
        };
        r
    }
}

// ---------------------------------------------------------------------------
// The command line
// ---------------------------------------------------------------------------

/// The command without its model flags and their values.
pub open spec fn without_model(command: Seq<Seq<char>>) -> Seq<Seq<char>>
    decreases command.len(),
{
    if command.len() == 0 {
        Seq::empty()
    } else {
        let arg = command[0];
        if arg == "--model"@ || arg == "-m"@ {
            if command.len() >= 2 {
                without_model(command.skip(2))
            } else {
                Seq::empty()
            }
        } else if begins(arg, "--model="@) {
            without_model(command.skip(1))
        } else {
            seq![arg] + without_model(command.skip(1))
        }
    }
}

/// A flag and its value, where the value is there and not blank.
pub open spec fn flag_value(flag: Seq<char>, value: Option<Seq<char>>) -> Seq<Seq<char>> {
    match value {
        Some(v) => if blank(v) {
            Seq::empty()
        } else {
            seq![flag, trimmed(v)]
        },
        None => Seq::empty(),
    }
}

/// The file flags of the attachments.
pub open spec fn file_flags(attachments: Seq<AttachmentView>) -> Seq<Seq<char>>
    decreases attachments.len(),
{
    if attachments.len() == 0 {
        Seq::empty()
    } else {
        file_flags(attachments.drop_last()) + seq!["--file"@, attachments.last().path]
    }
}

/// Everything on the command line before the prompt.
pub open spec fn argv_head(
    command: Seq<Seq<char>>,
    session_id: Option<Seq<char>>,
    thinking: bool,
    model: Option<Seq<char>>,
    agent: Option<Seq<char>>,
    attachments: Seq<AttachmentView>,
) -> Seq<Seq<char>> {
    without_model(command) + (match session_id {
        Some(id) => seq!["-s"@, id],
        None => Seq::empty(),
    }) + (if thinking {
        seq!["--thinking"@]
    } else {
        Seq::empty()
    }) + flag_value("--model"@, model) + flag_value("--agent"@, agent) + file_flags(attachments)
}

/// The command without its model flags and their values.
pub fn strip_model_args(command: &Vec<String>) -> (r: Vec<String>)
    ensures
        texts(r@) == without_model(texts(command@)),
{
    let ghost all = texts(command@);
    let mut out: Vec<String> = Vec::new();
    let mut i: usize = 0;
    proof {
        assert(all.skip(0) =~= all);
        assert(texts(out@) + without_model(all) =~= without_model(all));
    }
    while i < command.len()
        invariant
            i <= command.len(),
            all == texts(command@),
            texts(out@) + without_model(all.skip(i as int)) == without_model(all),
        decreases command.len() - i,
    {
        let ghost rest = all.skip(i as int);
        let ghost done = texts(out@);
        let arg = &command[i];
        assert(rest[0] == arg@);
        if same(arg.as_str(), "--model") || same(arg.as_str(), "-m") {
            if command.len() - i >= 2 {
                assert(rest.skip(2) =~= all.skip(i + 2));
                i = i + 2;
            } else {
                assert(all.skip(i + 1) =~= Seq::empty());
                i = i + 1;
            }
        } else if str_begins(arg.as_str(), "--model=") {
            assert(rest.skip(1) =~= all.skip(i + 1));
            i = i + 1;
        } else {
            out.push(arg.clone());
            assert(rest.skip(1) =~= all.skip(i + 1));
            assert(texts(out@) =~= done.push(arg@));
            assert(texts(out@) + without_model(all.skip(i + 1)) =~= done + without_model(rest));
            i = i + 1;
        }
    }
    assert(all.skip(i as int) =~= Seq::empty());
    assert(texts(out@) + without_model(all.skip(i as int)) =~= texts(out@));
    out
}

fn push_flag(argv: &mut Vec<String>, flag: &str, value: Option<&str>)
    ensures
        texts(final(argv)@) == texts(old(argv)@) + flag_value(flag@, opt_str(value)),
{
    let ghost before = texts(argv@);
    if let Some(v) = value {
        let kept = str_trim(v);
        if !kept.as_str().is_empty() {
            push_text(argv, flag);
            push_text(argv, kept.as_str());
        }
    }
    assert(texts(argv@) =~= before + flag_value(flag@, opt_str(value)));
}

fn head_of(
    command: &Vec<String>,
    session_id: Option<&str>,
    thinking: bool,
    model: Option<&str>,
    agent: Option<&str>,
    attachments: &Vec<AgentAttachment>,
) -> (r: Vec<String>)
    ensures
        texts(r@) == argv_head(
            texts(command@),
            opt_str(session_id),
            thinking,
            opt_str(model),
            opt_str(agent),
            attachments_of(attachments@),
        ),
{
    let mut argv = strip_model_args(command);
    let ghost base = texts(argv@);
    if let Some(id) = session_id {
        push_text(&mut argv, "-s");
        push_text(&mut argv, id);
    }
    if thinking {
        push_text(&mut argv, "--thinking");
    }
    push_flag(&mut argv, "--model", model);
    push_flag(&mut argv, "--agent", agent);
    let ghost before = texts(argv@);
    let ghost all = attachments_of(attachments@);
    let mut i: usize = 0;
    assert(before =~= before + file_flags(all.take(0)));
    while i < attachments.len()
        invariant
            i <= attachments.len(),
            all == attachments_of(attachments@),
            texts(argv@) == before + file_flags(all.take(i as int)),
        decreases attachments.len() - i,
    {
        push_text(&mut argv, "--file");
        push_text(&mut argv, attachments[i].path.as_str());
        i = i + 1;
        assert(all.take(i as int).drop_last() =~= all.take(i - 1));
        assert(texts(argv@) =~= before + file_flags(all.take(i as int)));
    }
    assert(all.take(i as int) =~= all);
    assert(texts(argv@) =~= argv_head(
        texts(command@),
        opt_str(session_id),
        thinking,
        opt_str(model),
        opt_str(agent),
        all,
    ));
    argv
}

/// The command line of the agent: the command, the session, the flags, the files, and the prompt
/// last.
pub fn assemble_argv(
    command: &Vec<String>,
    session_id: Option<&str>,
    thinking: bool,
    model: Option<&str>,
    agent: Option<&str>,
    attachments: &Vec<AgentAttachment>,
    prompt: &str,
) -> (r: Vec<String>)
    ensures
        texts(r@) == argv_head(
            texts(command@),
            opt_str(session_id),
            thinking,
            opt_str(model),
            opt_str(agent),
            attachments_of(attachments@),
        ).push(prompt@),
{
    let mut argv = head_of(command, session_id, thinking, model, agent, attachments);
    push_text(&mut argv, prompt);
    argv
}

/// The command line of an agent that is asked for its events as JSON lines.
pub fn assemble_streaming_argv(command: &Vec<String>, req: &AgentRequest) -> (r: Vec<String>)
    ensures
        texts(r@) == argv_head(
            texts(command@),
            req@.session_id,
            req.thinking,
            req@.model,
            req@.agent,
            req@.attachments,
        ).push("--format"@).push("json"@).push(req.prompt@),
{
    let mut argv = head_of(
        command,
        as_slice(&req.session_id),
        req.thinking,
        as_slice(&req.model),
        as_slice(&req.agent),
        &req.attachments,
    );
    push_text(&mut argv, "--format");
    push_text(&mut argv, "json");
    push_text(&mut argv, req.prompt.as_str());
    argv
}

fn as_slice<'a>(o: &'a Option<String>) -> (r: Option<&'a str>)
    ensures
        opt_str(r) == opt_text(*o),
{
    match o {
        Some(s) => Some(s.as_str()),
        None => None,
    }
}

/// No model flag of the base command survives, whatever the command.
pub proof fn model_flags_are_gone(command: Seq<Seq<char>>, i: int)
    requires
        0 <= i < without_model(command).len(),
    ensures
        without_model(command)[i] != "--model"@,
        without_model(command)[i] != "-m"@,
        !begins(without_model(command)[i], "--model="@),
    decreases command.len(),
{
    let arg = command[0];
    if arg == "--model"@ || arg == "-m"@ {
        if command.len() >= 2 {
            model_flags_are_gone(command.skip(2), i);
        }
    } else if begins(arg, "--model="@) {
        model_flags_are_gone(command.skip(1), i);
    } else if i > 0 {
        model_flags_are_gone(command.skip(1), i - 1);
    }
}

/// The program that a command runs.
pub open spec fn binary_of(command: Seq<Seq<char>>) -> Seq<char> {
    if command.len() > 0 {
        command[0]
    } else {
        "opencode"@
    }
}

/// The program that a command runs.
pub fn opencode_binary(command: &Vec<String>) -> (r: &str)
    ensures
        r@ == binary_of(texts(command@)),
{
    if command.len() > 0 {
        command[0].as_str()
    } else {
        "opencode"
    }
}

/// An agent driven as a subprocess.
#[derive(Debug, Clone, PartialEq, Eq)]
pub struct AgentCliBackend {
    pub command: Vec<String>,
    /// The working directory of the subprocess; none for that of this process.
    pub workspace: Option<String>,
}

/// Which agent is used: a subprocess, or the server at an address.
#[derive(Debug, Clone, PartialEq, Eq)]
pub enum AgentBackend {
    Cli(AgentCliBackend),
    Server { base_url: String, workspace: Option<String> },
}

/// Chooses the agent by the configured address of the server: a blank one means a subprocess.
pub fn choose_backend(url: Option<String>, command: Vec<String>, workspace: Option<String>) -> (r:
    AgentBackend)
    ensures
        match url {
            Some(u) => if blank(u@) {
                r == AgentBackend::Cli(AgentCliBackend { command, workspace })
            } else {
                r == (AgentBackend::Server { base_url: u, workspace })
            },
            None => r == AgentBackend::Cli(AgentCliBackend { command, workspace }),
        },
{
    match url {
        Some(u) => {
            if is_blank(u.as_str()) {
                AgentBackend::Cli(AgentCliBackend { command, workspace })
            } else {
                AgentBackend::Server { base_url: u, workspace }
            }
        },
        None => AgentBackend::Cli(AgentCliBackend { command, workspace }),
    }
}

/// Runs fixed commands of the agent's program.
#[derive(Debug, Clone, PartialEq, Eq)]
pub struct OpencodeUtility {
    pub binary: String,
    pub workspace: Option<String>,
}

impl OpencodeUtility {
    /// The utility that belongs to an agent command.
    pub fn from_agent_command(command: &Vec<String>, workspace: Option<String>) -> (r: OpencodeUtility)
        ensures
            r.binary@ == binary_of(texts(command@)),
            r.workspace == workspace,
    {
        OpencodeUtility { binary: opencode_binary(command).to_owned(), workspace }
    }
}

// ---------------------------------------------------------------------------
// How a subprocess ended
// ---------------------------------------------------------------------------

/// What became of a subprocess: its trimmed output where it succeeded, and else its exit code and
/// its trimmed error output.
pub fn process_outcome(success: bool, code: Option<i32>, stdout: &str, stderr: &str) -> (r: Result<
    String,
    GatewayError,
>)
    ensures
        match r {
            Ok(text) => success && text@ == trimmed(stdout@),
            Err(e) => !success && (e matches GatewayError::AgentFailed { code: c, stderr: s } && c
                == code && s@ == trimmed(stderr@)),
        },
{
    if success {
        Ok(str_trim(stdout))
    } else {
        Err(GatewayError::AgentFailed { code, stderr: str_trim(stderr) })
    }
}

/// The answer of an agent that ran as a subprocess without events.
pub fn run_outcome(success: bool, code: Option<i32>, stdout: &str, stderr: &str) -> (r: Result<
    AgentResponse,
    GatewayError,
>)
    ensures
        match r {
            Ok(a) => success && a@ == (ResponseView { text: trimmed(stdout@), session_id: None }),
            Err(e) => !success && (e matches GatewayError::AgentFailed { code: c, stderr: s } && c
                == code && s@ == trimmed(stderr@)),
        },
{
    match process_outcome(success, code, stdout, stderr) {
        Ok(text) => Ok(AgentResponse { text, session_id: None }),
        Err(e) => Err(e),
    }
}

/// How long the agent may take, in seconds: the configured number where it is one above zero.
pub open spec fn timeout_secs(value: Option<Seq<char>>) -> nat {
    match value {
        Some(v) => match parsed_unsigned(trimmed(v), u64::MAX as nat) {
            Some(n) => if n > 0 {
                n
            } else {
                DEFAULT_AGENT_TIMEOUT_SECS as nat
            },
            None => DEFAULT_AGENT_TIMEOUT_SECS as nat,
        },
        None => DEFAULT_AGENT_TIMEOUT_SECS as nat,
    }
}

/// How long the agent may take, in seconds, by the configured text.
pub fn agent_timeout(value: Option<&str>) -> (r: u64)
    ensures
        r == timeout_secs(opt_str(value)),
{
    if let Some(v) = value {
        let kept = chars_of(v);
        if let Some(n) = parse_unsigned(trim(kept.as_slice()), u64::MAX) {
            if n > 0 {
                return n;
            }
        }
    }
    DEFAULT_AGENT_TIMEOUT_SECS
}

/// The text shown when the agent took too long.
pub open spec fn timeout_text(stderr: Seq<char>) -> Seq<char> {
    "處理逾時，可能是模型 rate limit 或 opencode 無回應；已中斷 agent process。"@ + (if blank(stderr) {
        Seq::empty()
    } else {
        " stderr: "@ + trimmed(stderr)
    })
}

/// The error when the agent took too long.
pub fn agent_timeout_error(stderr: &str) -> (r: GatewayError)
    ensures
        r matches GatewayError::AgentFailed { code, stderr: s } && code is None && s@ == timeout_text(
            stderr@,
        ),
{
    let mut message = String::from_str(
        "處理逾時，可能是模型 rate limit 或 opencode 無回應；已中斷 agent process。",
    );
    let kept = str_trim(stderr);
    if !kept.as_str().is_empty() {
        message.append(" stderr: ");
        message.append(kept.as_str());
    }
    assert(message@ =~= timeout_text(stderr@));
    GatewayError::AgentFailed { code: None, stderr: message }
}

// ---------------------------------------------------------------------------
// Tool call blocks in the agent's text
// ---------------------------------------------------------------------------

/// What a filter has read but not yet decided on, and whether it is inside a block.
pub struct FilterView {
    pub pending: Seq<char>,
    pub inside: bool,
}

/// The text that passes a filter, and what the filter holds back.
pub struct Filtered {
    pub out: Seq<char>,
    pub state: FilterView,
}

/// The text without one line feed at its start.
pub open spec fn newline_skipped(s: Seq<char>) -> Seq<char> {
    if s.len() > 0 && s[0] == '\n' {
        s.skip(1)
    } else {
        s
    }
}

/// The longest end of the text, of at most `n` characters, that is a start of the mark.
pub open spec fn overlap(s: Seq<char>, mark: Seq<char>, n: int) -> int
    decreases n,
{
    if n <= 0 {
        0
    } else if n <= s.len() && n <= mark.len() && s.skip(s.len() - n) == mark.take(n) {
        n
    } else {
        overlap(s, mark, n - 1)
    }
}

/// The longest end of the text that is a start of the mark without being all of it.
pub open spec fn held_back(s: Seq<char>, mark: Seq<char>) -> int {
    let most = if s.len() < mark.len() - 1 {
        s.len() as int
    } else {
        mark.len() - 1
    };
    overlap(s, mark, most)
}

/// Filters a text: blocks of tool calls, and one line feed behind each, are dropped; an end that
/// may yet turn into the start of a block is held back.
pub open spec fn filtered(s: Seq<char>, inside: bool) -> Filtered
    decreases s.len(),
{
    if inside {
        match first_index(s, DSML_TOOL_CALLS_END@, 0) {
            Some(i) => if 0 <= i && i + DSML_TOOL_CALLS_END@.len() <= s.len()
                && DSML_TOOL_CALLS_END@.len() > 0 {
                filtered(newline_skipped(s.skip(i + DSML_TOOL_CALLS_END@.len())), false)
            } else {
                Filtered { out: Seq::empty(), state: FilterView { pending: Seq::empty(), inside: true } }
            },
            None => Filtered {
                out: Seq::empty(),
                state: FilterView { pending: Seq::empty(), inside: true },
            },
        }
    } else {
        match first_index(s, DSML_TOOL_CALLS_START@, 0) {
            Some(i) => if 0 <= i && i + DSML_TOOL_CALLS_START@.len() <= s.len()
                && DSML_TOOL_CALLS_START@.len() > 0 {
                let rest = filtered(s.skip(i + DSML_TOOL_CALLS_START@.len()), true);
                Filtered { out: s.take(i) + rest.out, state: rest.state }
            } else {
                Filtered { out: Seq::empty(), state: FilterView { pending: s, inside: false } }
            },
            None => {
                let n = s.len() - held_back(s, DSML_TOOL_CALLS_START@);
                Filtered {
                    out: s.take(n),
                    state: FilterView { pending: s.skip(n), inside: false },
                }
            },
        }
    }
}

/// Removes blocks of tool calls from a text that arrives in pieces.
#[derive(Default)]
pub struct DsmlToolCallFilter {
    pub pending: Vec<char>,
    pub in_tool_calls: bool,
}

impl View for DsmlToolCallFilter {
    type V = FilterView;

    open spec fn view(&self) -> FilterView {
        FilterView { pending: self.pending@, inside: self.in_tool_calls }
    }
}

proof fn overlap_bounds(s: Seq<char>, mark: Seq<char>, n: int)
    ensures
        0 <= overlap(s, mark, n),
        n >= 0 ==> overlap(s, mark, n) <= n,
        overlap(s, mark, n) > 0 ==> overlap(s, mark, n) <= s.len(),
    decreases n,
{
    if n > 0 {
        overlap_bounds(s, mark, n - 1);
    }
}

/// The length of the longest end of the text that is a start of the mark without being all of it.
pub fn suffix_prefix_len(text: &[char], mark: &[char]) -> (r: usize)
    requires
        mark@.len() > 0,
    ensures
        r == held_back(text@, mark@),
        r <= text@.len(),
{
    let mut n: usize = if text.len() < mark.len() - 1 {
        text.len()
    } else {
        mark.len() - 1
    };
    while n > 0
        invariant
            n <= text.len(),
            n < mark.len(),
            held_back(text@, mark@) == overlap(text@, mark@, n as int),
        decreases n,
    {
        let head = part(mark, 0, n);
        let found = stands_at(text, head, text.len() - n);
        proof {
            assert(head@ =~= mark@.take(n as int));
            assert(text@.subrange(text@.len() - n, text@.len() as int) =~= text@.skip(text@.len() - n));
        }
        if found {
            return n;
        }
        n = n - 1;
    }
    0
}

impl DsmlToolCallFilter {
    /// A filter that has read nothing.
    pub fn new() -> (r: DsmlToolCallFilter)
        ensures
            r@ == (FilterView { pending: Seq::empty(), inside: false }),
    {
        let r = DsmlToolCallFilter { pending: Vec::new(), in_tool_calls: false };
        assert(r@.pending =~= Seq::empty());
        r
    }

    /// Reads a piece of text and gives what can be shown of it.
    pub fn feed(&mut self, text: &str) -> (r: String)
        ensures
            ({
                let f = filtered(old(self)@.pending + text@, old(self)@.inside);
                r@ == f.out && final(self)@ == f.state
            }),
    {
        let ghost all = filtered(self@.pending + text@, self@.inside);
        let start = chars_of(DSML_TOOL_CALLS_START);
        let end = chars_of(DSML_TOOL_CALLS_END);
        let piece = chars_of(text);
        let mut now: Vec<char> = Vec::new();
        std::mem::swap(&mut now, &mut self.pending);
        extend(&mut now, piece.as_slice());
        let mut out: Vec<char> = Vec::new();
        proof {
            reveal_strlit("<｜｜DSML｜｜tool_calls>");
            reveal_strlit("</｜｜DSML｜｜tool_calls>");
            assert(out@ + all.out =~= all.out);
        }
        loop
            invariant
                start@ == DSML_TOOL_CALLS_START@,
                end@ == DSML_TOOL_CALLS_END@,
                start@.len() > 0,
                end@.len() > 0,
                self.pending@.len() == 0,
                all == filtered(old(self)@.pending + text@, old(self)@.inside),
                all.out == out@ + filtered(now@, self.in_tool_calls).out,
                all.state == filtered(now@, self.in_tool_calls).state,
            decreases now@.len(),
        {
            let n: usize = now.len();
            if self.in_tool_calls {
                match find(now.as_slice(), end.as_slice(), 0) {
                    Some(i) => {
                        let mut at: usize = i + end.len();
                        assert(now@.skip(i + end@.len()).len() == n - at);
                        if at < n && now[at] == '\n' {
                            assert(now@.skip(at as int).skip(1) =~= now@.skip(at + 1));
                            at = at + 1;
                        }
                        let rest = copied(part(now.as_slice(), at, n));
                        assert(rest@ =~= newline_skipped(now@.skip(i + end@.len())));
                        now = rest;
                        self.in_tool_calls = false;
                    },
                    None => {
                        assert(out@ =~= all.out);
                        self.pending = Vec::new();
                        assert(self@.pending =~= Seq::empty());
                        return string_of(out.as_slice());
                    },
                }
            } else {
                match find(now.as_slice(), start.as_slice(), 0) {
                    Some(i) => {
                        let ghost before = out@;
                        extend(&mut out, part(now.as_slice(), 0, i));
                        let at: usize = i + start.len();
                        let rest = copied(part(now.as_slice(), at, n));
                        proof {
                            assert(rest@ =~= now@.skip(i + start@.len()));
                            assert(now@.subrange(0, i as int) =~= now@.take(i as int));
                            let f = filtered(rest@, true);
                            assert(out@ + f.out =~= before + (now@.take(i as int) + f.out));
                        }
                        now = rest;
                        self.in_tool_calls = true;
                    },
                    None => {
                        let keep: usize = suffix_prefix_len(now.as_slice(), start.as_slice());
                        let cut: usize = n - keep;
                        extend(&mut out, part(now.as_slice(), 0, cut));
                        assert(now@.subrange(0, cut as int) =~= now@.take(cut as int));
                        self.pending = copied(part(now.as_slice(), cut, n));
                        assert(self.pending@ =~= now@.skip(cut as int));
                        return string_of(out.as_slice());
                    },
                }
            }
        }
    }

    /// What is left to show when the text has ended.
    pub fn finish(self) -> (r: String)
        ensures
            r@ == (if self@.inside {
                Seq::empty()
            } else {
                self@.pending
            }),
    {
        if self.in_tool_calls {
            String::new()
        } else {
            string_of(self.pending.as_slice())
        }
    }
}

proof fn lacking_tail(a: Seq<char>, b: Seq<char>, needle: Seq<char>)
    requires
        first_index(a + b, needle, 0) is None,
    ensures
        first_index(b, needle, 0) is None,
{
    first_index_is_first(a + b, needle, 0);
    first_index_is_first(b, needle, 0);
    if let Some(i) = first_index(b, needle, 0) {
        assert((a + b).subrange(a.len() + i, a.len() + i + needle.len()) =~= b.subrange(i, i + needle.len()));
        assert(occurs_at(a + b, needle, a.len() + i));
    }
}

/// Text in which no block starts passes unchanged, however it is cut into pieces: what was shown
/// before, what is shown now and what is held back together are the text so far.
pub proof fn text_without_blocks_passes(shown: Seq<char>, pending: Seq<char>, piece: Seq<char>)
    requires
        first_index(shown + pending + piece, DSML_TOOL_CALLS_START@, 0) is None,
    ensures
        ({
            let f = filtered(pending + piece, false);
            shown + f.out + f.state.pending == shown + pending + piece && !f.state.inside
        }),
{
    let s = pending + piece;
    assert(shown + pending + piece =~= shown + s);
    lacking_tail(shown, s, DSML_TOOL_CALLS_START@);
    let most = if s.len() < DSML_TOOL_CALLS_START@.len() - 1 {
        s.len() as int
    } else {
        DSML_TOOL_CALLS_START@.len() - 1
    };
    reveal_strlit("<｜｜DSML｜｜tool_calls>");
    overlap_bounds(s, DSML_TOOL_CALLS_START@, most);
    let n = s.len() - held_back(s, DSML_TOOL_CALLS_START@);
    assert(shown + s.take(n) + s.skip(n) =~= shown + s);
}

/// A block of tool calls is never shown, and what stands before and behind it is: without the line
/// feed right behind the block.
pub proof fn blocks_are_not_shown(before: Seq<char>, block: Seq<char>, behind: Seq<char>)
    requires
        first_index(before + DSML_TOOL_CALLS_START@ + block + DSML_TOOL_CALLS_END@ + behind, DSML_TOOL_CALLS_START@, 0)
            == Some(before.len() as int),
        first_index(block + DSML_TOOL_CALLS_END@ + behind, DSML_TOOL_CALLS_END@, 0) == Some(block.len() as int),
    ensures
        ({
            let f = filtered(before + DSML_TOOL_CALLS_START@ + block + DSML_TOOL_CALLS_END@ + behind, false);
            let g = filtered(newline_skipped(behind), false);
            f.out == before + g.out && f.state == g.state
        }),
{
    reveal_strlit("<｜｜DSML｜｜tool_calls>");
    reveal_strlit("</｜｜DSML｜｜tool_calls>");
    let start = DSML_TOOL_CALLS_START@;
    let end = DSML_TOOL_CALLS_END@;
    let s = before + start + block + end + behind;
    let t = block + end + behind;
    assert(s.take(before.len() as int) =~= before);
    assert(s.skip(before.len() as int + start.len()) =~= t);
    assert(t.skip(block.len() as int + end.len()) =~= behind);
    let g = filtered(newline_skipped(behind), false);
    assert(filtered(t, true) == g);
    assert(filtered(s, false).out =~= before + g.out);
}

// ---------------------------------------------------------------------------
// The streamed answer
// ---------------------------------------------------------------------------

/// What has been read of a streamed answer.
pub struct AnswerView {
    pub full: Seq<char>,
    pub session_id: Option<Seq<char>>,
    pub filter: FilterView,
}

/// The answer with more text, on a line of its own.
pub open spec fn with_line(full: Seq<char>, text: Seq<char>) -> Seq<char> {
    if text.len() == 0 {
        full
    } else if full.len() == 0 {
        text
    } else {
        full + seq!['\n'] + text
    }
}

/// What has been read after one more line that carries the given session and event.
pub open spec fn answer_after(
    a: AnswerView,
    session: Option<Seq<char>>,
    event: Option<EventView>,
) -> AnswerView {
    let session_id = match session {
        Some(id) => Some(id),
        None => a.session_id,
    };
    match event {
        Some(EventView::Text(t)) => {
            let f = filtered(a.filter.pending + t, a.filter.inside);
            AnswerView { full: with_line(a.full, f.out), session_id, filter: f.state }
        },
        _ => AnswerView { session_id, ..a },
    }
}

/// The event shown for a line: text as far as it passes the filter, any other event as it is.
pub open spec fn event_shown(a: AnswerView, event: Option<EventView>) -> Option<EventView> {
    match event {
        Some(EventView::Text(t)) => {
            let f = filtered(a.filter.pending + t, a.filter.inside);
            if f.out.len() == 0 {
                None
            } else {
                Some(EventView::Text(f.out))
            }
        },
        _ => event,
    }
}

/// The text that the end of the stream releases.
pub open spec fn tail_of(f: FilterView) -> Seq<char> {
    if f.inside {
        Seq::empty()
    } else {
        f.pending
    }
}

/// Collects the answer of an agent that reports its events as JSON lines.
pub struct StreamedAnswer {
    pub full: String,
    pub session_id: Option<String>,
    pub filter: DsmlToolCallFilter,
}

impl View for StreamedAnswer {
    type V = AnswerView;

    open spec fn view(&self) -> AnswerView {
        AnswerView {
            full: self.full@,
            session_id: opt_text(self.session_id),
            filter: self.filter@,
        }
    }
}

impl StreamedAnswer {
    /// An answer of which nothing has been read.
    pub fn new() -> (r: StreamedAnswer)
        ensures
            r@ == (AnswerView {
                full: Seq::empty(),
                session_id: None,
                filter: FilterView { pending: Seq::empty(), inside: false },
            }),
    {
        StreamedAnswer { full: String::new(), session_id: None, filter: DsmlToolCallFilter::new() }
    }

    fn add_text(&mut self, text: &str)
        ensures
            final(self)@ == (AnswerView { full: with_line(old(self)@.full, text@), ..old(self)@ }),
    {
        let ghost before = self@.full;
        if !text.is_empty() {
            if !self.full.as_str().is_empty() {
                self.full.push('\n');
            }
            self.full.append(text);
        }
        assert(self.full@ =~= with_line(before, text@));
    }

    /// Takes in what one line carries and gives the event to show.
    pub fn accept(&mut self, session: Option<String>, event: Option<StreamEvent>) -> (r: Option<
        StreamEvent,
    >)
        ensures
            final(self)@ == answer_after(old(self)@, opt_text(session), opt_event(event)),
            opt_event(r) == event_shown(old(self)@, opt_event(event)),
    {
        if let Some(id) = session {
            self.session_id = Some(id);
        }
        match event {
            Some(StreamEvent::Text(t)) => {
                let clean = self.filter.feed(t.as_str());
                self.add_text(clean.as_str());
                if clean.as_str().is_empty() {
                    None
                } else {
                    Some(StreamEvent::Text(clean))
                }
            },
            other => other,
        }
    }

    /// Reads one line of the stream and gives the event to show.
    pub fn read_line(&mut self, line: &str) -> (r: Option<StreamEvent>)
        ensures
            final(self)@ == answer_after(old(self)@, session_on(line@), event_on(line@)),
            opt_event(r) == event_shown(old(self)@, event_on(line@)),
    {
        let session = parse_session_id(line);
        let event = parse_event(line);
        self.accept(session, event)
    }

    /// Takes in the end of the stream and gives the last event to show.
    pub fn end(&mut self) -> (r: Option<StreamEvent>)
        ensures
            final(self)@ == (AnswerView {
                full: with_line(old(self)@.full, tail_of(old(self)@.filter)),
                session_id: old(self)@.session_id,
                filter: FilterView { pending: Seq::empty(), inside: false },
            }),
            opt_event(r) == (if tail_of(old(self)@.filter).len() == 0 {
                None
            } else {
                Some(EventView::Text(tail_of(old(self)@.filter)))
            }),
    {
        let mut filter = DsmlToolCallFilter::new();
        std::mem::swap(&mut filter, &mut self.filter);
        let clean = filter.finish();
        self.add_text(clean.as_str());
        if clean.as_str().is_empty() {
            None
        } else {
            Some(StreamEvent::Text(clean))
        }
    }

    /// The answer once the subprocess has ended: its trimmed text and its session, or how the
    /// subprocess failed.
    pub fn outcome(self, success: bool, code: Option<i32>, stderr: &str) -> (r: Result<
        AgentResponse,
        GatewayError,
    >)
        ensures
            match r {
                Ok(a) => success && a@ == (ResponseView {
                    text: trimmed(self@.full),
                    session_id: self@.session_id,
                }),
                Err(e) => !success && (e matches GatewayError::AgentFailed { code: c, stderr: s }
                    && c == code && s@ == trimmed(stderr@)),
            },
    {
        if !success {
            return Err(GatewayError::AgentFailed { code, stderr: str_trim(stderr) });
        }
        Ok(AgentResponse { text: str_trim(self.full.as_str()), session_id: self.session_id })
    }
}

// ---------------------------------------------------------------------------
// Whole streams
// ---------------------------------------------------------------------------

/// What has been read of a stream after all these lines.
pub open spec fn answer_of(lines: Seq<Seq<char>>) -> AnswerView
    decreases lines.len(),
{
    if lines.len() == 0 {
        AnswerView {
            full: Seq::empty(),
            session_id: None,
            filter: FilterView { pending: Seq::empty(), inside: false },
        }
    } else {
        answer_after(answer_of(lines.drop_last()), session_on(lines.last()), event_on(lines.last()))
    }
}

/// The texts that the lines of a stream carry.
pub open spec fn texts_sent(lines: Seq<Seq<char>>) -> Seq<Seq<char>>
    decreases lines.len(),
{
    if lines.len() == 0 {
        Seq::empty()
    } else {
        match event_on(lines.last()) {
            Some(EventView::Text(t)) => texts_sent(lines.drop_last()).push(t),
            _ => texts_sent(lines.drop_last()),
        }
    }
}

/// The texts that are shown while these lines are read.
pub open spec fn texts_shown(lines: Seq<Seq<char>>) -> Seq<Seq<char>>
    decreases lines.len(),
{
    if lines.len() == 0 {
        Seq::empty()
    } else {
        match event_shown(answer_of(lines.drop_last()), event_on(lines.last())) {
            Some(EventView::Text(t)) => texts_shown(lines.drop_last()).push(t),
            _ => texts_shown(lines.drop_last()),
        }
    }
}

/// All texts that are shown of a stream, with what its end releases.
pub open spec fn stream_shown(lines: Seq<Seq<char>>) -> Seq<Seq<char>> {
    let tail = tail_of(answer_of(lines).filter);
    if tail.len() == 0 {
        texts_shown(lines)
    } else {
        texts_shown(lines).push(tail)
    }
}

/// The session that the lines name last.
pub open spec fn last_session(lines: Seq<Seq<char>>) -> Option<Seq<char>>
    decreases lines.len(),
{
    if lines.len() == 0 {
        None
    } else {
        match session_on(lines.last()) {
            Some(id) => Some(id),
            None => last_session(lines.drop_last()),
        }
    }
}

/// The answer of a whole stream is what was shown of it, one text to a line and none of them
/// empty, and its session is the one named last.
pub proof fn answers_are_what_was_shown(lines: Seq<Seq<char>>)
    ensures
        with_line(answer_of(lines).full, tail_of(answer_of(lines).filter)) == joined(stream_shown(lines), "\n"@),
        answer_of(lines).session_id == last_session(lines),
        forall|i: int| 0 <= i < stream_shown(lines).len() ==> (#[trigger] stream_shown(lines)[i]).len() > 0,
{
    shown_so_far(lines);
    let tail = tail_of(answer_of(lines).filter);
    if tail.len() > 0 {
        line_joined(texts_shown(lines), tail);
    }
}

proof fn shown_so_far(lines: Seq<Seq<char>>)
    ensures
        answer_of(lines).full == joined(texts_shown(lines), "\n"@),
        answer_of(lines).session_id == last_session(lines),
        forall|i: int| 0 <= i < texts_shown(lines).len() ==> (#[trigger] texts_shown(lines)[i]).len() > 0,
    decreases lines.len(),
{
    if lines.len() > 0 {
        let d = lines.drop_last();
        let a = answer_of(d);
        shown_so_far(d);
        if let Some(EventView::Text(t)) = event_on(lines.last()) {
            let f = filtered(a.filter.pending + t, a.filter.inside);
            if f.out.len() > 0 {
                line_joined(texts_shown(d), f.out);
            }
        }
    }
}

proof fn line_joined(parts: Seq<Seq<char>>, t: Seq<char>)
    requires
        t.len() > 0,
        forall|i: int| 0 <= i < parts.len() ==> (#[trigger] parts[i]).len() > 0,
    ensures
        with_line(joined(parts, "\n"@), t) == joined(parts.push(t), "\n"@),
{
    reveal_strlit("\n");
    assert("\n"@ =~= seq!['\n']);
    assert(parts.push(t).drop_last() =~= parts);
    if parts.len() > 0 {
        assert(parts[parts.len() - 1].len() > 0);
    }
}

proof fn joined_push(parts: Seq<Seq<char>>, t: Seq<char>)
    ensures
        joined(parts.push(t), Seq::empty()) == joined(parts, Seq::empty()) + t,
{
    let none = Seq::<char>::empty();
    assert(parts.push(t).drop_last() =~= parts);
    assert(joined(parts.push(t), none) =~= joined(parts, none) + t);
}

proof fn lacking_head(a: Seq<char>, b: Seq<char>, needle: Seq<char>)
    requires
        first_index(a + b, needle, 0) is None,
    ensures
        first_index(a, needle, 0) is None,
{
    first_index_is_first(a + b, needle, 0);
    first_index_is_first(a, needle, 0);
    if let Some(i) = first_index(a, needle, 0) {
        assert((a + b).subrange(i, i + needle.len()) =~= a.subrange(i, i + needle.len()));
        assert(occurs_at(a + b, needle, i));
    }
}

/// A stream in whose text no block of tool calls starts is shown whole, however its text is cut
/// into events.
pub proof fn streams_without_blocks_are_shown_whole(lines: Seq<Seq<char>>)
    requires
        first_index(joined(texts_sent(lines), Seq::empty()), DSML_TOOL_CALLS_START@, 0) is None,
    ensures
        joined(stream_shown(lines), Seq::empty()) == joined(texts_sent(lines), Seq::empty()),
{
    held_so_far(lines);
    let tail = tail_of(answer_of(lines).filter);
    let shown = texts_shown(lines);
    joined_push(shown, tail);
    if tail.len() == 0 {
        assert(joined(shown, Seq::empty()) + tail =~= joined(shown, Seq::empty()));
    }
}

proof fn held_so_far(lines: Seq<Seq<char>>)
    requires
        first_index(joined(texts_sent(lines), Seq::empty()), DSML_TOOL_CALLS_START@, 0) is None,
    ensures
        joined(texts_shown(lines), Seq::empty()) + answer_of(lines).filter.pending == joined(
            texts_sent(lines),
            Seq::empty(),
        ),
        !answer_of(lines).filter.inside,
    decreases lines.len(),
{
    let none = Seq::<char>::empty();
    if lines.len() > 0 {
        let d = lines.drop_last();
        let a = answer_of(d);
        if let Some(EventView::Text(t)) = event_on(lines.last()) {
            let sent = joined(texts_sent(d), none);
            let shown = joined(texts_shown(d), none);
            joined_push(texts_sent(d), t);
            lacking_head(sent, t, DSML_TOOL_CALLS_START@);
            held_so_far(d);
            text_without_blocks_passes(shown, a.filter.pending, t);
            let f = filtered(a.filter.pending + t, false);
            joined_push(texts_shown(d), f.out);
            if f.out.len() == 0 {
                assert(shown + f.out =~= shown);
            }
        } else {
            held_so_far(d);
        }
    } else {
        assert(joined(texts_shown(lines), none) + answer_of(lines).filter.pending =~= joined(texts_sent(lines), none));
    }
}

} // verus!

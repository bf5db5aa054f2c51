//! Commands about the session, given with a leading slash.
use crate::memory::sessions::{state_in, without_link, without_state};
use crate::memory::store::{Store, StoreView};
use crate::runtime::error::{agent_failure, fails_with, WukongError};
use crate::text::{push_text, same, str_trim, texts, trimmed};
use vstd::prelude::*;

verus! {

/// A command about the session.
#[derive(Debug, Clone, PartialEq, Eq)]
pub enum SessionCommand {
    /// Begin a new session for the scope.
    New,
    /// Shorten the current session.
    Compact,
    /// List the providers of the agent.
    Providers,
    /// List the models of the agent.
    Models,
    /// Set the model that is used where nothing else is said.
    SetModels(String),
}

/// The mathematical form of a command.
pub enum CommandView {
    New,
    Compact,
    Providers,
    Models,
    SetModels(Seq<char>),
}

impl View for SessionCommand {
    type V = CommandView;

    open spec fn view(&self) -> CommandView {
        match self {
            SessionCommand::New => CommandView::New,
            SessionCommand::Compact => CommandView::Compact,
            SessionCommand::Providers => CommandView::Providers,
            SessionCommand::Models => CommandView::Models,
            SessionCommand::SetModels(m) => CommandView::SetModels(m@),
        }
    }
}

/// The command of a name and what follows it.
pub open spec fn command_of(name: Seq<char>, args: Seq<char>) -> Option<CommandView> {
    if name == "new"@ {
        Some(CommandView::New)
    } else if name == "compact"@ {
        Some(CommandView::Compact)
    } else if name == "providers"@ {
        Some(CommandView::Providers)
    } else if name == "models"@ {
        Some(CommandView::Models)
    } else if name == "set_models"@ {
        Some(CommandView::SetModels(trimmed(args)))
    } else {
        None
    }
}

/// The command of a name, without the slash, and what follows it.
pub fn parse_session_command(name: &str, args: &str) -> (r: Option<SessionCommand>)
    ensures
        match r {
            Some(c) => command_of(name@, args@) == Some(c@),
            None => command_of(name@, args@) is None,
        },
{
    if same(name, "new") {
        Some(SessionCommand::New)
    } else if same(name, "compact") {
        Some(SessionCommand::Compact)
    } else if same(name, "providers") {
        Some(SessionCommand::Providers)
    } else if same(name, "models") {
        Some(SessionCommand::Models)
    } else if same(name, "set_models") {
        Some(SessionCommand::SetModels(str_trim(args)))
    } else {
        None
    }
}

/// What a command comes to.
#[derive(Debug, Clone, PartialEq, Eq)]
pub enum SessionAction {
    /// Say this.
    Reply(String),
    /// Have the agent shorten this session.
    Compact { session_id: String },
    /// Run the agent's program with these arguments, and say what it prints.
    Utility(Vec<String>),
    /// Store this model as the usual one.
    SaveModel(String),
}

/// Carries out a command as far as the memory goes, and says what is left to do.
pub fn run_session_command(store: &mut Store, scope: &str, cmd: &SessionCommand) -> (r: SessionAction)
    requires
        old(store)@.wf(),
    ensures
        final(store)@.wf(),
        match cmd@ {
            CommandView::New => (r matches SessionAction::Reply(t) && t@ == "🐵 已開新 context"@) && final(store)@ == (StoreView {
                states: without_state(old(store)@.states, scope@),
                sessions: without_link(old(store)@.sessions, scope@),
                ..old(store)@
            }),
            CommandView::Compact => final(store)@ == old(store)@ && (match state_in(old(store)@.states, scope@) {
                Some(s) => match s.session_id {
                    Some(id) => r matches SessionAction::Compact { session_id } && session_id@ == id,
                    None => r matches SessionAction::Reply(t) && t@ == "🐵 尚無對話可壓縮"@,
                },
                None => r matches SessionAction::Reply(t) && t@ == "🐵 尚無對話可壓縮"@,
            }),
            CommandView::Providers => final(store)@ == old(store)@ && (r matches SessionAction::Utility(a) && texts(a@)
                == seq!["providers"@, "list"@]),
            CommandView::Models => final(store)@ == old(store)@ && (r matches SessionAction::Utility(a) && texts(a@)
                == seq!["models"@]),
            CommandView::SetModels(m) => final(store)@ == old(store)@ && (if trimmed(m).len() == 0 {
                r matches SessionAction::Reply(t) && t@ == "用法：/set_models opencode/deepseek-v4-flash-free"@
            } else {
                r matches SessionAction::SaveModel(t) && t@ == trimmed(m)
            }),
        },
{
    match cmd {
        SessionCommand::New => {
            store.clear_agent_session(scope);
            SessionAction::Reply("🐵 已開新 context".to_owned())
        },
        SessionCommand::Compact => match store.agent_session(scope) {
            Some(session_id) => SessionAction::Compact { session_id },
            None => SessionAction::Reply("🐵 尚無對話可壓縮".to_owned()),
        },
        SessionCommand::Providers => {
            let mut a: Vec<String> = Vec::new();
            push_text(&mut a, "providers");
            push_text(&mut a, "list");
            assert(texts(a@) =~= seq!["providers"@, "list"@]);
            SessionAction::Utility(a)
        },
        SessionCommand::Models => {
            let mut a: Vec<String> = Vec::new();
            push_text(&mut a, "models");
            assert(texts(a@) =~= seq!["models"@]);
            SessionAction::Utility(a)
        },
        SessionCommand::SetModels(model) => {
            let t = str_trim(model.as_str());
            if t.as_str().is_empty() {
                SessionAction::Reply("用法：/set_models opencode/deepseek-v4-flash-free".to_owned())
            } else {
                SessionAction::SaveModel(t)
            }
        },
    }
}

/// What is said once the agent was told to shorten the session.
pub fn compacted_reply(text: &str) -> (r: String)
    ensures
        r@ == "🐵 已送出壓縮指令：\n"@ + text@,
{
    let mut s = String::from_str("🐵 已送出壓縮指令：\n");
    s.append(text);
    s
}

/// What is said once a model was stored.
pub fn model_saved_reply(model: &str) -> (r: String)
    ensures
        r@ == "🐵 已設定預設模型："@ + model@,
{
    let mut s = String::from_str("🐵 已設定預設模型：");
    s.append(model);
    s
}

/// The error of settings that cannot be read or written.
pub fn settings_error(message: String) -> (r: WukongError)
    ensures
        fails_with(r, message@),
{
    agent_failure(message)
}

} // verus!

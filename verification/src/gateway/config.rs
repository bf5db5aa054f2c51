//! How a turn is run.
use crate::gateway::cli::Cli;
use crate::paths::{file_name, file_name_of};
use crate::text::{
    borrowed, chars_of, opt_str_view, opt_text, push_text, same, split_words, str_trim, texts, trimmed, words,
};
use vstd::prelude::*;

verus! {

/// The roles and skills that the user likes best.
#[derive(Debug, Clone, PartialEq, Eq)]
pub struct PlannerPreferences {
    pub preferred_roles: Vec<String>,
    pub preferred_skills: Vec<String>,
}

/// How a turn is run.
#[derive(Debug, Clone, PartialEq, Eq)]
pub struct GatewayConfig {
    pub scope: String,
    pub db_url: String,
    pub agent_command: Vec<String>,
    pub default_model: Option<String>,
    pub planner_preferences: Option<PlannerPreferences>,
    /// Let the agent show its reasoning.
    pub thinking: bool,
    pub recall_top_k: usize,
    /// Show what the agent does while it does it.
    pub stream: bool,
}

/// The environment that a configuration falls back to.
#[derive(Debug, Clone, PartialEq, Eq)]
pub struct Surroundings {
    /// `WUKONG_MEMORY_DB`
    pub memory_db: Option<String>,
    /// `WUKONG_AGENT_CMD`
    pub agent_cmd: Option<String>,
    /// `WUKONG_STREAM`
    pub stream: Option<String>,
    /// `WUKONG_THINKING`
    pub thinking: Option<String>,
    /// `HOME`
    pub home: Option<String>,
    /// The directory that the program was started in.
    pub current_dir: Option<String>,
}

/// A text, or another where there is none.
pub open spec fn text_or(o: Option<Seq<char>>, other: Seq<char>) -> Seq<char> {
    match o {
        Some(s) => s,
        None => other,
    }
}

/// The scope of a directory: a project of its name, or the global scope where it has none.
pub open spec fn scope_of_dir(dir: Option<Seq<char>>) -> Seq<char> {
    match dir {
        None => "global"@,
        Some(d) => match file_name_of(d) {
            Some(n) => if n.len() > 0 {
                "project:"@ + n
            } else {
                "global"@
            },
            None => "global"@,
        },
    }
}

/// The address of the database in a home directory, or in the current one where there is none.
pub open spec fn home_db_url(home: Option<Seq<char>>) -> Seq<char> {
    "sqlite://"@ + text_or(home, "."@) + "/.wukong/memory.db"@
}

/// The command of the agent where nothing else is said.
pub open spec fn usual_command() -> Seq<Seq<char>> {
    seq!["opencode"@, "run"@]
}

/// The words of an optional command; the usual one where there are none.
pub open spec fn command_words(cmd: Option<Seq<char>>) -> Seq<Seq<char>> {
    match cmd {
        Some(c) => if words(c).len() > 0 {
            words(c)
        } else {
            usual_command()
        },
        None => usual_command(),
    }
}

/// The first of two optional texts that is there.
pub open spec fn either_text(a: Option<Seq<char>>, b: Option<Seq<char>>) -> Option<Seq<char>> {
    match a {
        Some(s) => Some(s),
        None => b,
    }
}

/// The words of a text.
pub fn split_ws(s: &str) -> (r: Vec<String>)
    ensures
        texts(r@) == words(s@),
{
    let v = chars_of(s);
    split_words(v.as_slice())
}

/// The scope of the directory that the program was started in.
pub fn default_scope(dir: Option<&str>) -> (r: String)
    ensures
        r@ == scope_of_dir(opt_str_view(dir)),
{
    if let Some(d) = dir {
        if let Some(n) = file_name(d) {
            if !n.as_str().is_empty() {
                let mut s = String::from_str("project:");
                s.append(n.as_str());
                return s;
            }
        }
    }
    "global".to_owned()
}

/// The address of the database in a home directory.
pub fn default_db_url(home: Option<&str>) -> (r: String)
    ensures
        r@ == home_db_url(opt_str_view(home)),
{
    let mut s = String::from_str("sqlite://");
    match home {
        Some(h) => {
            s.append(h);
        },
        None => {
            s.append(".");
        },
    }
    s.append("/.wukong/memory.db");
    s
}

/// The address of the database: the given one, or that in the home directory.
pub fn db_url_from_env(given: Option<&str>, home: Option<&str>) -> (r: String)
    ensures
        r@ == text_or(opt_str_view(given), home_db_url(opt_str_view(home))),
{
    match given {
        Some(g) => g.to_owned(),
        None => default_db_url(home),
    }
}

/// The command of the agent: the words of the given one, or the usual one where it has none.
pub fn agent_command_from_env(given: Option<&str>) -> (r: Vec<String>)
    ensures
        texts(r@) == command_words(opt_str_view(given)),
        r@.len() > 0,
{
    if let Some(g) = given {
        let v = split_ws(g);
        assert(texts(v@).len() == v@.len());
        if v.len() > 0 {
            return v;
        }
    }
    let mut v: Vec<String> = Vec::new();
    push_text(&mut v, "opencode");
    push_text(&mut v, "run");
    assert(texts(v@) =~= usual_command());
    assert(texts(v@).len() == v@.len());
    v
}

fn switched_off(o: &Option<String>) -> (r: bool)
    ensures
        r == (opt_text(*o) == Some("0"@)),
{
    match o {
        Some(s) => same(s.as_str(), "0"),
        None => false,
    }
}

impl GatewayConfig {
    /// The configuration of a command line; what it leaves open the surroundings decide.
    pub fn resolve(cli: &Cli, env: &Surroundings) -> (r: GatewayConfig)
        ensures
            r.scope@ == text_or(opt_text(cli.scope), scope_of_dir(opt_text(env.current_dir))),
            r.db_url@ == text_or(
                either_text(opt_text(cli.db), opt_text(env.memory_db)),
                home_db_url(opt_text(env.home)),
            ),
            texts(r.agent_command@) == command_words(
                either_text(opt_text(cli.agent_cmd), opt_text(env.agent_cmd)),
            ),
            r.default_model is None,
            r.planner_preferences is None,
            r.thinking == (!cli.no_thinking && opt_text(env.thinking) != Some("0"@)),
            r.recall_top_k == 5,
            r.stream == (!cli.no_stream && opt_text(env.stream) != Some("0"@)),
    {
        let scope = match &cli.scope {
            Some(s) => s.clone(),
            None => default_scope(borrowed(&env.current_dir)),
        };
        let db_url = match &cli.db {
            Some(s) => s.clone(),
            None => db_url_from_env(borrowed(&env.memory_db), borrowed(&env.home)),
        };
        let agent_command = match &cli.agent_cmd {
            Some(s) => agent_command_from_env(Some(s.as_str())),
            None => agent_command_from_env(borrowed(&env.agent_cmd)),
        };
        GatewayConfig {
            scope,
            db_url,
            agent_command,
            default_model: None,
            planner_preferences: None,
            thinking: !cli.no_thinking && !switched_off(&env.thinking),
            recall_top_k: 5,
            stream: !cli.no_stream && !switched_off(&env.stream),
        }
    }

    /// Sets the model of final answers; a blank name unsets it.
    pub fn apply_default_model(&mut self, model: Option<&str>)
        ensures
            opt_text(final(self).default_model) == (match model {
                Some(m) => if trimmed(m@).len() > 0 {
                    Some(trimmed(m@))
                } else {
                    None
                },
                None => None,
            }),
            *final(self) == (GatewayConfig { default_model: final(self).default_model, ..*old(self) }),
    {
        self.default_model = match model {
            Some(m) => {
                let t = str_trim(m);
                if t.as_str().is_empty() {
                    None
                } else {
                    Some(t)
                }
            },
            None => None,
        };
    }

    /// Sets what the planner is to prefer; nothing where preferences are switched off.
    pub fn apply_planner_preferences(&mut self, enabled: bool, roles: Vec<String>, skills: Vec<String>)
        ensures
            final(self).planner_preferences == (if enabled {
                Some(PlannerPreferences { preferred_roles: roles, preferred_skills: skills })
            } else {
                None
            }),
            *final(self) == (GatewayConfig {
                planner_preferences: final(self).planner_preferences,
                ..*old(self)
            }),
    {
        self.planner_preferences = if enabled {
            Some(PlannerPreferences { preferred_roles: roles, preferred_skills: skills })
        } else {
            None
        };
    }
}

/// The directory that the agent works in: the given one, or that in the home directory.
pub fn workspace_dir(given: Option<&str>, home: Option<&str>) -> (r: String)
    ensures
        r@ == (match given {
            Some(g) => if g@.len() > 0 {
                g@
            } else {
                text_or(opt_str_view(home), "."@) + "/.wukong/workspace"@
            },
            None => text_or(opt_str_view(home), "."@) + "/.wukong/workspace"@,
        }),
{
    if let Some(g) = given {
        if !g.is_empty() {
            return g.to_owned();
        }
    }
    let mut s = match home {
        Some(h) => h.to_owned(),
        None => ".".to_owned(),
    };
    s.append("/.wukong/workspace");
    s
}

} // verus!

//! The boundaries between memories.
use crate::memory::error::MemoryError;
use crate::text::{chars_of, find, first_index, part, same, str_trim, string_of, trimmed};
use vstd::prelude::*;

verus! {

/// Where a memory belongs: `global`, or a project, an agent or a user by name.
#[derive(Debug, Clone, PartialEq, Eq)]
pub enum Scope {
    Global,
    Project(String),
    Agent(String),
    User(String),
}

/// The mathematical form of a scope.
pub enum ScopeView {
    Global,
    Project(Seq<char>),
    Agent(Seq<char>),
    User(Seq<char>),
}

impl View for Scope {
    type V = ScopeView;

    open spec fn view(&self) -> ScopeView {
        match self {
            Scope::Global => ScopeView::Global,
            Scope::Project(n) => ScopeView::Project(n@),
            Scope::Agent(n) => ScopeView::Agent(n@),
            Scope::User(n) => ScopeView::User(n@),
        }
    }
}

/// The text of a scope.
pub open spec fn scope_text(s: ScopeView) -> Seq<char> {
    match s {
        ScopeView::Global => "global"@,
        ScopeView::Project(n) => "project:"@ + n,
        ScopeView::Agent(n) => "agent:"@ + n,
        ScopeView::User(n) => "user:"@ + n,
    }
}

/// The scope that a trimmed text denotes: the word `global`, or a known prefix, a colon and a
/// name.
pub open spec fn scope_in(s: Seq<char>) -> Option<ScopeView> {
    if s == "global"@ {
        Some(ScopeView::Global)
    } else {
        match first_index(s, ":"@, 0) {
            None => None,
            Some(i) => {
                let prefix = s.take(i);
                let name = s.skip(i + 1);
                if name.len() == 0 {
                    None
                } else if prefix == "project"@ {
                    Some(ScopeView::Project(name))
                } else if prefix == "agent"@ {
                    Some(ScopeView::Agent(name))
                } else if prefix == "user"@ {
                    Some(ScopeView::User(name))
                } else {
                    None
                }
            },
        }
    }
}

/// The scope that a text denotes, leaving surrounding white space aside.
pub open spec fn parsed_scope(s: Seq<char>) -> Option<ScopeView> {
    scope_in(trimmed(s))
}

/// A scope and the scopes it falls back to, most specific first.
pub open spec fn lineage(s: ScopeView) -> Seq<ScopeView> {
    match s {
        ScopeView::Global => seq![ScopeView::Global],
        _ => seq![s, ScopeView::Global],
    }
}

/// The mathematical forms of a sequence of scopes.
pub open spec fn scopes_of(v: Seq<Scope>) -> Seq<ScopeView> {
    v.map_values(|s: Scope| s@)
}

impl Scope {
    /// The scope that a text denotes, or the error that names the trimmed text.
    pub fn parse(s: &str) -> (r: Result<Scope, MemoryError>)
        ensures
            match r {
                Ok(scope) => parsed_scope(s@) == Some(scope@),
                Err(e) => parsed_scope(s@) is None && (e matches MemoryError::InvalidScope(t) && t@
                    == trimmed(s@)),
            },
    {
        let kept = str_trim(s);
        if same(kept.as_str(), "global") {
            return Ok(Scope::Global);
        }
        let v = chars_of(kept.as_str());
        let colon = chars_of(":");
        proof {
            reveal_strlit(":");
        }
        let n: usize = v.len();
        match find(v.as_slice(), colon.as_slice(), 0) {
            None => Err(MemoryError::InvalidScope(kept)),
            Some(i) => {
                assert(v@.subrange(0, i as int) =~= v@.take(i as int));
                assert(v@.subrange(i + 1, n as int) =~= v@.skip(i + 1));
                let prefix = string_of(part(v.as_slice(), 0, i));
                let name = string_of(part(v.as_slice(), i + 1, n));
                if name.as_str().is_empty() {
                    Err(MemoryError::InvalidScope(kept))
                } else if same(prefix.as_str(), "project") {
                    Ok(Scope::Project(name))
                } else if same(prefix.as_str(), "agent") {
                    Ok(Scope::Agent(name))
                } else if same(prefix.as_str(), "user") {
                    Ok(Scope::User(name))
                } else {
                    Err(MemoryError::InvalidScope(kept))
                }
            },
        }
    }

    /// A copy of the scope.
    pub fn copy(&self) -> (r: Scope)
        ensures
            r@ == self@,
    {
        match self {
            Scope::Global => Scope::Global,
            Scope::Project(n) => Scope::Project(n.clone()),
            Scope::Agent(n) => Scope::Agent(n.clone()),
            Scope::User(n) => Scope::User(n.clone()),
        }
    }

    /// The scope and the scopes it falls back to, most specific first.
    pub fn ancestry(&self) -> (r: Vec<Scope>)
        ensures
            scopes_of(r@) == lineage(self@),
    {
        let mut r: Vec<Scope> = Vec::new();
        match self {
            Scope::Global => {},
            other => {
                r.push(other.copy());
            },
        }
        r.push(Scope::Global);
        assert(scopes_of(r@) =~= lineage(self@));
        r
    }

    /// The text of the scope.
    pub fn text(&self) -> (r: String)
        ensures
            r@ == scope_text(self@),
    {
        let (head, name) = match self {
            Scope::Global => return "global".to_owned(),
            Scope::Project(n) => ("project:", n),
            Scope::Agent(n) => ("agent:", n),
            Scope::User(n) => ("user:", n),
        };
        let mut r = String::from_str(head);
        r.append(name.as_str());
        r
    }
}

proof fn first_colon(prefix: Seq<char>, name: Seq<char>)
    requires
        !prefix.contains(':'),
    ensures
        first_index(prefix + ":"@ + name, ":"@, 0) == Some(prefix.len() as int),
{
    reveal_strlit(":");
    let s = prefix + ":"@ + name;
    crate::text::first_index_is_first(s, ":"@, 0);
    assert(s.subrange(prefix.len() as int, prefix.len() as int + 1) =~= ":"@);
    assert(crate::text::occurs_at(s, ":"@, prefix.len() as int));
    match first_index(s, ":"@, 0) {
        Some(i) => {
            if i < prefix.len() {
                assert(s.subrange(i, i + 1)[0] == prefix[i]);
                assert(prefix.contains(prefix[i]));
            }
        },
        None => {},
    }
}

proof fn prefixes()
    ensures
        !"project"@.contains(':'),
        !"agent"@.contains(':'),
        !"user"@.contains(':'),
        "project:"@ == "project"@ + ":"@,
        "agent:"@ == "agent"@ + ":"@,
        "user:"@ == "user"@ + ":"@,
        "global"@.len() == 6,
        forall|i: int| 0 <= i < 6 ==> "global"@[i] != ':',
        "project"@ != "agent"@,
        "project"@ != "user"@,
        "agent"@ != "user"@,
{
    reveal_strlit("project");
    reveal_strlit("agent");
    reveal_strlit("user");
    reveal_strlit("project:");
    reveal_strlit("agent:");
    reveal_strlit("user:");
    reveal_strlit("global");
    reveal_strlit(":");
    assert("project:"@ =~= "project"@ + ":"@);
    assert("agent:"@ =~= "agent"@ + ":"@);
    assert("user:"@ =~= "user"@ + ":"@);
    assert("project"@.len() == 7);
    assert("agent"@.len() == 5);
    assert("user"@.len() == 4);
}

/// The name of a scope is not empty.
pub open spec fn named(s: ScopeView) -> bool {
    match s {
        ScopeView::Global => true,
        ScopeView::Project(n) => n.len() > 0,
        ScopeView::Agent(n) => n.len() > 0,
        ScopeView::User(n) => n.len() > 0,
    }
}

proof fn prefixed_scope(prefix: Seq<char>, name: Seq<char>)
    requires
        prefix == "project"@ || prefix == "agent"@ || prefix == "user"@,
        name.len() > 0,
    ensures
        scope_in(prefix + ":"@ + name) == Some(
            if prefix == "project"@ {
                ScopeView::Project(name)
            } else if prefix == "agent"@ {
                ScopeView::Agent(name)
            } else {
                ScopeView::User(name)
            },
        ),
{
    prefixes();
    first_colon(prefix, name);
    reveal_strlit(":");
    let s = prefix + ":"@ + name;
    assert(s[prefix.len() as int] == ':');
    if s == "global"@ {
        assert("global"@[prefix.len() as int] == ':');
    }
    assert(s.take(prefix.len() as int) =~= prefix);
    assert(s.skip(prefix.len() as int + 1) =~= name);
}

/// Reading the text of a scope gives the scope back, as long as the text has no white space
/// around it and the name is not empty.
pub proof fn scopes_round_trip(s: ScopeView)
    requires
        named(s),
        trimmed(scope_text(s)) == scope_text(s),
    ensures
        parsed_scope(scope_text(s)) == Some(s),
{
    prefixes();
    match s {
        ScopeView::Global => {},
        ScopeView::Project(n) => {
            prefixed_scope("project"@, n);
        },
        ScopeView::Agent(n) => {
            prefixed_scope("agent"@, n);
        },
        ScopeView::User(n) => {
            prefixed_scope("user"@, n);
        },
    }
}

/// The text of a scope that was read is the text it was read from, trimmed.
pub proof fn scope_texts_round_trip(s: Seq<char>)
    requires
        parsed_scope(s) is Some,
    ensures
        scope_text(parsed_scope(s)->0) == trimmed(s),
        named(parsed_scope(s)->0),
{
    prefixes();
    let t = trimmed(s);
    if t != "global"@ {
        crate::text::first_index_is_first(t, ":"@, 0);
        let i = first_index(t, ":"@, 0)->0;
        reveal_strlit(":");
        assert(crate::text::occurs_at(t, ":"@, i));
        assert(t.subrange(i, i + 1) == ":"@);
        assert(t =~= t.take(i) + ":"@ + t.skip(i + 1));
    }
}

/// Every scope falls back to the global one, and to nothing else but itself.
pub proof fn lineage_ends_at_global(s: ScopeView)
    ensures
        lineage(s)[0] == s,
        lineage(s).last() == ScopeView::Global,
        forall|i: int| 0 <= i < lineage(s).len() ==> #[trigger] lineage(s)[i] == s || lineage(s)[i] is Global,
{
}

} // verus!

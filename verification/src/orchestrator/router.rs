//! Prompts that ask for roles, and the reading of the replies.
use crate::gateway::backend::AgentRequest;
use crate::orchestrator::role::{all_roles, description_of, every_role_is_listed, name_of, Role};
use crate::orchestrator::{plan_form, plan_request};
use crate::text::{
    ascii_lowered, chars_of, find, first_index, has, join, joined, lines, lowercase, lowercase_of,
    opt_text, part, push_text, same, split_lines, str_ascii_lower, str_has, str_trim, string_of,
    texts, trimmed,
};
use vstd::prelude::*;

verus! {

// ---------------------------------------------------------------------------
// Prompts
// ---------------------------------------------------------------------------

/// The lines that list roles.
pub open spec fn role_lines(roles: Seq<Role>) -> Seq<char>
    decreases roles.len(),
{
    if roles.len() == 0 {
        Seq::empty()
    } else {
        role_lines(roles.drop_last()) + "- "@ + name_of(roles.last()) + ": "@ + description_of(
            roles.last(),
        ) + "\n"@
    }
}

/// A prompt that lists all roles between a head and a tail, and then gives the task.
pub open spec fn role_prompt(head: Seq<char>, tail: Seq<char>, task: Seq<char>) -> Seq<char> {
    head + role_lines(all_roles()) + tail + task
}

/// The prompt that asks for one role.
pub open spec fn routing_text(task: Seq<char>) -> Seq<char> {
    role_prompt(
        "You are a router. Pick the single best role to handle the task.\nRoles:\n"@,
        "\nReply with ONLY the role name (one lowercase word).\n\n[Task]\n"@,
        task,
    )
}

/// The prompt that asks for a chain of roles.
pub open spec fn planning_text(task: Seq<char>) -> Seq<char> {
    role_prompt(
        "You are a planner. Decide which roles should collaborate on the task, in execution order.\nRoles:\n"@,
        "\nReply with ONLY a comma-separated list of role names in execution order (lowercase). Use a single role for simple tasks; at most three. No explanation.\n\n[Task]\n"@,
        task,
    )
}

fn push_roles(s: &mut String)
    ensures
        final(s)@ == old(s)@ + role_lines(all_roles()),
{
    let roles = Role::all();
    let ghost all = all_roles();
    let ghost start = s@;
    let mut i: usize = 0;
    assert(start =~= start + role_lines(all.take(0)));
    while i < 5
        invariant
            i <= 5,
            all == all_roles(),
            roles@ == all,
            all.len() == 5,
            s@ == start + role_lines(all.take(i as int)),
        decreases 5 - i,
    {
        assert(all.take(i + 1).drop_last() =~= all.take(i as int));
        s.append("- ");
        s.append(roles[i].name());
        s.append(": ");
        s.append(roles[i].description());
        s.append("\n");
        i = i + 1;
        assert(s@ =~= start + role_lines(all.take(i as int)));
    }
    assert(all.take(i as int) =~= all);
}

/// The prompt that asks for one role.
pub fn routing_prompt(task: &str) -> (r: String)
    ensures
        r@ == routing_text(task@),
{
    let mut s = String::from_str(
        "You are a router. Pick the single best role to handle the task.\nRoles:\n",
    );
    push_roles(&mut s);
    s.append("\nReply with ONLY the role name (one lowercase word).\n\n[Task]\n");
    s.append(task);
    s
}

/// The prompt that asks for a chain of roles.
pub fn planning_prompt(task: &str) -> (r: String)
    ensures
        r@ == planning_text(task@),
{
    let mut s = String::from_str(
        "You are a planner. Decide which roles should collaborate on the task, in execution order.\nRoles:\n",
    );
    push_roles(&mut s);
    s.append(
        "\nReply with ONLY a comma-separated list of role names in execution order (lowercase). Use a single role for simple tasks; at most three. No explanation.\n\n[Task]\n",
    );
    s.append(task);
    s
}

// ---------------------------------------------------------------------------
// Reading one role
// ---------------------------------------------------------------------------

/// The first of the roles whose name stands in the text; the oracle where none does.
pub open spec fn first_named(roles: Seq<Role>, text: Seq<char>) -> Role
    decreases roles.len(),
{
    if roles.len() == 0 {
        Role::Oracle
    } else if has(text, name_of(roles[0])) {
        roles[0]
    } else {
        first_named(roles.drop_first(), text)
    }
}

/// The role that a reply in lower case names.
pub fn role_in(lower: &str) -> (r: Role)
    ensures
        r == first_named(all_roles(), lower@),
{
    let roles = Role::all();
    let ghost all = all_roles();
    let mut i: usize = 0;
    assert(all.skip(0) =~= all);
    while i < 5
        invariant
            i <= 5,
            all == all_roles(),
            roles@ == all,
            all.len() == 5,
            first_named(all, lower@) == first_named(all.skip(i as int), lower@),
        decreases 5 - i,
    {
        assert(all.skip(i as int)[0] == roles@[i as int]);
        assert(all.skip(i as int).drop_first() =~= all.skip(i + 1));
        if str_has(lower, roles[i].name()) {
            return roles[i];
        }
        i = i + 1;
    }
    Role::Oracle
}

/// The role that a reply names, whatever its case: the first of all roles whose name stands in
/// it, or the oracle.
pub fn parse_role(response: &str) -> (r: Role)
    ensures
        r == first_named(all_roles(), lowercase_of(response@)),
{
    let lower = lowercase(response);
    role_in(lower.as_str())
}

// ---------------------------------------------------------------------------
// Reading a chain
// ---------------------------------------------------------------------------

/// A role found at a position of a text.
pub struct Found {
    pub at: usize,
    pub role: Role,
}

/// The list with one more find, behind all finds that are not later.
pub open spec fn inserted(found: Seq<(int, Role)>, f: (int, Role)) -> Seq<(int, Role)>
    decreases found.len(),
{
    if found.len() == 0 || found.last().0 <= f.0 {
        found.push(f)
    } else {
        inserted(found.drop_last(), f).push(found.last())
    }
}

/// The roles whose names stand in the text, ordered by where they first stand.
pub open spec fn found_in(roles: Seq<Role>, text: Seq<char>) -> Seq<(int, Role)>
    decreases roles.len(),
{
    if roles.len() == 0 {
        Seq::empty()
    } else {
        let before = found_in(roles.drop_last(), text);
        match first_index(text, name_of(roles.last()), 0) {
            Some(i) => inserted(before, (i, roles.last())),
            None => before,
        }
    }
}

/// The chain that a text in lower case names: the first three roles in order of appearance, or
/// the oracle alone.
pub open spec fn chain_in(lower: Seq<char>) -> Seq<Role> {
    let found = found_in(all_roles(), lower);
    if found.len() == 0 {
        seq![Role::Oracle]
    } else {
        found.take(
            if found.len() < 3 {
                found.len() as int
            } else {
                3
            },
        ).map_values(|f: (int, Role)| f.1)
    }
}

/// The mathematical forms of finds.
pub open spec fn finds_of(v: Seq<Found>) -> Seq<(int, Role)> {
    v.map_values(|f: Found| (f.at as int, f.role))
}

proof fn inserted_splits(found: Seq<(int, Role)>, f: (int, Role), k: int)
    requires
        0 <= k <= found.len(),
        k > 0 ==> found[k - 1].0 <= f.0,
        forall|j: int| k <= j < found.len() ==> (#[trigger] found[j]).0 > f.0,
    ensures
        inserted(found, f) == found.take(k).push(f) + found.skip(k),
    decreases found.len(),
{
    if k == found.len() {
        assert(found.take(k) =~= found);
        assert(found.take(k).push(f) + found.skip(k) =~= found.push(f));
    } else {
        assert(found[found.len() - 1].0 > f.0);
        let d = found.drop_last();
        inserted_splits(d, f, k);
        assert(d.take(k) =~= found.take(k));
        assert((d.take(k).push(f) + d.skip(k)).push(found.last()) =~= found.take(k).push(f)
            + found.skip(k));
    }
}

fn insert_found(found: &mut Vec<Found>, at: usize, role: Role)
    ensures
        finds_of(final(found)@) == inserted(finds_of(old(found)@), (at as int, role)),
{
    let ghost before = finds_of(found@);
    let mut k: usize = found.len();
    while k > 0 && found[k - 1].at > at
        invariant
            k <= found.len(),
            before == finds_of(found@),
            found@ == old(found)@,
            forall|j: int| k <= j < before.len() ==> (#[trigger] before[j]).0 > at,
        decreases k,
    {
        k = k - 1;
    }
    proof {
        inserted_splits(before, (at as int, role), k as int);
    }
    found.insert(k, Found { at, role });
    assert(finds_of(found@) =~= before.take(k as int).push((at as int, role)) + before.skip(k as int));
}

/// The chain that a reply in lower case names.
pub fn chain_of(lower: &str) -> (r: Vec<Role>)
    ensures
        r@ == chain_in(lower@),
{
    let roles = Role::all();
    let ghost all = all_roles();
    let text = chars_of(lower);
    let mut found: Vec<Found> = Vec::new();
    let mut i: usize = 0;
    assert(finds_of(found@) =~= found_in(all.take(0), lower@));
    while i < 5
        invariant
            i <= 5,
            all == all_roles(),
            roles@ == all,
            all.len() == 5,
            text@ == lower@,
            finds_of(found@) == found_in(all.take(i as int), lower@),
        decreases 5 - i,
    {
        assert(all.take(i + 1).drop_last() =~= all.take(i as int));
        let name = chars_of(roles[i].name());
        if let Some(at) = find(text.as_slice(), name.as_slice(), 0) {
            insert_found(&mut found, at, roles[i]);
        }
        i = i + 1;
    }
    assert(all.take(i as int) =~= all);
    let mut chain: Vec<Role> = Vec::new();
    let mut k: usize = 0;
    while k < found.len() && k < 3
        invariant
            k <= found.len(),
            k <= 3,
            chain@.len() == k,
            forall|j: int| 0 <= j < k ==> #[trigger] chain@[j] == found@[j].role,
        decreases found.len() - k,
    {
        chain.push(found[k].role);
        k = k + 1;
    }
    if chain.len() == 0 {
        chain.push(Role::Oracle);
        assert(chain@ =~= chain_in(lower@));
    } else {
        assert(chain@ =~= chain_in(lower@));
    }
    chain
}

/// The chain of roles that a reply names, whatever its case.
pub fn parse_chain(response: &str) -> (r: Vec<Role>)
    ensures
        r@ == chain_in(lowercase_of(response@)),
{
    let lower = lowercase(response);
    chain_of(lower.as_str())
}

proof fn inserted_contents(found: Seq<(int, Role)>, f: (int, Role))
    requires
        forall|i: int, j: int| 0 <= i < j < found.len() ==> (#[trigger] found[i]).1 != (#[trigger] found[j]).1,
        forall|i: int| 0 <= i < found.len() ==> (#[trigger] found[i]).1 != f.1,
        forall|i: int, j: int| 0 <= i < j < found.len() ==> (#[trigger] found[i]).0 <= (#[trigger] found[j]).0,
    ensures
        inserted(found, f).len() == found.len() + 1,
        forall|i: int, j: int|
            0 <= i < j < inserted(found, f).len() ==> (#[trigger] inserted(found, f)[i]).1
                != (#[trigger] inserted(found, f)[j]).1,
        forall|i: int, j: int|
            0 <= i < j < inserted(found, f).len() ==> (#[trigger] inserted(found, f)[i]).0
                <= (#[trigger] inserted(found, f)[j]).0,
        forall|i: int|
            0 <= i < inserted(found, f).len() ==> #[trigger] inserted(found, f)[i] == f
                || found.contains(inserted(found, f)[i]),
    decreases found.len(),
{
    let r = inserted(found, f);
    if found.len() == 0 || found.last().0 <= f.0 {
        assert forall|i: int, j: int| 0 <= i < j < r.len() implies (#[trigger] r[i]).0 <= (#[trigger] r[j]).0 by {
            if j == found.len() {
                assert(found[i].0 <= found[found.len() - 1].0 || i == found.len() - 1);
            }
        }
        assert forall|i: int| 0 <= i < r.len() implies #[trigger] r[i] == f || found.contains(r[i]) by {
            if i < found.len() {
                assert(r[i] == found[i]);
            }
        }
    } else {
        let d = found.drop_last();
        inserted_contents(d, f);
        let s = inserted(d, f);
        let last = found.last();
        assert forall|i: int| 0 <= i < s.len() implies (#[trigger] s[i]).1 != last.1 && s[i].0 <= last.0 by {
            if s[i] != f {
                let k = d.index_of(s[i]);
                assert(d[k] == s[i]);
                assert(found[k] == d[k]);
                assert(found[k].1 != found[found.len() - 1].1);
                assert(found[k].0 <= found[found.len() - 1].0);
            } else {
                assert(found[found.len() - 1].1 != f.1);
            }
        }
        assert forall|i: int| 0 <= i < r.len() implies #[trigger] r[i] == f || found.contains(r[i]) by {
            if i < s.len() {
                assert(r[i] == s[i]);
                if s[i] != f {
                    let k = d.index_of(s[i]);
                    assert(d[k] == s[i]);
                    assert(found[k] == s[i]);
                }
            } else {
                assert(r[i] == found[found.len() - 1]);
            }
        }
    }
}

proof fn found_facts(roles: Seq<Role>, text: Seq<char>)
    requires
        roles.no_duplicates(),
    ensures
        forall|i: int, j: int|
            0 <= i < j < found_in(roles, text).len() ==> (#[trigger] found_in(roles, text)[i]).1
                != (#[trigger] found_in(roles, text)[j]).1,
        forall|i: int, j: int|
            0 <= i < j < found_in(roles, text).len() ==> (#[trigger] found_in(roles, text)[i]).0
                <= (#[trigger] found_in(roles, text)[j]).0,
        forall|i: int|
            0 <= i < found_in(roles, text).len() ==> roles.contains(
                (#[trigger] found_in(roles, text)[i]).1,
            ) && first_index(text, name_of(found_in(roles, text)[i].1), 0) == Some(
                found_in(roles, text)[i].0,
            ),
    decreases roles.len(),
{
    if roles.len() > 0 {
        let d = roles.drop_last();
        assert(d.no_duplicates());
        found_facts(d, text);
        let before = found_in(d, text);
        let all = found_in(roles, text);
        assert forall|i: int| 0 <= i < before.len() implies roles.contains((#[trigger] before[i]).1)
            && before[i].1 != roles.last() by {
            let k = d.index_of(before[i].1);
            assert(d[k] == before[i].1);
            assert(roles[k] == d[k]);
        }
        match first_index(text, name_of(roles.last()), 0) {
            Some(at) => {
                let f = (at, roles.last());
                inserted_contents(before, f);
                assert forall|i: int| 0 <= i < all.len() implies roles.contains((#[trigger] all[i]).1)
                    && first_index(text, name_of(all[i].1), 0) == Some(all[i].0) by {
                    if all[i] == f {
                        assert(roles[roles.len() - 1] == f.1);
                    } else {
                        let k = before.index_of(all[i]);
                        assert(before[k] == all[i]);
                    }
                }
            },
            None => {},
        }
    }
}

/// A chain has one to three roles, none twice, in the order in which the reply first names them.
pub proof fn chains_are_short_and_distinct(lower: Seq<char>)
    ensures
        1 <= chain_in(lower).len() <= 3,
        chain_in(lower).no_duplicates(),
        forall|i: int, j: int|
            0 <= i < j < chain_in(lower).len() ==> first_index(
                lower,
                name_of(#[trigger] chain_in(lower)[i]),
                0,
            )->0 <= first_index(lower, name_of(#[trigger] chain_in(lower)[j]), 0)->0,
{
    every_role_is_listed(Role::Oracle);
    found_facts(all_roles(), lower);
    let found = found_in(all_roles(), lower);
    let c = chain_in(lower);
    if found.len() > 0 {
        assert forall|i: int| 0 <= i < c.len() implies #[trigger] c[i] == found[i].1 by {}
        assert forall|i: int, j: int| 0 <= i < j < c.len() implies first_index(lower, name_of(#[trigger] c[i]), 0)->0
            <= first_index(lower, name_of(#[trigger] c[j]), 0)->0 by {
            assert(found[i].0 <= found[j].0);
        }
        assert forall|i: int, j: int| 0 <= i < c.len() && 0 <= j < c.len() && i != j implies c[i] != c[j] by {
            if i < j {
                assert(found[i].1 != found[j].1);
            } else {
                assert(found[j].1 != found[i].1);
            }
        }
    }
}

// ---------------------------------------------------------------------------
// Planning with skills
// ---------------------------------------------------------------------------

/// A skill that a plan can choose.
#[derive(Debug, Clone, Copy)]
pub struct SkillRouteOption {
    pub skill_name: &'static str,
    pub description: &'static str,
    pub primary_role: Role,
    pub collaborator_role: Option<Role>,
}

/// One step of a plan.
#[derive(Debug, Clone, PartialEq, Eq)]
pub struct PlannedStep {
    pub role: Role,
    pub skill_name: Option<String>,
}

/// The mathematical form of a step.
pub struct StepView {
    pub role: Role,
    pub skill: Option<Seq<char>>,
}

impl View for PlannedStep {
    type V = StepView;

    open spec fn view(&self) -> StepView {
        StepView { role: self.role, skill: opt_text(self.skill_name) }
    }
}

/// The mathematical forms of a sequence of steps.
pub open spec fn steps_of(v: Seq<PlannedStep>) -> Seq<StepView> {
    v.map_values(|s: PlannedStep| s@)
}

/// The roles and skills that the user likes best.
#[derive(Debug, Clone, PartialEq, Eq)]
pub struct PlannerPreferenceHint {
    pub preferred_roles: Vec<Role>,
    pub preferred_skills: Vec<String>,
}

/// The skills that a plan can name.
pub open spec fn known_skill(name: Seq<char>) -> bool {
    ||| name == "brainstorming"@
    ||| name == "writing-plans"@
    ||| name == "executing-plans"@
    ||| name == "test-driven-development"@
    ||| name == "systematic-debugging"@
    ||| name == "verification-before-completion"@
    ||| name == "requesting-code-review"@
    ||| name == "receiving-code-review"@
}

/// Whether a plan can name the skill.
pub fn is_known_skill(name: &str) -> (r: bool)
    ensures
        r == known_skill(name@),
{
    same(name, "brainstorming") || same(name, "writing-plans") || same(name, "executing-plans") || same(
        name,
        "test-driven-development",
    ) || same(name, "systematic-debugging") || same(name, "verification-before-completion") || same(
        name,
        "requesting-code-review",
    ) || same(name, "receiving-code-review")
}

/// The role with exactly this name.
pub open spec fn role_called(roles: Seq<Role>, name: Seq<char>) -> Option<Role>
    decreases roles.len(),
{
    if roles.len() == 0 {
        None
    } else if name_of(roles[0]) == name {
        Some(roles[0])
    } else {
        role_called(roles.drop_first(), name)
    }
}

/// The role that a word names, leaving case and surrounding white space aside.
pub open spec fn role_word(word: Seq<char>) -> Option<Role> {
    role_called(all_roles(), ascii_lowered(trimmed(word)))
}

/// The skill that a word names, leaving case and surrounding white space aside.
pub open spec fn skill_word(word: Seq<char>) -> Option<Seq<char>> {
    let w = ascii_lowered(trimmed(word));
    if known_skill(w) {
        Some(w)
    } else {
        None
    }
}

/// The role that a word names.
pub fn parse_role_name(name: &str) -> (r: Option<Role>)
    ensures
        r == role_word(name@),
{
    let kept = str_trim(name);
    let word = str_ascii_lower(kept.as_str());
    let roles = Role::all();
    let ghost all = all_roles();
    let mut i: usize = 0;
    assert(all.skip(0) =~= all);
    while i < 5
        invariant
            i <= 5,
            all == all_roles(),
            roles@ == all,
            all.len() == 5,
            word@ == ascii_lowered(trimmed(name@)),
            role_called(all, word@) == role_called(all.skip(i as int), word@),
        decreases 5 - i,
    {
        assert(all.skip(i as int)[0] == roles@[i as int]);
        assert(all.skip(i as int).drop_first() =~= all.skip(i + 1));
        if same(word.as_str(), roles[i].name()) {
            return Some(roles[i]);
        }
        i = i + 1;
    }
    None
}

/// The skill that a word names.
pub fn normalize_skill_name(name: &str) -> (r: Option<String>)
    ensures
        opt_text(r) == skill_word(name@),
{
    let kept = str_trim(name);
    let word = str_ascii_lower(kept.as_str());
    if is_known_skill(word.as_str()) {
        Some(word)
    } else {
        None
    }
}

/// The text before the first bar.
pub open spec fn before_bar(line: Seq<char>) -> Seq<char> {
    match first_index(line, "|"@, 0) {
        Some(i) => line.take(i),
        None => line,
    }
}

/// The text behind the first bar; empty where there is none.
pub open spec fn behind_bar(line: Seq<char>) -> Seq<char> {
    match first_index(line, "|"@, 0) {
        Some(i) => line.skip(i + 1),
        None => Seq::empty(),
    }
}

/// The step that a line names: a role, and a skill behind a bar.
pub open spec fn step_on(line: Seq<char>) -> Option<StepView> {
    let t = trimmed(line);
    match role_word(before_bar(t)) {
        Some(role) => Some(StepView { role, skill: skill_word(behind_bar(t)) }),
        None => None,
    }
}

/// The first three steps that the lines name.
pub open spec fn steps_on(all: Seq<Seq<char>>) -> Seq<StepView>
    decreases all.len(),
{
    if all.len() == 0 {
        Seq::empty()
    } else {
        let before = steps_on(all.drop_last());
        match step_on(all.last()) {
            Some(step) => if before.len() < 3 {
                before.push(step)
            } else {
                before
            },
            None => before,
        }
    }
}

/// The plan in a reply whose lower-case form is given: the steps on its lines, or else the chain
/// it names, without skills.
pub open spec fn plan_in(response: Seq<char>, lower: Seq<char>) -> Seq<StepView> {
    let steps = steps_on(lines(response));
    if steps.len() > 0 {
        steps
    } else {
        chain_in(lower).map_values(|role: Role| StepView { role, skill: None })
    }
}

fn step_of(line: &str) -> (r: Option<PlannedStep>)
    ensures
        match r {
            Some(s) => step_on(line@) == Some(s@),
            None => step_on(line@) is None,
        },
{
    let kept = str_trim(line);
    let v = chars_of(kept.as_str());
    let bar = chars_of("|");
    proof {
        reveal_strlit("|");
    }
    let n: usize = v.len();
    let (role_part, skill_part) = match find(v.as_slice(), bar.as_slice(), 0) {
        Some(i) => {
            assert(v@.subrange(0, i as int) =~= v@.take(i as int));
            assert(v@.subrange(i + 1, n as int) =~= v@.skip(i + 1));
            (string_of(part(v.as_slice(), 0, i)), string_of(part(v.as_slice(), i + 1, n)))
        },
        None => (kept, String::new()),
    };
    match parse_role_name(role_part.as_str()) {
        Some(role) => Some(
            PlannedStep { role, skill_name: normalize_skill_name(skill_part.as_str()) },
        ),
        None => None,
    }
}

/// The plan in a reply whose lower-case form is given.
pub fn plan_from(response: &str, lower: &str) -> (r: Vec<PlannedStep>)
    ensures
        steps_of(r@) == plan_in(response@, lower@),
{
    let v = chars_of(response);
    let all = split_lines(v.as_slice());
    let ghost ls = texts(all@);
    let mut steps: Vec<PlannedStep> = Vec::new();
    let mut i: usize = 0;
    assert(steps_of(steps@) =~= steps_on(ls.take(0)));
    while i < all.len()
        invariant
            i <= all.len(),
            ls == texts(all@),
            steps_of(steps@) == steps_on(ls.take(i as int)),
        decreases all.len() - i,
    {
        let ghost before = steps@;
        assert(ls.take(i + 1).drop_last() =~= ls.take(i as int));
        if steps.len() < 3 {
            if let Some(s) = step_of(all[i].as_str()) {
                steps.push(s);
                assert(steps_of(steps@) =~= steps_of(before).push(s@));
            }
        }
        i = i + 1;
    }
    assert(ls.take(i as int) =~= ls);
    if steps.len() == 0 {
        let roles = chain_of(lower);
        let mut k: usize = 0;
        while k < roles.len()
            invariant
                k <= roles.len(),
                steps@.len() == k,
                forall|j: int|
                    0 <= j < k ==> (#[trigger] steps@[j])@ == (StepView { role: roles@[j], skill: None }),
            decreases roles.len() - k,
        {
            steps.push(PlannedStep { role: roles[k], skill_name: None });
            k = k + 1;
        }
        assert(steps_of(steps@) =~= plan_in(response@, lower@));
    }
    steps
}

/// The plan in a reply: up to three steps of a role and a skill.
pub fn parse_skill_chain(response: &str) -> (r: Vec<PlannedStep>)
    ensures
        steps_of(r@) == plan_in(response@, lowercase_of(response@)),
{
    let lower = lowercase(response);
    plan_from(response, lower.as_str())
}

/// A plan has one to three steps, and every skill in it is known.
pub proof fn plans_are_short_and_known(response: Seq<char>, lower: Seq<char>)
    ensures
        1 <= plan_in(response, lower).len() <= 3,
        forall|i: int|
            0 <= i < plan_in(response, lower).len() ==> ((#[trigger] plan_in(response, lower)[i]).skill matches Some(
                s,
            ) ==> known_skill(s)),
{
    steps_are_short_and_known(lines(response));
    chains_are_short_and_distinct(lower);
}

proof fn steps_are_short_and_known(all: Seq<Seq<char>>)
    ensures
        steps_on(all).len() <= 3,
        forall|i: int|
            0 <= i < steps_on(all).len() ==> ((#[trigger] steps_on(all)[i]).skill matches Some(s)
                ==> known_skill(s)),
    decreases all.len(),
{
    if all.len() > 0 {
        steps_are_short_and_known(all.drop_last());
    }
}

/// The line that lists a skill.
pub open spec fn skill_line(s: SkillRouteOption) -> Seq<char> {
    "- "@ + s.skill_name@ + ": "@ + s.description@ + " (primary: "@ + name_of(s.primary_role)
        + ", collaborator: "@ + (match s.collaborator_role {
        Some(role) => name_of(role),
        None => "none"@,
    }) + ")\n"@
}

/// The lines that list skills.
pub open spec fn skill_lines(skills: Seq<SkillRouteOption>) -> Seq<char>
    decreases skills.len(),
{
    if skills.len() == 0 {
        Seq::empty()
    } else {
        skill_lines(skills.drop_last()) + skill_line(skills.last())
    }
}

/// The names of roles.
pub open spec fn names_of(roles: Seq<Role>) -> Seq<Seq<char>> {
    roles.map_values(|r: Role| name_of(r))
}

/// The block that tells the planner what the user likes; empty where there is nothing to tell.
pub open spec fn preference_block(roles: Seq<Role>, skills: Seq<Seq<char>>) -> Seq<char> {
    if roles.len() == 0 && skills.len() == 0 {
        Seq::empty()
    } else {
        "\n[User Preferences]\n"@ + (if roles.len() > 0 {
            "Preferred roles: "@ + joined(names_of(roles), ", "@) + "\n"@
        } else {
            Seq::empty()
        }) + (if skills.len() > 0 {
            "Preferred skills: "@ + joined(skills, ", "@) + "\n"@
        } else {
            Seq::empty()
        })
            + "These are preferences, not hard constraints. Choose other roles or skills when the task requires it.\n"@
    }
}

/// The prompt that asks for a plan of roles and skills.
pub open spec fn skill_planning_text(
    task: Seq<char>,
    skills: Seq<SkillRouteOption>,
    preferences: Seq<char>,
) -> Seq<char> {
    "You are a planner. Decide which roles should collaborate on the task, and which Superpowers skill each role should follow.\nRoles:\n"@
        + role_lines(all_roles()) + "\nSkills:\n"@ + skill_lines(skills) + preferences
        + "\nReply with ONLY one step per line in this exact format:\n<role>|<skill-or-none>\nUse lowercase role names and skill names. Use none when no listed skill fits. Use a single step for simple tasks; at most three steps. No explanation.\n\n[Task]\n"@
        + task
}

/// The preference block of an optional hint.
pub open spec fn hint_block(hint: Option<&PlannerPreferenceHint>) -> Seq<char> {
    match hint {
        Some(h) => preference_block(h.preferred_roles@, texts(h.preferred_skills@)),
        None => Seq::empty(),
    }
}

fn skill_text(o: SkillRouteOption) -> (r: String)
    ensures
        r@ == skill_line(o),
{
    let mut s = String::from_str("- ");
    s.append(o.skill_name);
    s.append(": ");
    s.append(o.description);
    s.append(" (primary: ");
    s.append(o.primary_role.name());
    s.append(", collaborator: ");
    match o.collaborator_role {
        Some(role) => s.append(role.name()),
        None => s.append("none"),
    }
    s.append(")\n");
    s
}

fn push_skills(s: &mut String, skills: &Vec<SkillRouteOption>)
    ensures
        final(s)@ == old(s)@ + skill_lines(skills@),
{
    let ghost start = s@;
    let mut i: usize = 0;
    assert(start =~= start + skill_lines(skills@.take(0)));
    while i < skills.len()
        invariant
            i <= skills.len(),
            s@ == start + skill_lines(skills@.take(i as int)),
        decreases skills.len() - i,
    {
        assert(skills@.take(i + 1).drop_last() =~= skills@.take(i as int));
        let line = skill_text(skills[i]);
        s.append(line.as_str());
        i = i + 1;
        assert(s@ =~= start + skill_lines(skills@.take(i as int)));
    }
    assert(skills@.take(i as int) =~= skills@);
}

fn role_names(roles: &Vec<Role>) -> (r: Vec<String>)
    ensures
        texts(r@) == names_of(roles@),
{
    let mut r: Vec<String> = Vec::new();
    let mut i: usize = 0;
    assert(texts(r@) =~= names_of(roles@).take(0));
    while i < roles.len()
        invariant
            i <= roles.len(),
            texts(r@) == names_of(roles@).take(i as int),
        decreases roles.len() - i,
    {
        push_text(&mut r, roles[i].name());
        i = i + 1;
        assert(texts(r@) =~= names_of(roles@).take(i as int));
    }
    assert(names_of(roles@).take(i as int) =~= names_of(roles@));
    r
}

fn push_preferences(s: &mut String, hint: &PlannerPreferenceHint)
    ensures
        final(s)@ == old(s)@ + preference_block(
            hint.preferred_roles@,
            texts(hint.preferred_skills@),
        ),
{
    let ghost start = s@;
    if hint.preferred_roles.len() > 0 || hint.preferred_skills.len() > 0 {
        s.append("\n[User Preferences]\n");
        if hint.preferred_roles.len() > 0 {
            s.append("Preferred roles: ");
            let names = role_names(&hint.preferred_roles);
            let list = join(&names, ", ");
            s.append(list.as_str());
            s.append("\n");
        }
        if hint.preferred_skills.len() > 0 {
            s.append("Preferred skills: ");
            let list = join(&hint.preferred_skills, ", ");
            s.append(list.as_str());
            s.append("\n");
        }
        s.append(
            "These are preferences, not hard constraints. Choose other roles or skills when the task requires it.\n",
        );
    }
    assert(s@ =~= start + preference_block(hint.preferred_roles@, texts(hint.preferred_skills@)));
}

/// The prompt that asks for a plan of roles and skills, with what the user likes.
pub fn skill_planning_prompt_with_preferences(
    task: &str,
    skills: &Vec<SkillRouteOption>,
    preferences: Option<&PlannerPreferenceHint>,
) -> (r: String)
    ensures
        r@ == skill_planning_text(task@, skills@, hint_block(preferences)),
{
    let mut s = String::from_str(
        "You are a planner. Decide which roles should collaborate on the task, and which Superpowers skill each role should follow.\nRoles:\n",
    );
    push_roles(&mut s);
    s.append("\nSkills:\n");
    push_skills(&mut s, skills);
    let ghost before = s@;
    match preferences {
        Some(hint) => push_preferences(&mut s, hint),
        None => {},
    }
    assert(s@ =~= before + hint_block(preferences));
    s.append(
        "\nReply with ONLY one step per line in this exact format:\n<role>|<skill-or-none>\nUse lowercase role names and skill names. Use none when no listed skill fits. Use a single step for simple tasks; at most three steps. No explanation.\n\n[Task]\n",
    );
    s.append(task);
    s
}

/// The prompt that asks for a plan of roles and skills.
pub fn skill_planning_prompt(task: &str, skills: &Vec<SkillRouteOption>) -> (r: String)
    ensures
        r@ == skill_planning_text(task@, skills@, Seq::empty()),
{
    skill_planning_prompt_with_preferences(task, skills, None)
}

/// The request that asks for one role.
pub fn route_request(task: &str) -> (r: AgentRequest)
    ensures
        r@ == plan_form(routing_text(task@)),
{
    plan_request(routing_prompt(task))
}

/// The request that asks for a chain of roles.
pub fn chain_request(task: &str) -> (r: AgentRequest)
    ensures
        r@ == plan_form(planning_text(task@)),
{
    plan_request(planning_prompt(task))
}

/// The request that asks for a plan of roles and skills.
pub fn skill_plan_request(
    task: &str,
    skills: &Vec<SkillRouteOption>,
    preferences: Option<&PlannerPreferenceHint>,
) -> (r: AgentRequest)
    ensures
        r@ == plan_form(skill_planning_text(task@, skills@, hint_block(preferences))),
{
    plan_request(skill_planning_prompt_with_preferences(task, skills, preferences))
}

} // verus!

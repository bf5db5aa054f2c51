//! What a planner is asked, and how its reply is read.
use crate::orchestrator::role::{all_roles, card_of, description_of, every_role_is_listed, name_of, Role};
use crate::orchestrator::router::{
    before_bar, behind_bar, chain_in, first_named, found_in, hint_block, inserted, names_of, plan_in,
    planning_text, preference_block, role_called, role_lines, role_word, routing_text, skill_line,
    skill_lines, skill_planning_text, skill_word, step_on, steps_on, PlannerPreferenceHint, SkillRouteOption, StepView,
};
use crate::orchestrator::{context_of, outcome_lines, plan_form, task_prompt, OutcomeView};
use crate::text::{
    ascii_lowered, first_index, first_index_is_first, has, joined, lines,
    longer_texts_hold_as_much, occurs_at, parts_are_found, texts, trimmed,
};
use vstd::prelude::*;

verus! {

// ---------------------------------------------------------------------------
// Reading a reply
// ---------------------------------------------------------------------------

proof fn first_of_those_named(roles: Seq<Role>, text: Seq<char>)
    ensures
        (exists|k: int| 0 <= k < roles.len() && has(text, name_of(#[trigger] roles[k]))) ==> has(
            text,
            name_of(first_named(roles, text)),
        ) && roles.contains(first_named(roles, text)),
        (forall|k: int| 0 <= k < roles.len() ==> !(has(text, name_of(#[trigger] roles[k])))) ==> first_named(roles, text)
            == Role::Oracle,
    decreases roles.len(),
{
    if roles.len() > 0 && !(has(text, name_of(roles[0]))) {
        let d = roles.drop_first();
        first_of_those_named(d, text);
        if exists|k: int| 0 <= k < roles.len() && has(text, name_of(#[trigger] roles[k])) {
            let k = choose|k: int| 0 <= k < roles.len() && has(text, name_of(#[trigger] roles[k]));
            assert(d[k - 1] == roles[k]);
            let i = d.index_of(first_named(d, text));
            assert(roles[i + 1] == first_named(d, text));
        }
        if forall|k: int| 0 <= k < roles.len() ==> !(has(text, name_of(#[trigger] roles[k]))) {
            assert forall|k: int| 0 <= k < d.len() implies !(has(text, name_of(#[trigger] d[k]))) by {
                assert(d[k] == roles[k + 1]);
            }
        }
    }
}

/// A reply that names a role is answered by a role that it names, and by that one where it names only
/// one; a reply that names none is answered by the oracle.
pub proof fn named_roles_answer(text: Seq<char>, role: Role)
    ensures
        has(text, name_of(role)) ==> has(text, name_of(first_named(all_roles(), text))),
        has(text, name_of(role)) && (forall|other: Role| #[trigger] has(text, name_of(other)) ==> other == role)
            ==> first_named(all_roles(), text) == role,
        (forall|other: Role| !(#[trigger] has(text, name_of(other)))) ==> first_named(all_roles(), text) is Oracle,
        has(text, "explorer"@) ==> first_named(all_roles(), text) is Explorer,
        has(text, "oracle"@) && !(has(text, "explorer"@)) ==> first_named(all_roles(), text) is Oracle,
        !(has(text, "explorer"@)) && !(has(text, "oracle"@)) && has(text, "librarian"@) ==> first_named(all_roles(), text) is Librarian,
        !(has(text, "explorer"@)) && !(has(text, "oracle"@)) && !(has(text, "librarian"@)) && has(text, "fixer"@) ==> first_named(
            all_roles(),
            text,
        ) is Fixer,
        !(has(text, "explorer"@)) && !(has(text, "oracle"@)) && !(has(text, "librarian"@)) && !(has(text, "fixer"@)) && has(
            text,
            "designer"@,
        ) ==> first_named(all_roles(), text) is Designer,
{
    let all = all_roles();
    every_role_is_listed(role);
    first_of_those_named(all, text);
    let k = all.index_of(role);
    assert(all[k] == role);
    reveal_with_fuel(first_named, 6);
    assert(all.drop_first()[0] == all[1]);
    assert(all.drop_first().drop_first()[0] == all[2]);
    assert(all.drop_first().drop_first().drop_first()[0] == all[3]);
    assert(all.drop_first().drop_first().drop_first().drop_first()[0] == all[4]);
}

proof fn inserting_keeps_all(found: Seq<(int, Role)>, f: (int, Role), x: (int, Role))
    ensures
        inserted(found, f).contains(x) <==> x == f || found.contains(x),
        inserted(found, f).len() == found.len() + 1,
    decreases found.len(),
{
    let r = inserted(found, f);
    if found.len() == 0 || found.last().0 <= f.0 {
        assert(r[found.len() as int] == f);
        if found.contains(x) {
            assert(r[found.index_of(x)] == x);
        }
        if r.contains(x) {
            let k = r.index_of(x);
            if k < found.len() {
                assert(found[k] == x);
            }
        }
    } else {
        let d = found.drop_last();
        let w = inserted(d, f);
        inserting_keeps_all(d, f, x);
        if w.contains(x) {
            assert(r[w.index_of(x)] == x);
        }
        if found.contains(x) {
            let k = found.index_of(x);
            if k < d.len() {
                assert(d[k] == x);
            } else {
                assert(r[w.len() as int] == x);
            }
        }
        if r.contains(x) {
            let k = r.index_of(x);
            if k < w.len() {
                assert(w[k] == x);
            } else {
                assert(found[found.len() - 1] == x);
            }
        }
        if d.contains(x) {
            assert(found[d.index_of(x)] == x);
        }
    }
}

proof fn sorted_in(found: Seq<(int, Role)>, f: (int, Role))
    requires
        forall|a: int, b: int| 0 <= a < b < found.len() ==> (#[trigger] found[a]).0 <= (#[trigger] found[b]).0,
    ensures
        forall|a: int, b: int|
            0 <= a < b < inserted(found, f).len() ==> (#[trigger] inserted(found, f)[a]).0 <= (
            #[trigger] inserted(found, f)[b]).0,
    decreases found.len(),
{
    let r = inserted(found, f);
    if found.len() > 0 && found.last().0 > f.0 {
        let d = found.drop_last();
        let w = inserted(d, f);
        sorted_in(d, f);
        assert forall|a: int, b: int| 0 <= a < b < r.len() implies (#[trigger] r[a]).0 <= (#[trigger] r[b]).0 by {
            if b < w.len() {
                assert(w[a] == r[a] && w[b] == r[b]);
            } else {
                assert(w[a] == r[a]);
                assert(w.contains(w[a]));
                inserting_keeps_all(d, f, w[a]);
                if w[a] != f {
                    let k = d.index_of(w[a]);
                    assert(found[k] == w[a]);
                    assert(found[found.len() - 1] == r[b]);
                }
            }
        }
    }
}

proof fn all_named_are_found(roles: Seq<Role>, text: Seq<char>)
    requires
        roles.no_duplicates(),
    ensures
        forall|i: int, role: Role| #[trigger]
            found_in(roles, text).contains((i, role)) <==> roles.contains(role) && first_index(text, name_of(role), 0) == Some(i),
        forall|a: int, b: int|
            0 <= a < b < found_in(roles, text).len() ==> (#[trigger] found_in(roles, text)[a]).0 <= (
            #[trigger] found_in(roles, text)[b]).0,
    decreases roles.len(),
{
    let t = found_in(roles, text);
    if roles.len() > 0 {
        let d = roles.drop_last();
        let before = found_in(d, text);
        all_named_are_found(d, text);
        assert(roles[roles.len() - 1] == roles.last());
        match first_index(text, name_of(roles.last()), 0) {
            Some(i) => {
                sorted_in(before, (i, roles.last()));
            },
            None => {},
        }
        assert forall|i: int, role: Role| #[trigger]
            t.contains((i, role)) <==> roles.contains(role) && first_index(text, name_of(role), 0) == Some(i) by {
            match first_index(text, name_of(roles.last()), 0) {
                Some(j) => {
                    inserting_keeps_all(before, (j, roles.last()), (i, role));
                },
                None => {},
            }
            if d.contains(role) {
                assert(roles[d.index_of(role)] == role);
            }
            if roles.contains(role) && role != roles.last() {
                let k = roles.index_of(role);
                assert(d[k] == role);
            }
        }
    }
}

/// A chain holds the roles that the reply names, in the order in which it first names them. A named role
/// is missing only where the reply names three others before it; a reply that names none gets the oracle
/// alone.
pub proof fn chains_hold_the_roles_named(lower: Seq<char>, role: Role, i: int)
    requires
        first_index(lower, name_of(role), 0) == Some(i),
    ensures
        chain_in(lower).contains(role) || (chain_in(lower).len() == 3 && forall|k: int|
            0 <= k < 3 ==> first_index(lower, name_of(#[trigger] chain_in(lower)[k]), 0) is Some && first_index(
                lower,
                name_of(chain_in(lower)[k]),
                0,
            )->0 <= i),
{
    let all = all_roles();
    every_role_is_listed(role);
    all_named_are_found(all, lower);
    let found = found_in(all, lower);
    let c = chain_in(lower);
    assert(found.contains((i, role)));
    let at = found.index_of((i, role));
    if at < 3 {
        assert(c[at] == role);
    } else {
        assert forall|k: int| 0 <= k < 3 implies first_index(lower, name_of(#[trigger] c[k]), 0) is Some && first_index(
            lower,
            name_of(c[k]),
            0,
        )->0 <= i by {
            assert(found.contains(found[k]));
            assert(found[k] == (found[k].0, c[k]));
            assert(found[k].0 <= found[at].0);
        }
    }
}

/// A reply that names no role gets the oracle alone, and no role stands in a chain that the reply does
/// not name.
pub proof fn chains_hold_nothing_else(lower: Seq<char>, k: int)
    requires
        0 <= k < chain_in(lower).len(),
    ensures
        (forall|role: Role| first_index(lower, #[trigger] name_of(role), 0) is None) ==> chain_in(lower) == seq![Role::Oracle],
        (exists|role: Role| first_index(lower, #[trigger] name_of(role), 0) is Some) ==> first_index(
            lower,
            name_of(chain_in(lower)[k]),
            0,
        ) is Some,
{
    let all = all_roles();
    every_role_is_listed(Role::Oracle);
    all_named_are_found(all, lower);
    let found = found_in(all, lower);
    if found.len() > 0 {
        assert(found.contains(found[k]));
        assert(found[k] == (found[k].0, chain_in(lower)[k]));
    } else if exists|role: Role| first_index(lower, #[trigger] name_of(role), 0) is Some {
        let role = choose|role: Role| first_index(lower, #[trigger] name_of(role), 0) is Some;
        every_role_is_listed(role);
        assert(found.contains((first_index(lower, name_of(role), 0)->0, role)));
    }
    if forall|role: Role| first_index(lower, #[trigger] name_of(role), 0) is None {
        assert(found.len() == 0) by {
            if found.len() > 0 {
                assert(found.contains(found[0]));
                assert(found[0] == (found[0].0, found[0].1));
                assert(first_index(lower, name_of(found[0].1), 0) is None);
            }
        }
    }
}

proof fn called_by_name(roles: Seq<Role>, role: Role)
    requires
        roles.contains(role),
    ensures
        role_called(roles, name_of(role)) == Some(role),
    decreases roles.len(),
{
    let k = roles.index_of(role);
    if name_of(roles[0]) == name_of(role) {
        crate::orchestrator::role::names_tell_roles_apart(roles[0], role);
    } else {
        assert(roles.drop_first()[k - 1] == role);
        called_by_name(roles.drop_first(), role);
    }
}

proof fn nobody_is_called(roles: Seq<Role>, name: Seq<char>)
    requires
        forall|k: int| 0 <= k < roles.len() ==> name_of(#[trigger] roles[k]) != name,
    ensures
        role_called(roles, name) is None,
    decreases roles.len(),
{
    if roles.len() > 0 {
        assert(name_of(roles[0]) != name);
        let d = roles.drop_first();
        assert forall|k: int| 0 <= k < d.len() implies name_of(#[trigger] d[k]) != name by {
            assert(d[k] == roles[k + 1]);
        }
        nobody_is_called(d, name);
    }
}

/// A word is a role exactly where it is the name of one, whatever its case and the blanks around it.
pub proof fn words_are_roles_by_name(word: Seq<char>, role: Role)
    ensures
        ascii_lowered(trimmed(word)) == name_of(role) ==> role_word(word) == Some(role),
        (forall|other: Role| ascii_lowered(trimmed(word)) != #[trigger] name_of(other)) ==> role_word(word) is None,
{
    every_role_is_listed(role);
    if ascii_lowered(trimmed(word)) == name_of(role) {
        called_by_name(all_roles(), role);
    }
    if forall|other: Role| ascii_lowered(trimmed(word)) != #[trigger] name_of(other) {
        nobody_is_called(all_roles(), ascii_lowered(trimmed(word)));
    }
}

/// The skills that a plan can choose.
pub proof fn skills_by_name(word: Seq<char>)
    ensures
        ({
            let w = ascii_lowered(trimmed(word));
            let known = w == "brainstorming"@ || w == "writing-plans"@ || w == "executing-plans"@ || w
                == "test-driven-development"@ || w == "systematic-debugging"@ || w == "verification-before-completion"@ || w
                == "requesting-code-review"@ || w == "receiving-code-review"@;
            &&& known ==> skill_word(word) == Some(w)
            &&& !known ==> skill_word(word) is None
        }),
{
}

proof fn parts_of_a_line(a: Seq<char>, b: Seq<char>)
    requires
        forall|i: int| 0 <= i < a.len() ==> #[trigger] a[i] != '|',
    ensures
        before_bar(a + seq!['|'] + b) == a,
        behind_bar(a + seq!['|'] + b) == b,
        before_bar(a) == a,
        behind_bar(a) == Seq::<char>::empty(),
{
    reveal_strlit("|");
    let line = a + seq!['|'] + b;
    let k = a.len() as int;
    first_index_is_first(line, "|"@, 0);
    assert(line.subrange(k, k + 1) =~= "|"@);
    assert(occurs_at(line, "|"@, k));
    let i = first_index(line, "|"@, 0);
    assert(i is Some);
    if i->0 < k {
        assert(line.subrange(i->0, i->0 + 1)[0] == a[i->0]);
    }
    assert(line.take(k) =~= a);
    assert(line.skip(k + 1) =~= b);
    first_index_is_first(a, "|"@, 0);
    match first_index(a, "|"@, 0) {
        Some(j) => {
            assert(a.subrange(j, j + 1)[0] == a[j]);
        },
        None => {},
    }
}

/// A line of a plan is a role, or a role, a bar and a skill; a skill that is not known is left out, and
/// a line that does not start with a role is none of the plan.
pub proof fn plan_lines_are_read(a: Seq<char>, b: Seq<char>)
    requires
        forall|i: int| 0 <= i < a.len() ==> #[trigger] a[i] != '|',
        trimmed(a + seq!['|'] + b) == a + seq!['|'] + b,
    ensures
        role_word(a) is Some ==> step_on(a + seq!['|'] + b) == Some(StepView { role: role_word(a)->0, skill: skill_word(b) }),
        role_word(a) is None ==> step_on(a + seq!['|'] + b) is None,
        trimmed(a) == a && role_word(a) is Some ==> step_on(a) is Some && step_on(a)->0.role == role_word(a)->0,
{
    parts_of_a_line(a, b);
}

/// A plan takes the steps of a reply line by line, as long as it has fewer than three; lines that are no
/// step are passed over.
pub proof fn plans_take_line_by_line(all: Seq<Seq<char>>, line: Seq<char>)
    ensures
        steps_on(all).len() <= 3,
        step_on(line) is None ==> steps_on(all.push(line)) == steps_on(all),
        step_on(line) is Some && steps_on(all).len() < 3 ==> steps_on(all.push(line)) == steps_on(all).push(step_on(line)->0),
        steps_on(all).len() == 3 ==> steps_on(all.push(line)) == steps_on(all),
        steps_on(Seq::<Seq<char>>::empty()).len() == 0,
    decreases all.len(),
{
    assert(all.push(line).drop_last() =~= all);
    if all.len() > 0 {
        plans_take_line_by_line(all.drop_last(), all.last());
        assert(all.drop_last().push(all.last()) =~= all);
    }
}

/// A reply with steps is planned by its steps; one without steps is planned by the roles it names.
pub proof fn replies_without_steps_fall_back(response: Seq<char>, lower: Seq<char>)
    ensures
        steps_on(lines(response)).len() > 0 ==> plan_in(response, lower) == steps_on(lines(response)),
        steps_on(lines(response)).len() == 0 ==> plan_in(response, lower).len() == chain_in(lower).len() && forall|k: int|
            0 <= k < chain_in(lower).len() ==> (#[trigger] plan_in(response, lower)[k]).role == chain_in(lower)[k]
                && plan_in(response, lower)[k].skill is None,
{
}

// ---------------------------------------------------------------------------
// Asking
// ---------------------------------------------------------------------------

proof fn roles_are_described(roles: Seq<Role>, k: int)
    requires
        0 <= k < roles.len(),
    ensures
        has(role_lines(roles), "- "@ + name_of(roles[k]) + ": "@ + description_of(roles[k]) + "\n"@),
    decreases roles.len(),
{
    let d = roles.drop_last();
    let line = "- "@ + name_of(roles.last()) + ": "@ + description_of(roles.last()) + "\n"@;
    assert(role_lines(roles) =~= role_lines(d) + line + Seq::<char>::empty());
    if k < d.len() {
        roles_are_described(d, k);
        longer_texts_hold_as_much(Seq::empty(), role_lines(d), line, "- "@ + name_of(d[k]) + ": "@ + description_of(d[k]) + "\n"@);
        assert(Seq::<char>::empty() + role_lines(d) + line =~= role_lines(roles));
    } else {
        parts_are_found(role_lines(d), line, Seq::empty());
    }
}

/// Whoever routes or plans is told every role, with what it is good at, and the task in its own words.
pub proof fn planners_know_roles_and_task(task: Seq<char>, role: Role, skills: Seq<SkillRouteOption>, preferences: Seq<char>)
    ensures
        ({
            let line = "- "@ + name_of(role) + ": "@ + description_of(role) + "\n"@;
            &&& has(routing_text(task), line)
            &&& has(planning_text(task), line)
            &&& has(skill_planning_text(task, skills, preferences), line)
        }),
        routing_text(task).skip(routing_text(task).len() - task.len()) == task,
        planning_text(task).skip(planning_text(task).len() - task.len()) == task,
        skill_planning_text(task, skills, preferences).skip(
            skill_planning_text(task, skills, preferences).len() - task.len(),
        ) == task,
        has(skill_planning_text(task, skills, preferences), preferences),
        has(skill_planning_text(task, skills, preferences), skill_lines(skills)),
{
    let all = all_roles();
    every_role_is_listed(role);
    let line = "- "@ + name_of(role) + ": "@ + description_of(role) + "\n"@;
    roles_are_described(all, all.index_of(role));
    let rl = role_lines(all);
    let h1 = "You are a router. Pick the single best role to handle the task.\nRoles:\n"@;
    let t1 = "\nReply with ONLY the role name (one lowercase word).\n\n[Task]\n"@;
    longer_texts_hold_as_much(h1, rl, t1 + task, line);
    assert(h1 + rl + (t1 + task) =~= routing_text(task));
    assert(routing_text(task).skip(routing_text(task).len() - task.len()) =~= task);
    let h2 = "You are a planner. Decide which roles should collaborate on the task, in execution order.\nRoles:\n"@;
    let t2 =
        "\nReply with ONLY a comma-separated list of role names in execution order (lowercase). Use a single role for simple tasks; at most three. No explanation.\n\n[Task]\n"@;
    longer_texts_hold_as_much(h2, rl, t2 + task, line);
    assert(h2 + rl + (t2 + task) =~= planning_text(task));
    assert(planning_text(task).skip(planning_text(task).len() - task.len()) =~= task);
    let h3 =
        "You are a planner. Decide which roles should collaborate on the task, and which Superpowers skill each role should follow.\nRoles:\n"@;
    let t3 =
        "\nReply with ONLY one step per line in this exact format:\n<role>|<skill-or-none>\nUse lowercase role names and skill names. Use none when no listed skill fits. Use a single step for simple tasks; at most three steps. No explanation.\n\n[Task]\n"@;
    let full = skill_planning_text(task, skills, preferences);
    let sl = skill_lines(skills);
    let mid = "\nSkills:\n"@;
    longer_texts_hold_as_much(h3, rl, mid + sl + preferences + t3 + task, line);
    assert(h3 + rl + (mid + sl + preferences + t3 + task) =~= full);
    parts_are_found(h3 + rl + mid, sl, preferences + t3 + task);
    assert(h3 + rl + mid + sl + (preferences + t3 + task) =~= full);
    parts_are_found(h3 + rl + mid + sl, preferences, t3 + task);
    assert(h3 + rl + mid + sl + preferences + (t3 + task) =~= full);
    assert(full.skip(full.len() - task.len()) =~= task);
}

/// Every skill is offered with what it is for and the roles that follow it.
pub proof fn skills_are_offered(skills: Seq<SkillRouteOption>, k: int)
    requires
        0 <= k < skills.len(),
    ensures
        has(skill_lines(skills), skill_line(skills[k])),
        has(skill_line(skills[k]), skills[k].skill_name@),
        has(skill_line(skills[k]), skills[k].description@),
        has(skill_line(skills[k]), "primary: "@ + name_of(skills[k].primary_role)),
        skills[k].collaborator_role is Some ==> has(
            skill_line(skills[k]),
            "collaborator: "@ + name_of(skills[k].collaborator_role->0),
        ),
    decreases skills.len(),
{
    let s = skills[k];
    let full = skill_line(s);
    let c = match s.collaborator_role {
        Some(role) => name_of(role),
        None => "none"@,
    };
    let (n, d, p) = (s.skill_name@, s.description@, name_of(s.primary_role));
    parts_are_found("- "@, n, ": "@ + d + " (primary: "@ + p + ", collaborator: "@ + c + ")\n"@);
    assert("- "@ + n + (": "@ + d + " (primary: "@ + p + ", collaborator: "@ + c + ")\n"@) =~= full);
    parts_are_found("- "@ + n + ": "@, d, " (primary: "@ + p + ", collaborator: "@ + c + ")\n"@);
    assert("- "@ + n + ": "@ + d + (" (primary: "@ + p + ", collaborator: "@ + c + ")\n"@) =~= full);
    reveal_strlit(" (primary: ");
    reveal_strlit("primary: ");
    reveal_strlit(", collaborator: ");
    reveal_strlit("collaborator: ");
    assert(" (primary: "@ =~= seq![' ', '('] + "primary: "@);
    assert(", collaborator: "@ =~= seq![',', ' '] + "collaborator: "@);
    let a = "- "@ + n + ": "@ + d + seq![' ', '('];
    parts_are_found(a, "primary: "@ + p, ", collaborator: "@ + c + ")\n"@);
    assert(a + ("primary: "@ + p) + (", collaborator: "@ + c + ")\n"@) =~= full);
    let b = "- "@ + n + ": "@ + d + " (primary: "@ + p + seq![',', ' '];
    parts_are_found(b, "collaborator: "@ + c, ")\n"@);
    assert(b + ("collaborator: "@ + c) + ")\n"@ =~= full);
    let before = skills.drop_last();
    if k < before.len() {
        skills_are_offered(before, k);
        longer_texts_hold_as_much(Seq::empty(), skill_lines(before), skill_line(skills.last()), skill_line(before[k]));
        assert(Seq::<char>::empty() + skill_lines(before) + skill_line(skills.last()) =~= skill_lines(skills));
    } else {
        parts_are_found(skill_lines(before), full, Seq::empty());
        assert(skill_lines(before) + full + Seq::<char>::empty() =~= skill_lines(skills));
    }
}

/// What the user likes best is told to the planner, all of it; where nothing is liked nothing is told.
pub proof fn preferences_are_told(roles: Seq<Role>, skills: Seq<Seq<char>>)
    ensures
        preference_block(Seq::empty(), Seq::empty()).len() == 0,
        roles.len() > 0 ==> has(preference_block(roles, skills), "Preferred roles: "@ + joined(names_of(roles), ", "@) + "\n"@),
        skills.len() > 0 ==> has(preference_block(roles, skills), "Preferred skills: "@ + joined(skills, ", "@) + "\n"@),
        forall|k: int| 0 <= k < roles.len() ==> names_of(roles)[k] == name_of(#[trigger] roles[k]),
{
    let h = "\n[User Preferences]\n"@;
    let r = "Preferred roles: "@ + joined(names_of(roles), ", "@) + "\n"@;
    let s = "Preferred skills: "@ + joined(skills, ", "@) + "\n"@;
    let t =
        "These are preferences, not hard constraints. Choose other roles or skills when the task requires it.\n"@;
    let e = Seq::<char>::empty();
    let b = preference_block(roles, skills);
    if roles.len() > 0 {
        let behind = (if skills.len() > 0 { s } else { e }) + t;
        parts_are_found(h, r, behind);
        assert(h + r + behind =~= b);
    }
    if skills.len() > 0 {
        let before = h + (if roles.len() > 0 { r } else { e });
        parts_are_found(before, s, t);
        assert(before + s + t =~= b);
    }
}

/// The planner is told the user's preferred roles and skills, all of them, where there are any.
pub proof fn hints_reach_the_planner(hint: PlannerPreferenceHint)
    ensures
        hint_block(None).len() == 0,
        hint.preferred_skills@.len() > 0 ==> has(
            hint_block(Some(&hint)),
            "Preferred skills: "@ + joined(texts(hint.preferred_skills@), ", "@) + "\n"@,
        ),
        hint.preferred_roles@.len() > 0 ==> has(
            hint_block(Some(&hint)),
            "Preferred roles: "@ + joined(names_of(hint.preferred_roles@), ", "@) + "\n"@,
        ),
{
    preferences_are_told(hint.preferred_roles@, texts(hint.preferred_skills@));
}

/// A role is asked with its own card and the task, and told what each role before it said.
pub proof fn roles_are_asked_with_card_and_task(role: Role, task: Seq<char>, prior: Seq<OutcomeView>, k: int)
    requires
        0 <= k < prior.len(),
    ensures
        task_prompt(role, task).take(card_of(role).len() as int) == card_of(role),
        task_prompt(role, task).skip(task_prompt(role, task).len() - task.len()) == task,
        context_of(Seq::empty()).len() == 0,
        has(context_of(prior), name_of(prior[k].role) + ": "@ + prior[k].output + "\n"@),
{
    assert(task_prompt(role, task).take(card_of(role).len() as int) =~= card_of(role));
    assert(task_prompt(role, task).skip(task_prompt(role, task).len() - task.len()) =~= task);
    said_before(prior, k);
}

proof fn said_before(prior: Seq<OutcomeView>, k: int)
    requires
        0 <= k < prior.len(),
    ensures
        has(outcome_lines(prior), name_of(prior[k].role) + ": "@ + prior[k].output + "\n"@),
    decreases prior.len(),
{
    let d = prior.drop_last();
    let line = name_of(prior.last().role) + ": "@ + prior.last().output + "\n"@;
    assert(outcome_lines(prior) =~= outcome_lines(d) + line + Seq::<char>::empty());
    if k < d.len() {
        said_before(d, k);
        longer_texts_hold_as_much(
            Seq::empty(),
            outcome_lines(d),
            line,
            name_of(d[k].role) + ": "@ + d[k].output + "\n"@,
        );
        assert(Seq::<char>::empty() + outcome_lines(d) + line =~= outcome_lines(prior));
    } else {
        parts_are_found(outcome_lines(d), line, Seq::empty());
    }
}

/// A planner is asked as a planner, and may not ask back.
pub proof fn planners_do_not_ask_back(prompt: Seq<char>)
    ensures
        plan_form(prompt).prompt == prompt,
        plan_form(prompt).agent == Some("plan"@),
        plan_form(prompt).tool_overrides == seq![("question"@, false)],
        plan_form(prompt).session_id is None,
{
}

} // verus!

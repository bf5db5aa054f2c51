use wukong::orchestrator::role::Role;
use wukong::orchestrator::router::{
    parse_chain, parse_role, parse_skill_chain, planning_prompt, routing_prompt, skill_planning_prompt,
    skill_planning_prompt_with_preferences, PlannerPreferenceHint, SkillRouteOption,
};

#[test]
fn routing_prompt_lists_roles_and_task() {
    let p = routing_prompt("refactor the parser");
    for role in Role::all() {
        assert!(p.contains(role.name()), "missing role {}", role.name());
    }
    assert!(p.contains("refactor the parser"));
}

#[test]
fn parse_role_matches_exact_name() {
    assert_eq!(parse_role("fixer"), Role::Fixer);
}

#[test]
fn parse_role_is_case_insensitive() {
    assert_eq!(parse_role("FIXER"), Role::Fixer);
}

#[test]
fn parse_role_finds_name_in_sentence() {
    assert_eq!(parse_role("I'd pick oracle for this"), Role::Oracle);
}

#[test]
fn parse_role_falls_back_to_oracle() {
    assert_eq!(parse_role("garbage with no role"), Role::Oracle);
}

#[test]
fn planning_prompt_lists_roles_and_task() {
    let p = planning_prompt("build and document a parser");
    for role in Role::all() {
        assert!(p.contains(role.name()), "missing role {}", role.name());
    }
    assert!(p.contains("build and document a parser"));
}

#[test]
fn parse_chain_reads_ordered_roles() {
    assert_eq!(
        parse_chain("explorer, fixer, librarian"),
        vec![Role::Explorer, Role::Fixer, Role::Librarian]
    );
}

#[test]
fn parse_chain_orders_by_appearance() {
    // Order follows position in the text, not Role::all() order.
    assert_eq!(
        parse_chain("先 fixer 再 explorer"),
        vec![Role::Fixer, Role::Explorer]
    );
}

#[test]
fn parse_chain_caps_at_three() {
    let c = parse_chain("explorer oracle librarian fixer designer");
    assert_eq!(c.len(), 3);
    assert_eq!(c, vec![Role::Explorer, Role::Oracle, Role::Librarian]);
}

#[test]
fn parse_chain_dedups_repeats() {
    assert_eq!(parse_chain("fixer then fixer again"), vec![Role::Fixer]);
}

#[test]
fn parse_chain_falls_back_to_oracle() {
    assert_eq!(parse_chain("no role mentioned here"), vec![Role::Oracle]);
}

#[test]
fn parse_skill_chain_reads_role_and_skill() {
    let steps = parse_skill_chain("fixer|test-driven-development");
    assert_eq!(steps.len(), 1);
    assert_eq!(steps[0].role, Role::Fixer);
    assert_eq!(
        steps[0].skill_name.as_deref(),
        Some("test-driven-development")
    );
}

#[test]
fn parse_skill_chain_keeps_order_and_caps_at_three() {
    let steps = parse_skill_chain(
        "oracle|brainstorming\nfixer|test-driven-development\nlibrarian|requesting-code-review\ndesigner|none",
    );
    assert_eq!(steps.len(), 3);
    assert_eq!(steps[0].role, Role::Oracle);
    assert_eq!(steps[1].role, Role::Fixer);
    assert_eq!(steps[2].role, Role::Librarian);
}

#[test]
fn parse_skill_chain_none_empty_and_unknown_skill_become_none() {
    let steps = parse_skill_chain("oracle|none\nfixer|\nlibrarian|unknown-skill");
    assert_eq!(steps.len(), 3);
    assert_eq!(steps[0].skill_name, None);
    assert_eq!(steps[1].skill_name, None);
    assert_eq!(steps[2].skill_name, None);
}

#[test]
fn parse_skill_chain_falls_back_to_oracle() {
    let steps = parse_skill_chain("no usable routing output");
    assert_eq!(steps.len(), 1);
    assert_eq!(steps[0].role, Role::Oracle);
    assert_eq!(steps[0].skill_name, None);
}

#[test]
fn skill_planning_prompt_lists_roles_skills_and_task() {
    let skills = vec![SkillRouteOption {
        skill_name: "test-driven-development",
        description: "新功能或 bugfix 的測試先行實作",
        primary_role: Role::Fixer,
        collaborator_role: Some(Role::Oracle),
    }];
    let p = skill_planning_prompt("fix the bug", &skills);
    assert!(p.contains("fixer"));
    assert!(p.contains("test-driven-development"));
    assert!(p.contains("新功能或 bugfix"));
    assert!(p.contains("fix the bug"));
    assert!(p.contains("<role>|<skill-or-none>"));
}

#[test]
fn skill_planning_prompt_without_preferences_stays_unchanged() {
    let skills = vec![SkillRouteOption {
        skill_name: "systematic-debugging",
        description: "錯誤追因、根因定位",
        primary_role: Role::Fixer,
        collaborator_role: Some(Role::Explorer),
    }];

    assert_eq!(
        skill_planning_prompt("fix it", &skills),
        skill_planning_prompt_with_preferences("fix it", &skills, None)
    );
}

#[test]
fn skill_planning_prompt_with_preferences_includes_guidance_not_constraints() {
    let skills = vec![SkillRouteOption {
        skill_name: "systematic-debugging",
        description: "錯誤追因、根因定位",
        primary_role: Role::Fixer,
        collaborator_role: Some(Role::Explorer),
    }];
    let hint = PlannerPreferenceHint {
        preferred_roles: vec![Role::Fixer, Role::Oracle],
        preferred_skills: vec!["systematic-debugging".to_string()],
    };

    let prompt = skill_planning_prompt_with_preferences("fix it", &skills, Some(&hint));

    assert!(prompt.contains("[User Preferences]"));
    assert!(prompt.contains("Preferred roles: fixer, oracle"));
    assert!(prompt.contains("Preferred skills: systematic-debugging"));
    assert!(prompt.contains("These are preferences, not hard constraints"));
    assert!(prompt.contains("Choose other roles or skills when the task requires it"));
    assert!(prompt.contains("fix it"));
}

#[test]
fn skill_planning_prompt_skips_empty_preference_hint() {
    let skills = vec![SkillRouteOption {
        skill_name: "systematic-debugging",
        description: "錯誤追因、根因定位",
        primary_role: Role::Fixer,
        collaborator_role: Some(Role::Explorer),
    }];
    let hint = PlannerPreferenceHint {
        preferred_roles: vec![],
        preferred_skills: vec![],
    };

    let prompt = skill_planning_prompt_with_preferences("fix it", &skills, Some(&hint));

    assert!(!prompt.contains("[User Preferences]"));
}

//! The documents of the skills, laid out where the agent reads them.
use crate::paths::{place, placed};
use crate::text::{decimal, decimal_of, same};
use vstd::prelude::*;

verus! {

/// A skill: its name and its document.
#[derive(Debug, Clone, PartialEq, Eq)]
pub struct SkillSpec {
    pub name: String,
    pub content: String,
}

/// What is written, and where. The files are written aside and then moved into place, so that no
/// reader sees half of them.
#[derive(Debug, Clone, PartialEq, Eq)]
pub struct SkillAssets {
    /// Where the documents are to stand.
    pub root: String,
    /// Where they are written.
    pub staging: String,
    /// Where those of before are kept until the new ones stand.
    pub retired: String,
    /// Each file's path and content.
    pub files: Vec<(String, String)>,
}

/// The directory of the documents.
pub open spec fn asset_root(workspace: Seq<char>) -> Seq<char> {
    placed(workspace, ".wukong/skills/superpowers"@)
}

/// A directory beside it, named after a process.
pub open spec fn aside(workspace: Seq<char>, label: Seq<char>, process: u32) -> Seq<char> {
    placed(placed(workspace, ".wukong/skills"@), label + decimal(process as nat))
}

/// The mathematical forms of files.
pub open spec fn files_of(v: Seq<(String, String)>) -> Seq<(Seq<char>, Seq<char>)> {
    v.map_values(|f: (String, String)| (f.0@, f.1@))
}

/// The documents of skills below a directory.
pub open spec fn documents(dir: Seq<char>, skills: Seq<SkillSpec>) -> Seq<(Seq<char>, Seq<char>)> {
    skills.map_values(|s: SkillSpec| (placed(placed(dir, s.name@), "SKILL.md"@), s.content@))
}

/// Whether the documents that stand there are those of a source.
pub fn assets_are_current(found: Option<&str>, source: &str) -> (r: bool)
    ensures
        r == (match found {
            Some(f) => f@ == source@,
            None => false,
        }),
{
    match found {
        Some(f) => same(f, source),
        None => false,
    }
}

fn place_aside(workspace: &str, label: &str, process: u32) -> (r: String)
    ensures
        r@ == aside(workspace@, label@, process),
{
    let parent = place(workspace, ".wukong/skills");
    let mut name = String::from_str(label);
    let p = decimal_of(process as u64);
    name.append(p.as_str());
    place(parent.as_str(), name.as_str())
}

/// What is written so that the skills stand in a workspace: a document each, and the source that
/// tells which they are.
pub fn plan_skill_assets(workspace: &str, process: u32, skills: &Vec<SkillSpec>, source: &str) -> (r: SkillAssets)
    ensures
        r.root@ == asset_root(workspace@),
        r.staging@ == aside(workspace@, ".superpowers.tmp."@, process),
        r.retired@ == aside(workspace@, ".superpowers.old."@, process),
        files_of(r.files@) == documents(r.staging@, skills@).push((placed(r.staging@, "SOURCE.md"@), source@)),
{
    let staging = place_aside(workspace, ".superpowers.tmp.", process);
    let ghost goal = documents(staging@, skills@);
    let mut files: Vec<(String, String)> = Vec::new();
    let mut i: usize = 0;
    while i < skills.len()
        invariant
            i <= skills.len(),
            goal == documents(staging@, skills@),
            files_of(files@) == goal.take(i as int),
        decreases skills.len() - i,
    {
        let ghost before = files_of(files@);
        let dir = place(staging.as_str(), skills[i].name.as_str());
        files.push((place(dir.as_str(), "SKILL.md"), skills[i].content.clone()));
        assert(files_of(files@) =~= before.push(goal[i as int]));
        assert(goal.take(i + 1) =~= goal.take(i as int).push(goal[i as int]));
        i = i + 1;
    }
    assert(goal.take(i as int) =~= goal);
    files.push((place(staging.as_str(), "SOURCE.md"), source.to_owned()));
    assert(files_of(files@) =~= goal.push((placed(staging@, "SOURCE.md"@), source@)));
    SkillAssets {
        root: place(workspace, ".wukong/skills/superpowers"),
        retired: place_aside(workspace, ".superpowers.old.", process),
        staging,
        files,
    }
}

} // verus!

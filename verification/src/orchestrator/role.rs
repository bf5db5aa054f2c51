//! The specialist roles.
use vstd::prelude::*;

verus! {

/// One of the five specialist roles.
#[derive(Debug, Clone, Copy, PartialEq, Eq, Structural)]
pub enum Role {
    Explorer,
    Oracle,
    Librarian,
    Fixer,
    Designer,
}

/// All roles, in the order in which they are listed and searched.
pub open spec fn all_roles() -> Seq<Role> {
    seq![Role::Explorer, Role::Oracle, Role::Librarian, Role::Fixer, Role::Designer]
}

/// The name of a role.
pub open spec fn name_of(role: Role) -> Seq<char> {
    match role {
        Role::Explorer => "explorer"@,
        Role::Oracle => "oracle"@,
        Role::Librarian => "librarian"@,
        Role::Fixer => "fixer"@,
        Role::Designer => "designer"@,
    }
}

/// What a role is for, in one line.
pub open spec fn description_of(role: Role) -> Seq<char> {
    match role {
        Role::Explorer => "結構洞察，快速掃描專案結構、理解檔案關聯與依賴。"@,
        Role::Oracle => "架構專家，擅長重構、決策分析與技術取捨。"@,
        Role::Librarian => "文件專家，負責撰寫文件、翻譯與註解。"@,
        Role::Fixer => "實作專家，程式碼修正、單元測試補全、語法修正，高效交付可運作的程式。"@,
        Role::Designer => "設計專家，負責 UI/UX 與前端體驗。"@,
    }
}

/// What a role is told about itself.
pub open spec fn card_of(role: Role) -> Seq<char> {
    match role {
        Role::Explorer => "你是 Explorer，結構洞察專家。負責快速掃描專案結構、追蹤依賴關係，揭開陌生程式碼的面貌。"@,
        Role::Oracle => "你是 Oracle，架構專家。擅長重構、決策分析與技術取捨；當架構混亂或 Bug 難解時提供可執行方案。"@,
        Role::Librarian => "你是 Librarian，文件專家。負責撰寫文件、API 註解與翻譯，條理分明。"@,
        Role::Fixer => "你是 Fixer，實作專家。負責程式碼修正、單元測試補全、語法修正，以最高效率交付可運作的程式。"@,
        Role::Designer => "你是 Designer，設計專家。負責 UI/UX 介面結構、互動與視覺一致性。"@,
    }
}

impl Role {
    /// All roles, in a fixed order.
    pub fn all() -> (r: [Role; 5])
        ensures
            r@ == all_roles(),
    {
        let r = [Role::Explorer, Role::Oracle, Role::Librarian, Role::Fixer, Role::Designer];
        assert(r@ =~= all_roles());
        r
    }

    /// The name of the role.
    pub fn name(&self) -> (r: &'static str)
        ensures
            r@ == name_of(*self),
    {
        match self {
            Role::Explorer => "explorer",
            Role::Oracle => "oracle",
            Role::Librarian => "librarian",
            Role::Fixer => "fixer",
            Role::Designer => "designer",
        }
    }

    /// What the role is for, in one line.
    pub fn description(&self) -> (r: &'static str)
        ensures
            r@ == description_of(*self),
    {
        match self {
            Role::Explorer => "結構洞察，快速掃描專案結構、理解檔案關聯與依賴。",
            Role::Oracle => "架構專家，擅長重構、決策分析與技術取捨。",
            Role::Librarian => "文件專家，負責撰寫文件、翻譯與註解。",
            Role::Fixer => "實作專家，程式碼修正、單元測試補全、語法修正，高效交付可運作的程式。",
            Role::Designer => "設計專家，負責 UI/UX 與前端體驗。",
        }
    }

    /// What the role is told about itself.
    pub fn card(&self) -> (r: &'static str)
        ensures
            r@ == card_of(*self),
    {
        match self {
            Role::Explorer => {
                "你是 Explorer，結構洞察專家。負責快速掃描專案結構、追蹤依賴關係，揭開陌生程式碼的面貌。"
            },
            Role::Oracle => {
                "你是 Oracle，架構專家。擅長重構、決策分析與技術取捨；當架構混亂或 Bug 難解時提供可執行方案。"
            },
            Role::Librarian => {
                "你是 Librarian，文件專家。負責撰寫文件、API 註解與翻譯，條理分明。"
            },
            Role::Fixer => {
                "你是 Fixer，實作專家。負責程式碼修正、單元測試補全、語法修正，以最高效率交付可運作的程式。"
            },
            Role::Designer => {
                "你是 Designer，設計專家。負責 UI/UX 介面結構、互動與視覺一致性。"
            },
        }
    }
}

/// Every role is among all roles, at its own place.
pub proof fn every_role_is_listed(role: Role)
    ensures
        all_roles().contains(role),
        all_roles().no_duplicates(),
{
    let r = all_roles();
    match role {
        Role::Explorer => assert(r[0] == role),
        Role::Oracle => assert(r[1] == role),
        Role::Librarian => assert(r[2] == role),
        Role::Fixer => assert(r[3] == role),
        Role::Designer => assert(r[4] == role),
    }
}

/// Different roles have different names.
pub proof fn names_tell_roles_apart(a: Role, b: Role)
    requires
        name_of(a) == name_of(b),
    ensures
        a == b,
{
    reveal_strlit("explorer");
    reveal_strlit("oracle");
    reveal_strlit("librarian");
    reveal_strlit("fixer");
    reveal_strlit("designer");
    assert("explorer"@[0] == 'e');
    assert("oracle"@[0] == 'o');
    assert("librarian"@[0] == 'l');
    assert("fixer"@[0] == 'f');
    assert("designer"@[0] == 'd');
}

} // verus!

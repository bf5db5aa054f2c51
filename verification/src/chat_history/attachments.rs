//! Files that came with a message, and where they are kept.
use crate::paths::{
    absolute, components, components_in_parts, components_of, file_name, file_name_of, is_absolute, naming_is_among, place,
    placed, placed_paths_are_within, split_of_one_piece, within,
};
use crate::text::{
    ascii_alpha, ascii_digit, chars_of, control, is_ascii_alnum, is_control, part, same, signed_decimal,
    signed_decimal_chars, signed_decimal_of, split, str_trim, string_of, texts, trimmed, trimming_adds_nothing,
};
use vstd::prelude::*;

verus! {

/// A file of a message.
#[derive(Debug, Clone, PartialEq, Eq)]
pub struct ChatAttachment {
    pub id: i64,
    pub message_id: i64,
    pub scope: String,
    pub source: String,
    pub original_name: String,
    pub stored_name: String,
    pub relative_path: String,
    pub mime_type: Option<String>,
    pub size_bytes: i64,
    pub sha256: Option<String>,
    pub telegram_file_id: Option<String>,
    pub created_at: i64,
}

/// A file of a message that has no id yet.
#[derive(Debug, Clone, PartialEq, Eq)]
pub struct NewChatAttachment {
    pub message_id: i64,
    pub scope: String,
    pub source: String,
    pub original_name: String,
    pub stored_name: String,
    pub relative_path: String,
    pub mime_type: Option<String>,
    pub size_bytes: i64,
    pub sha256: Option<String>,
    pub telegram_file_id: Option<String>,
    pub created_at: i64,
}

// ---------------------------------------------------------------------------
// Names that are safe in a path
// ---------------------------------------------------------------------------

/// A character of a scope as it stands in a path.
pub open spec fn scope_char(c: char) -> char {
    if ascii_alpha(c) || ascii_digit(c) || c == '-' || c == '_' {
        c
    } else {
        '_'
    }
}

/// Nothing but underscores.
pub open spec fn only_underscores(s: Seq<char>) -> bool {
    forall|i: int| 0 <= i < s.len() ==> s[i] == '_'
}

/// A scope as it stands in a path.
pub open spec fn scope_in_path(scope: Seq<char>) -> Seq<char> {
    let out = scope.map_values(|c: char| scope_char(c));
    if only_underscores(out) {
        "scope"@
    } else {
        out
    }
}

/// A scope as it stands in a path.
pub fn sanitize_scope(scope: &str) -> (r: String)
    ensures
        r@ == scope_in_path(scope@),
{
    let v = chars_of(scope);
    let ghost goal = scope@.map_values(|c: char| scope_char(c));
    let mut out: Vec<char> = Vec::new();
    let mut bare = true;
    let mut i: usize = 0;
    while i < v.len()
        invariant
            i <= v.len(),
            v@ == scope@,
            goal == scope@.map_values(|c: char| scope_char(c)),
            out@ == goal.take(i as int),
            bare == only_underscores(goal.take(i as int)),
        decreases v.len() - i,
    {
        let c = v[i];
        let d = if is_ascii_alnum(c) || c == '-' || c == '_' {
            c
        } else {
            '_'
        };
        assert(d == goal[i as int]);
        out.push(d);
        assert(goal.take(i + 1) =~= goal.take(i as int).push(d));
        proof {
            let longer = goal.take(i + 1);
            assert(longer[i as int] == d);
            assert(bare && d == '_' ==> only_underscores(longer)) by {
                assert forall|k: int| 0 <= k < longer.len() && bare && d == '_' implies longer[k] == '_' by {
                    if k < i {
                        assert(longer[k] == goal.take(i as int)[k]);
                    }
                }
            }
            if only_underscores(longer) {
                assert forall|k: int| 0 <= k < goal.take(i as int).len() implies goal.take(i as int)[k] == '_' by {
                    assert(longer[k] == goal.take(i as int)[k]);
                }
            }
        }
        if d != '_' {
            bare = false;
        }
        i = i + 1;
    }
    assert(goal.take(i as int) =~= goal);
    if bare {
        "scope".to_owned()
    } else {
        string_of(out.as_slice())
    }
}

/// Without leading dots.
pub open spec fn past_dots(s: Seq<char>) -> Seq<char>
    decreases s.len(),
{
    if s.len() > 0 && s[0] == '.' {
        past_dots(s.drop_first())
    } else {
        s
    }
}

/// Without trailing dots.
pub open spec fn before_dots(s: Seq<char>) -> Seq<char>
    decreases s.len(),
{
    if s.len() > 0 && s.last() == '.' {
        before_dots(s.drop_last())
    } else {
        s
    }
}

/// A character of a file's name as it stands in a path.
pub open spec fn name_char(c: char) -> char {
    if c == '/' || c == '\\' || control(c) {
        '_'
    } else {
        c
    }
}

/// The last part of a name, or a stand-in where it has none.
pub open spec fn last_part(name: Seq<char>) -> Seq<char> {
    match file_name_of(name) {
        Some(n) => n,
        None => "attachment"@,
    }
}

/// The name of a file as it stands in a path.
pub open spec fn name_in_path(name: Seq<char>) -> Seq<char> {
    let cleaned = trimmed(last_part(name)).map_values(|c: char| name_char(c));
    let bare = trimmed(before_dots(past_dots(cleaned)));
    if bare.len() == 0 {
        "attachment"@
    } else {
        bare
    }
}

fn without_dots(v: &Vec<char>) -> (r: String)
    ensures
        r@ == before_dots(past_dots(v@)),
{
    let mut from: usize = 0;
    assert(v@.skip(0) =~= v@);
    while from < v.len() && v[from] == '.'
        invariant
            from <= v.len(),
            past_dots(v@) == past_dots(v@.skip(from as int)),
        decreases v.len() - from,
    {
        assert(v@.skip(from as int)[0] == v@[from as int]);
        assert(v@.skip(from as int).drop_first() =~= v@.skip(from + 1));
        from = from + 1;
    }
    let ghost s = v@.skip(from as int);
    assert(past_dots(v@) == s) by {
        if from < v.len() {
            assert(s[0] == v@[from as int]);
        }
    }
    let mut to: usize = v.len();
    assert(v@.subrange(from as int, to as int) =~= s);
    while to > from && v[to - 1] == '.'
        invariant
            from <= to <= v.len(),
            before_dots(s) == before_dots(v@.subrange(from as int, to as int)),
        decreases to,
    {
        let ghost w = v@.subrange(from as int, to as int);
        assert(w.last() == v@[to - 1]);
        assert(w.drop_last() =~= v@.subrange(from as int, to - 1));
        to = to - 1;
    }
    let ghost w = v@.subrange(from as int, to as int);
    assert(before_dots(w) == w) by {
        if to > from {
            assert(w.last() == v@[to - 1]);
        }
    }
    string_of(part(v.as_slice(), from, to))
}

/// The name of a file as it stands in a path: its last part, without what a path gives a meaning to.
pub fn sanitize_filename(name: &str) -> (r: String)
    ensures
        r@ == name_in_path(name@),
{
    let last = match file_name(name) {
        Some(n) => n,
        None => "attachment".to_owned(),
    };
    let whole = str_trim(last.as_str());
    let v = chars_of(whole.as_str());
    let ghost goal = whole@.map_values(|c: char| name_char(c));
    let mut cleaned: Vec<char> = Vec::new();
    let mut i: usize = 0;
    while i < v.len()
        invariant
            i <= v.len(),
            v@ == whole@,
            goal == whole@.map_values(|c: char| name_char(c)),
            cleaned@ == goal.take(i as int),
        decreases v.len() - i,
    {
        let c = v[i];
        let d = if c == '/' || c == '\\' || is_control(c) {
            '_'
        } else {
            c
        };
        assert(d == goal[i as int]);
        cleaned.push(d);
        assert(goal.take(i + 1) =~= goal.take(i as int).push(d));
        i = i + 1;
    }
    assert(goal.take(i as int) =~= goal);
    let plain = without_dots(&cleaned);
    let bare = str_trim(plain.as_str());
    if bare.as_str().is_empty() {
        "attachment".to_owned()
    } else {
        bare
    }
}

// ---------------------------------------------------------------------------
// Places below the upload directory
// ---------------------------------------------------------------------------

/// Where a file is kept below the upload directory.
pub open spec fn path_of(scope: Seq<char>, message_id: int, name: Seq<char>) -> Seq<char> {
    scope_in_path(scope) + "/"@ + signed_decimal(message_id) + "/"@ + name_in_path(name)
}

/// Where a file is kept below the upload directory.
pub fn relative_attachment_path(scope: &str, message_id: i64, filename: &str) -> (r: String)
    ensures
        r@ == path_of(scope@, message_id as int, filename@),
{
    let mut s = sanitize_scope(scope);
    s.append("/");
    let id = signed_decimal_of(message_id);
    s.append(id.as_str());
    s.append("/");
    let name = sanitize_filename(filename);
    s.append(name.as_str());
    s
}

/// The path goes down only: it is not absolute, and no part of it leads up.
pub open spec fn goes_down(relative: Seq<char>) -> bool {
    !absolute(relative) && !components(relative).contains(".."@)
}

/// A path below the upload directory, where it stays below.
pub open spec fn resolved(root: Seq<char>, relative: Seq<char>) -> Option<Seq<char>> {
    if goes_down(relative) {
        Some(placed(root, relative))
    } else {
        None
    }
}

/// A path below the upload directory; nothing where the path is absolute or leads up.
pub fn resolve_under_upload_root(root: &str, relative_path: &str) -> (r: Option<String>)
    ensures
        match r {
            Some(p) => resolved(root@, relative_path@) == Some(p@),
            None => resolved(root@, relative_path@) is None,
        },
{
    if is_absolute(relative_path) {
        return None;
    }
    let parts = components_of(relative_path);
    let ghost c = components(relative_path@);
    let mut i: usize = 0;
    while i < parts.len()
        invariant
            i <= parts.len(),
            c == components(relative_path@),
            c == texts(parts@),
            forall|k: int| 0 <= k < i ==> #[trigger] c[k] != ".."@,
        decreases parts.len() - i,
    {
        assert(c[i as int] == parts@[i as int]@);
        if same(parts[i].as_str(), "..") {
            assert(c.contains(".."@));
            return None;
        }
        i = i + 1;
    }
    assert(!c.contains(".."@));
    Some(place(root, relative_path))
}

// ---------------------------------------------------------------------------
// Laws
// ---------------------------------------------------------------------------

/// A path that is accepted leads to a place within the upload directory.
pub proof fn accepted_paths_stay_within(root: Seq<char>, relative: Seq<char>)
    requires
        resolved(root, relative) is Some,
    ensures
        within(resolved(root, relative)->0, root),
        components(resolved(root, relative)->0) == components(root) + components(relative),
        !components(relative).contains(".."@),
{
    placed_paths_are_within(root, relative);
}

proof fn dots_off_lack(s: Seq<char>, c: char)
    requires
        !s.contains(c),
    ensures
        !past_dots(s).contains(c),
        !before_dots(s).contains(c),
    decreases s.len(),
{
    if s.len() > 0 {
        let f = s.drop_first();
        let l = s.drop_last();
        assert(!f.contains(c)) by {
            if f.contains(c) {
                assert(s[f.index_of(c) + 1] == c);
            }
        }
        assert(!l.contains(c)) by {
            if l.contains(c) {
                assert(s[l.index_of(c)] == c);
            }
        }
        dots_off_lack(f, c);
        dots_off_lack(l, c);
    }
}

proof fn name_in_path_is_one_piece(name: Seq<char>)
    ensures
        !name_in_path(name).contains('/'),
{
    reveal_strlit("attachment");
    assert(!"attachment"@.contains('/'));
    let cleaned = trimmed(last_part(name)).map_values(|c: char| name_char(c));
    assert(!cleaned.contains('/')) by {
        assert forall|k: int| 0 <= k < cleaned.len() implies cleaned[k] != '/' by {
            assert(cleaned[k] == name_char(trimmed(last_part(name))[k]));
        }
    }
    dots_off_lack(cleaned, '/');
    dots_off_lack(past_dots(cleaned), '/');
    trimming_adds_nothing(before_dots(past_dots(cleaned)), '/');
}

proof fn scope_in_path_is_one_piece(scope: Seq<char>)
    ensures
        !scope_in_path(scope).contains('/'),
        !scope_in_path(scope).contains('.'),
        scope_in_path(scope).len() > 0,
{
    reveal_strlit("scope");
    assert(!"scope"@.contains('/'));
    assert(!"scope"@.contains('.'));
    let out = scope.map_values(|c: char| scope_char(c));
    assert forall|k: int| 0 <= k < out.len() implies out[k] != '/' && out[k] != '.' by {
        assert(out[k] == scope_char(scope[k]));
    }
    if out.len() == 0 {
        assert(only_underscores(out));
    }
}

/// A file is found again where it was put, unless its name comes down to two dots.
pub proof fn kept_files_are_found_again(root: Seq<char>, scope: Seq<char>, message_id: int, name: Seq<char>)
    requires
        name_in_path(name) != ".."@,
    ensures
        resolved(root, path_of(scope, message_id, name)) == Some(
            placed(root, path_of(scope, message_id, name)),
        ),
{
    let s = scope_in_path(scope);
    let d = signed_decimal(message_id);
    let n = name_in_path(name);
    let p = path_of(scope, message_id, name);
    reveal_strlit("/");
    reveal_strlit("..");
    scope_in_path_is_one_piece(scope);
    name_in_path_is_one_piece(name);
    signed_decimal_chars(message_id);
    assert(!d.contains('/'));
    components_in_parts(s, d);
    components_in_parts(s + "/"@ + d, n);
    split_of_one_piece(s, '/');
    split_of_one_piece(d, '/');
    split_of_one_piece(n, '/');
    assert(split(p, '/') =~= seq![s, d, n]);
    assert(s != ".."@) by {
        if s == ".."@ {
            assert(s[0] == '.');
        }
    }
    assert(d != ".."@) by {
        if d == ".."@ {
            assert(d[0] == '.');
        }
    }
    if components(p).contains(".."@) {
        naming_is_among(split(p, '/'), ".."@);
        let k = split(p, '/').index_of(".."@);
        assert(split(p, '/')[k] == ".."@);
        assert(k == 0 || k == 1 || k == 2);
    }
    assert(p[0] == s[0]);
    assert(s.contains(s[0]));
}

} // verus!

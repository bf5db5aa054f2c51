//! Paths written with forward slashes.
use crate::text::{
    chars_of, join, joined, opt_text, part, push_text, same, split, split_not_empty, split_on, string_of, texts,
};
use vstd::prelude::*;

verus! {

/// A piece of a path that names something: not empty and not a single dot.
pub open spec fn names_something(piece: Seq<char>) -> bool {
    piece.len() > 0 && piece != "."@
}

/// The pieces that name something, in order.
pub open spec fn naming(pieces: Seq<Seq<char>>) -> Seq<Seq<char>>
    decreases pieces.len(),
{
    if pieces.len() == 0 {
        Seq::empty()
    } else if names_something(pieces.last()) {
        naming(pieces.drop_last()).push(pieces.last())
    } else {
        naming(pieces.drop_last())
    }
}

/// The components of a path.
pub open spec fn components(path: Seq<char>) -> Seq<Seq<char>> {
    naming(split(path, '/'))
}

/// A path that starts at the root.
pub open spec fn absolute(path: Seq<char>) -> bool {
    path.len() > 0 && path[0] == '/'
}

/// The last component of a path, unless it leads upwards.
pub open spec fn file_name_of(path: Seq<char>) -> Option<Seq<char>> {
    let c = components(path);
    if c.len() == 0 || c.last() == ".."@ {
        None
    } else {
        Some(c.last())
    }
}

/// The index of the last dot, or minus one.
pub open spec fn last_dot(s: Seq<char>) -> int
    decreases s.len(),
{
    if s.len() == 0 {
        -1
    } else if s.last() == '.' {
        s.len() - 1
    } else {
        last_dot(s.drop_last())
    }
}

/// What follows the last dot of a path's last component, unless that dot is its first character.
pub open spec fn extension_of(path: Seq<char>) -> Option<Seq<char>> {
    match file_name_of(path) {
        None => None,
        Some(name) => if last_dot(name) <= 0 {
            None
        } else {
            Some(name.skip(last_dot(name) + 1))
        },
    }
}

/// The path leads to the directory or below it.
pub open spec fn within(path: Seq<char>, dir: Seq<char>) -> bool {
    absolute(path) == absolute(dir) && components(dir).is_prefix_of(components(path))
}

/// The path below the directory.
pub open spec fn below(path: Seq<char>, dir: Seq<char>) -> Seq<char> {
    joined(components(path).skip(components(dir).len() as int), "/"@)
}

/// A relative path set below a directory.
pub open spec fn placed(dir: Seq<char>, relative: Seq<char>) -> Seq<char> {
    if absolute(relative) || dir.len() == 0 {
        relative
    } else if dir.last() == '/' {
        dir + relative
    } else {
        dir + "/"@ + relative
    }
}

/// The components of a path.
pub fn components_of(path: &str) -> (r: Vec<String>)
    ensures
        texts(r@) == components(path@),
{
    let v = chars_of(path);
    let pieces = split_on(v.as_slice(), '/');
    let ghost all = texts(pieces@);
    let mut r: Vec<String> = Vec::new();
    let mut i: usize = 0;
    assert(texts(r@) =~= naming(all.take(0)));
    while i < pieces.len()
        invariant
            i <= pieces.len(),
            all == texts(pieces@),
            texts(r@) == naming(all.take(i as int)),
        decreases pieces.len() - i,
    {
        let ghost before = texts(r@);
        assert(all.take(i + 1).drop_last() =~= all.take(i as int));
        if !pieces[i].as_str().is_empty() && !same(pieces[i].as_str(), ".") {
            r.push(pieces[i].clone());
            assert(texts(r@) =~= before.push(all[i as int]));
        }
        i = i + 1;
    }
    assert(all.take(i as int) =~= all);
    r
}

/// Whether a path starts at the root.
pub fn is_absolute(path: &str) -> (r: bool)
    ensures
        r == absolute(path@),
{
    let v = chars_of(path);
    v.len() > 0 && v[0] == '/'
}

/// The last component of a path, unless it leads upwards.
pub fn file_name(path: &str) -> (r: Option<String>)
    ensures
        opt_text(r) == file_name_of(path@),
{
    let mut c = components_of(path);
    let ghost all = texts(c@);
    let n: usize = c.len();
    if n == 0 {
        return None;
    }
    assert(all.last() == c@[n - 1]@);
    if same(c[n - 1].as_str(), "..") {
        return None;
    }
    Some(c[n - 1].clone())
}

/// What follows the last dot of a path's last component, unless that dot is its first character.
pub fn extension(path: &str) -> (r: Option<String>)
    ensures
        opt_text(r) == extension_of(path@),
{
    let name = match file_name(path) {
        Some(n) => n,
        None => return None,
    };
    let v = chars_of(name.as_str());
    let mut n: usize = v.len();
    assert(v@.take(n as int) =~= v@);
    while n > 0 && v[n - 1] != '.'
        invariant
            n <= v.len(),
            last_dot(v@) == last_dot(v@.take(n as int)),
        decreases n,
    {
        assert(v@.take(n as int).drop_last() =~= v@.take(n - 1));
        n = n - 1;
    }
    if n <= 1 {
        return None;
    }
    assert(last_dot(v@) == n - 1);
    assert(v@.subrange(n as int, v@.len() as int) =~= v@.skip(n as int));
    Some(string_of(part(v.as_slice(), n, v.len())))
}

fn starts_with_all(c: &Vec<String>, d: &Vec<String>) -> (r: bool)
    ensures
        r == texts(d@).is_prefix_of(texts(c@)),
{
    if d.len() > c.len() {
        return false;
    }
    let mut i: usize = 0;
    while i < d.len()
        invariant
            i <= d.len() <= c.len(),
            forall|k: int| 0 <= k < i ==> #[trigger] texts(d@)[k] == texts(c@)[k],
        decreases d.len() - i,
    {
        if !same(c[i].as_str(), d[i].as_str()) {
            assert(texts(d@)[i as int] != texts(c@)[i as int]);
            return false;
        }
        i = i + 1;
    }
    assert(texts(c@).subrange(0, texts(d@).len() as int) =~= texts(d@));
    true
}

/// Whether the path leads to the directory or below it.
pub fn is_within(path: &str, dir: &str) -> (r: bool)
    ensures
        r == within(path@, dir@),
{
    let c = components_of(path);
    let d = components_of(dir);
    is_absolute(path) == is_absolute(dir) && starts_with_all(&c, &d)
}

/// The path below the directory; `None` where it does not lead there.
pub fn relative_to(path: &str, dir: &str) -> (r: Option<String>)
    ensures
        opt_text(r) == (if within(path@, dir@) {
            Some(below(path@, dir@))
        } else {
            None
        }),
{
    if !is_within(path, dir) {
        return None;
    }
    let c = components_of(path);
    let d = components_of(dir);
    let ghost all = texts(c@);
    let n: usize = d.len();
    let mut rest: Vec<String> = Vec::new();
    let mut i: usize = n;
    assert(texts(d@).len() == n);
    assert(texts(rest@) =~= all.subrange(n as int, n as int));
    while i < c.len()
        invariant
            n <= i <= c.len(),
            all == texts(c@),
            texts(rest@) == all.subrange(n as int, i as int),
        decreases c.len() - i,
    {
        push_text(&mut rest, c[i].as_str());
        i = i + 1;
        assert(texts(rest@) =~= all.subrange(n as int, i as int));
    }
    assert(all.subrange(n as int, all.len() as int) =~= all.skip(n as int));
    Some(join(&rest, "/"))
}

/// A relative path set below a directory.
pub fn place(dir: &str, relative: &str) -> (r: String)
    ensures
        r@ == placed(dir@, relative@),
{
    if is_absolute(relative) || dir.is_empty() {
        return relative.to_owned();
    }
    let v = chars_of(dir);
    let mut r = String::from_str(dir);
    if v[v.len() - 1] != '/' {
        r.append("/");
    }
    r.append(relative);
    r
}

// ---------------------------------------------------------------------------
// Paths put together
// ---------------------------------------------------------------------------

proof fn split_around(a: Seq<char>, b: Seq<char>, sep: char)
    ensures
        split(a.push(sep) + b, sep) == split(a, sep) + split(b, sep),
    decreases b.len(),
{
    let w = a.push(sep) + b;
    if b.len() == 0 {
        assert(w =~= a.push(sep));
        assert(w.drop_last() =~= a);
        assert(split(w, sep) =~= split(a, sep) + split(b, sep));
    } else {
        let d = b.drop_last();
        split_around(a, d, sep);
        split_not_empty(d, sep);
        assert(w.drop_last() =~= a.push(sep) + d);
        assert(w.last() == b.last());
        assert(split(w, sep) =~= split(a, sep) + split(b, sep));
    }
}

/// A text without the separator is its own only piece.
pub proof fn split_of_one_piece(s: Seq<char>, sep: char)
    requires
        !s.contains(sep),
    ensures
        split(s, sep) == seq![s],
    decreases s.len(),
{
    if s.len() > 0 {
        let d = s.drop_last();
        assert(!d.contains(sep)) by {
            if d.contains(sep) {
                let k = d.index_of(sep);
                assert(s[k] == sep);
            }
        }
        split_of_one_piece(d, sep);
        assert(s.last() != sep);
        assert(d.push(s.last()) =~= s);
        assert(split(s, sep) =~= seq![s]);
    } else {
        assert(s =~= Seq::empty());
    }
}

proof fn naming_in_parts(p: Seq<Seq<char>>, q: Seq<Seq<char>>)
    ensures
        naming(p + q) == naming(p) + naming(q),
    decreases q.len(),
{
    if q.len() == 0 {
        assert(p + q =~= p);
        assert(naming(p) + naming(q) =~= naming(p));
    } else {
        naming_in_parts(p, q.drop_last());
        assert((p + q).drop_last() =~= p + q.drop_last());
        assert(naming(p + q) =~= naming(p) + naming(q));
    }
}

/// What names something is one of the pieces.
pub proof fn naming_is_among(pieces: Seq<Seq<char>>, x: Seq<char>)
    requires
        naming(pieces).contains(x),
    ensures
        pieces.contains(x),
    decreases pieces.len(),
{
    if pieces.len() > 0 {
        let d = pieces.drop_last();
        let k = naming(pieces).index_of(x);
        assert(naming(pieces)[k] == x);
        if names_something(pieces.last()) && k == naming(d).len() {
            assert(pieces[pieces.len() - 1] == x);
        } else {
            assert(naming(d)[k] == x);
            naming_is_among(d, x);
            let m = d.index_of(x);
            assert(pieces[m] == x);
        }
    }
}

/// The components of a path below another are those of both.
pub proof fn components_in_parts(a: Seq<char>, b: Seq<char>)
    ensures
        split(a + "/"@ + b, '/') == split(a, '/') + split(b, '/'),
        components(a + "/"@ + b) == components(a) + components(b),
{
    reveal_strlit("/");
    assert(a + "/"@ + b =~= a.push('/') + b);
    split_around(a, b, '/');
    naming_in_parts(split(a, '/'), split(b, '/'));
}

proof fn nothing_has_no_components()
    ensures
        components(Seq::empty()) == Seq::<Seq<char>>::empty(),
{
    let e: Seq<char> = Seq::empty();
    let pieces = split(e, '/');
    assert(pieces =~= seq![e]);
    assert(!names_something(pieces.last()));
    assert(pieces.drop_last() =~= Seq::empty());
    assert(naming(pieces.drop_last()) =~= Seq::empty());
}

/// A relative path lies within the directory that it is placed in.
pub proof fn placed_paths_are_within(dir: Seq<char>, relative: Seq<char>)
    requires
        !absolute(relative),
    ensures
        within(placed(dir, relative), dir),
        components(placed(dir, relative)) == components(dir) + components(relative),
{
    reveal_strlit("/");
    if dir.len() == 0 {
        assert(dir =~= Seq::empty());
        nothing_has_no_components();
        assert(components(dir) + components(relative) =~= components(relative));
    } else if dir.last() == '/' {
        let d = dir.drop_last();
        assert(dir =~= d + "/"@ + Seq::empty());
        assert(dir + relative =~= d + "/"@ + relative);
        components_in_parts(d, Seq::empty());
        components_in_parts(d, relative);
        nothing_has_no_components();
        assert(components(d) + components(Seq::empty()) =~= components(d));
        assert(placed(dir, relative)[0] == dir[0]);
    } else {
        components_in_parts(dir, relative);
        assert(placed(dir, relative)[0] == dir[0]);
    }
    let c = components(placed(dir, relative));
    assert(components(dir).is_prefix_of(c)) by {
        assert(components(dir) =~= c.take(components(dir).len() as int));
    }
}

} // verus!

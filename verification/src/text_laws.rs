//! What the readers and writers of plain text promise.
use crate::json::{either, member, or_else, JsonView};
use crate::paths::{
    absolute, below, components, components_in_parts, extension_of, file_name_of, last_dot, names_something, naming,
    naming_is_among, placed, placed_paths_are_within, split_of_one_piece, within,
};
use crate::text::{
    all_digits, ascii_digit, ascii_lower, ascii_lowered, control, decimal, digits_value, joined, lines,
    lines_read, parsed_signed, parsed_unsigned, signed_decimal, split, trim_end, trim_start,
    trimmed, utf8_len, utf8_len_concat, utf8_width, white, without_cr, without_plus, words, words_read,
};
use vstd::prelude::*;

verus! {

// ---------------------------------------------------------------------------
// White space
// ---------------------------------------------------------------------------

proof fn trimmed_at_the_end(s: Seq<char>)
    ensures
        trim_end(s).len() <= s.len(),
        trim_end(s) == s.take(trim_end(s).len() as int),
        trim_end(s).len() > 0 ==> !white(trim_end(s).last()),
        forall|i: int| trim_end(s).len() <= i < s.len() ==> white(#[trigger] s[i]),
    decreases s.len(),
{
    if s.len() > 0 && white(s.last()) {
        let d = s.drop_last();
        trimmed_at_the_end(d);
        assert(d.take(trim_end(s).len() as int) =~= s.take(trim_end(s).len() as int));
        assert forall|i: int| trim_end(s).len() <= i < s.len() implies white(#[trigger] s[i]) by {
            if i < d.len() {
                assert(d[i] == s[i]);
            }
        }
    } else {
        assert(s.take(s.len() as int) =~= s);
    }
}

proof fn trimmed_at_the_start(s: Seq<char>)
    ensures
        trim_start(s).len() <= s.len(),
        trim_start(s) == s.skip(s.len() - trim_start(s).len()),
        trim_start(s).len() > 0 ==> !white(trim_start(s)[0]),
        forall|i: int| 0 <= i < s.len() - trim_start(s).len() ==> white(#[trigger] s[i]),
    decreases s.len(),
{
    if s.len() > 0 && white(s[0]) {
        let d = s.drop_first();
        trimmed_at_the_start(d);
        assert(d.skip(d.len() - trim_start(s).len()) =~= s.skip(s.len() - trim_start(s).len()));
        assert forall|i: int| 0 <= i < s.len() - trim_start(s).len() implies white(#[trigger] s[i]) by {
            if i > 0 {
                assert(d[i - 1] == s[i]);
            }
        }
    } else {
        assert(s.skip(0) =~= s);
    }
}

/// Trimming takes white space off both ends, all of it, and nothing else.
pub proof fn trimming_takes_white_space_off(s: Seq<char>)
    ensures
        exists|a: int, b: int|
            0 <= a <= b <= s.len() && trimmed(s) == #[trigger] s.subrange(a, b) && (forall|i: int|
                0 <= i < a ==> white(#[trigger] s[i])) && (forall|i: int| b <= i < s.len() ==> white(#[trigger] s[i])),
        trimmed(s).len() > 0 ==> !white(trimmed(s)[0]) && !white(trimmed(s).last()),
        trimmed(trimmed(s)) == trimmed(s),
{
    let t = trim_start(s);
    let r = trimmed(s);
    trimmed_at_the_start(s);
    trimmed_at_the_end(t);
    let a = s.len() - t.len();
    let b = a + r.len();
    assert(r =~= s.subrange(a, b));
    assert forall|i: int| b <= i < s.len() implies white(#[trigger] s[i]) by {
        assert(t[i - a] == s[i]);
    }
    if r.len() > 0 {
        assert(r[0] == t[0]);
        assert(trim_start(r) == r);
    }
}

/// The blank, the tab and the ends of lines are white space; letters, digits and signs are not.
pub proof fn what_is_white(c: char)
    ensures
        white(' ') && white('\t') && white('\n') && white('\r') && white('\u{3000}'),
        '!' <= c <= '~' ==> !white(c),
        '一' <= c <= '龥' ==> !white(c),
        white(c) <==> 0x9 <= c as u32 <= 0xD || c as u32 == 0x20 || c as u32 == 0x85 || c as u32 == 0xA0 || c as u32 == 0x1680
            || 0x2000 <= c as u32 <= 0x200A || c as u32 == 0x2028 || c as u32 == 0x2029 || c as u32 == 0x202F || c as u32
            == 0x205F || c as u32 == 0x3000,
        control(c) <==> c as u32 <= 0x1F || 0x7F <= c as u32 <= 0x9F,
{
}

/// A character takes one byte up to seven bits, two up to eleven, three up to sixteen and four beyond;
/// a text takes as much as its parts.
pub proof fn characters_take_one_to_four_bytes(c: char, a: Seq<char>, b: Seq<char>)
    ensures
        c as u32 <= 0x7F ==> utf8_width(c) == 1,
        0x80 <= c as u32 <= 0x7FF ==> utf8_width(c) == 2,
        0x800 <= c as u32 <= 0xFFFF ==> utf8_width(c) == 3,
        0x10000 <= c as u32 ==> utf8_width(c) == 4,
        utf8_len(a.push(c)) == utf8_len(a) + utf8_width(c),
        utf8_len(a + b) == utf8_len(a) + utf8_len(b),
        utf8_len(Seq::<char>::empty()) == 0,
{
    assert(a.push(c).drop_last() =~= a);
    utf8_len_concat(a, b);
}

// ---------------------------------------------------------------------------
// Parts
// ---------------------------------------------------------------------------

proof fn joined_with_a_longer_last(parts: Seq<Seq<char>>, sep: Seq<char>, last: Seq<char>, c: char)
    ensures
        joined(parts.push(last.push(c)), sep) == joined(parts.push(last), sep).push(c),
        parts.len() > 0 ==> joined(parts.push(last), sep) == joined(parts, sep) + sep + last,
{
    let (a, b) = (parts.push(last.push(c)), parts.push(last));
    assert(a.drop_last() =~= parts);
    assert(b.drop_last() =~= parts);
    if parts.len() == 0 {
        assert(a[0] == last.push(c));
        assert(b[0] == last);
    } else {
        assert(joined(a, sep) =~= joined(b, sep).push(c));
    }
}

/// A text that is split is the text again once its pieces are put together with the separator.
pub proof fn split_texts_can_be_joined(s: Seq<char>, sep: char)
    ensures
        joined(split(s, sep), seq![sep]) == s,
        split(s, sep).len() > 0,
    decreases s.len(),
{
    let p = split(s, sep);
    if s.len() == 0 {
        assert(p[0] =~= s);
    } else {
        let before = split(s.drop_last(), sep);
        split_texts_can_be_joined(s.drop_last(), sep);
        let (front, last) = (before.drop_last(), before.last());
        assert(front.push(last) =~= before);
        if s.last() == sep {
            joined_with_a_longer_last(before, seq![sep], Seq::empty(), sep);
            assert(joined(p, seq![sep]) =~= s.drop_last() + seq![sep] + Seq::<char>::empty());
            assert(s =~= s.drop_last() + seq![sep] + Seq::<char>::empty());
        } else {
            joined_with_a_longer_last(front, seq![sep], last, s.last());
            assert(s =~= s.drop_last().push(s.last()));
        }
    }
}

proof fn words_after_a_gap(a: Seq<char>, c: char, b: Seq<char>)
    requires
        white(c),
    ensures
        ({
            let (x, y, z) = (words_read(a), words_read(b), words_read(a + seq![c] + b));
            let done = if x.open.len() > 0 {
                x.done.push(x.open)
            } else {
                x.done
            };
            z.open == y.open && z.done == done + y.done
        }),
    decreases b.len(),
{
    let all = a + seq![c] + b;
    let x = words_read(a);
    let done = if x.open.len() > 0 {
        x.done.push(x.open)
    } else {
        x.done
    };
    if b.len() == 0 {
        assert(all.drop_last() =~= a);
        assert(done + words_read(b).done =~= done);
        assert(words_read(all).open =~= words_read(b).open);
    } else {
        let d = b.drop_last();
        words_after_a_gap(a, c, d);
        assert(all.drop_last() =~= a + seq![c] + d);
        assert(all.last() == b.last());
        let y = words_read(d);
        assert((done + y.done).push(y.open) =~= done + y.done.push(y.open));
    }
}

/// White space parts words: the words before it and the words behind it are the words of the text.
pub proof fn white_space_parts_words(a: Seq<char>, c: char, b: Seq<char>)
    requires
        white(c),
    ensures
        words(a + seq![c] + b) == words(a) + words(b),
{
    words_after_a_gap(a, c, b);
    let (x, y) = (words_read(a), words_read(b));
    if y.open.len() > 0 {
        assert((words(a) + y.done).push(y.open) =~= words(a) + words(b));
    }
}

/// A text without white space is one word, and an empty one none.
pub proof fn unbroken_text_is_one_word(s: Seq<char>)
    requires
        forall|i: int| 0 <= i < s.len() ==> !white(#[trigger] s[i]),
    ensures
        s.len() > 0 ==> words(s) == seq![s],
        s.len() == 0 ==> words(s).len() == 0,
{
    unbroken(s);
    if s.len() > 0 {
        assert(words(s) =~= seq![s]);
    }
}

proof fn unbroken(s: Seq<char>)
    requires
        forall|i: int| 0 <= i < s.len() ==> !white(#[trigger] s[i]),
    ensures
        words_read(s).done.len() == 0,
        words_read(s).open == s,
    decreases s.len(),
{
    if s.len() > 0 {
        let d = s.drop_last();
        assert forall|i: int| 0 <= i < d.len() implies !white(#[trigger] d[i]) by {
            assert(d[i] == s[i]);
        }
        unbroken(d);
        assert(!white(s[s.len() - 1]));
        assert(d.push(s.last()) =~= s);
    } else {
        assert(words_read(s).open =~= s);
    }
}

proof fn read_on(a: Seq<char>, b: Seq<char>)
    requires
        lines_read(a).open.len() == 0,
    ensures
        lines_read(a + b).done == lines_read(a).done + lines_read(b).done,
        lines_read(a + b).open == lines_read(b).open,
    decreases b.len(),
{
    if b.len() == 0 {
        assert(a + b =~= a);
        assert(lines_read(a).done + lines_read(b).done =~= lines_read(a).done);
        assert(lines_read(a).open =~= lines_read(b).open);
    } else {
        let d = b.drop_last();
        read_on(a, d);
        assert((a + b).drop_last() =~= a + d);
        assert((a + b).last() == b.last());
        let y = lines_read(d);
        assert((lines_read(a).done + y.done).push(without_cr(y.open)) =~= lines_read(a).done + y.done.push(
            without_cr(y.open),
        ));
    }
}

/// A line feed ends a line: the lines up to it and the lines behind it are the lines of the text.
pub proof fn line_feeds_end_lines(a: Seq<char>, b: Seq<char>)
    ensures
        lines(a + seq!['\n'] + b) == lines(a + seq!['\n']) + lines(b),
{
    let x = a + seq!['\n'];
    assert(x.drop_last() =~= a);
    read_on(x, b);
    let y = lines_read(b);
    if y.open.len() > 0 {
        assert((lines(x) + y.done).push(y.open) =~= lines(x) + lines(b));
    }
}

proof fn one_open_line(s: Seq<char>)
    requires
        forall|i: int| 0 <= i < s.len() ==> #[trigger] s[i] != '\n',
    ensures
        lines_read(s).done.len() == 0,
        lines_read(s).open == s,
    decreases s.len(),
{
    if s.len() > 0 {
        let d = s.drop_last();
        assert forall|i: int| 0 <= i < d.len() implies #[trigger] d[i] != '\n' by {
            assert(d[i] == s[i]);
        }
        one_open_line(d);
        assert(s[s.len() - 1] != '\n');
        assert(d.push(s.last()) =~= s);
    } else {
        assert(lines_read(s).open =~= s);
    }
}

/// A text without line feeds is one line, with or without a line feed behind it; a carriage return before
/// the line feed belongs to the end of the line.
pub proof fn lines_are_what_stands_between(s: Seq<char>)
    requires
        forall|i: int| 0 <= i < s.len() ==> #[trigger] s[i] != '\n',
    ensures
        s.len() > 0 ==> lines(s) == seq![s],
        s.len() == 0 ==> lines(s).len() == 0,
        s.len() == 0 || s.last() != '\r' ==> lines(s + seq!['\n']) == seq![s],
        lines(s + seq!['\r', '\n']) == seq![s],
{
    one_open_line(s);
    if s.len() > 0 {
        assert(lines(s) =~= seq![s]);
    }
    let x = s + seq!['\n'];
    assert(x.drop_last() =~= s);
    if s.len() == 0 || s.last() != '\r' {
        assert(lines(x) =~= seq![s]);
    }
    let r = s.push('\r');
    assert forall|i: int| 0 <= i < r.len() implies #[trigger] r[i] != '\n' by {
        if i < s.len() {
            assert(r[i] == s[i]);
        }
    }
    one_open_line(r);
    let y = s + seq!['\r', '\n'];
    assert(y.drop_last() =~= r);
    assert(without_cr(r) =~= s);
    assert(lines(y) =~= seq![s]);
}

/// Texts that are put together stand one behind the other, with the separator between them.
pub proof fn texts_are_joined_in_order(parts: Seq<Seq<char>>, sep: Seq<char>, next: Seq<char>)
    ensures
        joined(Seq::<Seq<char>>::empty(), sep).len() == 0,
        joined(seq![next], sep) == next,
        parts.len() > 0 ==> joined(parts.push(next), sep) == joined(parts, sep) + sep + next,
{
    assert(parts.push(next).drop_last() =~= parts);
}

// ---------------------------------------------------------------------------
// Numbers
// ---------------------------------------------------------------------------

proof fn digits_of(n: nat)
    ensures
        all_digits(decimal(n)),
        digits_value(decimal(n)) == n,
        decimal(n).len() > 0,
        n > 0 ==> decimal(n)[0] != '0',
    decreases n,
{
    let s = decimal(n);
    if n < 10 {
        assert(s.drop_last() =~= Seq::<char>::empty());
        assert(digits_value(s.drop_last()) == 0);
    } else {
        digits_of(n / 10);
        let d = decimal(n / 10);
        assert(s.drop_last() =~= d);
        assert(s[0] == d[0]);
        assert forall|i: int| 0 <= i < s.len() implies ascii_digit(#[trigger] s[i]) by {
            if i < d.len() {
                assert(s[i] == d[i]);
            }
        }
    }
}

/// A number that is written can be read again, and is written without leading zeros.
pub proof fn numbers_are_read_back(n: nat, max: nat)
    requires
        n <= max,
    ensures
        parsed_unsigned(decimal(n), max) == Some(n),
        n > 0 ==> decimal(n)[0] != '0',
{
    digits_of(n);
    assert(ascii_digit(decimal(n)[0]));
}

/// So can a number with a sign.
pub proof fn signed_numbers_are_read_back(n: i64)
    ensures
        parsed_signed(signed_decimal(n as int)) == Some(n as int),
{
    if n < 0 {
        let m = (-(n as int)) as nat;
        digits_of(m);
        let s = signed_decimal(n as int);
        assert(s.skip(1) =~= decimal(m));
    } else {
        digits_of(n as nat);
        assert(ascii_digit(decimal(n as nat)[0]));
        numbers_are_read_back(n as nat, i64::MAX as nat);
    }
}

/// A text with anything but digits in it, or none at all, is no number; neither is one beyond the limit.
pub proof fn other_texts_are_no_numbers(s: Seq<char>, max: nat, i: int)
    ensures
        parsed_unsigned(Seq::<char>::empty(), max) is None,
        0 < i < s.len() && !ascii_digit(s[i]) ==> parsed_unsigned(s, max) is None,
        parsed_unsigned(s, max) is Some ==> parsed_unsigned(s, max)->0 <= max,
{
    if 0 < i < s.len() && !ascii_digit(s[i]) {
        let d = without_plus(s);
        if s[0] == '+' {
            assert(d[i - 1] == s[i]);
        } else {
            assert(d[i] == s[i]);
        }
    }
}

/// Capital letters become small ones, and everything else stays.
pub proof fn capitals_become_small(c: char, s: Seq<char>)
    ensures
        ascii_lower('A') == 'a' && ascii_lower('M') == 'm' && ascii_lower('Z') == 'z',
        'A' <= c <= 'Z' ==> ascii_lower(c) as u32 == c as u32 + 32,
        !('A' <= c <= 'Z') ==> ascii_lower(c) == c,
        ascii_lowered(ascii_lowered(s)) == ascii_lowered(s),
{
    assert(ascii_lowered(ascii_lowered(s)) =~= ascii_lowered(s));
}

// ---------------------------------------------------------------------------
// Paths
// ---------------------------------------------------------------------------

proof fn last_piece(path: Seq<char>, name: Seq<char>)
    requires
        forall|i: int| 0 <= i < name.len() ==> #[trigger] name[i] != '/',
    ensures
        split(path + seq!['/'] + name, '/') == split(path, '/').push(name),
    decreases name.len(),
{
    let s = path + seq!['/'] + name;
    if name.len() == 0 {
        assert(s.drop_last() =~= path);
        assert(s.last() == '/');
        assert(name =~= Seq::<char>::empty());
        assert(split(s, '/') =~= split(path, '/').push(name));
    } else {
        let d = name.drop_last();
        assert forall|i: int| 0 <= i < d.len() implies #[trigger] d[i] != '/' by {
            assert(d[i] == name[i]);
        }
        last_piece(path, d);
        assert(s.drop_last() =~= path + seq!['/'] + d);
        assert(name[name.len() - 1] != '/');
        assert(s.last() == name.last());
        assert(d.push(name.last()) =~= name);
        let before = split(path, '/').push(d);
        assert(split(s.drop_last(), '/') == before);
        assert(before.last() == d);
        assert(before.drop_last() =~= split(path, '/'));
        assert(split(s, '/') =~= split(path, '/').push(name));
    }
}

/// A file's name is what stands behind the last slash of its path.
pub proof fn files_are_named_by_their_last_part(path: Seq<char>, name: Seq<char>)
    requires
        forall|i: int| 0 <= i < name.len() ==> #[trigger] name[i] != '/',
        name.len() > 0,
        name != "."@,
        name != ".."@,
    ensures
        file_name_of(path + seq!['/'] + name) == Some(name),
        components(path + seq!['/'] + name) == components(path).push(name),
{
    last_piece(path, name);
    assert(split(path, '/').push(name).drop_last() =~= split(path, '/'));
}

proof fn dot_before(a: Seq<char>, ext: Seq<char>)
    requires
        forall|i: int| 0 <= i < ext.len() ==> #[trigger] ext[i] != '.',
    ensures
        last_dot(a + seq!['.'] + ext) == a.len(),
    decreases ext.len(),
{
    let s = a + seq!['.'] + ext;
    if ext.len() > 0 {
        let d = ext.drop_last();
        assert forall|i: int| 0 <= i < d.len() implies #[trigger] d[i] != '.' by {
            assert(d[i] == ext[i]);
        }
        dot_before(a, d);
        assert(s.drop_last() =~= a + seq!['.'] + d);
        assert(ext[ext.len() - 1] != '.');
    }
}

/// The ending of a file's name is what stands behind its last dot.
pub proof fn endings_stand_behind_the_last_dot(path: Seq<char>, a: Seq<char>, ext: Seq<char>)
    requires
        a.len() > 0,
        ext.len() > 0,
        forall|i: int| 0 <= i < a.len() ==> #[trigger] a[i] != '/',
        forall|i: int| 0 <= i < ext.len() ==> #[trigger] ext[i] != '/' && ext[i] != '.',
    ensures
        extension_of(path + seq!['/'] + (a + seq!['.'] + ext)) == Some(ext),
{
    let name = a + seq!['.'] + ext;
    assert forall|i: int| 0 <= i < name.len() implies #[trigger] name[i] != '/' by {
        if i < a.len() {
            assert(name[i] == a[i]);
        } else if i > a.len() {
            assert(name[i] == ext[i - a.len() - 1]);
        }
    }
    reveal_strlit(".");
    reveal_strlit("..");
    assert("."@.len() == 1);
    assert(".."@.len() == 2);
    assert(name.len() >= 3);
    files_are_named_by_their_last_part(path, name);
    dot_before(a, ext);
    assert(name.skip(a.len() as int + 1) =~= ext);
}

proof fn one_piece(x: Seq<char>)
    requires
        !x.contains('/'),
    ensures
        names_something(x) ==> components(x) == seq![x],
        !names_something(x) ==> components(x) == Seq::<Seq<char>>::empty(),
{
    reveal_with_fuel(naming, 2);
    split_of_one_piece(x, '/');
    assert(seq![x].drop_last() =~= Seq::<Seq<char>>::empty());
    assert(Seq::<Seq<char>>::empty().push(x) =~= seq![x]);
}

/// A dot and nothing between slashes name nothing.
pub proof fn dots_name_nothing(a: Seq<char>, b: Seq<char>)
    ensures
        components(a + "/"@ + "."@ + "/"@ + b) == components(a) + components(b),
        components(a + "/"@ + "/"@ + b) == components(a) + components(b),
        components(a + "/"@ + ".."@) == components(a).push(".."@),
        file_name_of(a + "/"@ + ".."@) is None,
        components(a + "/"@ + b) == components(a) + components(b),
{
    let e = Seq::<char>::empty();
    reveal_strlit(".");
    reveal_strlit("..");
    reveal_strlit("/");
    assert("."@.len() == 1 && ".."@.len() == 2);
    assert(!"."@.contains('/'));
    assert(!".."@.contains('/'));
    assert(!e.contains('/'));
    one_piece("."@);
    one_piece(".."@);
    one_piece(e);
    components_in_parts(a, b);
    components_in_parts(a, "."@);
    components_in_parts(a + "/"@ + "."@, b);
    components_in_parts(a, e);
    components_in_parts(a + "/"@ + e, b);
    assert(a + "/"@ + e =~= a + "/"@);
    assert(components(a) + components("."@) + components(b) =~= components(a) + components(b));
    assert(components(a) + components(e) + components(b) =~= components(a) + components(b));
    components_in_parts(a, ".."@);
    assert(components(a) + seq![".."@] =~= components(a).push(".."@));
}

/// A name that only starts with a dot has no ending.
pub proof fn hidden_files_have_no_ending(path: Seq<char>, name: Seq<char>)
    requires
        name.len() > 0,
        forall|i: int| 0 <= i < name.len() ==> #[trigger] name[i] != '/' && name[i] != '.',
    ensures
        extension_of(path + seq!['/'] + (seq!['.'] + name)) is None,
        extension_of(path + seq!['/'] + name) is None,
{
    let hidden = seq!['.'] + name;
    let e = Seq::<char>::empty();
    reveal_strlit(".");
    reveal_strlit("..");
    assert("."@.len() == 1 && ".."@.len() == 2);
    assert("."@[0] == '.' && ".."@[0] == '.' && ".."@[1] == '.');
    assert forall|i: int| 0 <= i < hidden.len() implies #[trigger] hidden[i] != '/' by {
        if i > 0 {
            assert(hidden[i] == name[i - 1]);
        }
    }
    assert(hidden[1] == name[0]);
    assert(name[0] != '.');
    files_are_named_by_their_last_part(path, hidden);
    files_are_named_by_their_last_part(path, name);
    dot_before(e, name);
    assert(e + seq!['.'] + name =~= hidden);
    no_dot(name);
}

proof fn no_dot(s: Seq<char>)
    requires
        forall|i: int| 0 <= i < s.len() ==> #[trigger] s[i] != '.',
    ensures
        last_dot(s) == -1,
    decreases s.len(),
{
    if s.len() > 0 {
        let d = s.drop_last();
        assert forall|i: int| 0 <= i < d.len() implies #[trigger] d[i] != '.' by {
            assert(d[i] == s[i]);
        }
        no_dot(d);
        assert(s[s.len() - 1] != '.');
    }
}

proof fn pieces_hold_no_separator(s: Seq<char>, sep: char)
    ensures
        split(s, sep).len() > 0,
        forall|k: int| 0 <= k < split(s, sep).len() ==> !(#[trigger] split(s, sep)[k]).contains(sep),
    decreases s.len(),
{
    let p = split(s, sep);
    if s.len() > 0 {
        let b = split(s.drop_last(), sep);
        pieces_hold_no_separator(s.drop_last(), sep);
        assert forall|k: int| 0 <= k < p.len() implies !(#[trigger] p[k]).contains(sep) by {
            if k < p.len() - 1 {
                assert(p[k] == b[k]);
            } else if s.last() != sep {
                let x = b.last();
                assert(b[b.len() - 1] == x);
                assert(p[k] == x.push(s.last()));
                if p[k].contains(sep) {
                    let m = p[k].index_of(sep);
                    if m < x.len() {
                        assert(x[m] == sep);
                    }
                }
            } else {
                assert(p[k] == Seq::<char>::empty());
            }
        }
    }
}

proof fn naming_names(pieces: Seq<Seq<char>>)
    ensures
        forall|k: int| 0 <= k < naming(pieces).len() ==> names_something(#[trigger] naming(pieces)[k]),
    decreases pieces.len(),
{
    if pieces.len() > 0 {
        let b = naming(pieces.drop_last());
        naming_names(pieces.drop_last());
        assert forall|k: int| 0 <= k < naming(pieces).len() implies names_something(#[trigger] naming(pieces)[k]) by {
            if k < b.len() {
                assert(naming(pieces)[k] == b[k]);
            }
        }
    }
}

/// Names that are joined by slashes are the components of what comes out.
pub proof fn joined_names_are_components(names: Seq<Seq<char>>)
    requires
        forall|k: int| 0 <= k < names.len() ==> names_something(#[trigger] names[k]) && !names[k].contains('/'),
    ensures
        components(joined(names, "/"@)) == names,
    decreases names.len(),
{
    if names.len() == 0 {
        let e = Seq::<char>::empty();
        one_piece(e);
        assert(joined(names, "/"@) =~= e);
        assert(components(e) =~= names);
    } else {
        let d = names.drop_last();
        assert forall|k: int| 0 <= k < d.len() implies names_something(#[trigger] d[k]) && !d[k].contains('/') by {
            assert(d[k] == names[k]);
        }
        joined_names_are_components(d);
        let last = names.last();
        assert(names[names.len() - 1] == last);
        one_piece(last);
        if d.len() > 0 {
            components_in_parts(joined(d, "/"@), last);
            assert(joined(names, "/"@) == joined(d, "/"@) + "/"@ + last);
        } else {
            assert(joined(names, "/"@) =~= last);
        }
        assert(d + seq![last] =~= names);
    }
}

/// What lies below a directory leads from there to the same place.
pub proof fn what_lies_below_leads_back(path: Seq<char>, dir: Seq<char>)
    requires
        within(path, dir),
    ensures
        components(dir) + components(below(path, dir)) == components(path),
        !absolute(below(path, dir)),
        components(placed(dir, below(path, dir))) == components(path),
{
    let c = components(path);
    let n = components(dir).len() as int;
    let rest = c.skip(n);
    pieces_hold_no_separator(path, '/');
    naming_names(split(path, '/'));
    assert forall|k: int| 0 <= k < rest.len() implies names_something(#[trigger] rest[k]) && !rest[k].contains('/') by {
        assert(rest[k] == c[n + k]);
        assert(names_something(c[n + k]));
        assert(c.contains(c[n + k]));
        naming_is_among(split(path, '/'), c[n + k]);
        let m = split(path, '/').index_of(c[n + k]);
        assert(!split(path, '/')[m].contains('/'));
    }
    joined_names_are_components(rest);
    assert(components(dir) + rest =~= c);
    if rest.len() > 0 {
        starts_with_the_first(rest);
    }
    placed_paths_are_within(dir, below(path, dir));
}

proof fn starts_with_the_first(names: Seq<Seq<char>>)
    requires
        names.len() > 0,
        names[0].len() > 0,
        !names[0].contains('/'),
    ensures
        joined(names, "/"@).len() > 0,
        joined(names, "/"@)[0] != '/',
    decreases names.len(),
{
    if names.len() > 1 {
        assert(names.drop_last()[0] == names[0]);
        starts_with_the_first(names.drop_last());
    } else {
        assert(joined(names, "/"@) =~= names[0]);
        if names[0][0] == '/' {
            assert(names[0].contains('/'));
        }
    }
}

/// A path is absolute where it starts with a slash.
pub proof fn absolute_paths_start_with_a_slash(path: Seq<char>)
    ensures
        absolute(seq!['/'] + path),
        path.len() > 0 && path[0] != '/' ==> !absolute(path),
        !absolute(Seq::empty()),
{
}

// ---------------------------------------------------------------------------
// Values
// ---------------------------------------------------------------------------

/// A member of an object is found by its name, the first where there are several; other values have no
/// members.
pub proof fn members_are_found_by_name(o: Seq<(Seq<char>, JsonView)>, key: Seq<char>, v: JsonView, n: Option<u64>, s: Seq<char>)
    ensures
        JsonView::Object(seq![(key, v)] + o).get(key) == Some(v),
        (forall|k: int| 0 <= k < o.len() ==> (#[trigger] o[k]).0 != key) ==> JsonView::Object(o).get(key) is None,
        JsonView::Null.get(key) is None && JsonView::Str(s).get(key) is None && JsonView::Number(n).get(key) is None,
        JsonView::Object(seq![(key, JsonView::Str(s))] + o).str_at(key) == Some(s),
        !(v is Str) ==> JsonView::Object(seq![(key, v)] + o).str_at(key) is None,
{
    let p = seq![(key, v)] + o;
    assert(p[0] == (key, v));
    let q = seq![(key, JsonView::Str(s))] + o;
    assert(q[0] == (key, JsonView::Str(s)));
    if forall|k: int| 0 <= k < o.len() ==> (#[trigger] o[k]).0 != key {
        not_there(o, key);
    }
}

proof fn not_there(o: Seq<(Seq<char>, JsonView)>, key: Seq<char>)
    requires
        forall|k: int| 0 <= k < o.len() ==> (#[trigger] o[k]).0 != key,
    ensures
        member(o, key) is None,
    decreases o.len(),
{
    if o.len() > 0 {
        assert(o[0].0 != key);
        let d = o.drop_first();
        assert forall|k: int| 0 <= k < d.len() implies (#[trigger] d[k]).0 != key by {
            assert(d[k] == o[k + 1]);
        }
        not_there(d, key);
    }
}

/// The first of two values counts where there is one.
pub proof fn first_values_count<T>(a: T, b: Option<T>, c: T)
    ensures
        either(Some(a), b) == Some(a),
        either(None, b) == b,
        or_else(Some(a), c) == a,
        or_else(None, c) == c,
{
}

} // verus!

//! Character-level text primitives and the mathematical functions that describe them.
use vstd::prelude::*;

verus! {

/// `String::push` appends the character to the end of the string.
pub assume_specification[ String::push ](s: &mut String, c: char)
    ensures
        final(s)@ == old(s)@.push(c),
;

// ---------------------------------------------------------------------------
// Conversions between strings and character vectors
// ---------------------------------------------------------------------------

/// The characters of a string, in order.
pub fn chars_of(s: &str) -> (v: Vec<char>)
    ensures
        v@ == s@,
{
    let mut v: Vec<char> = Vec::new();
    for c in it: s.chars()
        invariant
            v@ == it.seq().take(it.index() as int),
            it.seq() == s@,
    {
        v.push(c);
    }
    v
}

/// The string that holds exactly the given characters.
pub fn string_of(v: &[char]) -> (s: String)
    ensures
        s@ == v@,
{
    let mut s = String::new();
    let mut i: usize = 0;
    while i < v.len()
        invariant
            i <= v.len(),
            s@ == v@.take(i as int),
        decreases v.len() - i,
    {
        s.push(v[i]);
        i = i + 1;
        assert(v@.take(i as int) =~= v@.take(i - 1).push(v@[i - 1]));
    }
    assert(v@.take(i as int) =~= v@);
    s
}

/// A sub-slice of a character slice.
pub fn part(v: &[char], from: usize, to: usize) -> (r: &[char])
    requires
        from <= to <= v@.len(),
    ensures
        r@ == v@.subrange(from as int, to as int),
{
    vstd::slice::slice_subrange(v, from, to)
}

/// Whether two strings hold the same characters.
///
/// Calls `str::eq`, which compares the bytes of both strings.
#[verifier::external_body]
pub(crate) fn same(a: &str, b: &str) -> (r: bool)
    ensures
        r == (a@ == b@),
{
    a == b
}

/// The texts held by a sequence of strings.
pub open spec fn texts(v: Seq<String>) -> Seq<Seq<char>> {
    v.map_values(|s: String| s@)
}

/// The text held by an optional string.
pub open spec fn opt_text(o: Option<String>) -> Option<Seq<char>> {
    match o {
        Some(s) => Some(s@),
        None => None,
    }
}

/// The text of an optional reference.
pub open spec fn opt_str_view(o: Option<&str>) -> Option<Seq<char>> {
    match o {
        Some(s) => Some(s@),
        None => None,
    }
}

/// A copy of an optional text.
pub fn owned(o: Option<&str>) -> (r: Option<String>)
    ensures
        opt_text(r) == opt_str_view(o),
{
    match o {
        Some(s) => Some(s.to_owned()),
        None => None,
    }
}

/// A reference to an optional text.
pub fn borrowed(o: &Option<String>) -> (r: Option<&str>)
    ensures
        opt_str_view(r) == opt_text(*o),
{
    match o {
        Some(s) => Some(s.as_str()),
        None => None,
    }
}

/// Appends a copy of a text.
pub fn push_text(v: &mut Vec<String>, s: &str)
    ensures
        texts(final(v)@) == texts(old(v)@).push(s@),
{
    v.push(s.to_owned());
    assert(texts(v@) =~= texts(old(v)@).push(s@));
}

/// A copy of an optional string.
pub fn clone_opt(o: &Option<String>) -> (r: Option<String>)
    ensures
        opt_text(r) == opt_text(*o),
{
    match o {
        Some(s) => Some(s.clone()),
        None => None,
    }
}

/// A copy of a vector of strings.
pub fn clone_texts(v: &Vec<String>) -> (r: Vec<String>)
    ensures
        texts(r@) == texts(v@),
{
    let mut r: Vec<String> = Vec::new();
    let mut i: usize = 0;
    while i < v.len()
        invariant
            i <= v.len(),
            texts(r@) == texts(v@).take(i as int),
        decreases v.len() - i,
    {
        r.push(v[i].clone());
        proof {
            assert(texts(r@) =~= texts(r@.drop_last()).push(v@[i as int]@));
            assert(texts(v@).take(i + 1) =~= texts(v@).take(i as int).push(v@[i as int]@));
            assert(r@.drop_last() =~= r@.take(i as int));
        }
        i = i + 1;
    }
    assert(texts(v@).take(i as int) =~= texts(v@));
    r
}

// ---------------------------------------------------------------------------
// Character classes
// ---------------------------------------------------------------------------

/// The Unicode `White_Space` characters.
pub open spec fn white(c: char) -> bool {
    let n = c as u32;
    ||| 0x9 <= n <= 0xD
    ||| n == 0x20
    ||| n == 0x85
    ||| n == 0xA0
    ||| n == 0x1680
    ||| 0x2000 <= n <= 0x200A
    ||| n == 0x2028
    ||| n == 0x2029
    ||| n == 0x202F
    ||| n == 0x205F
    ||| n == 0x3000
}

/// Whether the character is white space.
pub fn is_white(c: char) -> (r: bool)
    ensures
        r == white(c),
{
    let n: u32 = c as u32;
    (0x9 <= n && n <= 0xD) || n == 0x20 || n == 0x85 || n == 0xA0 || n == 0x1680
        || (0x2000 <= n && n <= 0x200A) || n == 0x2028 || n == 0x2029 || n == 0x202F || n == 0x205F
        || n == 0x3000
}

/// The Unicode control characters (general category `Cc`).
pub open spec fn control(c: char) -> bool {
    let n = c as u32;
    n <= 0x1F || 0x7F <= n <= 0x9F
}

/// Whether the character is a control character.
pub fn is_control(c: char) -> (r: bool)
    ensures
        r == control(c),
{
    let n: u32 = c as u32;
    n <= 0x1F || (0x7F <= n && n <= 0x9F)
}

/// The ASCII letters.
pub open spec fn ascii_alpha(c: char) -> bool {
    ('a' <= c && c <= 'z') || ('A' <= c && c <= 'Z')
}

/// The ASCII digits.
pub open spec fn ascii_digit(c: char) -> bool {
    '0' <= c && c <= '9'
}

/// Whether the character is an ASCII digit.
pub fn is_ascii_digit(c: char) -> (r: bool)
    ensures
        r == ascii_digit(c),
{
    '0' <= c && c <= '9'
}

/// Whether the character is an ASCII letter or digit.
pub fn is_ascii_alnum(c: char) -> (r: bool)
    ensures
        r == (ascii_alpha(c) || ascii_digit(c)),
{
    ('a' <= c && c <= 'z') || ('A' <= c && c <= 'Z') || ('0' <= c && c <= '9')
}

/// The lower-case form of an ASCII letter; any other character itself.
pub open spec fn ascii_lower(c: char) -> char {
    if 'A' <= c && c <= 'Z' {
        ((c as u32 + 32) as u32) as char
    } else {
        c
    }
}

/// The text with each ASCII letter in lower case.
pub open spec fn ascii_lowered(s: Seq<char>) -> Seq<char> {
    s.map_values(|c: char| ascii_lower(c))
}

/// A letter of ASCII in its small form.
pub fn lower_char(c: char) -> (r: char)
    ensures
        r == ascii_lower(c),
{
    if 'A' <= c && c <= 'Z' {
        ((c as u8) + 32) as char
    } else {
        c
    }
}

/// The text with each ASCII letter in lower case.
pub fn to_ascii_lower(s: &[char]) -> (r: Vec<char>)
    ensures
        r@ == ascii_lowered(s@),
{
    let mut r: Vec<char> = Vec::new();
    let mut i: usize = 0;
    while i < s.len()
        invariant
            i <= s.len(),
            r@ == ascii_lowered(s@).take(i as int),
        decreases s.len() - i,
    {
        r.push(lower_char(s[i]));
        i = i + 1;
        assert(ascii_lowered(s@).take(i as int) =~= ascii_lowered(s@).take(i - 1).push(
            ascii_lower(s@[i - 1]),
        ));
    }
    assert(ascii_lowered(s@).take(i as int) =~= ascii_lowered(s@));
    r
}

/// The lower-case form by the rules of Unicode of a text that is not all ASCII.
pub uninterp spec fn unicode_lowercase(s: Seq<char>) -> Seq<char>;

/// The lower-case form of a text by the rules of Unicode. ASCII text has its ASCII letters in
/// lower case.
pub open spec fn lowercase_of(s: Seq<char>) -> Seq<char> {
    if vstd::utf8::is_ascii_chars(s) {
        ascii_lowered(s)
    } else {
        unicode_lowercase(s)
    }
}

/// Calls `str::to_lowercase`, whose result depends on the text alone. A text of ASCII characters
/// only has its ASCII letters in lower case.
#[verifier::external_body]
pub(crate) fn lowercase(s: &str) -> (r: String)
    ensures
        r@ == (if vstd::utf8::is_ascii_chars(s@) {
            ascii_lowered(s@)
        } else {
            unicode_lowercase(s@)
        }),
{
    s.to_lowercase()
}

/// The text in lower case, ASCII letters only.
pub fn str_ascii_lower(s: &str) -> (r: String)
    ensures
        r@ == ascii_lowered(s@),
{
    let v = chars_of(s);
    string_of(to_ascii_lower(v.as_slice()).as_slice())
}

// ---------------------------------------------------------------------------
// Searching
// ---------------------------------------------------------------------------

/// The needle stands at index `i` of the text.
pub open spec fn occurs_at(s: Seq<char>, needle: Seq<char>, i: int) -> bool {
    &&& 0 <= i
    &&& i + needle.len() <= s.len()
    &&& s.subrange(i, i + needle.len()) == needle
}

/// The needle stands somewhere in the text.
pub open spec fn has(s: Seq<char>, needle: Seq<char>) -> bool {
    exists|i: int| occurs_at(s, needle, i)
}

/// The text begins with the prefix.
pub open spec fn begins(s: Seq<char>, prefix: Seq<char>) -> bool {
    occurs_at(s, prefix, 0)
}

/// The text ends with the suffix.
pub open spec fn ends(s: Seq<char>, suffix: Seq<char>) -> bool {
    occurs_at(s, suffix, s.len() - suffix.len())
}

/// Whether the needle stands at index `i` of the text.
pub fn stands_at(s: &[char], needle: &[char], i: usize) -> (r: bool)
    ensures
        r == occurs_at(s@, needle@, i as int),
{
    if i > s.len() || needle.len() > s.len() - i {
        return false;
    }
    let mut k: usize = 0;
    while k < needle.len()
        invariant
            k <= needle.len(),
            i + needle.len() <= s.len(),
            forall|j: int| 0 <= j < k ==> s@[i + j] == #[trigger] needle@[j],
        decreases needle.len() - k,
    {
        if s[i + k] != needle[k] {
            assert(s@.subrange(i as int, i + needle@.len())[k as int] == s@[i + k]);
            return false;
        }
        k = k + 1;
    }
    assert(s@.subrange(i as int, i + needle@.len()) =~= needle@);
    true
}

/// Whether the text begins with the prefix.
pub fn begins_with(s: &[char], prefix: &[char]) -> (r: bool)
    ensures
        r == begins(s@, prefix@),
{
    stands_at(s, prefix, 0)
}

/// The first index at or after `from` where the needle stands, or `None`.
pub open spec fn first_at(s: Seq<char>, needle: Seq<char>, from: int, r: Option<int>) -> bool {
    match r {
        Some(i) => {
            &&& from <= i
            &&& occurs_at(s, needle, i)
            &&& forall|j: int| from <= j < i ==> !occurs_at(s, needle, j)
        },
        None => forall|j: int| from <= j ==> !occurs_at(s, needle, j),
    }
}

/// The first index at or after `from` where the needle stands.
pub fn find_from(s: &[char], needle: &[char], from: usize) -> (r: Option<usize>)
    ensures
        first_at(
            s@,
            needle@,
            from as int,
            match r {
                Some(i) => Some(i as int),
                None => None,
            },
        ),
{
    if needle.len() > s.len() {
        return None;
    }
    let last: usize = s.len() - needle.len();
    let mut i: usize = from;
    while i <= last
        invariant
            from <= i,
            last + needle.len() == s.len(),
            forall|j: int| from <= j < i ==> !occurs_at(s@, needle@, j),
        decreases last + 1 - i,
    {
        if stands_at(s, needle, i) {
            return Some(i);
        }
        if i == last {
            return None;
        }
        i = i + 1;
    }
    None
}

/// The first index at or after `from` where the needle stands.
pub open spec fn first_index(s: Seq<char>, needle: Seq<char>, from: int) -> Option<int>
    decreases s.len() + 1 - from,
{
    if from < 0 || from + needle.len() > s.len() {
        None
    } else if occurs_at(s, needle, from) {
        Some(from)
    } else {
        first_index(s, needle, from + 1)
    }
}

/// The first index is a place where the needle stands, and it stands nowhere before.
pub proof fn first_index_is_first(s: Seq<char>, needle: Seq<char>, from: int)
    requires
        0 <= from,
    ensures
        first_at(s, needle, from, first_index(s, needle, from)),
    decreases s.len() + 1 - from,
{
    if from + needle.len() <= s.len() && !occurs_at(s, needle, from) {
        first_index_is_first(s, needle, from + 1);
        match first_index(s, needle, from) {
            Some(i) => {
                assert forall|j: int| from <= j < i implies !occurs_at(s, needle, j) by {
                    if j > from {
                        assert(from + 1 <= j);
                    }
                }
            },
            None => {
                assert forall|j: int| from <= j implies !occurs_at(s, needle, j) by {
                    if j > from {
                        assert(from + 1 <= j);
                    }
                }
            },
        }
    }
}

/// The first index at or after `from` where the needle stands.
pub fn find(s: &[char], needle: &[char], from: usize) -> (r: Option<usize>)
    ensures
        match r {
            Some(i) => first_index(s@, needle@, from as int) == Some(i as int) && from <= i && i
                + needle@.len() <= s@.len(),
            None => first_index(s@, needle@, from as int) is None,
        },
{
    let r = find_from(s, needle, from);
    proof {
        first_index_is_first(s@, needle@, from as int);
        match first_index(s@, needle@, from as int) {
            Some(i) => {
                assert(occurs_at(s@, needle@, i));
                match r {
                    Some(k) => {
                        assert(occurs_at(s@, needle@, k as int));
                    },
                    None => {},
                }
            },
            None => {
                match r {
                    Some(k) => {
                        assert(occurs_at(s@, needle@, k as int));
                    },
                    None => {},
                }
            },
        }
    }
    r
}

/// Whether the needle stands somewhere in the text.
pub fn contains(s: &[char], needle: &[char]) -> (r: bool)
    ensures
        r == has(s@, needle@),
{
    match find_from(s, needle, 0) {
        Some(i) => {
            assert(occurs_at(s@, needle@, i as int));
            true
        },
        None => {
            assert forall|j: int| !occurs_at(s@, needle@, j) by {
                if 0 <= j {
                }
            }
            false
        },
    }
}

/// Whether the needle stands somewhere in the string.
pub fn str_has(s: &str, needle: &str) -> (r: bool)
    ensures
        r == has(s@, needle@),
{
    let v = chars_of(s);
    let n = chars_of(needle);
    contains(v.as_slice(), n.as_slice())
}

/// Whether the string begins with the prefix.
pub fn str_begins(s: &str, prefix: &str) -> (r: bool)
    ensures
        r == begins(s@, prefix@),
{
    let v = chars_of(s);
    let n = chars_of(prefix);
    begins_with(v.as_slice(), n.as_slice())
}

/// The text behind the prefix, where the text begins with it.
pub open spec fn stripped(s: Seq<char>, prefix: Seq<char>) -> Option<Seq<char>> {
    if begins(s, prefix) {
        Some(s.skip(prefix.len() as int))
    } else {
        None
    }
}

/// The text behind the prefix, where the string begins with it.
pub fn str_strip(s: &str, prefix: &str) -> (r: Option<String>)
    ensures
        opt_text(r) == stripped(s@, prefix@),
{
    let v = chars_of(s);
    let n = chars_of(prefix);
    if begins_with(v.as_slice(), n.as_slice()) {
        let r = string_of(part(v.as_slice(), n.len(), v.len()));
        assert(r@ =~= s@.skip(prefix@.len() as int));
        Some(r)
    } else {
        None
    }
}

// ---------------------------------------------------------------------------
// Trimming
// ---------------------------------------------------------------------------

/// The text without its leading white space.
pub open spec fn trim_start(s: Seq<char>) -> Seq<char>
    decreases s.len(),
{
    if s.len() > 0 && white(s[0]) {
        trim_start(s.drop_first())
    } else {
        s
    }
}

/// The text without its trailing white space.
pub open spec fn trim_end(s: Seq<char>) -> Seq<char>
    decreases s.len(),
{
    if s.len() > 0 && white(s.last()) {
        trim_end(s.drop_last())
    } else {
        s
    }
}

/// The text without leading and trailing white space.
pub open spec fn trimmed(s: Seq<char>) -> Seq<char> {
    trim_end(trim_start(s))
}

/// The text holds nothing but white space.
pub open spec fn blank(s: Seq<char>) -> bool {
    trimmed(s).len() == 0
}

/// Trimming adds no character.
pub proof fn trimming_adds_nothing(s: Seq<char>, c: char)
    requires
        !s.contains(c),
    ensures
        !trim_start(s).contains(c),
        !trim_end(s).contains(c),
        !trimmed(s).contains(c),
    decreases s.len(),
{
    trim_start_adds_nothing(s, c);
    trim_end_adds_nothing(s, c);
    trim_end_adds_nothing(trim_start(s), c);
}

proof fn trim_start_adds_nothing(s: Seq<char>, c: char)
    requires
        !s.contains(c),
    ensures
        !trim_start(s).contains(c),
    decreases s.len(),
{
    if s.len() > 0 && white(s[0]) {
        let f = s.drop_first();
        if f.contains(c) {
            assert(s[f.index_of(c) + 1] == c);
        }
        trim_start_adds_nothing(f, c);
    }
}

proof fn trim_end_adds_nothing(s: Seq<char>, c: char)
    requires
        !s.contains(c),
    ensures
        !trim_end(s).contains(c),
    decreases s.len(),
{
    if s.len() > 0 && white(s.last()) {
        let l = s.drop_last();
        if l.contains(c) {
            assert(s[l.index_of(c)] == c);
        }
        trim_end_adds_nothing(l, c);
    }
}

/// A text that neither starts nor ends with white space is not blank.
pub proof fn solid_text_is_not_blank(s: Seq<char>)
    requires
        s.len() > 0,
        !white(s[0]),
        !white(s.last()),
    ensures
        !blank(s),
{
}

/// The text without its leading white space.
pub fn skip_white(s: &[char]) -> (r: &[char])
    ensures
        r@ == trim_start(s@),
{
    let mut i: usize = 0;
    assert(s@.skip(0) =~= s@);
    while i < s.len() && is_white(s[i])
        invariant
            i <= s.len(),
            trim_start(s@) == trim_start(s@.skip(i as int)),
        decreases s.len() - i,
    {
        assert(s@.skip(i as int).drop_first() =~= s@.skip(i + 1));
        i = i + 1;
    }
    assert(s@.subrange(i as int, s@.len() as int) =~= s@.skip(i as int));
    part(s, i, s.len())
}

/// The text without its trailing white space.
pub fn drop_white(s: &[char]) -> (r: &[char])
    ensures
        r@ == trim_end(s@),
{
    let mut n: usize = s.len();
    assert(s@.take(n as int) =~= s@);
    while n > 0 && is_white(s[n - 1])
        invariant
            n <= s.len(),
            trim_end(s@) == trim_end(s@.take(n as int)),
        decreases n,
    {
        assert(s@.take(n as int).drop_last() =~= s@.take(n - 1));
        n = n - 1;
    }
    assert(s@.subrange(0, n as int) =~= s@.take(n as int));
    part(s, 0, n)
}

/// The text without leading and trailing white space.
pub fn trim(s: &[char]) -> (r: &[char])
    ensures
        r@ == trimmed(s@),
{
    drop_white(skip_white(s))
}

/// The string without leading and trailing white space.
pub fn str_trim(s: &str) -> (r: String)
    ensures
        r@ == trimmed(s@),
{
    let v = chars_of(s);
    string_of(trim(v.as_slice()))
}

/// Whether the string holds nothing but white space.
pub fn is_blank(s: &str) -> (r: bool)
    ensures
        r == blank(s@),
{
    let v = chars_of(s);
    trim(v.as_slice()).len() == 0
}

// ---------------------------------------------------------------------------
// Splitting and joining
// ---------------------------------------------------------------------------

/// The pieces between the separators: one more piece than there are separators.
pub open spec fn split(s: Seq<char>, sep: char) -> Seq<Seq<char>>
    decreases s.len(),
{
    if s.len() == 0 {
        seq![Seq::<char>::empty()]
    } else {
        let before = split(s.drop_last(), sep);
        if s.last() == sep {
            before.push(Seq::empty())
        } else {
            before.drop_last().push(before.last().push(s.last()))
        }
    }
}

/// There is always at least one piece.
pub proof fn split_not_empty(s: Seq<char>, sep: char)
    ensures
        split(s, sep).len() >= 1,
    decreases s.len(),
{
    if s.len() > 0 {
        split_not_empty(s.drop_last(), sep);
    }
}

/// No piece holds the separator.
pub proof fn split_pieces_lack_separator(s: Seq<char>, sep: char)
    ensures
        forall|i: int| 0 <= i < split(s, sep).len() ==> !(#[trigger] split(s, sep)[i]).contains(sep),
    decreases s.len(),
{
    split_not_empty(s, sep);
    if s.len() > 0 {
        split_pieces_lack_separator(s.drop_last(), sep);
        split_not_empty(s.drop_last(), sep);
        let before = split(s.drop_last(), sep);
        assert(!before.last().contains(sep));
        assert forall|i: int| 0 <= i < split(s, sep).len() implies !(#[trigger] split(
            s,
            sep,
        )[i]).contains(sep) by {
            if s.last() != sep && i == split(s, sep).len() - 1 {
                let piece = before.last().push(s.last());
                assert forall|k: int| 0 <= k < piece.len() implies piece[k] != sep by {
                    if k < before.last().len() {
                        assert(before.last().contains(before.last()[k]));
                    }
                }
            } else if s.last() != sep {
                assert(split(s, sep)[i] == before[i]);
            } else if i < before.len() {
                assert(split(s, sep)[i] == before[i]);
            }
        }
    }
}

/// The pieces between the separators.
pub fn split_on(s: &[char], sep: char) -> (r: Vec<String>)
    ensures
        texts(r@) == split(s@, sep),
{
    let mut r: Vec<String> = Vec::new();
    let mut piece = String::new();
    let mut i: usize = 0;
    proof {
        assert(texts(r@).push(piece@) =~= split(s@.take(0), sep));
    }
    while i < s.len()
        invariant
            i <= s.len(),
            texts(r@).push(piece@) == split(s@.take(i as int), sep),
        decreases s.len() - i,
    {
        let ghost before = texts(r@).push(piece@);
        let c = s[i];
        proof {
            assert(s@.take(i + 1).drop_last() =~= s@.take(i as int));
            assert(before.drop_last() =~= texts(r@));
        }
        if c == sep {
            let ghost done = r@;
            let ghost last = piece@;
            r.push(piece);
            piece = String::new();
            assert(texts(r@) =~= texts(done).push(last));
        } else {
            piece.push(c);
        }
        i = i + 1;
        assert(texts(r@).push(piece@) =~= split(s@.take(i as int), sep));
    }
    assert(s@.take(i as int) =~= s@);
    let ghost done = r@;
    let ghost last = piece@;
    r.push(piece);
    assert(texts(r@) =~= texts(done).push(last));
    r
}

/// The words of the text read so far, and the word still being read.
pub struct Words {
    pub done: Seq<Seq<char>>,
    pub open: Seq<char>,
}

/// Reads one more character.
pub open spec fn words_step(w: Words, c: char) -> Words {
    if !white(c) {
        Words { done: w.done, open: w.open.push(c) }
    } else if w.open.len() > 0 {
        Words { done: w.done.push(w.open), open: Seq::empty() }
    } else {
        w
    }
}

/// What has been read after all characters of the text.
pub open spec fn words_read(s: Seq<char>) -> Words
    decreases s.len(),
{
    if s.len() == 0 {
        Words { done: Seq::empty(), open: Seq::empty() }
    } else {
        words_step(words_read(s.drop_last()), s.last())
    }
}

/// The maximal runs of characters that are not white space.
pub open spec fn words(s: Seq<char>) -> Seq<Seq<char>> {
    let w = words_read(s);
    if w.open.len() > 0 {
        w.done.push(w.open)
    } else {
        w.done
    }
}

/// The maximal runs of characters that are not white space.
pub fn split_words(s: &[char]) -> (r: Vec<String>)
    ensures
        texts(r@) == words(s@),
{
    let mut r: Vec<String> = Vec::new();
    let mut word = String::new();
    let mut empty = true;
    let mut i: usize = 0;
    proof {
        assert(texts(r@) =~= words_read(s@.take(0)).done);
        assert(word@ =~= words_read(s@.take(0)).open);
    }
    while i < s.len()
        invariant
            i <= s.len(),
            texts(r@) == words_read(s@.take(i as int)).done,
            word@ == words_read(s@.take(i as int)).open,
            empty == (word@.len() == 0),
        decreases s.len() - i,
    {
        let c = s[i];
        assert(s@.take(i + 1).drop_last() =~= s@.take(i as int));
        if !is_white(c) {
            word.push(c);
            empty = false;
        } else if !empty {
            let ghost done = r@;
            let ghost last = word@;
            r.push(word);
            word = String::new();
            empty = true;
            assert(texts(r@) =~= texts(done).push(last));
        }
        i = i + 1;
    }
    assert(s@.take(i as int) =~= s@);
    if !empty {
        let ghost done = r@;
        let ghost last = word@;
        r.push(word);
        assert(texts(r@) =~= texts(done).push(last));
    }
    r
}

/// The lines of the text read so far, and the line still being read.
pub struct Lines {
    pub done: Seq<Seq<char>>,
    pub open: Seq<char>,
}

/// The line without one carriage return at its end.
pub open spec fn without_cr(s: Seq<char>) -> Seq<char> {
    if s.len() > 0 && s.last() == '\r' {
        s.drop_last()
    } else {
        s
    }
}

/// Reads one more character.
pub open spec fn lines_step(w: Lines, c: char) -> Lines {
    if c == '\n' {
        Lines { done: w.done.push(without_cr(w.open)), open: Seq::empty() }
    } else {
        Lines { done: w.done, open: w.open.push(c) }
    }
}

/// What has been read after all characters of the text.
pub open spec fn lines_read(s: Seq<char>) -> Lines
    decreases s.len(),
{
    if s.len() == 0 {
        Lines { done: Seq::empty(), open: Seq::empty() }
    } else {
        lines_step(lines_read(s.drop_last()), s.last())
    }
}

/// The lines of the text. A line ends with a line feed, or a carriage return and a line feed;
/// the last line needs no end.
pub open spec fn lines(s: Seq<char>) -> Seq<Seq<char>> {
    let w = lines_read(s);
    if w.open.len() > 0 {
        w.done.push(w.open)
    } else {
        w.done
    }
}

fn cut_cr(line: Vec<char>) -> (r: String)
    ensures
        r@ == without_cr(line@),
{
    let n: usize = line.len();
    if n > 0 && line[n - 1] == '\r' {
        let r = string_of(part(line.as_slice(), 0, n - 1));
        assert(r@ =~= line@.drop_last());
        r
    } else {
        string_of(line.as_slice())
    }
}

/// The lines of the text.
pub fn split_lines(s: &[char]) -> (r: Vec<String>)
    ensures
        texts(r@) == lines(s@),
{
    let mut r: Vec<String> = Vec::new();
    let mut line: Vec<char> = Vec::new();
    let mut i: usize = 0;
    proof {
        assert(texts(r@) =~= lines_read(s@.take(0)).done);
        assert(line@ =~= lines_read(s@.take(0)).open);
    }
    while i < s.len()
        invariant
            i <= s.len(),
            texts(r@) == lines_read(s@.take(i as int)).done,
            line@ == lines_read(s@.take(i as int)).open,
        decreases s.len() - i,
    {
        let c = s[i];
        assert(s@.take(i + 1).drop_last() =~= s@.take(i as int));
        if c == '\n' {
            let ghost done = r@;
            let ghost last = line@;
            r.push(cut_cr(line));
            line = Vec::new();
            assert(texts(r@) =~= texts(done).push(without_cr(last)));
        } else {
            line.push(c);
        }
        i = i + 1;
    }
    assert(s@.take(i as int) =~= s@);
    if line.len() > 0 {
        let ghost done = r@;
        r.push(string_of(line.as_slice()));
        assert(texts(r@) =~= texts(done).push(line@));
    }
    r
}

/// The texts one after another, with the separator between neighbours.
pub open spec fn joined(parts: Seq<Seq<char>>, sep: Seq<char>) -> Seq<char>
    decreases parts.len(),
{
    if parts.len() == 0 {
        Seq::empty()
    } else if parts.len() == 1 {
        parts[0]
    } else {
        joined(parts.drop_last(), sep) + sep + parts.last()
    }
}

/// The strings one after another, with the separator between neighbours.
pub fn join(parts: &Vec<String>, sep: &str) -> (r: String)
    ensures
        r@ == joined(texts(parts@), sep@),
{
    let mut r = String::new();
    let mut i: usize = 0;
    while i < parts.len()
        invariant
            i <= parts.len(),
            r@ == joined(texts(parts@).take(i as int), sep@),
        decreases parts.len() - i,
    {
        let ghost t = texts(parts@);
        assert(t.take(i + 1).drop_last() =~= t.take(i as int));
        if i > 0 {
            r.append(sep);
        }
        r.append(parts[i].as_str());
        i = i + 1;
        assert(r@ =~= joined(t.take(i as int), sep@));
    }
    assert(texts(parts@).take(i as int) =~= texts(parts@));
    r
}

// ---------------------------------------------------------------------------
// Numbers
// ---------------------------------------------------------------------------

/// The character of a digit in base sixteen or below.
pub open spec fn digit(d: int) -> char {
    if d < 10 {
        ((48 + d) as u32) as char
    } else {
        ((87 + d) as u32) as char
    }
}

/// The decimal digits of a natural number, without leading zeros.
pub open spec fn decimal(n: nat) -> Seq<char>
    decreases n,
{
    if n < 10 {
        seq![digit(n as int)]
    } else {
        decimal(n / 10).push(digit((n % 10) as int))
    }
}

/// The decimal form of an integer, with a minus sign where it is negative.
pub open spec fn signed_decimal(n: int) -> Seq<char> {
    if n < 0 {
        seq!['-'] + decimal((-n) as nat)
    } else {
        decimal(n as nat)
    }
}

/// The decimal form of a natural number holds nothing but digits.
pub proof fn decimal_chars(n: nat)
    ensures
        decimal(n).len() > 0,
        all_digits(decimal(n)),
    decreases n,
{
    if n >= 10 {
        decimal_chars(n / 10);
        let d = (n % 10) as int;
        assert(0 <= d < 10);
        assert(digit(d) as u32 == 48 + d);
        let r = decimal(n);
        assert forall|i: int| 0 <= i < r.len() implies ascii_digit(#[trigger] r[i]) by {
            if i < r.len() - 1 {
                assert(ascii_digit(decimal(n / 10)[i]));
            }
        }
    } else {
        assert(digit(n as int) as u32 == 48 + n);
    }
}

/// The decimal form of an integer holds nothing but digits and a minus sign.
pub proof fn signed_decimal_chars(n: int)
    ensures
        signed_decimal(n).len() > 0,
        forall|i: int| 0 <= i < signed_decimal(n).len() ==> ascii_digit(#[trigger] signed_decimal(n)[i]) || signed_decimal(n)[i] == '-',
{
    decimal_chars(if n < 0 {
        (-n) as nat
    } else {
        n as nat
    });
    let r = signed_decimal(n);
    assert forall|i: int| 0 <= i < r.len() implies ascii_digit(#[trigger] r[i]) || r[i] == '-' by {
        if n < 0 && i > 0 {
            assert(r[i] == decimal((-n) as nat)[i - 1]);
        }
    }
}

fn digit_char(d: u64) -> (c: char)
    requires
        d < 16,
    ensures
        c == digit(d as int),
{
    if d < 10 {
        (48 + d as u8) as char
    } else {
        (87 + d as u8) as char
    }
}

/// The decimal digits of a number.
pub fn decimal_of(n: u64) -> (r: String)
    ensures
        r@ == decimal(n as nat),
    decreases n,
{
    if n < 10 {
        let mut r = String::new();
        r.push(digit_char(n));
        assert(r@ =~= decimal(n as nat));
        r
    } else {
        let mut r = decimal_of(n / 10);
        r.push(digit_char(n % 10));
        r
    }
}

/// The decimal form of a signed number.
pub fn signed_decimal_of(n: i64) -> (r: String)
    ensures
        r@ == signed_decimal(n as int),
{
    if n < 0 {
        let m: u64 = (-(n as i128)) as u64;
        let mut r = String::new();
        r.push('-');
        let d = decimal_of(m);
        r.append(d.as_str());
        assert(r@ =~= signed_decimal(n as int));
        r
    } else {
        decimal_of(n as u64)
    }
}

/// The number that a run of decimal digits denotes.
pub open spec fn digits_value(s: Seq<char>) -> nat
    decreases s.len(),
{
    if s.len() == 0 {
        0
    } else {
        10 * digits_value(s.drop_last()) + (s.last() as u32 - 48) as nat
    }
}

/// Every character is a decimal digit.
pub open spec fn all_digits(s: Seq<char>) -> bool {
    forall|i: int| 0 <= i < s.len() ==> ascii_digit(#[trigger] s[i])
}

/// The text without one leading plus sign.
pub open spec fn without_plus(s: Seq<char>) -> Seq<char> {
    if s.len() > 0 && s[0] == '+' {
        s.skip(1)
    } else {
        s
    }
}

/// What an unsigned number parser with the given largest value makes of the text: an optional
/// plus sign and at least one digit, of a value that is not too large.
pub open spec fn parsed_unsigned(s: Seq<char>, max: nat) -> Option<nat> {
    let d = without_plus(s);
    if d.len() > 0 && all_digits(d) && digits_value(d) <= max {
        Some(digits_value(d))
    } else {
        None
    }
}

proof fn digits_value_grows(s: Seq<char>, n: int)
    requires
        0 <= n <= s.len(),
        all_digits(s),
    ensures
        digits_value(s.take(n)) <= digits_value(s),
    decreases s.len() - n,
{
    if n < s.len() {
        digits_value_grows(s, n + 1);
        assert(s.take(n + 1).drop_last() =~= s.take(n));
        assert(ascii_digit(s[n]));
    } else {
        assert(s.take(n) =~= s);
    }
}

/// Parses an unsigned number as `u64::from_str` does, with `max` as the largest value.
pub fn parse_unsigned(s: &[char], max: u64) -> (r: Option<u64>)
    ensures
        match r {
            Some(n) => parsed_unsigned(s@, max as nat) == Some(n as nat),
            None => parsed_unsigned(s@, max as nat) is None,
        },
{
    let start: usize = if s.len() > 0 && s[0] == '+' {
        1
    } else {
        0
    };
    let ghost d = without_plus(s@);
    assert(d =~= s@.skip(start as int));
    if s.len() == start {
        return None;
    }
    let mut i: usize = start;
    while i < s.len()
        invariant
            start <= i <= s.len(),
            d == s@.skip(start as int),
            d == without_plus(s@),
            d.len() > 0,
            forall|k: int| 0 <= k < i - start ==> ascii_digit(#[trigger] d[k]),
        decreases s.len() - i,
    {
        if !is_ascii_digit(s[i]) {
            assert(d[i - start] == s@[i as int]);
            return None;
        }
        assert(d[i - start] == s@[i as int]);
        i = i + 1;
    }
    assert(all_digits(d));
    let mut value: u64 = 0;
    i = start;
    while i < s.len()
        invariant
            start <= i <= s.len(),
            d == s@.skip(start as int),
            d == without_plus(s@),
            d.len() > 0,
            all_digits(d),
            value == digits_value(d.take(i - start)),
            value <= max,
        decreases s.len() - i,
    {
        assert(ascii_digit(d[i - start]));
        let x: u64 = (s[i] as u64) - 48;
        proof {
            assert(d.take(i + 1 - start).drop_last() =~= d.take(i - start));
            assert(d.take(i + 1 - start).last() == s@[i as int]);
            digits_value_grows(d, i + 1 - start);
        }
        if value > (max / 10) {
            assert(10 * value > max) by (nonlinear_arith)
                requires
                    value > max / 10,
            ;
            return None;
        }
        let ten: u64 = value * 10;
        if x > max - ten {
            return None;
        }
        value = ten + x;
        i = i + 1;
    }
    assert(d.take(i - start) =~= d);
    Some(value)
}

/// The integer of sixty-four bits that a text writes, with or without a sign.
pub open spec fn parsed_signed(s: Seq<char>) -> Option<int> {
    if s.len() > 0 && s[0] == '-' {
        let d = s.skip(1);
        if d.len() > 0 && all_digits(d) && digits_value(d) <= 0x8000_0000_0000_0000 {
            Some(-(digits_value(d) as int))
        } else {
            None
        }
    } else {
        match parsed_unsigned(s, i64::MAX as nat) {
            Some(n) => Some(n as int),
            None => None,
        }
    }
}

/// The integer that a text writes.
pub fn parse_signed(s: &str) -> (r: Option<i64>)
    ensures
        match r {
            Some(n) => parsed_signed(s@) == Some(n as int),
            None => parsed_signed(s@) is None,
        },
{
    let v = chars_of(s);
    let n: usize = v.len();
    if n > 0 && v[0] == '-' {
        let d = part(v.as_slice(), 1, n);
        assert(d@ =~= s@.skip(1));
        if n > 1 && d[0] == '+' {
            assert(!ascii_digit(d@[0]));
            return None;
        }
        match parse_unsigned(d, 0x8000_0000_0000_0000) {
            Some(x) => {
                if x == 0x8000_0000_0000_0000 {
                    Some(i64::MIN)
                } else {
                    Some(-(x as i64))
                }
            },
            None => None,
        }
    } else {
        match parse_unsigned(v.as_slice(), 0x7FFF_FFFF_FFFF_FFFF) {
            Some(x) => Some(x as i64),
            None => None,
        }
    }
}

// ---------------------------------------------------------------------------
// UTF-8 lengths
// ---------------------------------------------------------------------------

/// The number of bytes of a character in UTF-8.
pub open spec fn utf8_width(c: char) -> nat {
    let n = c as u32;
    if n < 0x80 {
        1
    } else if n < 0x800 {
        2
    } else if n < 0x10000 {
        3
    } else {
        4
    }
}

/// The number of bytes of a text in UTF-8.
pub open spec fn utf8_len(s: Seq<char>) -> nat
    decreases s.len(),
{
    if s.len() == 0 {
        0
    } else {
        utf8_len(s.drop_last()) + utf8_width(s.last())
    }
}

/// The number of bytes of a character in UTF-8.
pub fn char_width(c: char) -> (r: usize)
    ensures
        r == utf8_width(c),
{
    let n: u32 = c as u32;
    if n < 0x80 {
        1
    } else if n < 0x800 {
        2
    } else if n < 0x10000 {
        3
    } else {
        4
    }
}

/// The bytes of two texts one after another are the bytes of both.
pub proof fn utf8_len_concat(a: Seq<char>, b: Seq<char>)
    ensures
        utf8_len(a + b) == utf8_len(a) + utf8_len(b),
    decreases b.len(),
{
    if b.len() == 0 {
        assert(a + b =~= a);
    } else {
        assert((a + b).drop_last() =~= a + b.drop_last());
        utf8_len_concat(a, b.drop_last());
    }
}

/// A text has at least one and at most four bytes for each character.
pub proof fn utf8_len_bounds(s: Seq<char>)
    ensures
        s.len() <= utf8_len(s) <= 4 * s.len(),
    decreases s.len(),
{
    if s.len() > 0 {
        utf8_len_bounds(s.drop_last());
    }
}

/// The number of bytes of a text in UTF-8.
pub fn utf8_size(s: &[char]) -> (r: u128)
    ensures
        r == utf8_len(s@),
{
    let mut n: u128 = 0;
    let mut i: usize = 0;
    while i < s.len()
        invariant
            i <= s.len(),
            n == utf8_len(s@.take(i as int)),
            n <= 4 * i,
        decreases s.len() - i,
    {
        assert(s@.take(i + 1).drop_last() =~= s@.take(i as int));
        n = n + char_width(s[i]) as u128;
        i = i + 1;
    }
    assert(s@.take(i as int) =~= s@);
    n
}

/// The texts held by a sequence of character vectors.
pub open spec fn rows(v: Seq<Vec<char>>) -> Seq<Seq<char>> {
    v.map_values(|r: Vec<char>| r@)
}

/// Appends the characters of a slice.
pub fn extend(v: &mut Vec<char>, s: &[char])
    ensures
        final(v)@ == old(v)@ + s@,
{
    let ghost before = v@;
    let mut i: usize = 0;
    while i < s.len()
        invariant
            i <= s.len(),
            v@ == before + s@.take(i as int),
        decreases s.len() - i,
    {
        v.push(s[i]);
        i = i + 1;
        assert(v@ =~= before + s@.take(i as int));
    }
    assert(s@.take(i as int) =~= s@);
}

/// A copy of a character slice.
pub fn copied(s: &[char]) -> (v: Vec<char>)
    ensures
        v@ == s@,
{
    let mut v: Vec<char> = Vec::new();
    extend(&mut v, s);
    assert(v@ =~= s@);
    v
}

// ---------------------------------------------------------------------------
// What stands in a text
// ---------------------------------------------------------------------------

/// A part stands in the text that it is a part of.
pub proof fn parts_are_found(before: Seq<char>, part: Seq<char>, behind: Seq<char>)
    ensures
        has(before + part + behind, part),
{
    let s = before + part + behind;
    assert(s.subrange(before.len() as int, before.len() as int + part.len()) =~= part);
    assert(occurs_at(s, part, before.len() as int));
}

/// What stands in a part of a text stands in the text.
pub proof fn inner_parts_are_found(s: Seq<char>, part: Seq<char>, inner: Seq<char>)
    requires
        has(s, part),
        has(part, inner),
    ensures
        has(s, inner),
{
    let i = choose|i: int| occurs_at(s, part, i);
    let j = choose|j: int| occurs_at(part, inner, j);
    assert(s.subrange(i + j, i + j + inner.len()) =~= inner) by {
        assert forall|k: int| 0 <= k < inner.len() implies s[i + j + k] == inner[k] by {
            assert(s.subrange(i, i + part.len())[j + k] == part[j + k]);
            assert(part.subrange(j, j + inner.len())[k] == inner[k]);
        }
    }
    assert(occurs_at(s, inner, i + j));
}

/// What stands in a text still stands there when more is written around it.
pub proof fn longer_texts_hold_as_much(before: Seq<char>, s: Seq<char>, behind: Seq<char>, inner: Seq<char>)
    requires
        has(s, inner),
    ensures
        has(before + s + behind, inner),
{
    parts_are_found(before, s, behind);
    inner_parts_are_found(before + s + behind, s, inner);
}

} // verus!

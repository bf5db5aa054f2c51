//! The markdown mirror of the memory: file names and entries.
use crate::memory::model::{kind_word, MemoryKind};
use crate::text::{chars_of, decimal, decimal_of};
use vstd::prelude::*;

verus! {

/// A character of a file name: separators become underscores.
pub open spec fn file_char(c: char) -> char {
    if c == ':' || c == '/' || c == '\\' {
        '_'
    } else {
        c
    }
}

/// The file of a scope.
pub open spec fn scope_file(scope: Seq<char>) -> Seq<char> {
    scope.map_values(|c: char| file_char(c)) + ".md"@
}

/// The file of a scope.
pub fn scope_to_filename(scope: &str) -> (r: String)
    ensures
        r@ == scope_file(scope@),
{
    let v = chars_of(scope);
    let ghost all = scope@.map_values(|c: char| file_char(c));
    let mut out = String::new();
    let mut i: usize = 0;
    assert(out@ =~= all.take(0));
    while i < v.len()
        invariant
            i <= v.len(),
            v@ == scope@,
            all == scope@.map_values(|c: char| file_char(c)),
            out@ == all.take(i as int),
        decreases v.len() - i,
    {
        let c = v[i];
        out.push(
            if c == ':' || c == '/' || c == '\\' {
                '_'
            } else {
                c
            },
        );
        i = i + 1;
        assert(out@ =~= all.take(i as int));
    }
    assert(all.take(i as int) =~= all);
    out.append(".md");
    out
}

/// The file of a scope stands in the mirror's own directory, whatever the scope.
pub proof fn scope_files_stay_in_place(scope: Seq<char>)
    ensures
        !scope_file(scope).contains('/'),
        !scope_file(scope).contains('\\'),
{
    reveal_strlit(".md");
    let f = scope_file(scope);
    assert forall|i: int| 0 <= i < f.len() implies f[i] != '/' && f[i] != '\\' by {
        if i < scope.len() {
            assert(f[i] == file_char(scope[i]));
        }
    }
}

// ---------------------------------------------------------------------------
// Dates
// ---------------------------------------------------------------------------

/// A year with a leap day.
pub open spec fn leap(y: int) -> bool {
    y % 4 == 0 && (y % 100 != 0 || y % 400 == 0)
}

/// The days of a month.
pub open spec fn month_days(y: int, m: int) -> int {
    if m == 2 {
        if leap(y) {
            29
        } else {
            28
        }
    } else if m == 4 || m == 6 || m == 9 || m == 11 {
        30
    } else {
        31
    }
}

/// A date of the calendar.
pub open spec fn valid_date(y: int, m: int, d: int) -> bool {
    1 <= m <= 12 && 1 <= d <= month_days(y, m)
}

/// The days of a year before a month.
pub open spec fn days_before_month(y: int, m: int) -> int
    decreases m,
{
    if m <= 1 {
        0
    } else {
        days_before_month(y, m - 1) + month_days(y, m - 1)
    }
}

/// The days from the start of year zero to the start of a year.
pub open spec fn days_before_year(y: int) -> int {
    365 * y + (y + 3) / 4 - (y + 99) / 100 + (y + 399) / 400
}

/// The number of a date: the days since the first of January 1970.
pub open spec fn day_number(y: int, m: int, d: int) -> int {
    days_before_year(y) - 719528 + days_before_month(y, m) + (d - 1)
}

proof fn month_table(y: int)
    ensures
        days_before_month(y, 1) == 0,
        days_before_month(y, 2) == 31,
        days_before_month(y, 3) == 59 + (if leap(y) { 1int } else { 0 }),
        days_before_month(y, 4) == 90 + (if leap(y) { 1int } else { 0 }),
        days_before_month(y, 5) == 120 + (if leap(y) { 1int } else { 0 }),
        days_before_month(y, 6) == 151 + (if leap(y) { 1int } else { 0 }),
        days_before_month(y, 7) == 181 + (if leap(y) { 1int } else { 0 }),
        days_before_month(y, 8) == 212 + (if leap(y) { 1int } else { 0 }),
        days_before_month(y, 9) == 243 + (if leap(y) { 1int } else { 0 }),
        days_before_month(y, 10) == 273 + (if leap(y) { 1int } else { 0 }),
        days_before_month(y, 11) == 304 + (if leap(y) { 1int } else { 0 }),
        days_before_month(y, 12) == 334 + (if leap(y) { 1int } else { 0 }),
{
    reveal_with_fuel(days_before_month, 13);
}

#[verifier::spinoff_prover]
proof fn quotients_of_4(y: int)
    ensures
        (y + 4) / 4 - (y + 3) / 4 == (if y % 4 == 0 { 1int } else { 0 }),
{
    let q = y / 4;
    let r = y % 4;
    assert(y == 4 * q + r && 0 <= r < 4);
    assert((y + 4) / 4 == q + 1);
    if r == 0 {
        assert((y + 3) / 4 == q);
    } else {
        assert((y + 3) / 4 == q + 1);
    }
}

#[verifier::spinoff_prover]
proof fn quotients_of_100(y: int)
    ensures
        (y + 100) / 100 - (y + 99) / 100 == (if y % 100 == 0 { 1int } else { 0 }),
{
    let q = y / 100;
    let r = y % 100;
    assert(y == 100 * q + r && 0 <= r < 100);
    assert((y + 100) / 100 == q + 1);
    if r == 0 {
        assert((y + 99) / 100 == q);
    } else {
        assert((y + 99) / 100 == q + 1);
    }
}

#[verifier::spinoff_prover]
proof fn quotients_of_400(y: int)
    ensures
        (y + 400) / 400 - (y + 399) / 400 == (if y % 400 == 0 { 1int } else { 0 }),
{
    let q = y / 400;
    let r = y % 400;
    assert(y == 400 * q + r && 0 <= r < 400);
    assert((y + 400) / 400 == q + 1);
    if r == 0 {
        assert((y + 399) / 400 == q);
    } else {
        assert((y + 399) / 400 == q + 1);
    }
}

#[verifier::spinoff_prover]
proof fn remainders_of_centuries(y: int)
    ensures
        y % 100 == 0 ==> y % 4 == 0,
        y % 400 == 0 ==> y % 100 == 0,
{
    if y % 100 == 0 {
        assert(y == 4 * (25 * (y / 100)));
    }
    if y % 400 == 0 {
        assert(y == 100 * (4 * (y / 400)));
    }
}

/// A year has as many days as its months together, so day numbers follow the calendar.
pub proof fn years_are_as_long_as_their_months(y: int)
    ensures
        days_before_year(y + 1) - days_before_year(y) == days_before_month(y, 13),
        days_before_month(y, 13) == (if leap(y) {
            366
        } else {
            365int
        }),
        day_number(1970, 1, 1) == 0,
{
    month_table(y);
    month_table(1970);
    quotients_of_4(y);
    quotients_of_100(y);
    quotients_of_400(y);
    remainders_of_centuries(y);
    assert(days_before_month(y, 13) == days_before_month(y, 12) + month_days(y, 12));
}

/// The year of an era that a day of the era falls into, with eras of 400 years that start on the
/// first of March.
#[verifier::spinoff_prover]
#[verifier::rlimit(50)]
proof fn year_of_era(doe: int, yoe: int)
    requires
        0 <= doe < 146097,
        yoe == (doe - doe / 1460 + doe / 36524 - doe / 146096) / 365,
    ensures
        0 <= yoe < 400,
        0 <= doe - (365 * yoe + yoe / 4 - yoe / 100) < 366,
        doe - (365 * yoe + yoe / 4 - yoe / 100) == 365 ==> (yoe + 1) % 4 == 0 && ((yoe + 1) % 100 != 0 || (yoe
            + 1) % 400 == 0),
{
    let century = if doe / 36524 < 3 { doe / 36524 } else { 3 };
    let doc = doe - century * 36524;
    assert(0 <= doc < 36525);
    let quad = doc / 1461;
    let doq = doc - quad * 1461;
    assert(0 <= quad <= 24);
    assert(0 <= doq < 1461);
    let yoq = if doq / 365 < 3 { doq / 365 } else { 3 };
    assert(yoe == century * 100 + quad * 4 + yoq);
}

/// The months counted from March, by the day of a year that starts in March.
proof fn march_month(doy: int, mp: int)
    requires
        0 <= doy < 366,
        mp == (5 * doy + 2) / 153,
    ensures
        0 <= mp <= 11,
        (153 * mp + 2) / 5 <= doy,
        mp < 11 ==> doy < (153 * (mp + 1) + 2) / 5,
{
}

proof fn year_quotients(era: int, yoe: int)
    requires
        0 <= yoe < 400,
    ensures
        (yoe + era * 400) / 4 == yoe / 4 + era * 100,
        (yoe + era * 400) / 100 == yoe / 100 + era * 4,
        (yoe + era * 400) / 400 == era,
{
}

proof fn year_remainders(era: int, yoe: int)
    ensures
        (yoe + era * 400 + 1) % 4 == (yoe + 1) % 4,
        (yoe + era * 400 + 1) % 100 == (yoe + 1) % 100,
        (yoe + era * 400 + 1) % 400 == (yoe + 1) % 400,
{
}

proof fn next_quotients(y: int)
    ensures
        (y + 4) / 4 == y / 4 + 1,
        (y + 100) / 100 == y / 100 + 1,
        (y + 400) / 400 == y / 400 + 1,
{
}

#[verifier::spinoff_prover]
#[verifier::rlimit(50)]
proof fn year_start(era: int, yoe: int)
    requires
        0 <= yoe < 400,
    ensures
        days_before_year(yoe + era * 400 + 1) == era * 146097 + 365 * yoe + yoe / 4 - yoe / 100 + 366,
        days_before_year(yoe + era * 400 + 1) == days_before_year(yoe + era * 400) + 365 + (if leap(
            yoe + era * 400,
        ) {
            1int
        } else {
            0
        }),
        leap(yoe + era * 400 + 1) == leap(yoe + 1),
{
    let y = yoe + era * 400;
    year_quotients(era, yoe);
    year_remainders(era, yoe);
    next_quotients(y);
    years_are_as_long_as_their_months(y);
}

#[verifier::spinoff_prover]
#[verifier::rlimit(50)]
proof fn civil_date(z: int, era: int, doe: int, yoe: int, doy: int, mp: int)
    requires
        0 <= doe < 146097,
        z + 719468 == era * 146097 + doe,
        yoe == (doe - doe / 1460 + doe / 36524 - doe / 146096) / 365,
        doy == doe - (365 * yoe + yoe / 4 - yoe / 100),
        mp == (5 * doy + 2) / 153,
    ensures
        0 <= yoe < 400,
        0 <= doy < 366,
        0 <= mp <= 11,
        ({
            let d = doy - (153 * mp + 2) / 5 + 1;
            let m = if mp < 10 { mp + 3 } else { mp - 9 };
            let y = yoe + era * 400;
            let year = if m <= 2 { y + 1 } else { y };
            valid_date(year, m, d) && day_number(year, m, d) == z
        }),
{
    year_of_era(doe, yoe);
    march_month(doy, mp);
    year_start(era, yoe);
    let y = yoe + era * 400;
    if mp < 10 {
        month_table(y);
        if mp == 0 {
        } else if mp == 1 {
        } else if mp == 2 {
        } else if mp == 3 {
        } else if mp == 4 {
        } else if mp == 5 {
        } else if mp == 6 {
        } else if mp == 7 {
        } else if mp == 8 {
        } else {
            assert(mp == 9);
        }
    } else {
        month_table(y + 1);
        if mp == 10 {
        } else {
            assert(mp == 11);
        }
    }
}

/// The date of a day number.
pub fn civil_from_days(z: i64) -> (r: (i64, u32, u32))
    requires
        z <= i64::MAX - 719_468,
    ensures
        valid_date(r.0 as int, r.1 as int, r.2 as int),
        day_number(r.0 as int, r.1 as int, r.2 as int) == z,
        -26_000_000_000_000_000 <= r.0 <= 26_000_000_000_000_000,
{
    let z1: i64 = z + 719_468;
    let era: i64 = if z1 >= 0 {
        z1 / 146_097
    } else {
        (z1 - 146_096) / 146_097
    };
    let doe: i64 = z1 - era * 146_097;
    assert(0 <= doe < 146_097);
    let yoe: i64 = (doe - doe / 1460 + doe / 36_524 - doe / 146_096) / 365;
    proof {
        year_of_era(doe as int, yoe as int);
    }
    let y: i64 = yoe + era * 400;
    let doy: i64 = doe - (365 * yoe + yoe / 4 - yoe / 100);
    let mp: i64 = (5 * doy + 2) / 153;
    proof {
        civil_date(z as int, era as int, doe as int, yoe as int, doy as int, mp as int);
    }
    let d: i64 = doy - (153 * mp + 2) / 5 + 1;
    let m: i64 = if mp < 10 {
        mp + 3
    } else {
        mp - 9
    };
    let year: i64 = if m <= 2 {
        y + 1
    } else {
        y
    };
    (year, m as u32, d as u32)
}

proof fn date_inside_year(y: int, m: int, d: int)
    requires
        valid_date(y, m, d),
    ensures
        days_before_year(y) <= day_number(y, m, d) + 719528 < days_before_year(y + 1),
{
    month_table(y);
    years_are_as_long_as_their_months(y);
}

proof fn later_years_start_later(a: int, b: int)
    requires
        a <= b,
    ensures
        days_before_year(a) <= days_before_year(b),
    decreases b - a,
{
    if a < b {
        later_years_start_later(a, b - 1);
        years_are_as_long_as_their_months(b - 1);
    }
}

/// A day number belongs to one date only.
pub proof fn dates_are_unique(y1: int, m1: int, d1: int, y2: int, m2: int, d2: int)
    requires
        valid_date(y1, m1, d1),
        valid_date(y2, m2, d2),
        day_number(y1, m1, d1) == day_number(y2, m2, d2),
    ensures
        y1 == y2 && m1 == m2 && d1 == d2,
{
    date_inside_year(y1, m1, d1);
    date_inside_year(y2, m2, d2);
    if y1 < y2 {
        later_years_start_later(y1 + 1, y2);
    } else if y2 < y1 {
        later_years_start_later(y2 + 1, y1);
    }
    month_table(y1);
}

// ---------------------------------------------------------------------------
// Entries
// ---------------------------------------------------------------------------

/// So many zeros.
pub open spec fn zeros(n: int) -> Seq<char> {
    Seq::new(
        (if n > 0 {
            n
        } else {
            0
        }) as nat,
        |i: int| '0',
    )
}

/// A number in at least so many characters, with zeros behind its sign.
pub open spec fn padded(n: int, width: int) -> Seq<char> {
    if n < 0 {
        let d = decimal((-n) as nat);
        seq!['-'] + zeros(width - 1 - d.len()) + d
    } else {
        let d = decimal(n as nat);
        zeros(width - d.len()) + d
    }
}

fn push_padded(out: &mut String, n: i64, width: usize)
    requires
        width <= 20,
        n > i64::MIN,
    ensures
        final(out)@ == old(out)@ + padded(n as int, width as int),
{
    let ghost start = out@;
    let mut room: usize = width;
    let digits = if n < 0 {
        out.push('-');
        room = if width > 0 {
            width - 1
        } else {
            0
        };
        decimal_of((-n) as u64)
    } else {
        decimal_of(n as u64)
    };
    let size: usize = chars_of(digits.as_str()).len();
    let ghost base = out@;
    let mut k: usize = size;
    assert(base =~= base + zeros(0));
    while k < room
        invariant
            room <= 20,
            size <= k,
            k <= room || k == size,
            out@ == base + zeros(k - size),
        decreases room - k,
    {
        out.push('0');
        k = k + 1;
        assert(out@ =~= base + zeros(k - size));
    }
    out.append(digits.as_str());
    assert(out@ =~= start + padded(n as int, width as int));
}

/// A moment as text, by its date and its seconds since midnight.
pub open spec fn moment(y: int, m: int, d: int, secs: int) -> Seq<char> {
    padded(y, 4) + "-"@ + padded(m, 2) + "-"@ + padded(d, 2) + "T"@ + padded(secs / 3600, 2) + ":"@ + padded(
        (secs % 3600) / 60,
        2,
    ) + ":"@ + padded(secs % 60, 2) + "Z"@
}

/// The text is that of the moment so many seconds after the start of 1970.
pub open spec fn is_moment(text: Seq<char>, unix_secs: int) -> bool {
    exists|y: int, m: int, d: int| #[trigger]
        valid_date(y, m, d) && day_number(y, m, d) == unix_secs / 86400 && text == moment(
            y,
            m,
            d,
            unix_secs % 86400,
        )
}

/// The moment so many seconds after the start of 1970, in UTC.
pub fn iso8601(unix_secs: i64) -> (r: String)
    ensures
        is_moment(r@, unix_secs as int),
{
    let wide: i128 = unix_secs as i128;
    let days: i64 = (if wide >= 0 {
        wide / 86_400
    } else {
        (wide - 86_399) / 86_400
    }) as i64;
    let secs: i64 = (wide - days as i128 * 86_400) as i64;
    assert(days == unix_secs as int / 86400 && secs == unix_secs as int % 86400);
    let (y, m, d) = civil_from_days(days);
    let mut r = String::new();
    push_padded(&mut r, y, 4);
    r.append("-");
    push_padded(&mut r, m as i64, 2);
    r.append("-");
    push_padded(&mut r, d as i64, 2);
    r.append("T");
    push_padded(&mut r, secs / 3600, 2);
    r.append(":");
    push_padded(&mut r, (secs % 3600) / 60, 2);
    r.append(":");
    push_padded(&mut r, secs % 60, 2);
    r.append("Z");
    proof {
        assert(Seq::<char>::empty() + padded(y as int, 4) =~= padded(y as int, 4));
        assert(r@ == moment(y as int, m as int, d as int, secs as int));
        assert(valid_date(y as int, m as int, d as int));
    }
    r
}

/// One memory as a markdown block.
pub open spec fn entry_text(when: Seq<char>, kind: MemoryKind, text: Seq<char>) -> Seq<char> {
    "## "@ + when + " · "@ + kind_word(kind) + "\n"@ + text + "\n\n"@
}

/// One memory as a markdown block, under the moment it was made.
pub fn render_markdown_entry(created_at: i64, kind: MemoryKind, text: &str) -> (r: String)
    ensures
        exists|when: Seq<char>| #[trigger]
            is_moment(when, created_at as int) && r@ == entry_text(when, kind, text@),
{
    let when = iso8601(created_at);
    let mut r = String::from_str("## ");
    r.append(when.as_str());
    r.append(" · ");
    r.append(kind.as_str());
    r.append("\n");
    r.append(text);
    r.append("\n\n");
    assert(is_moment(when@, created_at as int));
    r
}

/// Where the mirror is written.
#[derive(Debug, Clone, PartialEq, Eq)]
pub struct MarkdownSink {
    pub dir: String,
}

impl MarkdownSink {
    /// A mirror below the given directory.
    pub fn new(dir: String) -> (r: MarkdownSink)
        ensures
            r.dir == dir,
    {
        MarkdownSink { dir }
    }
}

} // verus!

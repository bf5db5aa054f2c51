//! Times and places.
use crate::paths::{place, placed};
use crate::text::{opt_str_view, opt_text, owned, str_trim, trimmed};
use vstd::prelude::*;

verus! {

/// The whole seconds since the start of 1970; nothing where the clock is set to before it.
///
/// Asks `SystemTime::now` and `duration_since`. What they say depends on the machine's clock, so
/// nothing is claimed of it.
#[verifier::external_body]
fn clock_seconds() -> (r: Option<u64>) {
    match std::time::SystemTime::now().duration_since(std::time::UNIX_EPOCH) {
        Ok(d) => Some(d.as_secs()),
        Err(_) => None,
    }
}

/// The seconds since the start of 1970 as a signed number; zero where there are none, and the
/// largest one where they do not fit.
pub fn unix_seconds(seconds: Option<u64>) -> (r: i64)
    ensures
        r == (match seconds {
            Some(s) => if s <= i64::MAX {
                s as int
            } else {
                i64::MAX as int
            },
            None => 0,
        }),
{
    match seconds {
        Some(s) => if s <= 0x7FFF_FFFF_FFFF_FFFF {
            s as i64
        } else {
            i64::MAX
        },
        None => 0,
    }
}

/// The present time in whole seconds since the start of 1970.
pub fn now_unix() -> (r: i64)
    ensures
        r >= 0,
{
    unix_seconds(clock_seconds())
}

/// Where uploaded files are kept: below the given directory, below the current one where none is
/// given, and below `.` where that is not known either.
pub fn upload_root(workspace: Option<&str>, current_dir: Option<&str>) -> (r: String)
    ensures
        r@ == placed(
            placed(
                match workspace {
                    Some(w) => w@,
                    None => match current_dir {
                        Some(c) => c@,
                        None => "."@,
                    },
                },
                ".wukong"@,
            ),
            "uploads"@,
        ),
{
    let base = match workspace {
        Some(w) => w,
        None => match current_dir {
            Some(c) => c,
            None => ".",
        },
    };
    let dir = place(base, ".wukong");
    place(dir.as_str(), "uploads")
}

/// The directory below which skills are kept: the given one without white space around it, and the
/// current one where it is blank.
pub fn resolve_skill_workspace(given: Option<&str>, current_dir: Option<&str>) -> (r: Option<String>)
    ensures
        match given {
            Some(g) => if trimmed(g@).len() > 0 {
                r is Some && r->0@ == trimmed(g@)
            } else {
                opt_text(r) == opt_str_view(current_dir)
            },
            None => opt_text(r) == opt_str_view(current_dir),
        },
{
    if let Some(g) = given {
        let t = str_trim(g);
        if !t.as_str().is_empty() {
            return Some(t);
        }
    }
    owned(current_dir)
}

} // verus!

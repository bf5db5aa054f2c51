//! The classification of errors of the provider behind the agent: the one place where they are
//! told apart. Structured signals decide first; text is only a last resort.
use crate::gateway::error::GatewayError;
use crate::json::{or_else, Json, JsonView};
use crate::text::{
    ascii_digit, begins, begins_with, chars_of, decimal, decimal_of, find, first_index, has,
    is_ascii_digit, part, same, str_has,
};
use vstd::prelude::*;

verus! {

/// A named error of the provider, as the agent's events carry it.
#[derive(Debug, Clone, PartialEq, Eq)]
pub struct UpstreamError {
    /// The name of the error, such as `APIError` or `MessageAbortedError`.
    pub name: String,
    /// The status code, where there is one. It decides first.
    pub status_code: Option<u16>,
    /// A message for people. It never decides.
    pub message: String,
}

/// The class of a provider error: how it is reported, and whether a retry can help.
#[derive(Debug, Clone, Copy, PartialEq, Eq, Structural)]
pub enum UpstreamFailure {
    /// The model is no longer offered. Only another model helps.
    ModelEol,
    /// The provider limits the rate. A later retry may help.
    RateLimited,
    /// The turn was aborted: no fault of the provider, but no success either.
    Aborted,
    /// Any other error.
    Other,
}

/// The label of a class.
pub open spec fn failure_label(f: UpstreamFailure) -> Seq<char> {
    match f {
        UpstreamFailure::ModelEol => "模型已下架"@,
        UpstreamFailure::RateLimited => "上游限流"@,
        UpstreamFailure::Aborted => "回合被中止"@,
        UpstreamFailure::Other => "上游錯誤"@,
    }
}

impl UpstreamFailure {
    /// The label of the class.
    pub fn label(self) -> (r: &'static str)
        ensures
            r@ == failure_label(self),
    {
        match self {
            UpstreamFailure::ModelEol => "模型已下架",
            UpstreamFailure::RateLimited => "上游限流",
            UpstreamFailure::Aborted => "回合被中止",
            UpstreamFailure::Other => "上游錯誤",
        }
    }
}

/// Different classes have different labels, and none is empty.
pub proof fn labels_tell_classes_apart(a: UpstreamFailure, b: UpstreamFailure)
    ensures
        failure_label(a).len() > 0,
        failure_label(a) == failure_label(b) ==> a == b,
{
    reveal_strlit("模型已下架");
    reveal_strlit("上游限流");
    reveal_strlit("回合被中止");
    reveal_strlit("上游錯誤");
    assert("模型已下架"@[0] == '模');
    assert("上游限流"@[2] == '限');
    assert("回合被中止"@[0] == '回');
    assert("上游錯誤"@[2] == '錯');
}

/// The class of a named error: its status code decides, and its name where the code says nothing.
pub open spec fn class_of(name: Seq<char>, status_code: Option<u16>) -> UpstreamFailure {
    if status_code == Some(410u16) {
        UpstreamFailure::ModelEol
    } else if status_code == Some(429u16) {
        UpstreamFailure::RateLimited
    } else if name == "MessageAbortedError"@ {
        UpstreamFailure::Aborted
    } else if name == "ProviderModelNotFoundError"@ {
        UpstreamFailure::ModelEol
    } else {
        UpstreamFailure::Other
    }
}

/// Classifies a named error. A 404 is no sign of a model that is no longer offered: a model of
/// another sort called at the chat endpoint gives one too.
pub fn classify(name: &str, status_code: Option<u16>) -> (r: UpstreamFailure)
    ensures
        r == class_of(name@, status_code),
{
    if let Some(code) = status_code {
        if code == 410 {
            return UpstreamFailure::ModelEol;
        }
        if code == 429 {
            return UpstreamFailure::RateLimited;
        }
    }
    if same(name, "MessageAbortedError") {
        UpstreamFailure::Aborted
    } else if same(name, "ProviderModelNotFoundError") {
        UpstreamFailure::ModelEol
    } else {
        UpstreamFailure::Other
    }
}

/// A status code other than 410 and 429, a 404 among them, never changes the class that the name
/// alone gives.
pub proof fn other_codes_do_not_decide(name: Seq<char>, code: u16)
    requires
        code != 410,
        code != 429,
    ensures
        class_of(name, Some(code)) == class_of(name, None),
{
}

/// The text shown of a named error.
pub open spec fn error_detail(e: UpstreamError) -> Seq<char> {
    e.name@ + (match e.status_code {
        Some(code) => " statusCode="@ + decimal(code as nat),
        None => Seq::empty(),
    }) + (if e.message@.len() > 0 {
        ": "@ + e.message@
    } else {
        Seq::empty()
    })
}

impl UpstreamError {
    /// The gateway error for a named error. Only its name and status code decide the class.
    pub fn to_gateway_error(&self) -> (r: GatewayError)
        ensures
            r matches GatewayError::UpstreamFailed { kind, status_code, detail } && kind == class_of(
                self.name@,
                self.status_code,
            ) && status_code == self.status_code && detail@ == error_detail(*self),
    {
        let kind = classify(self.name.as_str(), self.status_code);
        let mut detail = self.name.clone();
        if let Some(code) = self.status_code {
            detail.append(" statusCode=");
            let digits = decimal_of(code as u64);
            detail.append(digits.as_str());
        }
        if !self.message.as_str().is_empty() {
            detail.append(": ");
            detail.append(self.message.as_str());
        }
        assert(detail@ =~= error_detail(*self));
        GatewayError::UpstreamFailed { kind, status_code: self.status_code, detail }
    }
}

/// The mathematical form of a named error.
pub struct UpstreamErrorView {
    pub name: Seq<char>,
    pub status_code: Option<u16>,
    pub message: Seq<char>,
}

impl View for UpstreamError {
    type V = UpstreamErrorView;

    open spec fn view(&self) -> UpstreamErrorView {
        UpstreamErrorView {
            name: self.name@,
            status_code: self.status_code,
            message: self.message@,
        }
    }
}

/// The status code that a JSON number denotes.
pub open spec fn status_in(v: Option<JsonView>) -> Option<u16> {
    match v {
        Some(j) => match j.as_u64() {
            Some(n) => if n <= u16::MAX {
                Some(n as u16)
            } else {
                None
            },
            None => None,
        },
        None => None,
    }
}

/// The named error in the `error` member of an object.
pub open spec fn error_in(container: JsonView) -> Option<UpstreamErrorView> {
    match container.get("error"@) {
        None => None,
        Some(error) => {
            let data = error.get("data"@);
            Some(
                UpstreamErrorView {
                    name: or_else(error.str_at("name"@), "UnknownError"@),
                    status_code: match data {
                        Some(d) => status_in(d.get("statusCode"@)),
                        None => None,
                    },
                    message: match data {
                        Some(d) => or_else(d.str_at("message"@), Seq::empty()),
                        None => Seq::empty(),
                    },
                },
            )
        },
    }
}

/// Takes the named error out of the `error` member of an object.
pub fn parse_error_field(container: &Json) -> (r: Option<UpstreamError>)
    ensures
        match r {
            Some(e) => error_in(container@) == Some(e@),
            None => error_in(container@) is None,
        },
{
    let error = match container.get("error") {
        Some(e) => e,
        None => return None,
    };
    let name = match error.str_at("name") {
        Some(n) => n.to_owned(),
        None => "UnknownError".to_owned(),
    };
    let mut status_code: Option<u16> = None;
    let mut message = String::new();
    if let Some(data) = error.get("data") {
        if let Some(j) = data.get("statusCode") {
            if let Some(n) = j.as_u64() {
                if n <= 65535 {
                    status_code = Some(n as u16);
                }
            }
        }
        if let Some(m) = data.str_at("message") {
            message = m.to_owned();
        }
    }
    Some(UpstreamError { name, status_code, message })
}

// ---------------------------------------------------------------------------
// Text as a last resort
// ---------------------------------------------------------------------------

/// A space or a tab.
pub open spec fn gap(c: char) -> bool {
    c == ' ' || c == '\t'
}

/// The text without spaces and tabs at its start.
pub open spec fn gap_skipped(s: Seq<char>) -> Seq<char>
    decreases s.len(),
{
    if s.len() > 0 && gap(s[0]) {
        gap_skipped(s.drop_first())
    } else {
        s
    }
}

/// The text without the given character, should it stand at the start.
pub open spec fn without_lead(s: Seq<char>, c: char) -> Seq<char> {
    if s.len() > 0 && s[0] == c {
        s.skip(1)
    } else {
        s
    }
}

/// The text behind the separator between a key and its value: a colon or an equals sign, with
/// gaps around it, or a gap alone.
pub open spec fn past_separator(after: Seq<char>) -> Option<Seq<char>> {
    let s = gap_skipped(after);
    if s.len() > 0 && (s[0] == ':' || s[0] == '=') {
        Some(gap_skipped(s.skip(1)))
    } else if after.len() > 0 && gap(after[0]) {
        Some(s)
    } else {
        None
    }
}

/// A separator follows, then the code, possibly in quotes, and no further digit.
pub open spec fn value_is(after: Seq<char>, code: Seq<char>) -> bool {
    match past_separator(after) {
        None => false,
        Some(s) => {
            let t = without_lead(s, '"');
            begins(t, code) && (t.len() == code.len() || !ascii_digit(t[code.len() as int]))
        },
    }
}

/// Some occurrence of the key, read from left to right without overlaps, has the code as value.
pub open spec fn key_has_code(text: Seq<char>, key: Seq<char>, code: Seq<char>) -> bool
    decreases text.len(),
{
    match first_index(text, key, 0) {
        None => false,
        Some(i) => {
            let after = text.skip(i + key.len());
            value_is(after, code) || (0 < key.len() && 0 <= i <= i + key.len() <= text.len()
                && key_has_code(after, key, code))
        },
    }
}

/// The code stands in the text as the value of a status key.
pub open spec fn status_signal(text: Seq<char>, code: nat) -> bool {
    ||| key_has_code(text, "\"statusCode\""@, decimal(code))
    ||| key_has_code(text, "\"status\""@, decimal(code))
    ||| key_has_code(text, "statusCode"@, decimal(code))
    ||| key_has_code(text, "status"@, decimal(code))
}

/// The class that a text gives away, if any. A bare number is never enough.
pub open spec fn text_class(text: Seq<char>) -> Option<UpstreamFailure> {
    if status_signal(text, 410) || has(text, "end of life"@) {
        Some(UpstreamFailure::ModelEol)
    } else if status_signal(text, 429) || has(text, "RESOURCE_EXHAUSTED"@) {
        Some(UpstreamFailure::RateLimited)
    } else if has(text, "ProviderModelNotFoundError"@) || has(text, "Model not found"@) {
        Some(UpstreamFailure::ModelEol)
    } else {
        None
    }
}

fn skip_gap(s: &[char]) -> (r: &[char])
    ensures
        r@ == gap_skipped(s@),
{
    let mut i: usize = 0;
    assert(s@.skip(0) =~= s@);
    while i < s.len() && (s[i] == ' ' || s[i] == '\t')
        invariant
            i <= s.len(),
            gap_skipped(s@) == gap_skipped(s@.skip(i as int)),
        decreases s.len() - i,
    {
        assert(s@.skip(i as int).drop_first() =~= s@.skip(i + 1));
        i = i + 1;
    }
    assert(s@.subrange(i as int, s@.len() as int) =~= s@.skip(i as int));
    part(s, i, s.len())
}

fn separator_then_code(after: &[char], code: &[char]) -> (r: bool)
    ensures
        r == value_is(after@, code@),
{
    let had_gap = after.len() > 0 && (after[0] == ' ' || after[0] == '\t');
    let s = skip_gap(after);
    let value = if s.len() > 0 && (s[0] == ':' || s[0] == '=') {
        assert(s@.subrange(1, s@.len() as int) =~= s@.skip(1));
        skip_gap(part(s, 1, s.len()))
    } else if had_gap {
        s
    } else {
        return false;
    };
    let t = if value.len() > 0 && value[0] == '"' {
        assert(value@.subrange(1, value@.len() as int) =~= value@.skip(1));
        part(value, 1, value.len())
    } else {
        value
    };
    if !begins_with(t, code) {
        return false;
    }
    t.len() == code.len() || !is_ascii_digit(t[code.len()])
}

fn find_code(text: &[char], key: &str, code: &[char]) -> (r: bool)
    requires
        key@.len() > 0,
    ensures
        r == key_has_code(text@, key@, code@),
{
    let k = chars_of(key);
    let mut rest = text;
    loop
        invariant
            key@.len() > 0,
            k@ == key@,
            key_has_code(text@, key@, code@) == key_has_code(rest@, key@, code@),
        decreases rest@.len(),
    {
        match find(rest, k.as_slice(), 0) {
            None => {
                return false;
            },
            Some(i) => {
                let n: usize = rest.len();
                let at: usize = i + k.len();
                let after = part(rest, at, n);
                assert(after@ =~= rest@.skip(i + key@.len()));
                if separator_then_code(after, code) {
                    return true;
                }
                rest = after;
            },
        }
    }
}

/// Whether the code stands in the text as the value of a status key.
pub fn has_status_signal(text: &str, code: u16) -> (r: bool)
    ensures
        r == status_signal(text@, code as nat),
{
    let v = chars_of(text);
    let digits = decimal_of(code as u64);
    let c = chars_of(digits.as_str());
    proof {
        reveal_strlit("\"statusCode\"");
        reveal_strlit("\"status\"");
        reveal_strlit("statusCode");
        reveal_strlit("status");
    }
    find_code(v.as_slice(), "\"statusCode\"", c.as_slice()) || find_code(
        v.as_slice(),
        "\"status\"",
        c.as_slice(),
    ) || find_code(v.as_slice(), "statusCode", c.as_slice()) || find_code(
        v.as_slice(),
        "status",
        c.as_slice(),
    )
}

/// Classifies plain text, for paths without structured events. `None` where the text gives no
/// provider error away.
pub fn classify_text(text: &str) -> (r: Option<UpstreamFailure>)
    ensures
        r == text_class(text@),
{
    if has_status_signal(text, 410) || str_has(text, "end of life") {
        return Some(UpstreamFailure::ModelEol);
    }
    if has_status_signal(text, 429) || str_has(text, "RESOURCE_EXHAUSTED") {
        return Some(UpstreamFailure::RateLimited);
    }
    if str_has(text, "ProviderModelNotFoundError") || str_has(text, "Model not found") {
        return Some(UpstreamFailure::ModelEol);
    }
    None
}

} // verus!

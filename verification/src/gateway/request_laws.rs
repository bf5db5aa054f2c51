//! How the agent is asked: the command line, the message to a server, and what is sent along.
use crate::gateway::backend::{
    argv_head, binary_of, file_flags, flag_value, plain_request, timeout_secs, timeout_text,
    with_line, without_model, AttachmentView,
};
use crate::gateway::config::{command_words, either_text, home_db_url, scope_of_dir, text_or};
use crate::gateway::opencode_server::{
    by_assistant, if_filled, if_not_blank, is_success, last_answer, mode_of, own_text, question_address, slashless, texts_in, texts_in_items, texts_in_members, ModeView,
};
use crate::gateway::pipeline::exchange;
use crate::gateway::prompt::summary_text;
use crate::gateway::server_message::{
    admitted, answers_json, declared_type, display_name, message_head, message_json, model_named, part_json, passed_on, permission_word, sent_type, server_path, text_extension, textual, transported, type_by_extension, unsupported_text, PartView,
};
use crate::json::{member, JsonView};
use crate::paths::{absolute, below, extension_of, file_name_of, placed, within};
use crate::text::{
    ascii_lowered, begins, blank, first_index, first_index_is_first, has, joined, occurs_at,
    parsed_unsigned, parts_are_found, trimmed, words,
};
use vstd::prelude::*;

verus! {

// ---------------------------------------------------------------------------
// The command line
// ---------------------------------------------------------------------------

/// An argument that chooses a model.
pub open spec fn chooses_model(arg: Seq<char>) -> bool {
    arg == "--model"@ || arg == "-m"@ || begins(arg, "--model="@)
}

/// A command that chooses no model is run as it stands.
pub proof fn plain_commands_stay(command: Seq<Seq<char>>)
    requires
        forall|k: int| 0 <= k < command.len() ==> !chooses_model(#[trigger] command[k]),
    ensures
        without_model(command) == command,
    decreases command.len(),
{
    if command.len() > 0 {
        let d = command.skip(1);
        assert(!chooses_model(command[0]));
        assert forall|k: int| 0 <= k < d.len() implies !chooses_model(#[trigger] d[k]) by {
            assert(d[k] == command[k + 1]);
        }
        plain_commands_stay(d);
        assert(seq![command[0]] + d =~= command);
    }
}

proof fn plain_words_first(a: Seq<Seq<char>>, b: Seq<Seq<char>>)
    requires
        forall|k: int| 0 <= k < a.len() ==> !chooses_model(#[trigger] a[k]),
    ensures
        without_model(a + b) == a + without_model(b),
    decreases a.len(),
{
    if a.len() == 0 {
        assert(a + b =~= b);
        assert(a + without_model(b) =~= without_model(b));
    } else {
        let d = a.skip(1);
        assert(!chooses_model(a[0]));
        assert((a + b)[0] == a[0]);
        assert forall|k: int| 0 <= k < d.len() implies !chooses_model(#[trigger] d[k]) by {
            assert(d[k] == a[k + 1]);
        }
        plain_words_first(d, b);
        assert((a + b).skip(1) =~= d + b);
        assert(seq![a[0]] + (d + without_model(b)) =~= a + without_model(b));
    }
}

/// The model that a command chooses is taken out of it, with its name, and nothing else: both in two
/// arguments and in one.
pub proof fn only_the_model_is_taken_out(a: Seq<Seq<char>>, name: Seq<char>, b: Seq<Seq<char>>)
    requires
        forall|k: int| 0 <= k < a.len() ==> !chooses_model(#[trigger] a[k]),
        forall|k: int| 0 <= k < b.len() ==> !chooses_model(#[trigger] b[k]),
    ensures
        without_model(a + seq!["--model"@, name] + b) == a + b,
        without_model(a + seq!["-m"@, name] + b) == a + b,
        without_model(a + seq!["--model="@ + name] + b) == a + b,
{
    plain_commands_stay(b);
    let x = seq!["--model"@, name] + b;
    assert(x[0] == "--model"@);
    assert(x.skip(2) =~= b);
    plain_words_first(a, x);
    assert(a + seq!["--model"@, name] + b =~= a + x);
    let y = seq!["-m"@, name] + b;
    assert(y[0] == "-m"@);
    assert(y.skip(2) =~= b);
    plain_words_first(a, y);
    assert(a + seq!["-m"@, name] + b =~= a + y);
    let one = "--model="@ + name;
    reveal_strlit("--model=");
    reveal_strlit("--model");
    reveal_strlit("-m");
    assert(one.subrange(0, "--model="@.len() as int) =~= "--model="@);
    assert(begins(one, "--model="@));
    assert(one.len() >= 8);
    assert("--model"@.len() == 7);
    assert("-m"@.len() == 2);
    let z = seq![one] + b;
    assert(z[0] == one);
    assert(z.skip(1) =~= b);
    plain_words_first(a, z);
    assert(a + seq![one] + b =~= a + z);
}

/// Two arguments stand next to each other.
pub open spec fn next_to(argv: Seq<Seq<char>>, flag: Seq<char>, value: Seq<char>) -> bool {
    exists|k: int| 0 <= k < argv.len() - 1 && #[trigger] argv[k] == flag && argv[k + 1] == value
}

proof fn files_are_named(attachments: Seq<AttachmentView>, i: int)
    requires
        0 <= i < attachments.len(),
    ensures
        file_flags(attachments).len() == 2 * attachments.len(),
        file_flags(attachments)[2 * i] == "--file"@,
        file_flags(attachments)[2 * i + 1] == attachments[i].path,
    decreases attachments.len(),
{
    let d = attachments.drop_last();
    if d.len() > 0 {
        files_are_named(d, if i < d.len() { i } else { 0 });
    } else {
        assert(file_flags(d).len() == 0);
    }
}

/// The command line begins with the command and names the session, the model, the agent and every file
/// that was asked for; a model or an agent whose name is blank is not named.
pub proof fn command_lines_name_everything(
    command: Seq<Seq<char>>,
    session_id: Option<Seq<char>>,
    thinking: bool,
    model: Option<Seq<char>>,
    agent: Option<Seq<char>>,
    attachments: Seq<AttachmentView>,
    i: int,
)
    requires
        0 <= i < attachments.len(),
    ensures
        ({
            let argv = argv_head(command, session_id, thinking, model, agent, attachments);
            &&& argv.take(without_model(command).len() as int) == without_model(command)
            &&& session_id is Some ==> next_to(argv, "-s"@, session_id->0)
            &&& thinking ==> argv.contains("--thinking"@)
            &&& model is Some && !blank(model->0) ==> next_to(argv, "--model"@, trimmed(model->0))
            &&& agent is Some && !blank(agent->0) ==> next_to(argv, "--agent"@, trimmed(agent->0))
            &&& next_to(argv, "--file"@, attachments[i].path)
        }),
{
    let argv = argv_head(command, session_id, thinking, model, agent, attachments);
    let c = without_model(command);
    let e = Seq::<Seq<char>>::empty();
    let s = match session_id {
        Some(id) => seq!["-s"@, id],
        None => e,
    };
    let t = if thinking {
        seq!["--thinking"@]
    } else {
        e
    };
    let m = flag_value("--model"@, model);
    let a = flag_value("--agent"@, agent);
    let f = file_flags(attachments);
    files_are_named(attachments, i);
    assert(argv =~= c + s + t + m + a + f);
    assert(argv.take(c.len() as int) =~= c);
    let n1 = c.len() as int;
    let n2 = n1 + s.len();
    let n3 = n2 + t.len();
    let n4 = n3 + m.len();
    let n5 = n4 + a.len();
    if session_id is Some {
        assert(argv[n1] == s[0] && argv[n1 + 1] == s[1]);
    }
    if thinking {
        assert(argv[n2] == t[0]);
    }
    if model is Some && !blank(model->0) {
        assert(argv[n3] == m[0] && argv[n3 + 1] == m[1]);
    }
    if agent is Some && !blank(agent->0) {
        assert(argv[n4] == a[0] && argv[n4 + 1] == a[1]);
    }
    assert(argv[n5 + 2 * i] == f[2 * i] && argv[n5 + 2 * i + 1] == f[2 * i + 1]);
}

/// A request that names nothing adds nothing to the command.
pub proof fn bare_requests_add_nothing(command: Seq<Seq<char>>)
    ensures
        argv_head(command, None, false, None, None, Seq::empty()) == without_model(command),
        binary_of(command) == (if command.len() > 0 {
            command[0]
        } else {
            "opencode"@
        }),
{
    assert(argv_head(command, None, false, None, None, Seq::empty()) =~= without_model(command));
}

/// A plain request holds its prompt and nothing else.
pub proof fn plain_requests_are_plain(prompt: Seq<char>)
    ensures
        ({
            let r = plain_request(prompt);
            &&& r.prompt == prompt && r.session_id is None && r.model is None && r.agent is None && !r.thinking
            &&& r.tool_overrides.len() == 0 && r.attachments.len() == 0
        }),
{
}

/// The agent is waited for as many seconds as is set, and twenty minutes where nothing useful is set.
pub proof fn the_agent_is_waited_for(v: Seq<char>, n: nat)
    requires
        n > 0,
    ensures
        parsed_unsigned(trimmed(v), u64::MAX as nat) == Some(n) ==> timeout_secs(Some(v)) == n,
        parsed_unsigned(trimmed(v), u64::MAX as nat) == Some(0nat) ==> timeout_secs(Some(v)) == 20 * 60,
        parsed_unsigned(trimmed(v), u64::MAX as nat) is None ==> timeout_secs(Some(v)) == 20 * 60,
        timeout_secs(None) == 20 * 60,
{
}

/// What the agent said on the side is told where it gave no answer in time.
pub proof fn timeouts_tell_what_was_said(stderr: Seq<char>)
    ensures
        !blank(stderr) ==> timeout_text(stderr).skip(timeout_text(stderr).len() - trimmed(stderr).len()) == trimmed(stderr),
        blank(stderr) ==> timeout_text(stderr) == "處理逾時，可能是模型 rate limit 或 opencode 無回應；已中斷 agent process。"@,
{
    let t = trimmed(stderr);
    if blank(stderr) {
        assert(timeout_text(stderr) =~= "處理逾時，可能是模型 rate limit 或 opencode 無回應；已中斷 agent process。"@);
    } else {
        assert(timeout_text(stderr).skip(timeout_text(stderr).len() - t.len()) =~= t);
    }
}

/// An answer keeps every text, each on a line of its own.
pub proof fn answers_keep_every_text(full: Seq<char>, text: Seq<char>)
    ensures
        text.len() == 0 ==> with_line(full, text) == full,
        full.len() == 0 ==> with_line(full, text) == text,
        full.len() > 0 && text.len() > 0 ==> with_line(full, text) == full.push('\n') + text,
{
    if full.len() > 0 && text.len() > 0 {
        assert(with_line(full, text) =~= full.push('\n') + text);
    }
}

// ---------------------------------------------------------------------------
// Settings
// ---------------------------------------------------------------------------

/// A directory's memories are those of the project of its name; without a name they are global.
pub proof fn directories_are_projects(d: Seq<char>, n: Seq<char>)
    ensures
        scope_of_dir(None) == "global"@,
        file_name_of(d) == Some(n) && n.len() > 0 ==> scope_of_dir(Some(d)) == "project:"@ + n,
        file_name_of(d) is None ==> scope_of_dir(Some(d)) == "global"@,
{
}

/// The memory is kept in the home directory, or here where there is none.
pub proof fn the_memory_is_at_home(home: Seq<char>)
    ensures
        home_db_url(Some(home)) == "sqlite://"@ + home + "/.wukong/memory.db"@,
        home_db_url(None) == "sqlite://"@ + "."@ + "/.wukong/memory.db"@,
{
}

/// The command that is set is run; where none is set, the usual one.
pub proof fn commands_are_what_is_set(c: Seq<char>)
    ensures
        words(c).len() > 0 ==> command_words(Some(c)) == words(c),
        words(c).len() == 0 ==> command_words(Some(c)) == seq!["opencode"@, "run"@],
        command_words(None) == seq!["opencode"@, "run"@],
{
}

/// The first of two settings counts, the second where the first is not made.
pub proof fn first_settings_count(a: Seq<char>, b: Option<Seq<char>>)
    ensures
        either_text(Some(a), b) == Some(a),
        either_text(None, b) == b,
        text_or(Some(a), a) == a,
        text_or(None, a) == a,
{
}

/// Files are shared with the server unless something else is set: sent inside the message, or not at
/// all. A word that is not known is kept as it stands.
pub proof fn file_modes_by_word(v: Seq<char>)
    ensures
        mode_of(None) is Shared,
        ({
            let w = ascii_lowered(trimmed(v));
            &&& w == "inline"@ ==> mode_of(Some(v)) is Inline
            &&& w == "disabled"@ ==> mode_of(Some(v)) is Disabled
            &&& w == "shared"@ || w.len() == 0 ==> mode_of(Some(v)) is Shared
            &&& w.len() > 0 && w != "shared"@ && w != "inline"@ && w != "disabled"@ ==> mode_of(Some(v)) == ModeView::Invalid(v)
        }),
{
    reveal_strlit("inline");
    reveal_strlit("disabled");
    reveal_strlit("shared");
    assert("inline"@.len() == 6);
    assert("disabled"@.len() == 8);
    assert("shared"@.len() == 6);
    assert("inline"@[0] == 'i');
    assert("shared"@[0] == 's');
}

/// An address loses the slashes at its end, and nothing else.
pub proof fn addresses_lose_their_last_slashes(s: Seq<char>)
    ensures
        slashless(s).len() <= s.len(),
        s.take(slashless(s).len() as int) == slashless(s),
        slashless(s).len() > 0 ==> slashless(s).last() != '/',
        forall|i: int| slashless(s).len() <= i < s.len() ==> #[trigger] s[i] == '/',
    decreases s.len(),
{
    if s.len() > 0 && s.last() == '/' {
        let d = s.drop_last();
        addresses_lose_their_last_slashes(d);
        assert(s.take(slashless(s).len() as int) =~= d.take(slashless(d).len() as int));
        assert forall|i: int| slashless(s).len() <= i < s.len() implies #[trigger] s[i] == '/' by {
            if i < d.len() {
                assert(d[i] == s[i]);
            }
        }
    } else {
        assert(s.take(s.len() as int) =~= s);
    }
}

/// Empty and blank settings count as not made.
pub proof fn empty_settings_are_none(s: Seq<char>)
    ensures
        if_filled(Some(s)) == (if s.len() > 0 {
            Some(s)
        } else {
            None
        }),
        blank(s) ==> if_not_blank(Some(s)) is None,
        !blank(s) ==> if_not_blank(Some(s)) == Some(s),
        if_filled(None) is None && if_not_blank(None) is None,
{
}

// ---------------------------------------------------------------------------
// The server's answers
// ---------------------------------------------------------------------------

/// A server succeeds with a code from two hundred on, and below three hundred.
pub proof fn servers_succeed_with_two_hundreds(status: u16)
    ensures
        is_success(status) <==> status / 100 == 2,
{
    assert(status / 100 == 2 <==> 200 <= status < 300) by (nonlinear_arith);
}

/// The texts of a message are those of all its parts, wherever they stand, in order.
pub proof fn texts_are_found_everywhere(o: Seq<(Seq<char>, JsonView)>, a: Seq<JsonView>, key: Seq<char>, v: JsonView)
    ensures
        texts_in_members(o.push((key, v))) == texts_in_members(o) + texts_in(v),
        texts_in_items(a.push(v)) == texts_in_items(a) + texts_in(v),
        texts_in(JsonView::Array(a.push(v))) == texts_in(JsonView::Array(a)) + texts_in(v),
{
    assert(o.push((key, v)).drop_last() =~= o);
    assert(a.push(v).drop_last() =~= a);
}

/// A text part that is not blank is a text of its own; other parts are not.
pub proof fn text_parts_are_texts(v: JsonView, t: Seq<char>)
    ensures
        v.str_at("text"@) == Some(t) && !blank(t) && (v.str_at("type"@) == Some("text"@) || v.str_at("type"@) == Some(
            "assistant_text"@,
        )) ==> own_text(v) == seq![t],
        v.str_at("text"@) is None || blank(v.str_at("text"@)->0) ==> own_text(v).len() == 0,
        v.str_at("type"@) != Some("text"@) && v.str_at("type"@) != Some("assistant_text"@) ==> own_text(v).len() == 0,
{
}

/// The answer is the text of the last message that the assistant wrote, whatever others wrote after it.
pub proof fn the_last_answer_counts(messages: Seq<JsonView>, m: JsonView)
    ensures
        by_assistant(m) ==> last_answer(messages.push(m)) == trimmed(joined(texts_in(m), "\n"@)),
        !by_assistant(m) ==> last_answer(messages.push(m)) == last_answer(messages),
        last_answer(Seq::<JsonView>::empty()).len() == 0,
        m.get("info"@) is Some && m.get("info"@)->0.str_at("role"@) == Some("assistant"@) ==> by_assistant(m),
        m.get("info"@) is Some && m.get("info"@)->0.str_at("role"@) == Some("user"@) ==> !by_assistant(m),
{
    assert(messages.push(m).drop_last() =~= messages);
    reveal_strlit("assistant");
    reveal_strlit("user");
    assert("assistant"@.len() == 9);
    assert("user"@.len() == 4);
}

// ---------------------------------------------------------------------------
// The message to the server
// ---------------------------------------------------------------------------

/// A model is named by its provider, a slash and its own name, which may hold more slashes; neither may
/// be empty.
pub proof fn models_are_named_by_provider(a: Seq<char>, b: Seq<char>)
    requires
        forall|i: int| 0 <= i < a.len() ==> #[trigger] a[i] != '/',
        trimmed(a + seq!['/'] + b) == a + seq!['/'] + b,
    ensures
        a.len() > 0 && b.len() > 0 ==> model_named(a + seq!['/'] + b) == Some((a, b)),
        a.len() == 0 || b.len() == 0 ==> model_named(a + seq!['/'] + b) is None,
        trimmed(a) == a ==> model_named(a) is None,
{
    reveal_strlit("/");
    let m = a + seq!['/'] + b;
    let k = a.len() as int;
    first_index_is_first(m, "/"@, 0);
    assert(m.subrange(k, k + 1) =~= "/"@);
    assert(occurs_at(m, "/"@, k));
    let i = first_index(m, "/"@, 0);
    assert(i is Some);
    if i->0 < k {
        assert(m.subrange(i->0, i->0 + 1)[0] == a[i->0]);
    }
    assert(m.take(k) =~= a);
    assert(m.skip(k + 1) =~= b);
    first_index_is_first(a, "/"@, 0);
    match first_index(a, "/"@, 0) {
        Some(j) => {
            assert(a.subrange(j, j + 1)[0] == a[j]);
        },
        None => {},
    }
}

/// A file that says what it is is sent as that: the images and documents that the server reads as they
/// are, and everything textual as plain text.
pub proof fn declared_types_count(a: AttachmentView, m: Seq<char>)
    requires
        a.mime_type is Some,
        ascii_lowered(trimmed(a.mime_type->0)) == m,
    ensures
        m == "image/png"@ || m == "image/jpeg"@ || m == "image/gif"@ || m == "image/webp"@ || m == "application/pdf"@
            ==> sent_type(a) == Some(m),
        m == "application/json"@ || m == "application/xml"@ || m == "application/yaml"@ || m == "application/toml"@ ==> sent_type(
            a,
        ) == Some("text/plain"@),
        begins(m, "text/"@) ==> sent_type(a) == Some("text/plain"@),
{
    types_differ(m);
}

proof fn types_differ(m: Seq<char>)
    ensures
        m == "application/json"@ || m == "application/xml"@ || m == "application/yaml"@ || m == "application/toml"@
            ==> !passed_on(m),
        begins(m, "text/"@) ==> !passed_on(m),
{
    reveal_strlit("application/json");
    reveal_strlit("application/xml");
    reveal_strlit("application/yaml");
    reveal_strlit("application/toml");
    reveal_strlit("application/pdf");
    reveal_strlit("image/png");
    reveal_strlit("image/jpeg");
    reveal_strlit("image/gif");
    reveal_strlit("image/webp");
    reveal_strlit("text/");
    assert("application/json"@.len() == 16);
    assert("application/xml"@.len() == 15);
    assert("application/yaml"@.len() == 16);
    assert("application/toml"@.len() == 16);
    assert("application/pdf"@.len() == 15);
    assert("image/png"@.len() == 9);
    assert("image/jpeg"@.len() == 10);
    assert("image/gif"@.len() == 9);
    assert("image/webp"@.len() == 10);
    assert("application/xml"@[12] == 'x');
    assert("application/pdf"@[12] == 'p');
    assert("text/"@[0] == 't');
    assert("image/png"@[0] == 'i' && "image/jpeg"@[0] == 'i' && "image/gif"@[0] == 'i' && "image/webp"@[0] == 'i');
    assert("application/pdf"@[0] == 'a');
    if begins(m, "text/"@) {
        assert(m.subrange(0, 5)[0] == m[0]);
    }
}

/// A file that does not say what it is is judged by the ending of its name.
pub proof fn endings_decide_where_nothing_is_declared(a: AttachmentView, e: Seq<char>)
    requires
        a.mime_type is None,
        extension_of(a.path) is Some,
        ascii_lowered(extension_of(a.path)->0) == e,
    ensures
        e == "png"@ ==> sent_type(a) == Some("image/png"@),
        e == "jpg"@ || e == "jpeg"@ ==> sent_type(a) == Some("image/jpeg"@),
        e == "gif"@ ==> sent_type(a) == Some("image/gif"@),
        e == "webp"@ ==> sent_type(a) == Some("image/webp"@),
        e == "pdf"@ ==> sent_type(a) == Some("application/pdf"@),
        e == "txt"@ || e == "md"@ || e == "json"@ || e == "csv"@ || e == "rs"@ || e == "py"@ || e == "yaml"@ || e == "yml"@ || e
            == "sql"@ || e == "html"@ ==> sent_type(a) == Some("text/plain"@),
        type_by_extension(e) is None ==> sent_type(a) is None,
{
    nothing_declared();
    endings_differ();
    if e == "txt"@ || e == "md"@ || e == "json"@ || e == "csv"@ || e == "rs"@ || e == "py"@ || e == "yaml"@ || e == "yml"@ || e
        == "sql"@ || e == "html"@ {
        assert(text_extension(e));
    }
}

proof fn nothing_declared()
    ensures
        !passed_on(ascii_lowered(Seq::empty())),
        !textual(ascii_lowered(Seq::empty())),
{
    let e = ascii_lowered(Seq::empty());
    assert(e.len() == 0);
    reveal_strlit("image/png");
    reveal_strlit("image/jpeg");
    reveal_strlit("image/gif");
    reveal_strlit("image/webp");
    reveal_strlit("application/pdf");
    reveal_strlit("text/");
    reveal_strlit("application/json");
    reveal_strlit("application/ld+json");
    reveal_strlit("application/toml");
    reveal_strlit("application/yaml");
    reveal_strlit("application/x-yaml");
    reveal_strlit("application/xml");
    assert("image/png"@.len() > 0 && "image/jpeg"@.len() > 0 && "image/gif"@.len() > 0 && "image/webp"@.len() > 0);
    assert("application/pdf"@.len() > 0 && "text/"@.len() > 0 && "application/json"@.len() > 0);
    assert("application/ld+json"@.len() > 0 && "application/toml"@.len() > 0 && "application/yaml"@.len() > 0);
    assert("application/x-yaml"@.len() > 0 && "application/xml"@.len() > 0);
}

proof fn endings_differ()
    ensures
        "jpg"@ != "png"@ && "jpeg"@ != "png"@ && "gif"@ != "png"@ && "webp"@ != "png"@ && "pdf"@ != "png"@,
        "gif"@ != "jpg"@ && "gif"@ != "jpeg"@ && "webp"@ != "jpg"@ && "webp"@ != "jpeg"@ && "pdf"@ != "jpg"@ && "pdf"@
            != "jpeg"@,
        "webp"@ != "gif"@ && "pdf"@ != "gif"@ && "pdf"@ != "webp"@,
        forall|e: Seq<char>|
            e == "txt"@ || e == "md"@ || e == "json"@ || e == "csv"@ || e == "rs"@ || e == "py"@ || e == "yaml"@ || e == "yml"@
                || e == "sql"@ || e == "html"@ ==> e != "png"@ && e != "jpg"@ && e != "jpeg"@ && e != "gif"@ && e != "webp"@
                && e != "pdf"@ && #[trigger] text_extension(e),
{
    reveal_strlit("png");
    reveal_strlit("jpg");
    reveal_strlit("jpeg");
    reveal_strlit("gif");
    reveal_strlit("webp");
    reveal_strlit("pdf");
    reveal_strlit("txt");
    reveal_strlit("md");
    reveal_strlit("json");
    reveal_strlit("csv");
    reveal_strlit("rs");
    reveal_strlit("py");
    reveal_strlit("yaml");
    reveal_strlit("yml");
    reveal_strlit("sql");
    reveal_strlit("html");
    assert("png"@.len() == 3 && "png"@[0] == 'p' && "png"@[1] == 'n');
    assert("jpg"@.len() == 3 && "jpg"@[0] == 'j');
    assert("jpeg"@.len() == 4 && "jpeg"@[0] == 'j' && "jpeg"@[1] == 'p');
    assert("gif"@.len() == 3 && "gif"@[0] == 'g');
    assert("webp"@.len() == 4 && "webp"@[0] == 'w');
    assert("pdf"@.len() == 3 && "pdf"@[0] == 'p' && "pdf"@[1] == 'd');
    assert("txt"@.len() == 3 && "txt"@[0] == 't');
    assert("md"@.len() == 2);
    assert("json"@.len() == 4 && "json"@[0] == 'j' && "json"@[1] == 's');
    assert("csv"@.len() == 3 && "csv"@[0] == 'c');
    assert("rs"@.len() == 2);
    assert("py"@.len() == 2);
    assert("yaml"@.len() == 4 && "yaml"@[0] == 'y');
    assert("yml"@.len() == 3 && "yml"@[0] == 'y');
    assert("sql"@.len() == 3 && "sql"@[0] == 's');
    assert("html"@.len() == 4 && "html"@[0] == 'h');
}

/// A file is sent exactly where it and the workspace can be found and it lies inside the workspace.
pub proof fn only_files_of_the_workspace_are_sent(
    attachment: Seq<char>,
    workspace: Option<Seq<char>>,
    path: Result<Seq<char>, Seq<char>>,
    root: Result<Seq<char>, Seq<char>>,
)
    ensures
        admitted(attachment, workspace, path, root) is Ok <==> path is Ok && workspace is Some && root is Ok && within(
            path->Ok_0,
            root->Ok_0,
        ),
        admitted(attachment, workspace, path, root) is Ok ==> admitted(attachment, workspace, path, root)->Ok_0 == path->Ok_0,
{
}

/// A shared file is named by its place below the server's workspace, which has to be an absolute one.
pub proof fn shared_files_are_named_on_the_server(path: Seq<char>, root: Seq<char>, server: Option<Seq<char>>)
    ensures
        server_path(path, root, server) is Ok <==> within(path, root) && server is Some && absolute(server->0),
        server_path(path, root, server) is Ok ==> server_path(path, root, server)->Ok_0 == placed(server->0, below(path, root)),
{
}

/// Files are read into the message where that is set, and never sent where that is set.
pub proof fn modes_decide_how_files_travel(path: Seq<char>, root: Seq<char>, server: Option<Seq<char>>, shown: Seq<char>, v: Seq<char>)
    ensures
        transported(ModeView::Inline, path, root, server, shown) == Ok::<Option<Seq<char>>, Seq<char>>(None),
        transported(ModeView::Disabled, path, root, server, shown) is Err,
        transported(ModeView::Invalid(v), path, root, server, shown) is Err,
        transported(ModeView::Shared, path, root, server, shown) is Ok ==> transported(
            ModeView::Shared,
            path,
            root,
            server,
            shown,
        )->Ok_0 is Some && server_path(path, root, server) is Ok,
{
}

/// A part of a message says what it is and holds what it was made of.
pub proof fn parts_hold_what_they_were_made_of(text: Seq<char>, mime: Seq<char>, url: Seq<char>, filename: Seq<char>)
    ensures
        ({
            let p = part_json(PartView::Text { text });
            p.str_at("type"@) == Some("text"@) && p.str_at("text"@) == Some(text)
        }),
        ({
            let p = part_json(PartView::File { mime, url, filename });
            p.str_at("type"@) == Some("file"@) && p.str_at("mime"@) == Some(mime) && p.str_at("url"@) == Some(url) && p.str_at(
                "filename"@,
            ) == Some(filename)
        }),
{
    reveal_strlit("type");
    reveal_strlit("text");
    reveal_strlit("mime");
    reveal_strlit("url");
    reveal_strlit("filename");
    assert("type"@.len() == 4 && "type"@[1] == 'y');
    assert("text"@.len() == 4 && "text"@[1] == 'e');
    assert("mime"@.len() == 4 && "mime"@[0] == 'm');
    assert("type"@[0] == 't');
    assert("url"@.len() == 3);
    assert("filename"@.len() == 8);
    let o = seq![("type"@, JsonView::Str("text"@)), ("text"@, JsonView::Str(text))];
    second(o);
    let f = seq![
        ("type"@, JsonView::Str("file"@)),
        ("mime"@, JsonView::Str(mime)),
        ("url"@, JsonView::Str(url)),
        ("filename"@, JsonView::Str(filename)),
    ];
    let d = f.drop_first();
    assert(d =~= seq![
        ("mime"@, JsonView::Str(mime)),
        ("url"@, JsonView::Str(url)),
        ("filename"@, JsonView::Str(filename)),
    ]);
    let e = d.drop_first();
    assert(e =~= seq![("url"@, JsonView::Str(url)), ("filename"@, JsonView::Str(filename))]);
    let g = e.drop_first();
    assert(g =~= seq![("filename"@, JsonView::Str(filename))]);
    assert(member(g, "filename"@) == Some(JsonView::Str(filename)));
    assert(member(e, "filename"@) == member(g, "filename"@));
    assert(member(d, "filename"@) == member(e, "filename"@));
    assert(member(f, "filename"@) == member(d, "filename"@));
    assert(member(e, "url"@) == Some(JsonView::Str(url)));
    assert(member(d, "url"@) == member(e, "url"@));
    assert(member(f, "url"@) == member(d, "url"@));
    assert(member(d, "mime"@) == Some(JsonView::Str(mime)));
    assert(member(f, "mime"@) == member(d, "mime"@));
}

proof fn second(o: Seq<(Seq<char>, JsonView)>)
    requires
        o.len() >= 2,
        o[0].0 != o[1].0,
    ensures
        member(o, o[1].0) == Some(o[1].1),
{
    let d = o.drop_first();
    assert(d[0] == o[1]);
    assert(member(d, o[1].0) == Some(o[1].1));
}

proof fn last_member(o: Seq<(Seq<char>, JsonView)>, key: Seq<char>, v: JsonView)
    requires
        forall|k: int| 0 <= k < o.len() ==> (#[trigger] o[k]).0 != key,
    ensures
        member(o.push((key, v)), key) == Some(v),
    decreases o.len(),
{
    let p = o.push((key, v));
    if o.len() > 0 {
        assert(p[0] == o[0]);
        let d = o.drop_first();
        assert forall|k: int| 0 <= k < d.len() implies (#[trigger] d[k]).0 != key by {
            assert(d[k] == o[k + 1]);
        }
        last_member(d, key, v);
        assert(p.drop_first() =~= d.push((key, v)));
    }
}

/// A message holds all its parts, in order.
pub proof fn messages_hold_their_parts(
    model: Option<Seq<char>>,
    agent: Option<Seq<char>>,
    tools: Seq<(Seq<char>, bool)>,
    parts: Seq<PartView>,
    i: int,
)
    requires
        0 <= i < parts.len(),
    ensures
        ({
            let m = message_json(model, agent, tools, parts);
            m.array_at("parts"@) is Some && m.array_at("parts"@)->0.len() == parts.len() && m.array_at("parts"@)->0[i]
                == part_json(parts[i])
        }),
{
    let head = message_head(model, agent, tools);
    reveal_strlit("parts");
    reveal_strlit("model");
    reveal_strlit("agent");
    reveal_strlit("tools");
    assert("parts"@[0] == 'p');
    assert("model"@[0] == 'm');
    assert("agent"@[0] == 'a');
    assert("tools"@[0] == 't');
    assert forall|k: int| 0 <= k < head.len() implies (#[trigger] head[k]).0 != "parts"@ by {
        assert(head[k].0 == "model"@ || head[k].0 == "agent"@ || head[k].0 == "tools"@);
    }
    last_member(head, "parts"@, JsonView::Array(parts.map_values(|p: PartView| part_json(p))));
}

/// A message names the agent that was asked for, and none where none was.
pub proof fn messages_name_the_agent(model: Seq<char>, agent: Seq<char>, tools: Seq<(Seq<char>, bool)>, parts: Seq<PartView>)
    ensures
        message_json(None, Some(agent), tools, parts).str_at("agent"@) == Some(agent),
        model_named(model) is Some ==> ({
            let m = message_json(Some(model), None, Seq::empty(), parts).get("model"@);
            m is Some && m->0.str_at("providerID"@) == Some(model_named(model)->Some_0.0) && m->0.str_at("modelID"@) == Some(
                model_named(model)->Some_0.1,
            )
        }),
{
    reveal_strlit("providerID");
    reveal_strlit("modelID");
    assert("providerID"@.len() == 10);
    assert("modelID"@.len() == 7);
    if model_named(model) is Some {
        let (a, b) = model_named(model)->Some_0;
        let o = seq![("providerID"@, JsonView::Str(a)), ("modelID"@, JsonView::Str(b))];
        second(o);
        let head = message_head(Some(model), None, Seq::empty());
        assert(head =~= seq![("model"@, JsonView::Object(o))]);
    }
}

/// A message switches tools on and off as it was asked to.
pub proof fn messages_switch_tools(tools: Seq<(Seq<char>, bool)>, parts: Seq<PartView>, i: int)
    requires
        0 <= i < tools.len(),
    ensures
        ({
            let t = message_json(None, None, tools, parts).get("tools"@);
            t is Some && t->0 is Object && t->0->Object_0.len() == tools.len() && t->0->Object_0[i] == (
                tools[i].0,
                JsonView::Bool(tools[i].1),
            )
        }),
{
    let head = message_head(None, None, tools);
    assert(head.len() == 1);
    assert(head[0].0 == "tools"@);
}

/// The answers to questions are sent as they were given, question by question.
pub proof fn answers_are_sent_as_given(answers: Seq<Vec<String>>, i: int, k: int)
    requires
        0 <= i < answers.len(),
        0 <= k < answers[i]@.len(),
    ensures
        ({
            let a = answers_json(answers).array_at("answers"@);
            &&& a is Some && a->0.len() == answers.len()
            &&& a->0[i].as_array() is Some && a->0[i].as_array()->0.len() == answers[i]@.len()
            &&& a->0[i].as_array()->0[k].as_str() == Some(answers[i]@[k]@)
        }),
{
}

/// A file is called by the last part of its own name, or else of its path, or else an attachment.
pub proof fn files_are_called_by_their_name(original: Seq<char>, path: Seq<char>, n: Seq<char>)
    ensures
        file_name_of(original) == Some(n) ==> display_name(original, path) == n,
        file_name_of(original) is None && file_name_of(path) == Some(n) ==> display_name(original, path) == n,
        file_name_of(original) is None && file_name_of(path) is None ==> display_name(original, path) == "attachment"@,
{
}

/// The address under which a question is answered names its session and the question.
pub proof fn questions_have_their_address(base: Seq<char>, session: Seq<char>, request: Seq<char>, verb: Seq<char>)
    ensures
        question_address(base, session, request, verb) == base + "/api/session/"@ + session + "/question/"@ + request + verb,
{
}

/// A file that cannot be sent is named, with what it says it is.
pub proof fn unsendable_files_are_named(a: AttachmentView)
    ensures
        has(unsupported_text(a), a.original_name),
        declared_type(a).len() > 0 ==> has(unsupported_text(a), declared_type(a)),
{
    let h = "不支援的附件格式："@;
    let m = "（MIME: "@;
    let d = if declared_type(a).len() == 0 {
        "unknown"@
    } else {
        declared_type(a)
    };
    parts_are_found(h, a.original_name, m + d + "）"@);
    assert(h + a.original_name + (m + d + "）"@) =~= unsupported_text(a));
    parts_are_found(h + a.original_name + m, d, "）"@);
    assert(h + a.original_name + m + d + "）"@ =~= unsupported_text(a));
}

/// The server is told one of three words about a permission.
pub proof fn permissions_have_three_words(reply: Seq<char>)
    ensures
        permission_word(reply) <==> reply == "once"@ || reply == "always"@ || reply == "reject"@,
{
}

// ---------------------------------------------------------------------------
// Prompts
// ---------------------------------------------------------------------------

/// What is summarized is handed over text by text, all of it.
pub proof fn summaries_are_of_everything(given: Seq<Seq<char>>)
    ensures
        has(summary_text(given), joined(given, "\n"@)),
{
    let h = "請把以下記憶濃縮成一段精簡摘要,保留關鍵決策與事實,只輸出摘要本身:\n\n"@;
    parts_are_found(h, joined(given, "\n"@), Seq::empty());
    assert(h + joined(given, "\n"@) + Seq::<char>::empty() =~= summary_text(given));
}

/// Both sides of an exchange are remembered, each under its speaker.
pub proof fn both_sides_are_remembered(input: Seq<char>, answer: Seq<char>)
    ensures
        exchange(input, answer).len() == 2,
        exchange(input, answer)[0].text == "User: "@ + input,
        exchange(input, answer)[1].text == "Assistant: "@ + answer,
        exchange(input, answer)[0].kind is Event && exchange(input, answer)[1].kind is Event,
        exchange(input, answer)[0].dedupe_key is None && exchange(input, answer)[1].dedupe_key is None,
{
}

} // verus!

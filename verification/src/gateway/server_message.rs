//! Messages to the agent server: their parts, their attachments, and their JSON form.
use crate::gateway::backend::{switches_of, AgentAttachment, AgentRequest, AttachmentView};
use crate::gateway::error::GatewayError;
use crate::gateway::opencode_server::{
    attachment_error, failed_with, FileTransportMode, ModeView, OpencodeServerBackend,
    INLINE_ATTACHMENT_MAX_BYTES,
};
use crate::json::{or_else, Json, JsonView};
use crate::paths::{
    absolute, below, extension, extension_of, file_name, file_name_of, is_absolute, is_within, place,
    placed, relative_to, within,
};
use crate::text::{
    ascii_lowered, begins, chars_of, decimal, decimal_of, find, first_index, opt_text, part, same,
    str_ascii_lower, str_begins, str_trim, string_of, texts, trimmed,
};
use base64::Engine;
use vstd::prelude::*;

verus! {

/// A part of a message.
#[derive(Debug, Clone, PartialEq, Eq)]
pub enum MessagePart {
    Text { text: String },
    File { mime: String, url: String, filename: String },
}

/// The mathematical form of a part.
pub enum PartView {
    Text { text: Seq<char> },
    File { mime: Seq<char>, url: Seq<char>, filename: Seq<char> },
}

impl View for MessagePart {
    type V = PartView;

    open spec fn view(&self) -> PartView {
        match self {
            MessagePart::Text { text } => PartView::Text { text: text@ },
            MessagePart::File { mime, url, filename } => PartView::File {
                mime: mime@,
                url: url@,
                filename: filename@,
            },
        }
    }
}

/// The mathematical forms of a sequence of parts.
pub open spec fn parts_of(v: Seq<MessagePart>) -> Seq<PartView> {
    v.map_values(|p: MessagePart| p@)
}

// ---------------------------------------------------------------------------
// The model of a message
// ---------------------------------------------------------------------------

/// A model of a provider.
#[derive(Debug, Clone, PartialEq, Eq)]
pub struct ModelOverride {
    pub provider_id: String,
    pub model_id: String,
}

/// The provider and the model that a text names: what stands before and behind its first slash,
/// neither empty.
pub open spec fn model_named(model: Seq<char>) -> Option<(Seq<char>, Seq<char>)> {
    let m = trimmed(model);
    match first_index(m, "/"@, 0) {
        Some(i) => if 0 < i && i + 1 < m.len() {
            Some((m.take(i), m.skip(i + 1)))
        } else {
            None
        },
        None => None,
    }
}

/// The provider and the model that a text names.
pub fn parse_model_override(model: &str) -> (r: Option<ModelOverride>)
    ensures
        match r {
            Some(m) => model_named(model@) == Some((m.provider_id@, m.model_id@)),
            None => model_named(model@) is None,
        },
{
    let kept = str_trim(model);
    let v = chars_of(kept.as_str());
    let slash = chars_of("/");
    proof {
        reveal_strlit("/");
    }
    let n: usize = v.len();
    match find(v.as_slice(), slash.as_slice(), 0) {
        Some(i) => {
            if i == 0 || i + 1 >= n {
                return None;
            }
            assert(v@.subrange(0, i as int) =~= v@.take(i as int));
            assert(v@.subrange(i + 1, n as int) =~= v@.skip(i + 1));
            Some(
                ModelOverride {
                    provider_id: string_of(part(v.as_slice(), 0, i)),
                    model_id: string_of(part(v.as_slice(), i + 1, n)),
                },
            )
        },
        None => None,
    }
}

// ---------------------------------------------------------------------------
// Attachments
// ---------------------------------------------------------------------------

/// The declared types that are passed on as they are.
pub open spec fn passed_on(mime: Seq<char>) -> bool {
    mime == "image/png"@ || mime == "image/jpeg"@ || mime == "image/gif"@ || mime == "image/webp"@ || mime
        == "application/pdf"@
}

/// The declared types that are sent as plain text.
pub open spec fn textual(mime: Seq<char>) -> bool {
    begins(mime, "text/"@) || mime == "application/json"@ || mime == "application/ld+json"@ || mime
        == "application/toml"@ || mime == "application/yaml"@ || mime == "application/x-yaml"@ || mime
        == "application/xml"@
}

/// The extensions of files that are sent as plain text.
pub open spec fn text_extension(e: Seq<char>) -> bool {
    ||| e == "txt"@ || e == "md"@ || e == "markdown"@ || e == "csv"@ || e == "tsv"@ || e == "json"@
    ||| e == "jsonl"@ || e == "toml"@ || e == "yaml"@ || e == "yml"@ || e == "xml"@ || e == "html"@
    ||| e == "css"@ || e == "js"@ || e == "jsx"@ || e == "ts"@ || e == "tsx"@ || e == "rs"@
    ||| e == "py"@ || e == "rb"@ || e == "go"@ || e == "java"@ || e == "kt"@ || e == "kts"@
    ||| e == "c"@ || e == "h"@ || e == "cc"@ || e == "cpp"@ || e == "hpp"@ || e == "sh"@
    ||| e == "bash"@ || e == "zsh"@ || e == "fish"@ || e == "sql"@ || e == "r"@
}

/// The type that an extension gives away.
pub open spec fn type_by_extension(e: Seq<char>) -> Option<Seq<char>> {
    if e == "png"@ {
        Some("image/png"@)
    } else if e == "jpg"@ || e == "jpeg"@ {
        Some("image/jpeg"@)
    } else if e == "gif"@ {
        Some("image/gif"@)
    } else if e == "webp"@ {
        Some("image/webp"@)
    } else if e == "pdf"@ {
        Some("application/pdf"@)
    } else if text_extension(e) {
        Some("text/plain"@)
    } else {
        None
    }
}

/// The type declared for an attachment, trimmed; empty where there is none.
pub open spec fn declared_type(a: AttachmentView) -> Seq<char> {
    match a.mime_type {
        Some(m) => trimmed(m),
        None => Seq::empty(),
    }
}

/// The type under which an attachment is sent: by its declared type, or else by its extension.
pub open spec fn sent_type(a: AttachmentView) -> Option<Seq<char>> {
    let declared = ascii_lowered(declared_type(a));
    if passed_on(declared) {
        Some(declared)
    } else if textual(declared) {
        Some("text/plain"@)
    } else {
        type_by_extension(ascii_lowered(or_else(extension_of(a.path), Seq::empty())))
    }
}

/// The text shown for an attachment that cannot be sent.
pub open spec fn unsupported_text(a: AttachmentView) -> Seq<char> {
    "不支援的附件格式："@ + a.original_name + "（MIME: "@ + (if declared_type(a).len() == 0 {
        "unknown"@
    } else {
        declared_type(a)
    }) + "）"@
}

fn is_textual(m: &str) -> (r: bool)
    ensures
        r == textual(m@),
{
    str_begins(m, "text/") || same(m, "application/json") || same(m, "application/ld+json") || same(
        m,
        "application/toml",
    ) || same(m, "application/yaml") || same(m, "application/x-yaml") || same(m, "application/xml")
}

fn is_text_extension(e: &str) -> (r: bool)
    ensures
        r == text_extension(e@),
{
    same(e, "txt") || same(e, "md") || same(e, "markdown") || same(e, "csv") || same(e, "tsv") || same(
        e,
        "json",
    ) || same(e, "jsonl") || same(e, "toml") || same(e, "yaml") || same(e, "yml") || same(e, "xml")
        || same(e, "html") || same(e, "css") || same(e, "js") || same(e, "jsx") || same(e, "ts")
        || same(e, "tsx") || same(e, "rs") || same(e, "py") || same(e, "rb") || same(e, "go") || same(
        e,
        "java",
    ) || same(e, "kt") || same(e, "kts") || same(e, "c") || same(e, "h") || same(e, "cc") || same(
        e,
        "cpp",
    ) || same(e, "hpp") || same(e, "sh") || same(e, "bash") || same(e, "zsh") || same(e, "fish")
        || same(e, "sql") || same(e, "r")
}

fn by_extension(e: &str) -> (r: Option<String>)
    ensures
        opt_text(r) == type_by_extension(e@),
{
    if same(e, "png") {
        Some("image/png".to_owned())
    } else if same(e, "jpg") || same(e, "jpeg") {
        Some("image/jpeg".to_owned())
    } else if same(e, "gif") {
        Some("image/gif".to_owned())
    } else if same(e, "webp") {
        Some("image/webp".to_owned())
    } else if same(e, "pdf") {
        Some("application/pdf".to_owned())
    } else if is_text_extension(e) {
        Some("text/plain".to_owned())
    } else {
        None
    }
}

/// The type under which an attachment is sent, or the error for one that cannot be sent.
pub fn supported_attachment_mime(attachment: &AgentAttachment) -> (r: Result<String, GatewayError>)
    ensures
        match r {
            Ok(m) => sent_type(attachment@) == Some(m@),
            Err(e) => sent_type(attachment@) is None && failed_with(e, unsupported_text(attachment@)),
        },
{
    let declared = match &attachment.mime_type {
        Some(m) => str_trim(m.as_str()),
        None => String::new(),
    };
    let m = str_ascii_lower(declared.as_str());
    if same(m.as_str(), "image/png") || same(m.as_str(), "image/jpeg") || same(m.as_str(), "image/gif")
        || same(m.as_str(), "image/webp") || same(m.as_str(), "application/pdf") {
        return Ok(m);
    }
    if is_textual(m.as_str()) {
        return Ok("text/plain".to_owned());
    }
    let e = match extension(attachment.path.as_str()) {
        Some(e) => e,
        None => String::new(),
    };
    let e = str_ascii_lower(e.as_str());
    match by_extension(e.as_str()) {
        Some(t) => Ok(t),
        None => {
            let mut text = String::from_str("不支援的附件格式：");
            text.append(attachment.original_name.as_str());
            text.append("（MIME: ");
            if declared.as_str().is_empty() {
                text.append("unknown");
            } else {
                text.append(declared.as_str());
            }
            text.append("）");
            Err(attachment_error(text))
        },
    }
}

/// The name under which an attachment is shown: the last component of its own name, or else of
/// its path.
pub open spec fn display_name(original: Seq<char>, path: Seq<char>) -> Seq<char> {
    match file_name_of(original) {
        Some(n) => n,
        None => or_else(file_name_of(path), "attachment"@),
    }
}

/// The name under which an attachment is shown.
pub fn safe_display_filename(original_name: &str, path: &str) -> (r: String)
    ensures
        r@ == display_name(original_name@, path@),
{
    match file_name(original_name) {
        Some(n) => n,
        None => match file_name(path) {
            Some(n) => n,
            None => "attachment".to_owned(),
        },
    }
}

/// What resolving a path gave: the resolved path, or the text of an error.
pub open spec fn resolved(r: Result<String, String>) -> Result<Seq<char>, Seq<char>> {
    match r {
        Ok(p) => Ok(p@),
        Err(e) => Err(e@),
    }
}

/// Whether an attachment may be sent, by what resolving its path and the workspace gave: the
/// resolved path, or the text of the error.
pub open spec fn admitted(
    attachment: Seq<char>,
    workspace: Option<Seq<char>>,
    path: Result<Seq<char>, Seq<char>>,
    root: Result<Seq<char>, Seq<char>>,
) -> Result<Seq<char>, Seq<char>> {
    match path {
        Err(e) => Err("無法解析附件路徑 "@ + attachment + "："@ + e),
        Ok(p) => match workspace {
            None => Err("server backend 傳送附件時必須設定 WUKONG_WORKSPACE"@),
            Some(w) => match root {
                Err(e) => Err("無法解析 WUKONG_WORKSPACE "@ + w + "："@ + e),
                Ok(dir) => if within(p, dir) {
                    Ok(p)
                } else {
                    Err("拒絕傳送工作區外的附件："@ + p)
                },
            },
        },
    }
}

fn failure(head: &str, middle: &str, colon: &str, tail: &str) -> (r: GatewayError)
    ensures
        failed_with(r, head@ + middle@ + colon@ + tail@),
{
    let mut text = String::from_str(head);
    text.append(middle);
    text.append(colon);
    text.append(tail);
    attachment_error(text)
}

fn short_failure(head: &str, tail: &str) -> (r: GatewayError)
    ensures
        failed_with(r, head@ + tail@),
{
    let mut text = String::from_str(head);
    text.append(tail);
    attachment_error(text)
}

impl OpencodeServerBackend {
    /// Admits an attachment: its path must be resolved and lead into the workspace.
    pub fn validated_attachment_path(
        &self,
        attachment: &str,
        path: Result<String, String>,
        root: &Result<String, String>,
    ) -> (r: Result<String, GatewayError>)
        ensures
            match (r, admitted(attachment@, opt_text(self.workspace), resolved(path), resolved(*root))) {
                (Ok(p), Ok(q)) => p@ == q,
                (Err(e), Err(t)) => failed_with(e, t),
                _ => false,
            },
    {
        let p = match path {
            Ok(p) => p,
            Err(e) => return Err(failure("無法解析附件路徑 ", attachment, "：", e.as_str())),
        };
        let w = match &self.workspace {
            Some(w) => w,
            None => return Err(
                attachment_error(
                    "server backend 傳送附件時必須設定 WUKONG_WORKSPACE".to_owned(),
                ),
            ),
        };
        match root {
            Err(e) => Err(failure("無法解析 WUKONG_WORKSPACE ", w.as_str(), "：", e.as_str())),
            Ok(dir) => {
                if is_within(p.as_str(), dir.as_str()) {
                    Ok(p)
                } else {
                    Err(short_failure("拒絕傳送工作區外的附件：", p.as_str()))
                }
            },
        }
    }
}

/// The file address that `Url::from_file_path` gives for a path of a Unix system, or `None` where it
/// gives none.
pub uninterp spec fn file_address(path: Seq<char>) -> Option<Seq<char>>;

/// Calls `reqwest::Url::from_file_path` and shows the address. The outcome depends on the path
/// alone.
#[verifier::external_body]
fn file_url(path: &str) -> (r: Option<String>)
    ensures
        opt_text(r) == file_address(path@),
{
    match reqwest::Url::from_file_path(path) {
        Ok(url) => Some(url.to_string()),
        Err(_) => None,
    }
}

/// The path of an attachment as the server sees it, or the text of the error.
pub open spec fn server_path(
    path: Seq<char>,
    root: Seq<char>,
    server_workspace: Option<Seq<char>>,
) -> Result<Seq<char>, Seq<char>> {
    if !within(path, root) {
        Err("附件不在共享工作區內："@ + path)
    } else {
        match server_workspace {
            None => Err("shared 附件模式需要設定 WUKONG_AGENT_SERVER_WORKSPACE 或 WUKONG_WORKSPACE"@),
            Some(s) => if !absolute(s) {
                Err("OpenCode server 工作區必須是絕對路徑："@ + s)
            } else {
                Ok(placed(s, below(path, root)))
            },
        }
    }
}

/// The address of a shared attachment, or the text of the error.
pub open spec fn shared_address(
    path: Seq<char>,
    root: Seq<char>,
    server_workspace: Option<Seq<char>>,
) -> Result<Seq<char>, Seq<char>> {
    match server_path(path, root, server_workspace) {
        Err(e) => Err(e),
        Ok(p) => match file_address(p) {
            Some(url) => Ok(url),
            None => Err("無法將附件轉成 file URL："@ + p),
        },
    }
}

impl OpencodeServerBackend {
    /// The path of an attachment as the server sees it. `root` is the resolved workspace.
    pub fn path_on_server(&self, attachment: &str, root: &str) -> (r: Result<String, GatewayError>)
        ensures
            match (r, server_path(attachment@, root@, opt_text(self.server_workspace))) {
                (Ok(p), Ok(q)) => p@ == q,
                (Err(e), Err(t)) => failed_with(e, t),
                _ => false,
            },
    {
        let relative = match relative_to(attachment, root) {
            Some(p) => p,
            None => return Err(short_failure("附件不在共享工作區內：", attachment)),
        };
        let s = match &self.server_workspace {
            Some(s) => s,
            None => return Err(
                attachment_error(
                    "shared 附件模式需要設定 WUKONG_AGENT_SERVER_WORKSPACE 或 WUKONG_WORKSPACE".to_owned(),
                ),
            ),
        };
        if !is_absolute(s.as_str()) {
            return Err(short_failure("OpenCode server 工作區必須是絕對路徑：", s.as_str()));
        }
        Ok(place(s.as_str(), relative.as_str()))
    }

    /// The address under which the server finds a shared attachment.
    pub fn shared_file_url(&self, attachment: &str, root: &str) -> (r: Result<String, GatewayError>)
        ensures
            match (r, shared_address(attachment@, root@, opt_text(self.server_workspace))) {
                (Ok(p), Ok(q)) => p@ == q,
                (Err(e), Err(t)) => failed_with(e, t),
                _ => false,
            },
    {
        let path = match self.path_on_server(attachment, root) {
            Ok(p) => p,
            Err(e) => return Err(e),
        };
        match file_url(path.as_str()) {
            Some(url) => Ok(url),
            None => Err(short_failure("無法將附件轉成 file URL：", path.as_str())),
        }
    }
}

/// The standard base64 form of some bytes.
pub uninterp spec fn base64_form(bytes: Seq<u8>) -> Seq<char>;

/// Calls `base64::Engine::encode` with the standard engine. The text depends on the bytes alone.
#[verifier::external_body]
fn base64_text(bytes: &Vec<u8>) -> (r: String)
    ensures
        r@ == base64_form(bytes@),
{
    base64::engine::general_purpose::STANDARD.encode(bytes)
}

/// The data address of bytes that are already in base64.
pub fn data_url(mime: &str, encoded: &str) -> (r: String)
    ensures
        r@ == "data:"@ + mime@ + ";base64,"@ + encoded@,
{
    let mut url = String::from_str("data:");
    url.append(mime);
    url.append(";base64,");
    url.append(encoded);
    url
}

/// The data address of an attachment sent inside a message.
pub fn inline_url(mime: &str, bytes: &Vec<u8>) -> (r: String)
    ensures
        r@ == "data:"@ + mime@ + ";base64,"@ + base64_form(bytes@),
{
    let encoded = base64_text(bytes);
    data_url(mime, encoded.as_str())
}

/// Refuses an attachment that is too large to be sent inside a message.
pub fn check_inline_size(filename: &str, size: u64) -> (r: Result<(), GatewayError>)
    ensures
        match r {
            Ok(_) => size <= INLINE_ATTACHMENT_MAX_BYTES,
            Err(e) => size > INLINE_ATTACHMENT_MAX_BYTES && failed_with(
                e,
                "遠端附件模式限制單檔 10 MiB；"@ + filename@ + " 為 "@ + decimal(size as nat) + " bytes"@,
            ),
        },
{
    if size <= INLINE_ATTACHMENT_MAX_BYTES {
        return Ok(());
    }
    let mut text = String::from_str("遠端附件模式限制單檔 10 MiB；");
    text.append(filename);
    text.append(" 為 ");
    let digits = decimal_of(size);
    text.append(digits.as_str());
    text.append(" bytes");
    Err(attachment_error(text))
}

/// How an admitted attachment is brought into a message.
pub enum Transport {
    /// By this address.
    Address(String),
    /// By reading the file.
    Read,
}

/// What the transport mode makes of an admitted attachment: its address on the server, a file to
/// read, or the text of the error. `shown` is how an invalid mode is shown.
pub open spec fn transported(
    mode: ModeView,
    path: Seq<char>,
    root: Seq<char>,
    server_workspace: Option<Seq<char>>,
    shown: Seq<char>,
) -> Result<Option<Seq<char>>, Seq<char>> {
    match mode {
        ModeView::Shared => match shared_address(path, root, server_workspace) {
            Ok(url) => Ok(Some(url)),
            Err(e) => Err(e),
        },
        ModeView::Inline => Ok(None),
        ModeView::Disabled => Err(
            "opencode server 附件功能已由 WUKONG_AGENT_SERVER_FILE_MODE=disabled 停用"@,
        ),
        ModeView::Invalid(_) => Err(
            "無效的 WUKONG_AGENT_SERVER_FILE_MODE="@ + shown + "；可用值為 shared、inline、disabled"@,
        ),
    }
}

/// How `Debug` shows a text, in quotes and with escapes.
pub uninterp spec fn quoted(s: Seq<char>) -> Seq<char>;

/// Calls the `Debug` form of `str` through `format!`. The text depends on the string alone.
#[verifier::external_body]
fn quote(s: &str) -> (r: String)
    ensures
        r@ == quoted(s@),
{
    format!("{:?}", s)
}

/// How the word of an invalid mode is shown.
pub open spec fn mode_shown(mode: ModeView) -> Seq<char> {
    match mode {
        ModeView::Invalid(s) => quoted(s),
        _ => Seq::empty(),
    }
}

impl OpencodeServerBackend {
    /// How an admitted attachment is brought into a message.
    pub fn transport(&self, attachment: &str, root: &str) -> (r: Result<Transport, GatewayError>)
        ensures
            match (r, transported(
                self.file_mode@,
                attachment@,
                root@,
                opt_text(self.server_workspace),
                mode_shown(self.file_mode@),
            )) {
                (Ok(Transport::Address(url)), Ok(Some(u))) => url@ == u,
                (Ok(Transport::Read), Ok(None)) => true,
                (Err(e), Err(t)) => failed_with(e, t),
                _ => false,
            },
    {
        match &self.file_mode {
            FileTransportMode::Shared => match self.shared_file_url(attachment, root) {
                Ok(url) => Ok(Transport::Address(url)),
                Err(e) => Err(e),
            },
            FileTransportMode::Inline => Ok(Transport::Read),
            FileTransportMode::Disabled => Err(
                attachment_error(
                    "opencode server 附件功能已由 WUKONG_AGENT_SERVER_FILE_MODE=disabled 停用".to_owned(),
                ),
            ),
            FileTransportMode::Invalid(value) => {
                let shown = quote(value.as_str());
                let mut text = String::from_str("無效的 WUKONG_AGENT_SERVER_FILE_MODE=");
                text.append(shown.as_str());
                text.append("；可用值為 shared、inline、disabled");
                Err(attachment_error(text))
            },
        }
    }
}

/// The text part that opens every message.
pub fn prompt_part(req: &AgentRequest) -> (r: MessagePart)
    ensures
        r@ == (PartView::Text { text: req.prompt@ }),
{
    MessagePart::Text { text: req.prompt.clone() }
}

/// The part for an attachment with its type and its address.
pub fn file_part(attachment: &AgentAttachment, mime: String, url: String) -> (r: MessagePart)
    ensures
        r@ == (PartView::File {
            mime: mime@,
            url: url@,
            filename: display_name(attachment.original_name@, attachment.path@),
        }),
{
    MessagePart::File {
        mime,
        url,
        filename: safe_display_filename(attachment.original_name.as_str(), attachment.path.as_str()),
    }
}

// ---------------------------------------------------------------------------
// JSON forms
// ---------------------------------------------------------------------------

/// The JSON form of a part.
pub open spec fn part_json(p: PartView) -> JsonView {
    match p {
        PartView::Text { text } => JsonView::Object(
            seq![("type"@, JsonView::Str("text"@)), ("text"@, JsonView::Str(text))],
        ),
        PartView::File { mime, url, filename } => JsonView::Object(
            seq![
                ("type"@, JsonView::Str("file"@)),
                ("mime"@, JsonView::Str(mime)),
                ("url"@, JsonView::Str(url)),
                ("filename"@, JsonView::Str(filename)),
            ],
        ),
    }
}

/// The members of a message before its parts: the model where the text names one, the agent where
/// there is one, and the tool switches where there are any.
pub open spec fn message_head(
    model: Option<Seq<char>>,
    agent: Option<Seq<char>>,
    tools: Seq<(Seq<char>, bool)>,
) -> Seq<(Seq<char>, JsonView)> {
    (match model {
        Some(m) => match model_named(m) {
            Some(pair) => seq![
                (
                    "model"@,
                    JsonView::Object(
                        seq![
                            ("providerID"@, JsonView::Str(pair.0)),
                            ("modelID"@, JsonView::Str(pair.1)),
                        ],
                    ),
                ),
            ],
            None => Seq::empty(),
        },
        None => Seq::empty(),
    }) + (match agent {
        Some(a) => seq![("agent"@, JsonView::Str(a))],
        None => Seq::empty(),
    }) + (if tools.len() > 0 {
        seq![
            (
                "tools"@,
                JsonView::Object(
                    tools.map_values(|t: (Seq<char>, bool)| (t.0, JsonView::Bool(t.1))),
                ),
            ),
        ]
    } else {
        Seq::empty()
    })
}

/// The JSON form of a message.
pub open spec fn message_json(
    model: Option<Seq<char>>,
    agent: Option<Seq<char>>,
    tools: Seq<(Seq<char>, bool)>,
    parts: Seq<PartView>,
) -> JsonView {
    JsonView::Object(
        message_head(model, agent, tools).push(
            ("parts"@, JsonView::Array(parts.map_values(|p: PartView| part_json(p)))),
        ),
    )
}

/// The members of an object.
pub open spec fn members_of(v: Seq<(String, Json)>) -> Seq<(Seq<char>, JsonView)> {
    v.map_values(|m: (String, Json)| (m.0@, m.1@))
}

fn push_member(v: &mut Vec<(String, Json)>, key: &str, value: Json)
    ensures
        members_of(final(v)@) == members_of(old(v)@).push((key@, value@)),
{
    v.push((key.to_owned(), value));
    assert(members_of(v@) =~= members_of(old(v)@).push((key@, value@)));
}

fn object(v: Vec<(String, Json)>) -> (r: Json)
    ensures
        r@ == JsonView::Object(members_of(v@)),
{
    let r = Json::Object(v);
    assert(r@->Object_0 =~= members_of(v@));
    r
}

fn text_value(s: &str) -> (r: Json)
    ensures
        r@ == JsonView::Str(s@),
{
    Json::Str(s.to_owned())
}

fn part_value(p: &MessagePart) -> (r: Json)
    ensures
        r@ == part_json(p@),
{
    let mut v: Vec<(String, Json)> = Vec::new();
    match p {
        MessagePart::Text { text } => {
            push_member(&mut v, "type", text_value("text"));
            push_member(&mut v, "text", text_value(text.as_str()));
        },
        MessagePart::File { mime, url, filename } => {
            push_member(&mut v, "type", text_value("file"));
            push_member(&mut v, "mime", text_value(mime.as_str()));
            push_member(&mut v, "url", text_value(url.as_str()));
            push_member(&mut v, "filename", text_value(filename.as_str()));
        },
    }
    assert(members_of(v@) =~= part_json(p@)->Object_0);
    object(v)
}

fn tools_value(tools: &Vec<(String, bool)>) -> (r: Json)
    ensures
        r@ == JsonView::Object(
            switches_of(tools@).map_values(|t: (Seq<char>, bool)| (t.0, JsonView::Bool(t.1))),
        ),
{
    let ghost all = switches_of(tools@).map_values(|t: (Seq<char>, bool)| (t.0, JsonView::Bool(t.1)));
    let mut v: Vec<(String, Json)> = Vec::new();
    let mut i: usize = 0;
    assert(members_of(v@) =~= all.take(0));
    while i < tools.len()
        invariant
            i <= tools.len(),
            all == switches_of(tools@).map_values(
                |t: (Seq<char>, bool)| (t.0, JsonView::Bool(t.1)),
            ),
            members_of(v@) == all.take(i as int),
        decreases tools.len() - i,
    {
        push_member(&mut v, tools[i].0.as_str(), Json::Bool(tools[i].1));
        i = i + 1;
        assert(members_of(v@) =~= all.take(i as int));
    }
    assert(all.take(i as int) =~= all);
    object(v)
}

fn parts_value(parts: &Vec<MessagePart>) -> (r: Json)
    ensures
        r@ == JsonView::Array(parts_of(parts@).map_values(|p: PartView| part_json(p))),
{
    let ghost all = parts_of(parts@).map_values(|p: PartView| part_json(p));
    let mut v: Vec<Json> = Vec::new();
    let mut i: usize = 0;
    while i < parts.len()
        invariant
            i <= parts.len(),
            all == parts_of(parts@).map_values(|p: PartView| part_json(p)),
            v@.len() == i,
            forall|k: int| 0 <= k < i ==> (#[trigger] v@[k])@ == all[k],
        decreases parts.len() - i,
    {
        v.push(part_value(&parts[i]));
        i = i + 1;
    }
    let r = Json::Array(v);
    assert(r@->Array_0 =~= all);
    r
}

/// The JSON form of a message.
pub fn message_body(req: &AgentRequest, parts: &Vec<MessagePart>) -> (r: Json)
    ensures
        r@ == message_json(req@.model, req@.agent, req@.tool_overrides, parts_of(parts@)),
{
    let mut v: Vec<(String, Json)> = Vec::new();
    if let Some(model) = &req.model {
        if let Some(m) = parse_model_override(model.as_str()) {
            let mut pair: Vec<(String, Json)> = Vec::new();
            push_member(&mut pair, "providerID", text_value(m.provider_id.as_str()));
            push_member(&mut pair, "modelID", text_value(m.model_id.as_str()));
            assert(members_of(pair@) =~= seq![
                ("providerID"@, JsonView::Str(m.provider_id@)),
                ("modelID"@, JsonView::Str(m.model_id@)),
            ]);
            push_member(&mut v, "model", object(pair));
        }
    }
    if let Some(agent) = &req.agent {
        push_member(&mut v, "agent", text_value(agent.as_str()));
    }
    if req.tool_overrides.len() > 0 {
        push_member(&mut v, "tools", tools_value(&req.tool_overrides));
    }
    assert(members_of(v@) =~= message_head(req@.model, req@.agent, req@.tool_overrides));
    push_member(&mut v, "parts", parts_value(parts));
    object(v)
}

/// The JSON form of the answers to a question: for each question, the chosen labels.
pub open spec fn answers_json(answers: Seq<Vec<String>>) -> JsonView {
    JsonView::Object(
        seq![
            (
                "answers"@,
                JsonView::Array(
                    answers.map_values(
                        |a: Vec<String>|
                            JsonView::Array(texts(a@).map_values(|t: Seq<char>| JsonView::Str(t))),
                    ),
                ),
            ),
        ],
    )
}

fn labels_value(labels: &Vec<String>) -> (r: Json)
    ensures
        r@ == JsonView::Array(texts(labels@).map_values(|t: Seq<char>| JsonView::Str(t))),
{
    let mut v: Vec<Json> = Vec::new();
    let mut i: usize = 0;
    while i < labels.len()
        invariant
            i <= labels.len(),
            v@.len() == i,
            forall|k: int| 0 <= k < i ==> (#[trigger] v@[k])@ == JsonView::Str(labels@[k]@),
        decreases labels.len() - i,
    {
        v.push(text_value(labels[i].as_str()));
        i = i + 1;
    }
    let r = Json::Array(v);
    assert(r@->Array_0 =~= texts(labels@).map_values(|t: Seq<char>| JsonView::Str(t)));
    r
}

/// The JSON form of the answers to a question.
pub fn question_reply_body(answers: &Vec<Vec<String>>) -> (r: Json)
    ensures
        r@ == answers_json(answers@),
{
    let ghost all = answers_json(answers@)->Object_0[0].1->Array_0;
    let mut v: Vec<Json> = Vec::new();
    let mut i: usize = 0;
    while i < answers.len()
        invariant
            i <= answers.len(),
            all.len() == answers@.len(),
            forall|k: int|
                0 <= k < all.len() ==> #[trigger] all[k] == JsonView::Array(
                    texts(answers@[k]@).map_values(|t: Seq<char>| JsonView::Str(t)),
                ),
            v@.len() == i,
            forall|k: int| 0 <= k < i ==> (#[trigger] v@[k])@ == all[k],
        decreases answers.len() - i,
    {
        v.push(labels_value(&answers[i]));
        i = i + 1;
    }
    let list = Json::Array(v);
    assert(list@->Array_0 =~= all);
    let mut members: Vec<(String, Json)> = Vec::new();
    push_member(&mut members, "answers", list);
    assert(members_of(members@) =~= answers_json(answers@)->Object_0);
    object(members)
}

/// A word that answers a permission request.
pub open spec fn permission_word(reply: Seq<char>) -> bool {
    reply == "once"@ || reply == "always"@ || reply == "reject"@
}

/// The JSON form of the answer to a permission request, or the error for a word that is no
/// answer.
pub fn permission_reply_body(reply: &str) -> (r: Result<Json, GatewayError>)
    ensures
        match r {
            Ok(j) => permission_word(reply@) && j@ == JsonView::Object(
                seq![("reply"@, JsonView::Str(reply@))],
            ),
            Err(e) => !permission_word(reply@) && failed_with(
                e,
                "無效的 OpenCode permission reply："@ + reply@,
            ),
        },
{
    if same(reply, "once") || same(reply, "always") || same(reply, "reject") {
        let mut members: Vec<(String, Json)> = Vec::new();
        push_member(&mut members, "reply", text_value(reply));
        assert(members_of(members@) =~= seq![("reply"@, JsonView::Str(reply@))]);
        Ok(object(members))
    } else {
        Err(short_failure("無效的 OpenCode permission reply：", reply))
    }
}

} // verus!

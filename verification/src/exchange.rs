//! One exchange of the server with a client, as a state machine.  The
//! machine decides; whoever drives it performs each action it returns (file
//! system lookups, running a script, writing the reply) and hands back what
//! came of it as the next event.
use vstd::prelude::*;
use crate::conv::lossy_utf8;
use crate::headers::{pairs_view, Pairs};
use crate::paths::{
    extension, has_root, join, path_starts_with, starts_with_path, trim_prefix, trim_prefix_all,
};
use crate::request::{law_last_header_wins, parse_request, parse_text, RequestView};
use crate::headers::lookup;
use crate::script::law_script_env;
use crate::response::{
    build_head, build_response, build_script_response, content_type_of, get_content_type,
    listing_html, listing_page, response_head, response_text, script_response_text, string_views,
};
use crate::script::{
    build_script_env, output_state, parse_script_output, script_env, script_part, script_path,
    script_program, trim_end,
};
use crate::text::{has_prefix, lines, starts_with_text, text_is};

verus! {

/// What a looked-up path turned out to be.
#[derive(Clone, Copy, Debug, PartialEq, Eq, Structural)]
pub enum EntryKind {
    Directory,
    File,
    Other,
}

/// The method a script is run for.
#[derive(Clone, Copy, Debug, PartialEq, Eq, Structural)]
pub enum ScriptMethod {
    Get,
    Post,
}

/// The method's name.
pub open spec fn method_name(m: ScriptMethod) -> Seq<char> {
    match m {
        ScriptMethod::Get => "GET"@,
        ScriptMethod::Post => "POST"@,
    }
}

impl ScriptMethod {
    /// The method's name.
    pub fn name(&self) -> (r: &'static str)
        ensures
            r@ == method_name(*self),
    {
        match self {
            ScriptMethod::Get => "GET",
            ScriptMethod::Post => "POST",
        }
    }
}

/// A line of the access log: the method, the path shown, the status code
/// and the status text.
#[derive(Debug, PartialEq, Eq)]
pub struct LogLine {
    pub method: String,
    pub path: String,
    pub code: u32,
    pub status: String,
}

/// A log line, by its texts.
pub struct LogLineView {
    pub method: Seq<char>,
    pub path: Seq<char>,
    pub code: u32,
    pub status: Seq<char>,
}

impl View for LogLine {
    type V = LogLineView;

    open spec fn view(&self) -> LogLineView {
        LogLineView { method: self.method@, path: self.path@, code: self.code, status: self.status@ }
    }
}

/// What a script run gave back.
#[derive(Debug, PartialEq, Eq)]
pub struct ScriptRun {
    pub success: bool,
    pub stdout: Vec<u8>,
}

/// What happened since the last action.
#[derive(Debug, PartialEq, Eq)]
pub enum Event {
    /// The bytes of the request arrived.
    Received(Vec<u8>),
    /// A path was made canonical, or could not be.
    Resolved(Option<String>),
    /// A path's metadata was read, or could not be.
    Inspected(Option<EntryKind>),
    /// A file was read, giving so many bytes, or could not be.
    FileRead(Option<usize>),
    /// A directory was listed, giving the entry names that are UTF-8 in the
    /// order read, or could not be.
    Listed(Option<Vec<String>>),
    /// Whether the script's path names an existing regular file.
    ScriptChecked(bool),
    /// The script ran to its end, or could not be started, fed or waited on.
    ScriptFinished(Option<ScriptRun>),
}

/// An event, by its plain values.
pub enum EventView {
    Received(Seq<u8>),
    Resolved(Option<Seq<char>>),
    Inspected(Option<EntryKind>),
    FileRead(Option<usize>),
    Listed(Option<Seq<Seq<char>>>),
    ScriptChecked(bool),
    ScriptFinished(Option<(bool, Seq<u8>)>),
}

impl View for Event {
    type V = EventView;

    open spec fn view(&self) -> EventView {
        match self {
            Event::Received(b) => EventView::Received(b@),
            Event::Resolved(p) => EventView::Resolved(
                match p {
                    Some(s) => Some(s@),
                    None => None,
                },
            ),
            Event::Inspected(k) => EventView::Inspected(*k),
            Event::FileRead(n) => EventView::FileRead(*n),
            Event::Listed(l) => EventView::Listed(
                match l {
                    Some(v) => Some(string_views(v@)),
                    None => None,
                },
            ),
            Event::ScriptChecked(b) => EventView::ScriptChecked(*b),
            Event::ScriptFinished(r) => EventView::ScriptFinished(
                match r {
                    Some(run) => Some((run.success, run.stdout@)),
                    None => None,
                },
            ),
        }
    }
}

/// What the server does next.
#[derive(Debug, PartialEq, Eq)]
pub enum Action {
    /// Make this path canonical.
    Canonicalize(String),
    /// Read this path's metadata.
    ReadMetadata(String),
    /// Read this file.
    ReadFile(String),
    /// List this directory.
    ReadDir(String),
    /// Find out whether this path names an existing regular file.
    CheckScript(String),
    /// Run this program with exactly this environment, writing `stdin` to
    /// its standard input if there is one.
    RunScript { program: String, env: Vec<(String, String)>, stdin: Option<String> },
    /// Write this reply, logging the line if there is one, and close.
    Respond { log: Option<LogLine>, response: String },
    /// Write this head followed by the bytes of the file read, log the line,
    /// and close.
    SendFile { log: LogLine, head: String },
    /// Close without a reply: an I/O step failed.
    Close,
}

/// An action, by its plain values.
pub enum ActionView {
    Canonicalize(Seq<char>),
    ReadMetadata(Seq<char>),
    ReadFile(Seq<char>),
    ReadDir(Seq<char>),
    CheckScript(Seq<char>),
    RunScript { program: Seq<char>, env: Pairs, stdin: Option<Seq<char>> },
    Respond { log: Option<LogLineView>, response: Seq<char> },
    SendFile { log: LogLineView, head: Seq<char> },
    Close,
}

impl View for Action {
    type V = ActionView;

    open spec fn view(&self) -> ActionView {
        match self {
            Action::Canonicalize(p) => ActionView::Canonicalize(p@),
            Action::ReadMetadata(p) => ActionView::ReadMetadata(p@),
            Action::ReadFile(p) => ActionView::ReadFile(p@),
            Action::ReadDir(p) => ActionView::ReadDir(p@),
            Action::CheckScript(p) => ActionView::CheckScript(p@),
            Action::RunScript { program, env, stdin } => ActionView::RunScript {
                program: program@,
                env: pairs_view(env@),
                stdin: match stdin {
                    Some(s) => Some(s@),
                    None => None,
                },
            },
            Action::Respond { log, response } => ActionView::Respond {
                log: match log {
                    Some(l) => Some(l@),
                    None => None,
                },
                response: response@,
            },
            Action::SendFile { log, head } => ActionView::SendFile { log: log@, head: head@ },
            Action::Close => ActionView::Close,
        }
    }
}

/// Where an exchange stands.
#[derive(Debug, PartialEq, Eq)]
pub enum Stage {
    /// Waiting for the request.
    Start,
    /// Waiting for the canonical form of the requested file's path.
    ResolvingTarget { path: String },
    /// Waiting for the canonical form of the root.
    ResolvingRoot { path: String, target: String },
    /// Waiting for the metadata of `target`, found to lie under `base`.
    Inspecting { path: String, target: String, base: String },
    /// Waiting for the contents of the file `target`, under `base`.
    ReadingFile { path: String, target: String, base: String },
    /// Waiting for the entries of the directory `target`, under `base`.
    Listing { path: String, target: String, base: String },
    /// Waiting to learn whether the script `program` exists.
    CheckingScript {
        method: ScriptMethod,
        path: String,
        program: String,
        env: Vec<(String, String)>,
        body: String,
    },
    /// Waiting for the script to finish.
    RunningScript { method: ScriptMethod, path: String },
    /// The exchange is over.
    Finished,
}

/// A stage, by its plain values.
pub enum StageView {
    Start,
    ResolvingTarget { path: Seq<char> },
    ResolvingRoot { path: Seq<char>, target: Seq<char> },
    Inspecting { path: Seq<char>, target: Seq<char>, base: Seq<char> },
    ReadingFile { path: Seq<char>, target: Seq<char>, base: Seq<char> },
    Listing { path: Seq<char>, target: Seq<char>, base: Seq<char> },
    CheckingScript {
        method: ScriptMethod,
        path: Seq<char>,
        program: Seq<char>,
        env: Pairs,
        body: Seq<char>,
    },
    RunningScript { method: ScriptMethod, path: Seq<char> },
    Finished,
}

impl View for Stage {
    type V = StageView;

    open spec fn view(&self) -> StageView {
        match self {
            Stage::Start => StageView::Start,
            Stage::ResolvingTarget { path } => StageView::ResolvingTarget { path: path@ },
            Stage::ResolvingRoot { path, target } => StageView::ResolvingRoot {
                path: path@,
                target: target@,
            },
            Stage::Inspecting { path, target, base } => StageView::Inspecting {
                path: path@,
                target: target@,
                base: base@,
            },
            Stage::ReadingFile { path, target, base } => StageView::ReadingFile {
                path: path@,
                target: target@,
                base: base@,
            },
            Stage::Listing { path, target, base } => StageView::Listing {
                path: path@,
                target: target@,
                base: base@,
            },
            Stage::CheckingScript { method, path, program, env, body } => StageView::CheckingScript {
                method: *method,
                path: path@,
                program: program@,
                env: pairs_view(env@),
                body: body@,
            },
            Stage::RunningScript { method, path } => StageView::RunningScript {
                method: *method,
                path: path@,
            },
            Stage::Finished => StageView::Finished,
        }
    }
}

/// The content type of the server's own pages.
pub open spec fn html_type() -> Seq<char> {
    "text/html; charset=utf-8"@
}

/// The reply to a path that names nothing servable.
pub open spec fn not_found_reply() -> Seq<char> {
    response_text(404, "Not Found"@, html_type(), "<html>404 Not Found</html>"@)
}

/// The reply to a path outside the root, or a file that cannot be read.
pub open spec fn forbidden_reply() -> Seq<char> {
    response_text(403, "Forbidden"@, html_type(), "<html>403 Forbidden</html>"@)
}

/// The reply to a method the server does not serve.
pub open spec fn not_allowed_reply() -> Seq<char> {
    response_text(405, "Method Not Allowed"@, html_type(), "<html>405 Method Not Allowed</html>"@)
}

/// The reply to a script that did not succeed.
pub open spec fn script_failed_reply() -> Seq<char> {
    script_response_text(
        500,
        "Internal Server Error"@,
        seq![("Content-Type"@, html_type())],
        "<html>500 Internal Server Error</html>"@,
    )
}

/// A log line.
pub open spec fn log_line(method: Seq<char>, path: Seq<char>, code: u32, status: Seq<char>) -> LogLineView {
    LogLineView { method, path, code, status }
}

/// Reply and close, logging `log` if given.
pub open spec fn respond(log: Option<LogLineView>, response: Seq<char>) -> (StageView, ActionView) {
    (StageView::Finished, ActionView::Respond { log, response })
}

/// The path of the file that a static request names: the root joined with
/// the request path stripped of its leading slashes.
pub open spec fn static_target(root: Seq<char>, path: Seq<char>) -> Seq<char> {
    join(root, trim_prefix_all(path, "/"@))
}

/// Where a script request for `m` leads.
pub open spec fn start_script(root: Seq<char>, m: ScriptMethod, req: RequestView) -> (StageView, ActionView) {
    let program = script_program(root, req.path);
    (
        StageView::CheckingScript {
            method: m,
            path: req.path,
            program,
            env: script_env(req.headers, method_name(m), req.path),
            body: req.body,
        },
        ActionView::CheckScript(program),
    )
}

/// The first step: what a request asks for.  A GET or POST of a path under
/// `/scripts/` runs a script, any other GET serves a file, and anything else
/// is refused with 405.
pub open spec fn on_request(root: Seq<char>, raw: Seq<u8>) -> (StageView, ActionView) {
    let req = parse_text(lossy_utf8(raw));
    let scripted = has_prefix(req.path, "/scripts/"@);
    if req.method == "GET"@ {
        if scripted {
            start_script(root, ScriptMethod::Get, req)
        } else {
            (
                StageView::ResolvingTarget { path: req.path },
                ActionView::Canonicalize(static_target(root, req.path)),
            )
        }
    } else if req.method == "POST"@ && scripted {
        start_script(root, ScriptMethod::Post, req)
    } else {
        respond(None, not_allowed_reply())
    }
}

/// The next stage and action after `event` in `stage`, for a server whose
/// root folder is `root`.  An event that the stage does not wait for ends
/// the exchange without a reply.
pub open spec fn next(root: Seq<char>, stage: StageView, event: EventView) -> (StageView, ActionView) {
    let get = "GET"@;
    match (stage, event) {
        (StageView::Start, EventView::Received(raw)) => on_request(root, raw),
        (StageView::ResolvingTarget { path }, EventView::Resolved(r)) => match r {
            Some(target) => (
                StageView::ResolvingRoot { path, target },
                ActionView::Canonicalize(root),
            ),
            None => respond(Some(log_line(get, path, 404, "Not Found"@)), not_found_reply()),
        },
        (StageView::ResolvingRoot { path, target }, EventView::Resolved(r)) => match r {
            Some(base) => if path_starts_with(target, base) {
                (StageView::Inspecting { path, target, base }, ActionView::ReadMetadata(target))
            } else {
                respond(Some(log_line(get, path, 403, "Forbidden"@)), forbidden_reply())
            },
            None => (StageView::Finished, ActionView::Close),
        },
        (StageView::Inspecting { path, target, base }, EventView::Inspected(k)) => match k {
            Some(EntryKind::Directory) => (
                StageView::Listing { path, target, base },
                ActionView::ReadDir(target),
            ),
            Some(EntryKind::File) => (
                StageView::ReadingFile { path, target, base },
                ActionView::ReadFile(target),
            ),
            _ => respond(Some(log_line(get, path, 404, "Not Found"@)), not_found_reply()),
        },
        (StageView::ReadingFile { path, target, base }, EventView::FileRead(r)) => match r {
            Some(len) => (
                StageView::Finished,
                ActionView::SendFile {
                    log: log_line(get, path, 200, "OK"@),
                    head: response_head(200, "OK"@, content_type_of(extension(target)), len as nat),
                },
            ),
            None => respond(Some(log_line(get, path, 403, "Forbidden"@)), forbidden_reply()),
        },
        (StageView::Listing { path, target, base }, EventView::Listed(r)) => match r {
            Some(names) => respond(
                Some(log_line(get, path, 200, "OK"@)),
                response_text(200, "OK"@, html_type(), listing_page(names)),
            ),
            None => (StageView::Finished, ActionView::Close),
        },
        (StageView::CheckingScript { method, path, program, env, body }, EventView::ScriptChecked(found)) => {
            if found {
                (
                    StageView::RunningScript { method, path },
                    ActionView::RunScript {
                        program,
                        env,
                        stdin: if method == ScriptMethod::Post {
                            Some(body)
                        } else {
                            None
                        },
                    },
                )
            } else {
                respond(Some(log_line(method_name(method), path, 404, "Not Found"@)), not_found_reply())
            }
        },
        (StageView::RunningScript { method, path }, EventView::ScriptFinished(r)) => match r {
            Some((success, stdout)) => if success {
                let out = output_state(lines(lossy_utf8(stdout)));
                respond(
                    Some(log_line(method_name(method), script_part(path), 200, "OK"@)),
                    script_response_text(200, "OK"@, out.headers, trim_end(out.body)),
                )
            } else {
                respond(
                    Some(log_line(method_name(method), path, 500, "Internal Server Error"@)),
                    script_failed_reply(),
                )
            },
            None => (StageView::Finished, ActionView::Close),
        },
        _ => (StageView::Finished, ActionView::Close),
    }
}


/// The path of the file that a static request names.
pub fn static_path(root: &str, path: &str) -> (r: String)
    ensures
        r@ == static_target(root@, path@),
{
    let p = crate::conv::chars_of(path);
    let slash = crate::conv::chars_of("/");
    proof {
        reveal_strlit("/");
    }
    let rel = trim_prefix(p.as_slice(), slash.as_slice());
    let r = crate::conv::chars_of(root);
    let full = crate::paths::join_path(r.as_slice(), rel.as_slice());
    crate::conv::string_of(full.as_slice())
}

/// A log line.
fn log(method: &str, path: &str, code: u32, status: &str) -> (l: LogLine)
    ensures
        l@ == log_line(method@, path@, code, status@),
{
    LogLine { method: method.to_owned(), path: path.to_owned(), code, status: status.to_owned() }
}

/// The reply to a path that names nothing servable.
fn not_found() -> (r: String)
    ensures
        r@ == not_found_reply(),
{
    build_response(404, "Not Found", "text/html; charset=utf-8", "<html>404 Not Found</html>")
}

/// The reply to a path outside the root.
fn forbidden() -> (r: String)
    ensures
        r@ == forbidden_reply(),
{
    build_response(403, "Forbidden", "text/html; charset=utf-8", "<html>403 Forbidden</html>")
}

/// The reply to a method the server does not serve.
fn not_allowed() -> (r: String)
    ensures
        r@ == not_allowed_reply(),
{
    build_response(405, "Method Not Allowed", "text/html; charset=utf-8", "<html>405 Method Not Allowed</html>")
}

/// The reply to a script that did not succeed.
fn script_failed() -> (r: String)
    ensures
        r@ == script_failed_reply(),
{
    let mut h: Vec<(String, String)> = Vec::new();
    h.push(("Content-Type".to_owned(), "text/html; charset=utf-8".to_owned()));
    assert(pairs_view(h@) =~= seq![("Content-Type"@, html_type())]);
    build_script_response(500, "Internal Server Error", &h, "<html>500 Internal Server Error</html>")
}

/// The first step of a script request.
fn start_script_exec(root: &str, m: ScriptMethod, req: crate::request::Request) -> (r: (Stage, Action))
    ensures
        (r.0@, r.1@) == start_script(root@, m, req@),
{
    let program = script_path(root, req.path.as_str());
    let env = build_script_env(&req.headers, m.name(), req.path.as_str());
    let check = program.clone();
    (
        Stage::CheckingScript { method: m, path: req.path, program, env, body: req.body },
        Action::CheckScript(check),
    )
}

/// The first step: what a request asks for.
pub fn on_request_exec(root: &str, raw: &[u8]) -> (r: (Stage, Action))
    ensures
        (r.0@, r.1@) == on_request(root@, raw@),
{
    let req = parse_request(raw);
    let scripted = starts_with_text(req.path.as_str(), "/scripts/");
    if text_is(req.method.as_str(), "GET") {
        if scripted {
            start_script_exec(root, ScriptMethod::Get, req)
        } else {
            let target = static_path(root, req.path.as_str());
            (Stage::ResolvingTarget { path: req.path }, Action::Canonicalize(target))
        }
    } else if text_is(req.method.as_str(), "POST") && scripted {
        start_script_exec(root, ScriptMethod::Post, req)
    } else {
        (Stage::Finished, Action::Respond { log: None, response: not_allowed() })
    }
}

/// The next stage and action after `event` in `stage`.
pub fn step(root: &str, stage: Stage, event: Event) -> (r: (Stage, Action))
    ensures
        (r.0@, r.1@) == next(root@, stage@, event@),
{
    match (stage, event) {
        (Stage::Start, Event::Received(raw)) => on_request_exec(root, raw.as_slice()),
        (Stage::ResolvingTarget { path }, Event::Resolved(r)) => match r {
            Some(target) => (Stage::ResolvingRoot { path, target }, Action::Canonicalize(root.to_owned())),
            None => (
                Stage::Finished,
                Action::Respond { log: Some(log("GET", path.as_str(), 404, "Not Found")), response: not_found() },
            ),
        },
        (Stage::ResolvingRoot { path, target }, Event::Resolved(r)) => match r {
            Some(base) => {
                if starts_with_path(target.as_str(), base.as_str()) {
                    let look = target.clone();
                    (Stage::Inspecting { path, target, base }, Action::ReadMetadata(look))
                } else {
                    (
                        Stage::Finished,
                        Action::Respond {
                            log: Some(log("GET", path.as_str(), 403, "Forbidden")),
                            response: forbidden(),
                        },
                    )
                }
            },
            None => (Stage::Finished, Action::Close),
        },
        (Stage::Inspecting { path, target, base }, Event::Inspected(k)) => match k {
            Some(EntryKind::Directory) => {
                let dir = target.clone();
                (Stage::Listing { path, target, base }, Action::ReadDir(dir))
            },
            Some(EntryKind::File) => {
                let file = target.clone();
                (Stage::ReadingFile { path, target, base }, Action::ReadFile(file))
            },
            _ => (
                Stage::Finished,
                Action::Respond { log: Some(log("GET", path.as_str(), 404, "Not Found")), response: not_found() },
            ),
        },
        (Stage::ReadingFile { path, target, base }, Event::FileRead(r)) => match r {
            Some(len) => {
                let ct = get_content_type(target.as_str());
                let head = build_head(200, "OK", ct.as_str(), len);
                (Stage::Finished, Action::SendFile { log: log("GET", path.as_str(), 200, "OK"), head })
            },
            None => (
                Stage::Finished,
                Action::Respond { log: Some(log("GET", path.as_str(), 403, "Forbidden")), response: forbidden() },
            ),
        },
        (Stage::Listing { path, target, base }, Event::Listed(r)) => match r {
            Some(names) => {
                let page = listing_html(&names);
                let response = build_response(200, "OK", "text/html; charset=utf-8", page.as_str());
                (Stage::Finished, Action::Respond { log: Some(log("GET", path.as_str(), 200, "OK")), response })
            },
            None => (Stage::Finished, Action::Close),
        },
        (Stage::CheckingScript { method, path, program, env, body }, Event::ScriptChecked(found)) => {
            if found {
                let stdin = match method {
                    ScriptMethod::Post => Some(body),
                    ScriptMethod::Get => None,
                };
                (Stage::RunningScript { method, path }, Action::RunScript { program, env, stdin })
            } else {
                (
                    Stage::Finished,
                    Action::Respond {
                        log: Some(log(method.name(), path.as_str(), 404, "Not Found")),
                        response: not_found(),
                    },
                )
            }
        },
        (Stage::RunningScript { method, path }, Event::ScriptFinished(r)) => match r {
            Some(run) => {
                if run.success {
                    let out = parse_script_output(run.stdout.as_slice());
                    let response = build_script_response(200, "OK", &out.headers, out.body.as_str());
                    let shown = crate::script::script_part_of(path.as_str());
                    (
                        Stage::Finished,
                        Action::Respond { log: Some(log(method.name(), shown.as_str(), 200, "OK")), response },
                    )
                } else {
                    (
                        Stage::Finished,
                        Action::Respond {
                            log: Some(log(method.name(), path.as_str(), 500, "Internal Server Error")),
                            response: script_failed(),
                        },
                    )
                }
            },
            None => (Stage::Finished, Action::Close),
        },
        _ => (Stage::Finished, Action::Close),
    }
}

/// One exchange with a client of a server that serves the folder `root`.
pub struct Exchange {
    pub root: String,
    pub stage: Stage,
}

impl Exchange {
    /// An exchange that waits for its request.
    pub fn new(root: String) -> (e: Exchange)
        ensures
            e.root@ == root@,
            e.stage@ == StageView::Start,
    {
        Exchange { root, stage: Stage::Start }
    }

    /// Takes in `event` and returns what to do next.
    pub fn advance(&mut self, event: Event) -> (a: Action)
        ensures
            final(self).root@ == old(self).root@,
            (final(self).stage@, a@) == next(old(self).root@, old(self).stage@, event@),
    {
        let mut stage = Stage::Finished;
        std::mem::swap(&mut stage, &mut self.stage);
        let (s, a) = step(self.root.as_str(), stage, event);
        self.stage = s;
        a
    }
}


/// Law: a request whose method is neither GET nor POST, or a POST of a path
/// outside `/scripts/`, is answered 405 Method Not Allowed, unlogged, and
/// the exchange ends.
pub proof fn law_other_methods_refused(root: Seq<char>, raw: Seq<u8>)
    requires
        ({
            let req = parse_text(lossy_utf8(raw));
            req.method != "GET"@ && !(req.method == "POST"@ && has_prefix(req.path, "/scripts/"@))
        }),
    ensures
        next(root, StageView::Start, EventView::Received(raw)) == respond(None, not_allowed_reply()),
{
}

/// Every file-system entry the exchange inspects, reads or lists lies under
/// the canonical root it was checked against.
pub open spec fn stage_confined(s: StageView) -> bool {
    match s {
        StageView::Inspecting { target, base, .. } => path_starts_with(target, base),
        StageView::ReadingFile { target, base, .. } => path_starts_with(target, base),
        StageView::Listing { target, base, .. } => path_starts_with(target, base),
        _ => true,
    }
}

/// Law: files are served only from under the root.  Each step keeps every
/// stage confined, and an action that inspects, reads or lists a path names
/// the target of the stage it leads to, a path that lies, component by
/// component, under the canonical root as the file system reported it.
pub proof fn law_served_paths_stay_under_root(root: Seq<char>, s: StageView, e: EventView)
    requires
        stage_confined(s),
    ensures
        stage_confined(next(root, s, e).0),
        match next(root, s, e).1 {
            ActionView::ReadMetadata(t) => next(root, s, e).0 matches StageView::Inspecting { target, base, .. }
                && target == t && path_starts_with(t, base),
            ActionView::ReadFile(t) => next(root, s, e).0 matches StageView::ReadingFile { target, base, .. }
                && target == t && path_starts_with(t, base),
            ActionView::ReadDir(t) => next(root, s, e).0 matches StageView::Listing { target, base, .. }
                && target == t && path_starts_with(t, base),
            _ => true,
        },
{
}

/// How many more events an exchange in this stage can take at most.
pub open spec fn steps_left(s: StageView) -> nat {
    match s {
        StageView::Start => 5,
        StageView::ResolvingTarget { .. } => 4,
        StageView::ResolvingRoot { .. } => 3,
        StageView::Inspecting { .. } => 2,
        StageView::ReadingFile { .. } => 1,
        StageView::Listing { .. } => 1,
        StageView::CheckingScript { .. } => 2,
        StageView::RunningScript { .. } => 1,
        StageView::Finished => 0,
    }
}

/// Law: every exchange ends.  Each event brings an unfinished exchange
/// closer to its end, so no exchange takes more than five events; a reply
/// or a close always ends it; and a finished exchange stays finished,
/// answering any further event by closing.
pub proof fn law_exchange_ends(root: Seq<char>, s: StageView, e: EventView)
    ensures
        s != StageView::Finished ==> steps_left(next(root, s, e).0) < steps_left(s),
        s == StageView::Finished ==> next(root, s, e) == (StageView::Finished, ActionView::Close),
        match next(root, s, e).1 {
            ActionView::Respond { .. } => next(root, s, e).0 == StageView::Finished,
            ActionView::SendFile { .. } => next(root, s, e).0 == StageView::Finished,
            ActionView::Close => next(root, s, e).0 == StageView::Finished,
            _ => true,
        },
{
}

/// Law: a script request answers 404 Not Found when the script does not
/// exist, and 500 Internal Server Error when it ran without success.
pub proof fn law_script_failures(root: Seq<char>, s: StageView, stdout: Seq<u8>)
    ensures
        s matches StageView::CheckingScript { method, path, .. } ==> next(root, s, EventView::ScriptChecked(false))
            == respond(Some(log_line(method_name(method), path, 404, "Not Found"@)), not_found_reply()),
        s matches StageView::RunningScript { method, path } ==> next(
            root,
            s,
            EventView::ScriptFinished(Some((false, stdout))),
        ) == respond(
            Some(log_line(method_name(method), path, 500, "Internal Server Error"@)),
            script_failed_reply(),
        ),
{
}

/// Law: a static request is looked up under the root: the path handed to
/// the file system is the root, a separator unless the root ends with one,
/// and the request path without its leading slashes, whatever the request
/// path is.
pub proof fn law_static_target_in_root(root: Seq<char>, path: Seq<char>)
    requires
        root.len() > 0,
    ensures
        has_prefix(static_target(root, path), root),
        !has_root(trim_prefix_all(path, "/"@)),
{
    reveal_strlit("/");
    assert("/"@ =~= seq!['/']);
    lemma_trim_slashes(path);
    let rel = trim_prefix_all(path, "/"@);
    assert(!has_root(rel));
    assert(static_target(root, path).take(root.len() as int) =~= root);
}

/// No leading slash is left after trimming them all.
proof fn lemma_trim_slashes(s: Seq<char>)
    ensures
        !has_root(trim_prefix_all(s, seq!['/'])),
    decreases s.len(),
{
    if s.len() > 0 && s.take(1) == seq!['/'] {
        lemma_trim_slashes(s.skip(1));
    } else if s.len() > 0 && s[0] == '/' {
        assert(s.take(1) =~= seq!['/']);
    }
}


/// Law: a GET or POST of a path under `/scripts/` runs the script, once it
/// is found, with `METHOD` set to the request's own method (`POST` for a
/// POST) and `PATH` to the request path, every request header named
/// otherwise (and not `QUERY_*`) with its value, and the request body on its
/// standard input exactly when the method is POST.
pub proof fn law_script_sees_request(root: Seq<char>, raw: Seq<u8>)
    requires
        ({
            let req = parse_text(lossy_utf8(raw));
            (req.method == "GET"@ || req.method == "POST"@) && has_prefix(req.path, "/scripts/"@)
        }),
    ensures
        ({
            let req = parse_text(lossy_utf8(raw));
            let first = next(root, StageView::Start, EventView::Received(raw));
            let second = next(root, first.0, EventView::ScriptChecked(true));
            &&& first.1 == ActionView::CheckScript(script_program(root, req.path))
            &&& second.1 matches ActionView::RunScript { program, env, stdin } && {
                &&& program == script_program(root, req.path)
                &&& lookup(env, "METHOD"@) == Some(req.method)
                &&& lookup(env, "PATH"@) == Some(req.path)
                &&& forall|k: Seq<char>|
                    k != "METHOD"@ && k != "PATH"@ && !has_prefix(k, "QUERY_"@) ==> #[trigger] lookup(env, k)
                        == lookup(req.headers, k)
                &&& stdin == (if req.method == "POST"@ {
                    Some(req.body)
                } else {
                    None
                })
            }
        }),
{
    let text = lossy_utf8(raw);
    let req = parse_text(text);
    law_last_header_wins(text);
    law_script_env(req.headers, req.method, req.path);
    reveal_strlit("GET");
    reveal_strlit("POST");
    assert("GET"@ != "POST"@) by {
        assert("GET"@.len() != "POST"@.len());
    }
    if req.method == "GET"@ {
        assert(method_name(ScriptMethod::Get) == req.method);
    } else {
        assert(method_name(ScriptMethod::Post) == req.method);
    }
}

} // verus!

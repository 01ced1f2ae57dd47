//! The requests that the daemon serves, and the responses to them.

use crate::deadline::{
    accepted_timeout, time_left, Deadline, FORCED_CLOSE_ATTEMPT_MS, MAX_TIMEOUT_MS, MIN_TIMEOUT_MS,
    NANOS_PER_MS,
};
use crate::fault::{agrees, general, under, Fault, FaultView};
use crate::json::{
    dup, fitting, json_string, json_text, text, Json, JsonView, Members,
};
use crate::outcome::{
    checked, combine_string_operation_cleanup, ensure_valid_state, reported, valid_state,
    with_close, Checked,
};
use crate::rpc::{text_or, value_or_null};
use crate::text::{decimal, from_utf8_lossy, same, show_u64, trim, trimmed, utf8_lossy};
use crate::tools::no_members;
use vstd::prelude::*;

verus! {

/// The commands that are served.
#[derive(Clone, Copy, Debug, PartialEq, Eq, Structural)]
pub enum CommandKind {
    Screenshot,
    Move,
    Click,
    Drag,
    Scroll,
    PressKey,
    TypeText,
}

impl View for CommandKind {
    type V = CommandKind;

    open spec fn view(&self) -> CommandKind {
        *self
    }
}

/// The command with a name.
pub open spec fn kind_of(name: Seq<char>) -> Result<CommandKind, FaultView> {
    if name == "get_screenshot"@ {
        Ok(CommandKind::Screenshot)
    } else if name == "move"@ {
        Ok(CommandKind::Move)
    } else if name == "click"@ {
        Ok(CommandKind::Click)
    } else if name == "drag"@ {
        Ok(CommandKind::Drag)
    } else if name == "scroll"@ {
        Ok(CommandKind::Scroll)
    } else if name == "press_key"@ {
        Ok(CommandKind::PressKey)
    } else if name == "type_text"@ {
        Ok(CommandKind::TypeText)
    } else {
        Err(general("unknown command: "@ + name))
    }
}

/// Finds the command with a name.
pub fn command_kind(name: &str) -> (r: Result<CommandKind, Fault>)
    ensures
        agrees(r, kind_of(name@)),
{
    if same(name, "get_screenshot") {
        Ok(CommandKind::Screenshot)
    } else if same(name, "move") {
        Ok(CommandKind::Move)
    } else if same(name, "click") {
        Ok(CommandKind::Click)
    } else if same(name, "drag") {
        Ok(CommandKind::Drag)
    } else if same(name, "scroll") {
        Ok(CommandKind::Scroll)
    } else if same(name, "press_key") {
        Ok(CommandKind::PressKey)
    } else if same(name, "type_text") {
        Ok(CommandKind::TypeText)
    } else {
        let mut message = "unknown command: ".to_owned();
        message.append(name);
        Err(Fault::new(message))
    }
}

/// The time limit of a request, in milliseconds.
pub open spec fn timeout_of(request: JsonView) -> Result<u64, FaultView> {
    let given = match request.get("timeout_ms"@) {
        Some(v) => fitting(v.integer(), 0, u64::MAX as int),
        None => None,
    };
    match given {
        None => Err(general("request timeout_ms must be an unsigned integer"@)),
        Some(n) => if accepted_timeout(n as u64) {
            Ok(n as u64)
        } else {
            Err(general("request timeout_ms must be between 100 and 120000"@))
        },
    }
}

/// Reads the time limit of a request.
pub fn request_timeout_ms(request: &Json) -> (r: Result<u64, Fault>)
    ensures
        agrees(r, timeout_of(request@)),
{
    let given = match request.get("timeout_ms") {
        Some(v) => v.as_u64(),
        None => None,
    };
    match given {
        None => Err(Fault::of("request timeout_ms must be an unsigned integer")),
        Some(n) => {
            if n < MIN_TIMEOUT_MS || n > MAX_TIMEOUT_MS {
                return Err(Fault::of("request timeout_ms must be between 100 and 120000"));
            }
            Ok(n)
        },
    }
}

/// A request that is served.
#[derive(Debug)]
pub struct Request {
    pub command: String,
    pub input: Json,
    pub timeout_ms: u64,
}

/// A request that is served.
pub struct RequestView {
    pub command: Seq<char>,
    pub input: JsonView,
    pub timeout_ms: u64,
}

impl View for Request {
    type V = RequestView;

    open spec fn view(&self) -> RequestView {
        RequestView {
            command: self.command@,
            input: self.input@,
            timeout_ms: self.timeout_ms,
        }
    }
}

/// What a request asks for; nothing is served once the session was given up.
pub open spec fn request_of(request: JsonView, invalid: bool) -> Result<RequestView, FaultView> {
    match valid_state(invalid) {
        Err(e) => Err(e),
        Ok(()) => match timeout_of(request) {
            Err(e) => Err(e),
            Ok(timeout_ms) => Ok(
                RequestView {
                    command: text_or(request, "cmd"@, ""@),
                    input: value_or_null(request, "input"@),
                    timeout_ms,
                },
            ),
        },
    }
}

/// Reads what a request asks for.
pub fn read_request(request: &Json, invalid: bool) -> (r: Result<Request, Fault>)
    ensures
        agrees(r, request_of(request@, invalid)),
{
    match ensure_valid_state(invalid) {
        Ok(()) => {},
        Err(fault) => return Err(fault),
    }
    let timeout_ms = match request_timeout_ms(request) {
        Ok(ms) => ms,
        Err(fault) => return Err(fault),
    };
    let command = match request.get("cmd") {
        Some(v) => match v.as_str() {
            Some(s) => s.to_owned(),
            None => "".to_owned(),
        },
        None => "".to_owned(),
    };
    let input = match request.get("input") {
        Some(v) => dup(v),
        None => Json::Null,
    };
    Ok(Request { command, input, timeout_ms })
}

/// A response.
pub open spec fn response(result: Result<Seq<char>, FaultView>) -> JsonView {
    match result {
        Ok(stdout) => JsonView::Object(
            no_members().push(("ok"@, JsonView::Bool(true))).push(
                ("stdout"@, JsonView::Text(stdout)),
            ),
        ),
        Err(e) => JsonView::Object(
            no_members().push(("ok"@, JsonView::Bool(false))).push(
                ("error"@, JsonView::Text(e.message)),
            ),
        ),
    }
}

/// Responds with what a command came to.
pub fn respond(result: Result<String, Fault>) -> (r: Json)
    ensures
        r@ == response(reported(result)),
{
    match result {
        Ok(stdout) => Members::new().with("ok", Json::Bool(true)).with(
            "stdout",
            text(stdout.as_str()),
        ).object(),
        Err(fault) => Members::new().with("ok", Json::Bool(false)).with(
            "error",
            text(fault.message.as_str()),
        ).object(),
    }
}

/// The response to a line that is not a request.
pub fn bad_request(why: &str) -> (r: Json)
    ensures
        r@ == response(Err(general("bad request json: "@ + why@))),
{
    let mut message = "bad request json: ".to_owned();
    message.append(why);
    respond(Err(Fault::new(message)))
}

/// How long, in nanoseconds, closing a session that was given up may take: the
/// time that is left, or a little where none is.
pub open spec fn close_time(deadline: Deadline, now: u64) -> u64 {
    match time_left(deadline.end, now) {
        Ok(left) => left,
        Err(_) => (FORCED_CLOSE_ATTEMPT_MS * NANOS_PER_MS) as u64,
    }
}

/// Decides how long closing a session that was given up may take.
pub fn close_limit(deadline: Deadline, now: u64) -> (r: u64)
    ensures
        r == close_time(deadline, now),
        r > 0,
{
    match deadline.remaining_at(now) {
        Ok(left) => left,
        Err(_) => FORCED_CLOSE_ATTEMPT_MS * NANOS_PER_MS,
    }
}

/// What came of a request to the session.
#[derive(Debug)]
pub enum SessionReply<S> {
    Done,
    Failed(S),
    TimedOut,
}

impl SessionReply<String> {
    pub open spec fn view(self) -> SessionReply<Seq<char>> {
        match self {
            SessionReply::Done => SessionReply::Done,
            SessionReply::Failed(why) => SessionReply::Failed(why@),
            SessionReply::TimedOut => SessionReply::TimedOut,
        }
    }
}

/// What closing a session came to.
pub open spec fn closed(reply: SessionReply<Seq<char>>) -> Checked {
    match reply {
        SessionReply::Done => Ok(()),
        SessionReply::Failed(why) => Err(
            under("failed to close invalid RemoteDesktop session"@, general(why)),
        ),
        SessionReply::TimedOut => Err(
            general("timed out closing invalid RemoteDesktop session"@),
        ),
    }
}

/// Reports what closing a session came to.
pub fn report_close(reply: SessionReply<String>) -> (r: Result<(), Fault>)
    ensures
        agrees(r, closed(reply@)),
{
    match reply {
        SessionReply::Done => Ok(()),
        SessionReply::Failed(why) => Err(
            Fault::new(why).context("failed to close invalid RemoteDesktop session"),
        ),
        SessionReply::TimedOut => Err(
            Fault::of("timed out closing invalid RemoteDesktop session"),
        ),
    }
}

/// What a command came to, with the closing of the session where it was given
/// up.
pub open spec fn concluded(operation: Result<Seq<char>, FaultView>, close: Option<Checked>) -> JsonView {
    match close {
        Some(c) => response(with_close(operation, c)),
        None => response(operation),
    }
}

/// Responds with what a command came to, and with the closing of the session
/// where it was given up.
pub fn conclude(operation: Result<String, Fault>, close: Option<Result<(), Fault>>) -> (r: Json)
    ensures
        r@ == concluded(
            reported(operation),
            match close {
                Some(c) => Some(checked(c)),
                None => None,
            },
        ),
{
    match close {
        Some(c) => respond(combine_string_operation_cleanup(operation, c)),
        None => respond(operation),
    }
}

/// Once the session was given up, every request is answered with a failure.
pub proof fn law_invalid_sessions_serve_nothing(request: JsonView)
    ensures
        request_of(request, true) == Err::<RequestView, FaultView>(
            general("RemoteDesktop backend is invalid; daemon is terminating"@),
        ),
{
}

/// What asking the session for a stream of pictures came to; anything but
/// success means that the session is given up.
pub open spec fn stream_opened(reply: SessionReply<Seq<char>>) -> Checked {
    match reply {
        SessionReply::Done => Ok(()),
        SessionReply::Failed(why) => Err(
            under(
                "open_pipe_wire_remote failed; RemoteDesktop session invalidated"@,
                general(why),
            ),
        ),
        SessionReply::TimedOut => Err(
            general("open_pipe_wire_remote timed out; RemoteDesktop session invalidated"@),
        ),
    }
}

/// Reports what asking the session for a stream of pictures came to.
pub fn report_stream(reply: SessionReply<String>) -> (r: Result<(), Fault>)
    ensures
        agrees(r, stream_opened(reply@)),
{
    match reply {
        SessionReply::Done => Ok(()),
        SessionReply::Failed(why) => Err(
            Fault::new(why).context(
                "open_pipe_wire_remote failed; RemoteDesktop session invalidated",
            ),
        ),
        SessionReply::TimedOut => Err(
            Fault::of("open_pipe_wire_remote timed out; RemoteDesktop session invalidated"),
        ),
    }
}

/// The name of the file of a picture.
pub open spec fn picture_name(process: int, millis: int) -> Seq<char> {
    "codex-cu-"@ + decimal(process) + "-"@ + decimal(millis) + ".jpg"@
}

/// The name of the file of a picture.
pub fn picture_file_name(process: u32, millis: u64) -> (r: String)
    ensures
        r@ == picture_name(process as int, millis as int),
{
    let mut name = "codex-cu-".to_owned();
    name.append(show_u64(process as u64).as_str());
    name.append("-");
    name.append(show_u64(millis).as_str());
    name.append(".jpg");
    name
}

/// The list of the one picture that was taken, as it is printed.
pub open spec fn pictures(path: Seq<char>) -> Seq<char> {
    "[{\"filepath\":"@ + json_string(path) + "}]"@
}

/// Writes the list of the one picture that was taken.
pub fn list_picture(path: &str) -> (r: String)
    ensures
        r@ == pictures(path@),
{
    let mut list = "[{\"filepath\":".to_owned();
    list.append(json_text(path).as_str());
    list.append("}]");
    list
}

/// What the program that takes a picture came to: its status as it is shown,
/// what it wrote, decoded, and whether there is a picture.
pub open spec fn picture_check(
    success: bool,
    status: Seq<char>,
    written: Seq<char>,
    produced: bool,
) -> Checked {
    if !success {
        Err(general("gstreamer capture failed ("@ + status + "): "@ + trimmed(written)))
    } else if !produced {
        Err(general("screenshot file was not produced"@))
    } else {
        Ok(())
    }
}

/// Reports what the program that takes a picture came to.
pub fn check_picture(success: bool, status: &str, written: &str, produced: bool) -> (r: Result<
    (),
    Fault,
>)
    ensures
        agrees(r, picture_check(success, status@, written@, produced)),
{
    if !success {
        let mut message = "gstreamer capture failed (".to_owned();
        message.append(status);
        message.append("): ");
        message.append(trim(written));
        return Err(Fault::new(message));
    }
    if !produced {
        return Err(Fault::of("screenshot file was not produced"));
    }
    Ok(())
}

/// Reports what the program that takes a picture came to, given the bytes that
/// it wrote.
pub fn picture_outcome(success: bool, status: &str, stderr: &[u8], produced: bool) -> (r: Result<
    (),
    Fault,
>)
    ensures
        agrees(r, picture_check(success, status@, utf8_lossy(stderr@), produced)),
{
    let written = from_utf8_lossy(stderr);
    check_picture(success, status, written.as_str(), produced)
}

/// A command is known by its whole name, each by its own.
pub proof fn law_commands_are_known_by_name(name: Seq<char>)
    ensures
        match kind_of(name) {
            Ok(CommandKind::Screenshot) => name == "get_screenshot"@,
            Ok(CommandKind::Move) => name == "move"@,
            Ok(CommandKind::Click) => name == "click"@,
            Ok(CommandKind::Drag) => name == "drag"@,
            Ok(CommandKind::Scroll) => name == "scroll"@,
            Ok(CommandKind::PressKey) => name == "press_key"@,
            Ok(CommandKind::TypeText) => name == "type_text"@,
            Err(_) => name != "get_screenshot"@ && name != "move"@ && name != "click"@ && name
                != "drag"@ && name != "scroll"@ && name != "press_key"@ && name != "type_text"@,
        },
{
}

/// A request is served as it is written, with a time limit from a tenth of a
/// second to two minutes; without such a limit it is refused.
pub proof fn law_requests_are_served_as_written(request: JsonView)
    ensures
        match request_of(request, false) {
            Ok(r) => {
                &&& 100 <= r.timeout_ms <= 120_000
                &&& request.get("timeout_ms"@) matches Some(v) && v.integer() == Some(
                    r.timeout_ms as int,
                )
                &&& match request.get("cmd"@) {
                    Some(JsonView::Text(s)) => r.command == s,
                    _ => r.command == ""@,
                }
                &&& match request.get("input"@) {
                    Some(v) => r.input == v,
                    None => r.input == JsonView::Null,
                }
            },
            Err(_) => request.get("timeout_ms"@) is None || match request.get(
                "timeout_ms"@,
            )->Some_0.integer() {
                Some(n) => !(100 <= n <= 120_000),
                None => true,
            },
        },
{
}

/// A command succeeds just where it did and the session, where it was given up,
/// was closed.
pub proof fn law_commands_succeed_with_their_clean_up(
    operation: Result<Seq<char>, FaultView>,
    close: Option<Checked>,
)
    ensures
        concluded(operation, close) == response(operation) || close is Some && close->Some_0 is Err,
        operation is Ok && (close is None || close->Some_0 is Ok) ==> concluded(operation, close)
            == response(operation),
        close matches Some(c) && c is Err ==> exists|e: FaultView|
            concluded(operation, close) == #[trigger] response(Err(e)),
{
    if close is Some && close->Some_0 is Err {
        let r = with_close(operation, close->Some_0);
        assert(r is Err);
        assert(concluded(operation, close) == response(Err(r->Err_0)));
    }
}

/// A broken session is closed in the time that is left, or in a hundredth of a
/// second where none is; it is closed, and a stream is there, only where that
/// was answered so.
pub proof fn law_sessions_are_closed_in_time(
    deadline: Deadline,
    now: u64,
    reply: SessionReply<Seq<char>>,
    invalid: bool,
)
    ensures
        now < deadline.end ==> close_time(deadline, now) == deadline.end - now,
        now >= deadline.end ==> close_time(deadline, now) == 10_000_000,
        closed(reply) is Ok <==> reply is Done,
        stream_opened(reply) is Ok <==> reply is Done,
        request_of(JsonView::Null, invalid) is Err,
{
}

/// A picture was taken just where the program that takes it succeeded and left
/// one.
pub proof fn law_pictures_have_to_be_there(
    success: bool,
    status: Seq<char>,
    written: Seq<char>,
    produced: bool,
)
    ensures
        picture_check(success, status, written, produced) is Ok <==> success && produced,
{
}

/// A request is seen as it is.
pub proof fn law_requests_are_seen_as_they_are(r: Request)
    ensures
        r@.command == r.command@ && r@.input == r.input@ && r@.timeout_ms == r.timeout_ms,
{
}

} // verus!

//! The requests that a caller of tools sends, and the responses to them.

use crate::fault::{agrees, general, Fault, FaultView};
use crate::json::{
    dup, int_value, integer, lemma_found_push, text, Items, Json, JsonView, Members,
};
use crate::text::{from_utf8_lossy, same, trim, trimmed, utf8_lossy};
use crate::tools::{no_members, tool_defs, tool_values, tools, MemberView};
use vstd::prelude::*;

verus! {

/// How long, in milliseconds, an input command may take.
pub const SKY_TIMEOUT_MS: u64 = 10_000;

/// How much longer, in milliseconds, the program that carries it out may take.
pub const SKY_GRACE_MS: u64 = 1_000;

/// What a request asks for.
#[derive(Debug)]
pub enum Incoming<S, J> {
    /// Nothing that is answered.
    Ignored,
    /// Something that is answered at once.
    Answered(J),
    /// A call of a tool, whose result is the answer to the request.
    Call { id: J, name: S, arguments: J },
}

impl Incoming<String, Json> {
    pub open spec fn view(self) -> Incoming<Seq<char>, JsonView> {
        match self {
            Incoming::Ignored => Incoming::Ignored,
            Incoming::Answered(v) => Incoming::Answered(v@),
            Incoming::Call { id, name, arguments } => Incoming::Call {
                id: id@,
                name: name@,
                arguments: arguments@,
            },
        }
    }
}

/// The beginning of every response.
pub open spec fn envelope(id: JsonView) -> Seq<MemberView> {
    no_members().push(("jsonrpc"@, JsonView::Text("2.0"@))).push(("id"@, id))
}

/// A response with a result.
pub open spec fn response(id: JsonView, result: JsonView) -> JsonView {
    JsonView::Object(envelope(id).push(("result"@, result)))
}

/// What a failed call gives.
pub open spec fn failure_value(message: Seq<char>) -> JsonView {
    JsonView::Object(
        no_members().push(("isError"@, JsonView::Bool(true))).push(
            (
                "content"@,
                JsonView::Array(
                    Seq::<JsonView>::empty().push(
                        JsonView::Object(
                            no_members().push(("type"@, JsonView::Text("text"@))).push(
                                ("text"@, JsonView::Text(message)),
                            ),
                        ),
                    ),
                ),
            ),
        ),
    )
}

/// What is said of this server.
pub open spec fn introduction(version: Seq<char>) -> JsonView {
    JsonView::Object(
        no_members()
            .push(("protocolVersion"@, JsonView::Text(version)))
            .push(
                (
                    "capabilities"@,
                    JsonView::Object(no_members().push(("tools"@, JsonView::Object(no_members())))),
                ),
            )
            .push(
                (
                    "serverInfo"@,
                    JsonView::Object(
                        no_members().push(
                            ("name"@, JsonView::Text("codex-computer-use-linux"@)),
                        ).push(("version"@, JsonView::Text("0.1.0"@))),
                    ),
                ),
            ),
    )
}

/// A response to a request for something that there is not.
pub open spec fn no_method(id: JsonView, method: Seq<char>) -> JsonView {
    JsonView::Object(
        envelope(id).push(
            (
                "error"@,
                JsonView::Object(
                    no_members().push(("code"@, int_value(-32601))).push(
                        ("message"@, JsonView::Text("method not found: "@ + method)),
                    ),
                ),
            ),
        ),
    )
}

/// The text that a member holds, or else another.
pub open spec fn text_or(v: JsonView, name: Seq<char>, other: Seq<char>) -> Seq<char> {
    match v.get(name) {
        Some(m) => match m.text() {
            Some(s) => s,
            None => other,
        },
        None => other,
    }
}

/// What a member holds, or null.
pub open spec fn value_or_null(v: JsonView, name: Seq<char>) -> JsonView {
    match v.get(name) {
        Some(m) => m,
        None => JsonView::Null,
    }
}

/// What a request asks for: one without an identifier is not answered.
pub open spec fn received(request: JsonView) -> Incoming<Seq<char>, JsonView> {
    match request.get("id"@) {
        None => Incoming::Ignored,
        Some(id) => {
            let method = text_or(request, "method"@, ""@);
            let params = value_or_null(request, "params"@);
            if method == "initialize"@ {
                Incoming::Answered(
                    response(id, introduction(text_or(params, "protocolVersion"@, "2025-06-18"@))),
                )
            } else if method == "tools/list"@ {
                Incoming::Answered(
                    response(
                        id,
                        JsonView::Object(
                            no_members().push(
                                ("tools"@, JsonView::Array(tool_values(tools()))),
                            ),
                        ),
                    ),
                )
            } else if method == "tools/call"@ {
                Incoming::Call {
                    id,
                    name: text_or(params, "name"@, ""@),
                    arguments: value_or_null(params, "arguments"@),
                }
            } else if method == "ping"@ {
                Incoming::Answered(response(id, JsonView::Object(no_members())))
            } else {
                Incoming::Answered(no_method(id, method))
            }
        },
    }
}

fn get_text(v: &Json, name: &str, other: &str) -> (r: String)
    ensures
        r@ == text_or(v@, name@, other@),
{
    match v.get(name) {
        Some(m) => match m.as_str() {
            Some(s) => s.to_owned(),
            None => other.to_owned(),
        },
        None => other.to_owned(),
    }
}

fn get_value(v: &Json, name: &str) -> (r: Json)
    ensures
        r@ == value_or_null(v@, name@),
{
    match v.get(name) {
        Some(m) => dup(m),
        None => Json::Null,
    }
}

fn open_envelope(id: Json) -> (r: Members)
    ensures
        r@ == envelope(id@),
{
    Members::new().with("jsonrpc", text("2.0")).with("id", id)
}

fn make_introduction(version: &str) -> (r: Json)
    ensures
        r@ == introduction(version@),
{
    Members::new()
        .with("protocolVersion", text(version))
        .with("capabilities", Members::new().with("tools", Members::new().object()).object())
        .with(
            "serverInfo",
            Members::new().with("name", text("codex-computer-use-linux")).with(
                "version",
                text("0.1.0"),
            ).object(),
        )
        .object()
}

/// Takes a request.
pub fn receive(request: &Json) -> (r: Incoming<String, Json>)
    ensures
        r@ == received(request@),
{
    let id = match request.get("id") {
        None => return Incoming::Ignored,
        Some(id) => dup(id),
    };
    let method = get_text(request, "method", "");
    let params = get_value(request, "params");
    let method = method.as_str();
    if same(method, "initialize") {
        let version = get_text(&params, "protocolVersion", "2025-06-18");
        Incoming::Answered(
            open_envelope(id).with("result", make_introduction(version.as_str())).object(),
        )
    } else if same(method, "tools/list") {
        let list = Members::new().with("tools", tool_defs()).object();
        Incoming::Answered(open_envelope(id).with("result", list).object())
    } else if same(method, "tools/call") {
        Incoming::Call {
            id,
            name: get_text(&params, "name", ""),
            arguments: get_value(&params, "arguments"),
        }
    } else if same(method, "ping") {
        Incoming::Answered(open_envelope(id).with("result", Members::new().object()).object())
    } else {
        let mut message = "method not found: ".to_owned();
        message.append(method);
        let error = Members::new().with("code", integer(-32601)).with(
            "message",
            text(message.as_str()),
        ).object();
        Incoming::Answered(open_envelope(id).with("error", error).object())
    }
}

/// The response to a call.
pub open spec fn call_response(id: JsonView, result: Result<JsonView, FaultView>) -> JsonView {
    match result {
        Ok(value) => response(id, value),
        Err(e) => response(id, failure_value(e.message)),
    }
}

/// The view of the result of a call.
pub open spec fn result_view(r: Result<Json, Fault>) -> Result<JsonView, FaultView> {
    match r {
        Ok(v) => Ok(v@),
        Err(f) => Err(f@),
    }
}

/// Answers a call.
pub fn answer_call(id: Json, result: Result<Json, Fault>) -> (r: Json)
    ensures
        r@ == call_response(id@, result_view(result)),
{
    match result {
        Ok(value) => open_envelope(id).with("result", value).object(),
        Err(fault) => {
            let line = Members::new().with("type", text("text")).with(
                "text",
                text(fault.message.as_str()),
            ).object();
            let value = Members::new().with("isError", Json::Bool(true)).with(
                "content",
                Items::new().with(line).list(),
            ).object();
            open_envelope(id).with("result", value).object()
        },
    }
}

proof fn lemma_envelope_holds_id(id: JsonView, name: Seq<char>, value: JsonView)
    ensures
        JsonView::Object(envelope(id).push((name, value))).get("id"@) == Some(id),
{
    reveal_strlit("jsonrpc");
    reveal_strlit("id");
    assert("jsonrpc"@.len() == 7);
    assert("id"@.len() == 2);
    let a = no_members();
    let b = a.push(("jsonrpc"@, JsonView::Text("2.0"@)));
    lemma_found_push(a, "jsonrpc"@, JsonView::Text("2.0"@), "id"@);
    lemma_found_push(b, "id"@, id, "id"@);
    lemma_found_push(envelope(id), name, value, "id"@);
}

/// Every response bears the identifier of its request.
pub proof fn law_responses_bear_the_identifier(
    request: JsonView,
    result: Result<JsonView, FaultView>,
)
    ensures
        match received(request) {
            Incoming::Ignored => request.get("id"@) is None,
            Incoming::Answered(v) => v.get("id"@) == request.get("id"@),
            Incoming::Call { id, .. } => call_response(id, result).get("id"@) == request.get(
                "id"@,
            ),
        },
{
    if let Some(id) = request.get("id"@) {
        let method = text_or(request, "method"@, ""@);
        let params = value_or_null(request, "params"@);
        match received(request) {
            Incoming::Call { .. } => {
                match result {
                    Ok(value) => lemma_envelope_holds_id(id, "result"@, value),
                    Err(e) => lemma_envelope_holds_id(id, "result"@, failure_value(e.message)),
                }
            },
            _ => {
                lemma_envelope_holds_id(
                    id,
                    "result"@,
                    introduction(text_or(params, "protocolVersion"@, "2025-06-18"@)),
                );
                lemma_envelope_holds_id(
                    id,
                    "result"@,
                    JsonView::Object(
                        no_members().push(("tools"@, JsonView::Array(tool_values(tools())))),
                    ),
                );
                lemma_envelope_holds_id(id, "result"@, JsonView::Object(no_members()));
                lemma_envelope_holds_id(
                    id,
                    "error"@,
                    JsonView::Object(
                        no_members().push(("code"@, int_value(-32601))).push(
                            ("message"@, JsonView::Text("method not found: "@ + method)),
                        ),
                    ),
                );
            },
        }
    }
}

/// What the program that carries out input commands came to, its output
/// decoded.
pub open spec fn helper_result(success: bool, out: Seq<char>, err: Seq<char>) -> Result<
    Seq<char>,
    FaultView,
> {
    if success {
        Ok(out)
    } else {
        Err(general(trimmed(err)))
    }
}

/// Reports what the program that carries out input commands came to, its
/// output decoded.
pub fn report_helper(success: bool, out: String, err: &str) -> (r: Result<String, Fault>)
    ensures
        agrees(r, helper_result(success, out@, err@)),
{
    if success {
        Ok(out)
    } else {
        Err(Fault::of(trim(err)))
    }
}

/// Reports what the program that carries out input commands came to.
pub fn helper_outcome(success: bool, stdout: &[u8], stderr: &[u8]) -> (r: Result<String, Fault>)
    ensures
        agrees(r, helper_result(success, utf8_lossy(stdout@), utf8_lossy(stderr@))),
{
    let out = from_utf8_lossy(stdout);
    let err = from_utf8_lossy(stderr);
    report_helper(success, out, err.as_str())
}

/// The program that carries input commands out, where the variable
/// `SKY_WAYLAND_BIN` of the environment names one: a blank value names none.
pub fn named_helper(value: Option<&str>) -> (r: Option<&str>)
    ensures
        r is Some <==> value is Some && trimmed(value->Some_0@).len() > 0,
        r is Some ==> r == value,
{
    match value {
        Some(path) => if trim(path).unicode_len() == 0 {
            None
        } else {
            value
        },
        None => None,
    }
}

/// What is said of an input command that took too long.
pub fn helper_timed_out(command: &str) -> (r: Fault)
    ensures
        r@ == general("sky_wayland "@ + command@ + " exceeded its hard timeout"@),
{
    let mut message = "sky_wayland ".to_owned();
    message.append(command);
    message.append(" exceeded its hard timeout");
    Fault::new(message)
}

/// A call of a tool is passed on as it is written: with the identifier of the
/// request, the name of the tool and its arguments. A request without an
/// identifier is not answered.
pub proof fn law_calls_are_passed_on_as_written(request: JsonView)
    ensures
        received(request) is Ignored <==> request.get("id"@) is None,
        received(request) matches Incoming::Call { id, name, arguments } ==> {
            &&& request.get("id"@) == Some(id)
            &&& request.get("method"@) == Some(JsonView::Text("tools/call"@))
            &&& match request.get("params"@) {
                Some(params) => {
                    &&& match params.get("name"@) {
                        Some(JsonView::Text(s)) => name == s,
                        _ => name == ""@,
                    }
                    &&& match params.get("arguments"@) {
                        Some(v) => arguments == v,
                        None => arguments == JsonView::Null,
                    }
                },
                None => name == ""@ && arguments == JsonView::Null,
            }
        },
{
    reveal_strlit("");
    reveal_strlit("tools/call");
    assert(""@.len() == 0 && "tools/call"@.len() == 10);
}

/// The response to a call holds what the call gave; where it failed, it says so
/// and tells why.
pub proof fn law_responses_hold_the_result(id: JsonView, result: Result<JsonView, FaultView>)
    ensures
        match result {
            Ok(value) => call_response(id, result).get("result"@) == Some(value),
            Err(e) => call_response(id, result).get("result"@) matches Some(value) && value.get(
                "isError"@,
            ) == Some(JsonView::Bool(true)) && (value.get("content"@) matches Some(
                JsonView::Array(items),
            ) && items.len() == 1 && items[0].get("text"@) == Some(JsonView::Text(e.message))),
        },
{
    reveal_strlit("jsonrpc");
    reveal_strlit("id");
    reveal_strlit("result");
    reveal_strlit("isError");
    reveal_strlit("content");
    reveal_strlit("type");
    reveal_strlit("text");
    assert("jsonrpc"@.len() == 7 && "id"@.len() == 2 && "result"@.len() == 6);
    assert("isError"@[0] == 'i' && "content"@[0] == 'c');
    assert("type"@[1] == 'y' && "text"@[1] == 'e');
    let value = match result {
        Ok(value) => value,
        Err(e) => failure_value(e.message),
    };
    let a = no_members();
    let b = a.push(("jsonrpc"@, JsonView::Text("2.0"@)));
    let c = b.push(("id"@, id));
    lemma_found_push(a, "jsonrpc"@, JsonView::Text("2.0"@), "result"@);
    lemma_found_push(b, "id"@, id, "result"@);
    lemma_found_push(c, "result"@, value, "result"@);
    if let Err(e) = result {
        let line = a.push(("type"@, JsonView::Text("text"@)));
        lemma_found_push(a, "type"@, JsonView::Text("text"@), "text"@);
        lemma_found_push(line, "text"@, JsonView::Text(e.message), "text"@);
        let items = JsonView::Array(
            Seq::<JsonView>::empty().push(
                JsonView::Object(line.push(("text"@, JsonView::Text(e.message)))),
            ),
        );
        let d = a.push(("isError"@, JsonView::Bool(true)));
        lemma_found_push(a, "isError"@, JsonView::Bool(true), "isError"@);
        lemma_found_push(a, "isError"@, JsonView::Bool(true), "content"@);
        lemma_found_push(d, "content"@, items, "isError"@);
        lemma_found_push(d, "content"@, items, "content"@);
    }
}

/// An input command succeeded just where the program that carries it out did,
/// with what it wrote; where it failed, its complaint is told.
pub proof fn law_helpers_are_believed(success: bool, out: Seq<char>, err: Seq<char>)
    ensures
        success ==> helper_result(success, out, err) == Ok::<Seq<char>, FaultView>(out),
        !success ==> helper_result(success, out, err) == Err::<Seq<char>, FaultView>(
            general(trimmed(err)),
        ),
{
}

} // verus!

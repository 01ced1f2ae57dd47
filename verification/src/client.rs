//! The command line, and getting a command to the daemon.

use crate::daemon::{request_of, response, RequestView};
use crate::deadline::{
    accepted_timeout, DEFAULT_TIMEOUT_MS, FIRST_START_TIMEOUT_MS, MAX_TIMEOUT_MS, MIN_TIMEOUT_MS,
};
use crate::fault::{agrees, general, under, Fault, FaultView};
use crate::input::opt_text;
use crate::json::{int_value, lemma_found_push, natural, text, Json, JsonView, Members};
use crate::rpc::text_or;
use crate::text::{
    blank, explain_u64, parse_unsigned, parsed_unsigned, quote, quoted, same, starts_with, texts,
    trim, trimmed, u64_error,
};
use crate::tools::no_members;
use vstd::prelude::*;

verus! {

/// How long to wait, in milliseconds, before the daemon is looked for again.
pub const CONNECT_PAUSE_MS: u64 = 200;

/// A command and its time limit in milliseconds.
#[derive(Debug)]
pub struct Cli {
    pub command: String,
    pub timeout_ms: u64,
}

/// A command and its time limit.
pub struct CliView {
    pub command: Seq<char>,
    pub timeout_ms: u64,
}

impl View for Cli {
    type V = CliView;

    open spec fn view(&self) -> CliView {
        CliView { command: self.command@, timeout_ms: self.timeout_ms }
    }
}

/// What a command line asks for.
#[derive(Debug)]
pub enum Asked<C> {
    Help,
    Run(C),
}

impl Asked<Cli> {
    pub open spec fn view(self) -> Asked<CliView> {
        match self {
            Asked::Help => Asked::Help,
            Asked::Run(cli) => Asked::Run(cli@),
        }
    }
}

/// The time limit that an option gives.
pub open spec fn limit_of(raw: Seq<char>) -> Result<u64, FaultView> {
    match parsed_unsigned(raw, u64::MAX as nat) {
        None => Err(
            under("invalid --timeout-ms value "@ + quoted(raw), general(u64_error(raw))),
        ),
        Some(n) => if accepted_timeout(n as u64) {
            Ok(n as u64)
        } else {
            Err(general("--timeout-ms must be between 100 and 120000"@))
        },
    }
}

/// What is said of an option whose value is missing.
pub open spec fn lacks_value(option: Seq<char>) -> FaultView {
    general(option + " requires a value"@)
}

/// What a command line asks for, with the time limit that was given so far. An
/// option that is not known is passed over with the value that follows it.
pub open spec fn asked(args: Seq<Seq<char>>, timeout_ms: u64) -> Result<Asked<CliView>, FaultView>
    decreases args.len(),
{
    if args.len() == 0 {
        Err(general("no subcommand provided"@))
    } else {
        let first = args[0];
        if first == "--timeout-ms"@ {
            if args.len() < 2 {
                Err(lacks_value(first))
            } else {
                match limit_of(args[1]) {
                    Err(e) => Err(e),
                    Ok(limit) => asked(args.skip(2), limit),
                }
            }
        } else if first == "--client"@ || first == "--mouse-size-px"@ {
            if args.len() < 2 {
                Err(lacks_value(first))
            } else {
                asked(args.skip(2), timeout_ms)
            }
        } else if first == "-h"@ || first == "--help"@ {
            Ok(Asked::Help)
        } else if "--"@.is_prefix_of(first) {
            if args.len() >= 2 && !("--"@.is_prefix_of(args[1])) {
                asked(args.skip(2), timeout_ms)
            } else {
                asked(args.skip(1), timeout_ms)
            }
        } else {
            Ok(Asked::Run(CliView { command: first, timeout_ms }))
        }
    }
}

fn read_limit(raw: &str) -> (r: Result<u64, Fault>)
    ensures
        agrees(r, limit_of(raw@)),
{
    match parse_unsigned(raw, u64::MAX) {
        None => {
            let mut heading = "invalid --timeout-ms value ".to_owned();
            heading.append(quote(raw).as_str());
            Err(Fault::new(explain_u64(raw)).context(heading.as_str()))
        },
        Some(n) => {
            if n < MIN_TIMEOUT_MS || n > MAX_TIMEOUT_MS {
                return Err(Fault::of("--timeout-ms must be between 100 and 120000"));
            }
            Ok(n)
        },
    }
}

fn no_value(option: &str) -> (r: Fault)
    ensures
        r@ == lacks_value(option@),
{
    let mut message = option.to_owned();
    message.append(" requires a value");
    Fault::new(message)
}

/// Reads a command line.
pub fn parse_cli_from(args: &Vec<String>) -> (r: Result<Asked<Cli>, Fault>)
    ensures
        match (r, asked(texts(args@), DEFAULT_TIMEOUT_MS)) {
            (Ok(a), Ok(e)) => a@ == e,
            (Err(f), Err(e)) => f@ == e,
            _ => false,
        },
{
    let ghost all = texts(args@);
    let n = args.len();
    let mut i: usize = 0;
    let mut timeout_ms: u64 = DEFAULT_TIMEOUT_MS;
    assert(all.skip(0) =~= all);
    while i < n
        invariant
            i <= n == args@.len(),
            all == texts(args@),
            asked(all, DEFAULT_TIMEOUT_MS) == asked(all.skip(i as int), timeout_ms),
        decreases n - i,
    {
        let ghost rest = all.skip(i as int);
        let first = args[i].as_str();
        assert(rest[0] == first@);
        assert(rest.skip(1) =~= all.skip(i + 1));
        if i + 1 < n {
            assert(rest[1] == args@[i + 1]@);
            assert(rest.skip(2) =~= all.skip(i + 2));
        }
        if same(first, "--timeout-ms") {
            if i + 1 >= n {
                return Err(no_value(first));
            }
            match read_limit(args[i + 1].as_str()) {
                Ok(limit) => {
                    timeout_ms = limit;
                },
                Err(fault) => return Err(fault),
            }
            i += 2;
        } else if same(first, "--client") || same(first, "--mouse-size-px") {
            if i + 1 >= n {
                return Err(no_value(first));
            }
            i += 2;
        } else if same(first, "-h") || same(first, "--help") {
            return Ok(Asked::Help);
        } else if starts_with(first, "--") {
            if i + 1 < n && !starts_with(args[i + 1].as_str(), "--") {
                i += 2;
            } else {
                i += 1;
            }
        } else {
            return Ok(Asked::Run(Cli { command: first.to_owned(), timeout_ms }));
        }
    }
    Err(Fault::of("no subcommand provided"))
}

proof fn lemma_limits_are_accepted(args: Seq<Seq<char>>, timeout_ms: u64)
    requires
        accepted_timeout(timeout_ms),
    ensures
        asked(args, timeout_ms) matches Ok(Asked::Run(cli)) ==> accepted_timeout(cli.timeout_ms),
    decreases args.len(),
{
    if args.len() > 0 {
        lemma_limits_are_accepted(args.skip(1), timeout_ms);
        if args.len() >= 2 {
            lemma_limits_are_accepted(args.skip(2), timeout_ms);
            if let Ok(limit) = limit_of(args[1]) {
                lemma_limits_are_accepted(args.skip(2), limit);
            }
        }
    }
}

/// Whatever the command line, a command is run only with a time limit that the
/// daemon accepts.
pub proof fn law_limits_are_accepted(args: Seq<Seq<char>>)
    ensures
        asked(args, DEFAULT_TIMEOUT_MS) matches Ok(Asked::Run(cli)) ==> accepted_timeout(
            cli.timeout_ms,
        ),
{
    lemma_limits_are_accepted(args, DEFAULT_TIMEOUT_MS);
}

/// The request that is sent to the daemon.
pub open spec fn request_value(cli: CliView, input: JsonView) -> JsonView {
    JsonView::Object(
        no_members().push(("cmd"@, JsonView::Text(cli.command))).push(("input"@, input)).push(
            ("timeout_ms"@, int_value(cli.timeout_ms as int)),
        ),
    )
}

/// The text of a command's input, without white space around it; none where
/// nothing else was given, which stands for an empty object.
pub fn given_input(raw: &str) -> (r: Option<&str>)
    ensures
        r is None <==> trimmed(raw@).len() == 0,
        r is Some ==> r->Some_0@ == trimmed(raw@),
{
    let given = trim(raw);
    if given.unicode_len() == 0 {
        None
    } else {
        Some(given)
    }
}

/// Makes the request that is sent to the daemon.
pub fn make_request(cli: &Cli, input: Json) -> (r: Json)
    ensures
        r@ == request_value(cli@, input@),
{
    Members::new().with("cmd", text(cli.command.as_str())).with("input", input).with(
        "timeout_ms",
        natural(cli.timeout_ms),
    ).object()
}

/// What the daemon's response means: what is printed, or the failure.
pub open spec fn meaning(response: JsonView) -> Result<Seq<char>, FaultView> {
    let ok = match response.get("ok"@) {
        Some(v) => v.truth() == Some(true),
        None => false,
    };
    if ok {
        Ok(text_or(response, "stdout"@, ""@))
    } else {
        Err(general(text_or(response, "error"@, "unknown daemon error"@)))
    }
}

/// Reads the daemon's response.
pub fn read_response(response: &Json) -> (r: Result<String, Fault>)
    ensures
        agrees(r, meaning(response@)),
{
    let ok = match response.get("ok") {
        Some(v) => match v.as_bool() {
            Some(b) => b,
            None => false,
        },
        None => false,
    };
    if ok {
        let out = match response.get("stdout") {
            Some(v) => match v.as_str() {
                Some(s) => s,
                None => "",
            },
            None => "",
        };
        return Ok(out.to_owned());
    }
    let error = match response.get("error") {
        Some(v) => match v.as_str() {
            Some(s) => s,
            None => "unknown daemon error",
        },
        None => "unknown daemon error",
    };
    Err(Fault::of(error))
}

/// A line that the daemon sent; an empty one is none.
pub fn check_line(line: &str) -> (r: Result<(), Fault>)
    ensures
        agrees(
            r,
            if trimmed(line@).len() == 0 {
                Err(general("empty response from computer-use helper"@))
            } else {
                Ok(())
            },
        ),
{
    if blank(line) {
        return Err(Fault::of("empty response from computer-use helper"));
    }
    Ok(())
}

/// What is said where the daemon does not respond in time.
pub fn response_timed_out() -> (r: Fault)
    ensures
        r@ == general(
            "timed out waiting for the computer-use helper response: deadline has elapsed"@,
        ),
{
    Fault::of("timed out waiting for the computer-use helper response: deadline has elapsed")
}

/// What came of an attempt to reach the daemon.
#[derive(Clone, Copy, Debug, PartialEq, Eq, Structural)]
pub enum Attempt {
    Connected,
    Refused,
    TimedOut,
}

/// What follows on an attempt to reach the daemon.
#[derive(Debug)]
pub enum Next<F> {
    /// Send the request.
    Send,
    /// Start the daemon and try again at once.
    Start,
    /// Wait so many milliseconds and try again.
    Retry(u64),
    Failed(F),
}

/// What follows on the first attempt to reach the daemon.
pub open spec fn first_attempt(attempt: Attempt) -> Next<FaultView> {
    if attempt == Attempt::Connected {
        Next::Send
    } else {
        Next::Start
    }
}

/// Decides what follows on the first attempt to reach the daemon.
pub fn after_first_attempt(attempt: Attempt) -> (r: Next<Fault>)
    ensures
        match (r, first_attempt(attempt)) {
            (Next::Send, Next::Send) => true,
            (Next::Start, Next::Start) => true,
            _ => false,
        },
{
    match attempt {
        Attempt::Connected => Next::Send,
        _ => Next::Start,
    }
}

/// How long, in milliseconds, a daemon that was started may take: the first
/// start has to be permitted by the user.
pub fn startup_ms(timeout_ms: u64) -> (r: u64)
    ensures
        r == (if timeout_ms < FIRST_START_TIMEOUT_MS {
            FIRST_START_TIMEOUT_MS
        } else {
            timeout_ms
        }),
{
    if timeout_ms < FIRST_START_TIMEOUT_MS {
        FIRST_START_TIMEOUT_MS
    } else {
        timeout_ms
    }
}

/// The failure that the daemon left behind, if it did.
pub open spec fn left_failure(status: Option<Seq<char>>) -> Option<Seq<char>> {
    match status {
        Some(s) => if "error: "@.is_prefix_of(s) {
            Some(trimmed(s.skip("error: "@.len() as int)))
        } else {
            None
        },
        None => None,
    }
}

/// What follows on a later attempt to reach the daemon, given the status that
/// it left and whether its time is up.
pub open spec fn later_attempt(attempt: Attempt, status: Option<Seq<char>>, expired: bool) -> Next<
    FaultView,
> {
    match attempt {
        Attempt::Connected => Next::Send,
        Attempt::TimedOut => Next::Failed(
            general("timed out connecting to the computer-use helper"@),
        ),
        Attempt::Refused => match left_failure(status) {
            Some(why) => Next::Failed(general("computer-use portal setup failed: "@ + why)),
            None => if expired {
                Next::Failed(
                    general("timed out waiting for the computer-use helper to become ready"@),
                )
            } else {
                Next::Retry(CONNECT_PAUSE_MS)
            },
        },
    }
}

/// Decides what follows on a later attempt to reach the daemon.
pub fn after_later_attempt(attempt: Attempt, status: &Option<String>, expired: bool) -> (r: Next<
    Fault,
>)
    ensures
        match (r, later_attempt(attempt, opt_text(*status), expired)) {
            (Next::Send, Next::Send) => true,
            (Next::Retry(a), Next::Retry(b)) => a == b,
            (Next::Failed(f), Next::Failed(e)) => f@ == e,
            _ => false,
        },
{
    match attempt {
        Attempt::Connected => Next::Send,
        Attempt::TimedOut => Next::Failed(
            Fault::of("timed out connecting to the computer-use helper"),
        ),
        Attempt::Refused => {
            if let Some(s) = status {
                if starts_with(s.as_str(), "error: ") {
                    let prefix = "error: ";
                    let from = prefix.unicode_len();
                    let to = s.as_str().unicode_len();
                    let rest = s.as_str().substring_char(from, to);
                    assert(rest@ =~= s@.skip("error: "@.len() as int));
                    let mut message = "computer-use portal setup failed: ".to_owned();
                    message.append(trim(rest));
                    return Next::Failed(Fault::new(message));
                }
            }
            if expired {
                return Next::Failed(
                    Fault::of("timed out waiting for the computer-use helper to become ready"),
                );
            }
            Next::Retry(CONNECT_PAUSE_MS)
        },
    }
}

/// The directory in which the socket lies: it has to be named, and by its whole
/// path.
pub open spec fn runtime_check(dir: Option<Seq<char>>) -> Result<(), FaultView> {
    match dir {
        None => Err(
            general("XDG_RUNTIME_DIR is required for the private computer-use runtime"@),
        ),
        Some(d) => if d.len() == 0 {
            Err(general("XDG_RUNTIME_DIR is required for the private computer-use runtime"@))
        } else if !("/"@.is_prefix_of(d)) {
            Err(general("XDG_RUNTIME_DIR must be an absolute path"@))
        } else {
            Ok(())
        },
    }
}

/// Refuses a directory in which the socket cannot lie.
pub fn check_runtime_dir(dir: Option<&str>) -> (r: Result<(), Fault>)
    ensures
        agrees(
            r,
            runtime_check(
                match dir {
                    Some(d) => Some(d@),
                    None => None,
                },
            ),
        ),
{
    match dir {
        None => Err(
            Fault::of("XDG_RUNTIME_DIR is required for the private computer-use runtime"),
        ),
        Some(d) => {
            if d.unicode_len() == 0 {
                return Err(
                    Fault::of("XDG_RUNTIME_DIR is required for the private computer-use runtime"),
                );
            }
            if !starts_with(d, "/") {
                return Err(Fault::of("XDG_RUNTIME_DIR must be an absolute path"));
            }
            Ok(())
        },
    }
}

/// The daemon reads in a request just what was written into it.
pub proof fn law_requests_are_understood(cli: CliView, input: JsonView)
    requires
        accepted_timeout(cli.timeout_ms),
    ensures
        request_of(request_value(cli, input), false) == Ok::<RequestView, FaultView>(
            RequestView { command: cli.command, input, timeout_ms: cli.timeout_ms },
        ),
{
    reveal_strlit("cmd");
    reveal_strlit("input");
    reveal_strlit("timeout_ms");
    assert("cmd"@.len() == 3);
    assert("input"@.len() == 5);
    assert("timeout_ms"@.len() == 10);
    let limit = int_value(cli.timeout_ms as int);
    let a = no_members();
    let b = a.push(("cmd"@, JsonView::Text(cli.command)));
    let c = b.push(("input"@, input));
    lemma_found_push(a, "cmd"@, JsonView::Text(cli.command), "cmd"@);
    lemma_found_push(b, "input"@, input, "cmd"@);
    lemma_found_push(c, "timeout_ms"@, limit, "cmd"@);
    lemma_found_push(a, "cmd"@, JsonView::Text(cli.command), "input"@);
    lemma_found_push(b, "input"@, input, "input"@);
    lemma_found_push(c, "timeout_ms"@, limit, "input"@);
    lemma_found_push(a, "cmd"@, JsonView::Text(cli.command), "timeout_ms"@);
    lemma_found_push(b, "input"@, input, "timeout_ms"@);
    lemma_found_push(c, "timeout_ms"@, limit, "timeout_ms"@);
}

/// The client reads in a response just what was written into it: what a
/// command printed, or the message of its failure.
pub proof fn law_responses_are_understood(result: Result<Seq<char>, FaultView>)
    ensures
        meaning(response(result)) == (match result {
            Ok(stdout) => Ok::<Seq<char>, FaultView>(stdout),
            Err(e) => Err(general(e.message)),
        }),
{
    reveal_strlit("ok");
    reveal_strlit("stdout");
    reveal_strlit("error");
    assert("ok"@.len() == 2);
    assert("stdout"@.len() == 6);
    assert("error"@.len() == 5);
    let a = no_members();
    match result {
        Ok(stdout) => {
            let b = a.push(("ok"@, JsonView::Bool(true)));
            lemma_found_push(a, "ok"@, JsonView::Bool(true), "ok"@);
            lemma_found_push(b, "stdout"@, JsonView::Text(stdout), "ok"@);
            lemma_found_push(a, "ok"@, JsonView::Bool(true), "stdout"@);
            lemma_found_push(b, "stdout"@, JsonView::Text(stdout), "stdout"@);
        },
        Err(e) => {
            let b = a.push(("ok"@, JsonView::Bool(false)));
            lemma_found_push(a, "ok"@, JsonView::Bool(false), "ok"@);
            lemma_found_push(b, "error"@, JsonView::Text(e.message), "ok"@);
            lemma_found_push(a, "ok"@, JsonView::Bool(false), "error"@);
            lemma_found_push(b, "error"@, JsonView::Text(e.message), "error"@);
        },
    }
}

/// A command line runs the first word that is no option, within the time limit
/// that was given last before it: options and their values are passed over, and
/// only the time limit has an effect.
pub proof fn law_options_are_passed_over(
    args: Seq<Seq<char>>,
    option: Seq<char>,
    value: Seq<char>,
    timeout_ms: u64,
)
    requires
        option == "--timeout-ms"@ || option == "--client"@ || option == "--mouse-size-px"@,
    ensures
        option == "--timeout-ms"@ ==> match limit_of(value) {
            Ok(limit) => asked(seq![option, value] + args, timeout_ms) == asked(args, limit),
            Err(_) => asked(seq![option, value] + args, timeout_ms) is Err,
        },
        option != "--timeout-ms"@ ==> asked(seq![option, value] + args, timeout_ms) == asked(
            args,
            timeout_ms,
        ),
{
    let all = seq![option, value] + args;
    assert(all.skip(2) =~= args);
    assert(all[0] == option && all[1] == value);
}

/// A word that is no option is the command, and what follows it does not
/// matter.
pub proof fn law_the_first_word_is_the_command(
    word: Seq<char>,
    rest: Seq<Seq<char>>,
    timeout_ms: u64,
)
    requires
        word.len() > 0,
        word[0] != '-',
    ensures
        asked(seq![word] + rest, timeout_ms) == Ok::<Asked<CliView>, FaultView>(
            Asked::Run(CliView { command: word, timeout_ms }),
        ),
{
    reveal_strlit("--timeout-ms");
    reveal_strlit("--client");
    reveal_strlit("--mouse-size-px");
    reveal_strlit("-h");
    reveal_strlit("--help");
    reveal_strlit("--");
    assert("--timeout-ms"@[0] == '-');
    assert("--client"@[0] == '-');
    assert("--mouse-size-px"@[0] == '-');
    assert("-h"@[0] == '-');
    assert("--help"@[0] == '-');
    assert("--"@[0] == '-');
    let all = seq![word] + rest;
    assert(all[0] == word);
}

/// A time limit is a number of milliseconds from a tenth of a second to two
/// minutes, as it is written.
pub proof fn law_limits_are_read_as_written(n: nat)
    requires
        n <= u64::MAX,
    ensures
        100 <= n <= 120_000 ==> limit_of(crate::text::decimal(n as int)) == Ok::<u64, FaultView>(
            n as u64,
        ),
        !(100 <= n <= 120_000) ==> limit_of(crate::text::decimal(n as int)) is Err,
{
    crate::text::law_numbers_are_read_back(n, 0, u64::MAX as nat);
}

/// A response that does not say that all went well is a failure.
pub proof fn law_only_good_responses_are_printed(response: JsonView)
    ensures
        meaning(response) is Ok <==> response.get("ok"@) == Some(JsonView::Bool(true)),
        meaning(response) matches Ok(out) ==> match response.get("stdout"@) {
            Some(JsonView::Text(s)) => out == s,
            _ => out == ""@,
        },
        meaning(response) matches Err(e) ==> match response.get("error"@) {
            Some(JsonView::Text(s)) => e.message == s,
            _ => e.message == "unknown daemon error"@,
        },
{
}

/// The request is sent just where the daemon was reached; it is started where
/// it was not at first, and waited for until it fails or its time is up.
pub proof fn law_the_daemon_is_waited_for(
    attempt: Attempt,
    status: Option<Seq<char>>,
    expired: bool,
)
    ensures
        first_attempt(attempt) is Send <==> attempt == Attempt::Connected,
        first_attempt(attempt) is Start <==> attempt != Attempt::Connected,
        later_attempt(attempt, status, expired) is Send <==> attempt == Attempt::Connected,
        later_attempt(attempt, status, expired) is Retry <==> attempt == Attempt::Refused
            && !expired && !(status is Some && "error: "@.is_prefix_of(status->Some_0)),
        later_attempt(attempt, status, expired) matches Next::Retry(ms) ==> ms == 200,
        !(later_attempt(attempt, status, expired) is Start),
{
}

/// The socket lies in a directory that is named by its whole path, and nowhere
/// else.
pub proof fn law_the_runtime_directory_is_absolute(dir: Option<Seq<char>>)
    ensures
        runtime_check(dir) is Ok <==> dir is Some && dir->Some_0.len() > 0 && dir->Some_0[0] == '/',
{
    reveal_strlit("/");
    if let Some(d) = dir {
        if d.len() > 0 && d[0] == '/' {
            assert("/"@ =~= d.subrange(0, 1));
        }
        if "/"@.is_prefix_of(d) {
            assert(d[0] == "/"@[0]);
        }
    }
}

/// The failure that the daemon left behind is what stands behind its mark.
pub proof fn law_left_failures_are_told(why: Seq<char>)
    ensures
        left_failure(Some("error: "@ + why)) == Some(trimmed(why)),
        left_failure(None) is None,
        later_attempt(Attempt::Refused, Some("error: "@ + why), false) is Failed,
{
    let s = "error: "@ + why;
    let mark = "error: "@;
    assert(mark =~= s.subrange(0, mark.len() as int));
    assert(s.skip(mark.len() as int) =~= why);
}

/// A command and its time limit are seen as they are.
pub proof fn law_command_lines_are_seen_as_they_are(cli: Cli)
    ensures
        cli@.command == cli.command@ && cli@.timeout_ms == cli.timeout_ms,
{
}

} // verus!

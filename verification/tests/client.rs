use sky_wayland::binary64::Real;
use sky_wayland::client::{
    after_first_attempt, after_later_attempt, check_line, check_runtime_dir, given_input,
    make_request, parse_cli_from, read_response, response_timed_out, startup_ms, Asked, Attempt, Cli, Next,
};
use sky_wayland::daemon::{
    bad_request, close_limit, command_kind, conclude, list_picture, picture_file_name,
    picture_outcome, read_request, report_close, report_stream, request_timeout_ms, respond,
    CommandKind, SessionReply,
};
use sky_wayland::deadline::{Deadline, DEFAULT_TIMEOUT_MS, MAX_TIMEOUT_MS, MIN_TIMEOUT_MS};
use sky_wayland::fault::Fault;
use sky_wayland::json::{integer, text, Json, Members};
use sky_wayland::text::{parse_unsigned, show_i64, show_u64, split, trim, words};

fn cli(args: &[String]) -> Result<Cli, Fault> {
    match parse_cli_from(&args.to_vec())? {
        Asked::Run(cli) => Ok(cli),
        Asked::Help => panic!("help was asked for"),
    }
}

#[test]
fn parses_and_bounds_timeout() {
    let default = cli(&["move".to_owned()]).unwrap();
    assert_eq!(default.timeout_ms, DEFAULT_TIMEOUT_MS);

    let minimum = cli(&[
        "--timeout-ms".to_owned(),
        MIN_TIMEOUT_MS.to_string(),
        "click".to_owned(),
    ])
    .unwrap();
    assert_eq!(minimum.timeout_ms, MIN_TIMEOUT_MS);

    let maximum = cli(&[
        "--timeout-ms".to_owned(),
        MAX_TIMEOUT_MS.to_string(),
        "drag".to_owned(),
    ])
    .unwrap();
    assert_eq!(maximum.timeout_ms, MAX_TIMEOUT_MS);

    assert!(cli(&[
        "--timeout-ms".to_owned(),
        (MIN_TIMEOUT_MS - 1).to_string(),
        "move".to_owned(),
    ])
    .is_err());
    assert!(cli(&[
        "--timeout-ms".to_owned(),
        (MAX_TIMEOUT_MS + 1).to_string(),
        "move".to_owned(),
    ])
    .is_err());
    assert!(cli(&["--timeout-ms".to_owned(), "not-a-number".to_owned()]).is_err());
}

fn words_of(line: &str) -> Vec<String> {
    line.split(' ').map(str::to_owned).collect()
}

#[test]
fn options_are_skipped_with_their_values() {
    let run = |line: &str| cli(&words_of(line));
    assert_eq!(run("--client a --x y --mouse-size-px --z click rest").unwrap().command, "click");
    assert_eq!(run("--x --y click").unwrap_err().message, "no subcommand provided");
    assert_eq!(run("--client").unwrap_err().message, "--client requires a value");
    assert_eq!(run("--timeout-ms").unwrap_err().message, "--timeout-ms requires a value");
    assert_eq!(
        run("--timeout-ms 99 move").unwrap_err().message,
        "--timeout-ms must be between 100 and 120000"
    );
    assert_eq!(
        run("--timeout-ms x move").unwrap_err().message,
        "invalid --timeout-ms value \"x\": invalid digit found in string"
    );
    assert_eq!(
        run("--timeout-ms 99999999999999999999 move").unwrap_err().message,
        "invalid --timeout-ms value \"99999999999999999999\": number too large to fit in target type"
    );
    assert_eq!(run("--timeout-ms +100 -x").unwrap().command, "-x");
    assert!(matches!(parse_cli_from(&words_of("--x y -h")), Ok(Asked::Help)));
}

#[test]
fn a_request_is_understood_by_the_daemon() {
    let asked = Cli { command: "click".to_owned(), timeout_ms: 500 };
    let input = Members::new().with("x", integer(1)).object();
    let request = make_request(&asked, input);
    let read = read_request(&request, false).unwrap();
    assert_eq!(read.command, "click");
    assert_eq!(read.timeout_ms, 500);
    assert_eq!(read.input.get("x").unwrap().as_i64(), Some(1));
    assert_eq!(
        read_request(&request, true).unwrap_err().message,
        "RemoteDesktop backend is invalid; daemon is terminating"
    );
    assert_eq!(
        request_timeout_ms(&Members::new().with("timeout_ms", integer(-1)).object())
            .unwrap_err()
            .message,
        "request timeout_ms must be an unsigned integer"
    );
    assert_eq!(
        request_timeout_ms(&Members::new().with("timeout_ms", integer(5)).object())
            .unwrap_err()
            .message,
        "request timeout_ms must be between 100 and 120000"
    );
    let empty = read_request(&Members::new().with("timeout_ms", integer(100)).object(), false)
        .unwrap();
    assert_eq!(empty.command, "");
    assert!(empty.input.is_null());
}

#[test]
fn a_response_is_understood_by_the_client() {
    assert_eq!(read_response(&respond(Ok("out".to_owned()))).unwrap(), "out");
    assert_eq!(
        read_response(&respond(Err(Fault::of("why")))).unwrap_err().message,
        "why"
    );
    assert_eq!(
        read_response(&bad_request("eof")).unwrap_err().message,
        "bad request json: eof"
    );
    assert_eq!(
        read_response(&Json::Null).unwrap_err().message,
        "unknown daemon error"
    );
    let quiet = Members::new().with("ok", Json::Bool(true)).object();
    assert_eq!(read_response(&quiet).unwrap(), "");
    assert_eq!(
        read_response(&conclude(Err(Fault::of("a")), Some(Err(Fault::of("b")))))
            .unwrap_err()
            .message,
        "a; session close also failed: b"
    );
    assert_eq!(read_response(&conclude(Ok("x".to_owned()), None)).unwrap(), "x");
}

#[test]
fn commands_are_known_by_name() {
    assert_eq!(command_kind("get_screenshot").unwrap(), CommandKind::Screenshot);
    assert_eq!(command_kind("type_text").unwrap(), CommandKind::TypeText);
    assert_eq!(command_kind("").unwrap_err().message, "unknown command: ");
}

#[test]
fn the_session_is_closed_within_what_is_left() {
    let deadline = Deadline { end: 1_000 };
    assert_eq!(close_limit(deadline, 400), 600);
    assert_eq!(close_limit(deadline, 1_000), 10_000_000);
    assert!(report_close(SessionReply::Done).is_ok());
    assert_eq!(
        report_close(SessionReply::Failed("x".to_owned())).unwrap_err().message,
        "failed to close invalid RemoteDesktop session: x"
    );
    assert_eq!(
        report_close(SessionReply::TimedOut).unwrap_err().message,
        "timed out closing invalid RemoteDesktop session"
    );
    assert_eq!(
        report_stream(SessionReply::Failed("x".to_owned())).unwrap_err().message,
        "open_pipe_wire_remote failed; RemoteDesktop session invalidated: x"
    );
    assert_eq!(
        report_stream(SessionReply::TimedOut).unwrap_err().message,
        "open_pipe_wire_remote timed out; RemoteDesktop session invalidated"
    );
}

#[test]
fn pictures_are_named_listed_and_checked() {
    assert_eq!(picture_file_name(12, 3_456), "codex-cu-12-3456.jpg");
    assert_eq!(list_picture("/tmp/a\"b.jpg"), "[{\"filepath\":\"/tmp/a\\\"b.jpg\"}]");
    assert!(picture_outcome(true, "exit status: 0", b"", true).is_ok());
    assert_eq!(
        picture_outcome(false, "exit status: 1", b" no\xff\n", true).unwrap_err().message,
        "gstreamer capture failed (exit status: 1): no\u{fffd}"
    );
    assert_eq!(
        picture_outcome(true, "exit status: 0", b"", false).unwrap_err().message,
        "screenshot file was not produced"
    );
}

#[test]
fn the_helper_is_started_once_and_awaited() {
    assert!(matches!(after_first_attempt(Attempt::Connected), Next::Send));
    assert!(matches!(after_first_attempt(Attempt::TimedOut), Next::Start));
    assert!(matches!(after_first_attempt(Attempt::Refused), Next::Start));
    assert_eq!(startup_ms(10_000), 180_000);
    assert_eq!(startup_ms(200_000), 200_000);
    let failed = |next: Next<Fault>| match next {
        Next::Failed(fault) => fault.message,
        _ => panic!("it went on"),
    };
    assert_eq!(
        failed(after_later_attempt(Attempt::TimedOut, &None, false)),
        "timed out connecting to the computer-use helper"
    );
    assert_eq!(
        failed(after_later_attempt(Attempt::Refused, &Some("error: denied \n".to_owned()), false)),
        "computer-use portal setup failed: denied"
    );
    assert_eq!(
        failed(after_later_attempt(Attempt::Refused, &Some("ready".to_owned()), true)),
        "timed out waiting for the computer-use helper to become ready"
    );
    assert!(matches!(after_later_attempt(Attempt::Refused, &None, false), Next::Retry(200)));
    assert!(matches!(after_later_attempt(Attempt::Connected, &None, true), Next::Send));
    assert_eq!(
        check_line(" \n").unwrap_err().message,
        "empty response from computer-use helper"
    );
    assert_eq!(
        response_timed_out().message,
        "timed out waiting for the computer-use helper response: deadline has elapsed"
    );
    assert!(check_runtime_dir(Some("/run")).is_ok());
    assert_eq!(
        check_runtime_dir(Some("run")).unwrap_err().message,
        "XDG_RUNTIME_DIR must be an absolute path"
    );
    assert_eq!(
        check_runtime_dir(Some("")).unwrap_err().message,
        "XDG_RUNTIME_DIR is required for the private computer-use runtime"
    );
    assert!(check_runtime_dir(None).is_err());
}

fn number(x: f64) -> Real {
    Real { bits: x.to_bits() }
}

#[test]
fn doubles_are_compared_as_numbers() {
    let values = [
        f64::NEG_INFINITY, -2.5, -1.0e-300, -0.0, 0.0, 4.9e-324, 1.0, 1.5, 2.0e300, f64::INFINITY,
        f64::NAN,
    ];
    for a in values {
        assert_eq!(number(a).is_finite(), a.is_finite());
        assert_eq!(number(a).abs().bits, a.abs().to_bits());
        assert_eq!(number(a).negated().bits, (-a).to_bits());
        for b in values {
            assert_eq!(number(a).lt(number(b)), a < b);
            assert_eq!(number(a).le(number(b)), a <= b);
        }
    }
    for n in [0, 1, 2, 3, 1 << 53, (1 << 53) + 1, (1 << 53) + 3, u64::MAX, u64::MAX - 1_024] {
        assert_eq!(Real::from_natural(n).bits, (n as f64).to_bits());
    }
    for n in [0, -1, 5, i64::MIN, i64::MAX, -(1 << 53) - 1] {
        assert_eq!(Real::from_integer(n).bits, (n as f64).to_bits());
    }
}

#[test]
fn texts_are_read_as_the_standard_library_reads_them() {
    for s in [" a\u{a0}\t", "", "a b", "\u{3000}x\u{85}", "a  b\nc"] {
        assert_eq!(trim(s), s.trim());
        assert_eq!(words(s), s.split_whitespace().collect::<Vec<_>>());
        assert_eq!(split(s, ' '), s.split(' ').collect::<Vec<_>>());
    }
    for s in ["", "+", "-1", "+7", "007", "18446744073709551615", "18446744073709551616", "1_0"] {
        assert_eq!(parse_unsigned(s, u64::MAX), s.parse::<u64>().ok());
    }
    assert_eq!(show_u64(u64::MAX), u64::MAX.to_string());
    assert_eq!(show_i64(i64::MIN), i64::MIN.to_string());
    assert_eq!(text("x").as_str(), Some("x"));
}

#[test]
fn blank_input_counts_as_none() {
    assert_eq!(given_input(""), None);
    assert_eq!(given_input(" \t\r\n\u{a0}"), None);
    assert_eq!(given_input(" {\"x\": 1}\n"), Some("{\"x\": 1}"));
    assert_eq!(given_input("a  b"), Some("a  b"));
}

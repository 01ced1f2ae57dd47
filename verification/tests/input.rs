use sky_wayland::binary64::Real;
use sky_wayland::deadline::{Deadline, MIN_TIMEOUT_MS, NANOS_PER_MS};
use sky_wayland::input::{
    parse_click_count, parse_mouse_button, place, plan, select_monitor, validate_expected_uuid,
    validate_scroll, Command, Direction, Monitor, Placement, Point, Refusal, Step, StreamGeometry,
    BTN_LEFT, BTN_MIDDLE, BTN_RIGHT,
};
use sky_wayland::outcome::{
    cleanup_result, combine_cleanups, combine_operation_cleanup, combine_string_operation_cleanup,
    ensure_valid_state,
};
use sky_wayland::fault::Fault;
use sky_wayland::run::{Reply, Request, Run};

fn number(x: f64) -> Real {
    Real { bits: x.to_bits() }
}

fn point(x: f64, y: f64) -> Point {
    Point { x: number(x), y: number(y) }
}

fn monitor() -> Monitor {
    Monitor { origin_x: 0, origin_y: 0, width: 1920, height: 1080 }
}

const WINDOW: &str = "{w}";

fn click(count: Option<u32>, key: Option<&str>) -> Command<String> {
    Command::Click {
        point: point(10.0, 20.0),
        window: WINDOW.to_owned(),
        mouse_button: None,
        click_count: count,
        key: key.map(str::to_owned),
    }
}

#[test]
fn parses_only_supported_buttons_and_click_counts() {
    assert_eq!(parse_mouse_button(None).unwrap(), BTN_LEFT);
    assert_eq!(parse_mouse_button(Some("left")).unwrap(), BTN_LEFT);
    assert_eq!(parse_mouse_button(Some("l")).unwrap(), BTN_LEFT);
    assert_eq!(parse_mouse_button(Some("right")).unwrap(), BTN_RIGHT);
    assert_eq!(parse_mouse_button(Some("r")).unwrap(), BTN_RIGHT);
    assert_eq!(parse_mouse_button(Some("middle")).unwrap(), BTN_MIDDLE);
    assert_eq!(parse_mouse_button(Some("m")).unwrap(), BTN_MIDDLE);
    assert!(parse_mouse_button(Some("primary")).is_err());

    assert_eq!(parse_click_count(None).unwrap(), 1);
    assert_eq!(parse_click_count(Some(1)).unwrap(), 1);
    assert_eq!(parse_click_count(Some(3)).unwrap(), 3);
    assert!(parse_click_count(Some(0)).is_err());
    assert!(parse_click_count(Some(4)).is_err());
}

#[test]
fn deadline_reserves_cleanup_time_and_expires() {
    let now: u64 = 5_000_000_000;
    let (deadline, cleanup) = Deadline::for_request_at(now, 1_000);
    assert_eq!(deadline.remaining_at(now).unwrap(), 900 * NANOS_PER_MS);
    assert_eq!(cleanup.remaining_at(now).unwrap(), 980 * NANOS_PER_MS);
    assert_eq!(
        cleanup.remaining_at(now + 900 * NANOS_PER_MS).unwrap(),
        80 * NANOS_PER_MS
    );
    assert!(deadline.remaining_at(now + 900 * NANOS_PER_MS).is_err());

    let (short, cleanup) = Deadline::for_request_at(now, MIN_TIMEOUT_MS);
    assert_eq!(short.remaining_at(now).unwrap(), 50 * NANOS_PER_MS);
    assert_eq!(cleanup.remaining_at(now).unwrap(), 80 * NANOS_PER_MS);
}

#[test]
fn a_deadline_that_is_reached_has_expired() {
    let (deadline, _) = Deadline::for_request_at(0, 1_000);
    assert!(deadline.check_at(899_999_999).is_ok());
    assert_eq!(
        deadline.check_at(900_000_000).unwrap_err().message,
        "request deadline expired"
    );
}

#[test]
fn invalid_state_gate_fails_closed() {
    assert!(ensure_valid_state(false).is_ok());
    assert!(ensure_valid_state(true).is_err());
}

#[test]
fn points_are_placed_by_the_half_open_bounds_of_the_monitor() {
    let right = Monitor { origin_x: 1920, origin_y: 0, width: 2560, height: 1440 };
    let left = Monitor { origin_x: -1280, origin_y: 0, width: 1280, height: 1024 };
    assert_eq!(place(point(1920.0, 0.0), &right), Placement::Inside);
    assert_eq!(place(point(-1279.0, 100.0), &left), Placement::Inside);
    assert_eq!(place(point(4480.0, 0.0), &right), Placement::Outside);
    assert_eq!(place(point(4479.999, 1439.999), &right), Placement::Inside);
    assert_eq!(place(point(-1281.0, 0.0), &left), Placement::Outside);
    assert_eq!(place(point(f64::NAN, 0.0), &right), Placement::NotFinite);
    assert_eq!(place(point(0.0, f64::NEG_INFINITY), &right), Placement::NotFinite);
}

#[test]
fn exactly_one_stream_with_a_place_and_a_size_is_selected() {
    let good = StreamGeometry { position: Some((5, -7)), size: Some((100, 50)) };
    let chosen = select_monitor(&vec![good]).unwrap();
    assert_eq!(
        (chosen.origin_x, chosen.origin_y, chosen.width, chosen.height),
        (5, -7, 100, 50)
    );
    let messages: Vec<String> = vec![
        select_monitor(&vec![]),
        select_monitor(&vec![StreamGeometry { position: None, size: Some((1, 1)) }]),
        select_monitor(&vec![StreamGeometry { position: Some((0, 0)), size: None }]),
        select_monitor(&vec![StreamGeometry { position: Some((0, 0)), size: Some((0, 4)) }]),
    ]
    .into_iter()
    .map(|r| r.unwrap_err().message)
    .collect();
    assert_eq!(
        messages,
        vec![
            "expected exactly one monitor screencast stream, received 0",
            "screencast stream did not report a compositor position",
            "screencast stream did not report a size",
            "screencast stream reported nonpositive logical size 0x4",
        ]
    );
}

#[test]
fn scrolling_takes_short_and_long_directions() {
    assert_eq!(validate_scroll(" up ", None).unwrap(), Direction::Up);
    assert_eq!(validate_scroll("r", Some(number(3.0))).unwrap(), Direction::Right);
    assert_eq!(
        validate_scroll("up", Some(number(f64::NAN))).unwrap_err().message,
        "scroll pixels must be finite"
    );
    assert_eq!(
        validate_scroll(" sideways ", None).unwrap_err().message,
        "invalid scroll direction: sideways"
    );
    assert!(validate_expected_uuid(" \t").is_err());
}

#[test]
fn a_click_is_planned_with_a_check_before_each_action() {
    let steps = plan(&click(Some(2), Some("ctrl")), &monitor()).unwrap();
    assert_eq!(
        steps,
        vec![
            Step::Check,
            Step::Focus,
            Step::KeyDown(0xffe3),
            Step::Focus,
            Step::Move(point(10.0, 20.0)),
            Step::Check,
            Step::Focus,
            Step::Press(BTN_LEFT),
            Step::Release(BTN_LEFT),
            Step::Check,
            Step::Focus,
            Step::Press(BTN_LEFT),
            Step::Release(BTN_LEFT),
        ]
    );
}

#[test]
fn scrolling_up_moves_by_the_negative_distance() {
    let up = Command::Scroll {
        direction: "up".to_owned(),
        window: WINDOW.to_owned(),
        pixels: None,
        x: None,
        y: None,
        key: None,
    };
    assert_eq!(
        plan(&up, &monitor()).unwrap(),
        vec![Step::Focus, Step::Axis(number(0.0), number(-120.0))]
    );
    let half = Command::Scroll {
        direction: "up".to_owned(),
        window: WINDOW.to_owned(),
        pixels: None,
        x: Some(number(1.0)),
        y: None,
        key: None,
    };
    match plan(&half, &monitor()) {
        Err(Refusal::Fault(fault)) => {
            assert_eq!(fault.message, "scroll x and y must be provided together")
        }
        other => panic!("{other:?}"),
    }
}

/// Runs a command, answering each request with `answer`; gives what was sent.
fn drive(run: &mut Run, now: u64, answer: impl Fn(&Request) -> Reply<String>) -> Vec<String> {
    let mut sent = Vec::new();
    loop {
        let request = run.next(now);
        match &request {
            Request::Finished => return sent,
            Request::Proceed => continue,
            Request::Awaiting => unreachable!(),
            Request::ActiveWindow { .. } => {}
            Request::Move { .. } => sent.push("move".to_owned()),
            Request::Button { code, pressed, .. } => sent.push(format!("button {code} {pressed}")),
            Request::Key { keysym, pressed, .. } => sent.push(format!("key {keysym} {pressed}")),
            Request::Axis { .. } => sent.push("axis".to_owned()),
        }
        run.reply(answer(&request));
    }
}

fn start(command: &Command<String>) -> Run {
    let (deadline, cleanup) = Deadline::for_request_at(0, 10_000);
    match Run::start(command, &monitor(), deadline, cleanup) {
        Ok(run) => run,
        Err(refusal) => panic!("{refusal:?}"),
    }
}

fn willing(request: &Request) -> Reply<String> {
    match request {
        Request::ActiveWindow { .. } => Reply::ActiveWindow(Some(WINDOW.to_owned())),
        _ => Reply::Done,
    }
}

#[test]
fn a_run_lets_go_of_its_modifiers() {
    let mut run = start(&click(None, Some("ctrl+shift")));
    let sent = drive(&mut run, 1, willing);
    assert_eq!(
        sent,
        vec![
            "key 65507 true",
            "key 65505 true",
            "move",
            "button 272 true",
            "button 272 false",
            "key 65505 false",
            "key 65507 false",
        ]
    );
    assert!(run.result().is_ok());
    assert!(!run.is_invalid());
}

#[test]
fn a_run_stops_where_another_window_is_active() {
    let mut run = start(&click(None, None));
    let sent = drive(&mut run, 1, |request| match request {
        Request::ActiveWindow { .. } => Reply::ActiveWindow(None),
        _ => Reply::Done,
    });
    assert!(sent.is_empty());
    assert_eq!(
        run.result().unwrap_err().message,
        "active window UUID mismatch: expected \"{w}\", actual \"<none>\""
    );
    assert!(!run.is_invalid());
}

#[test]
fn a_failed_press_is_still_released() {
    let mut run = start(&click(None, None));
    let sent = drive(&mut run, 1, |request| match request {
        Request::Button { pressed: true, .. } => Reply::Failed("broken".to_owned()),
        other => willing(other),
    });
    assert_eq!(sent, vec!["move", "button 272 true", "button 272 false"]);
    assert!(run.is_invalid());
    assert_eq!(
        run.result().unwrap_err().message,
        "pointer button failed; RemoteDesktop session invalidated: broken"
    );
}

#[test]
fn what_cannot_be_released_is_reported() {
    let mut run = start(&click(None, Some("ctrl")));
    let sent = drive(&mut run, 1, |request| match request {
        Request::Move { .. } => Reply::TimedOut,
        Request::Key { pressed: false, .. } => Reply::Failed("gone".to_owned()),
        other => willing(other),
    });
    assert_eq!(sent, vec!["key 65507 true", "move", "key 65507 false"]);
    assert!(run.is_invalid());
    assert_eq!(
        run.result().unwrap_err().message,
        "pointer motion timed out; RemoteDesktop session invalidated; cleanup also failed: \
         key release cleanup failed: keyboard keysym failed; RemoteDesktop session invalidated: gone"
    );
}

#[test]
fn a_run_without_time_sends_nothing() {
    let mut run = start(&click(None, None));
    let sent = drive(&mut run, u64::MAX, willing);
    assert!(sent.is_empty());
    assert_eq!(run.result().unwrap_err().message, "request deadline expired");
}

#[test]
fn typing_presses_and_releases_each_key() {
    let text = Command::TypeText { text: "a\n".to_owned(), window: WINDOW.to_owned() };
    let mut run = start(&text);
    assert_eq!(
        drive(&mut run, 1, willing),
        vec!["key 97 true", "key 97 false", "key 65293 true", "key 65293 false"]
    );
    assert!(run.result().is_ok());
}

#[test]
fn a_point_off_the_monitor_is_refused() {
    let away = Command::Move {
        point: point(5_000.0, 1.0),
        window: WINDOW.to_owned(),
        key: None,
    };
    assert!(matches!(
        plan(&away, &monitor()),
        Err(Refusal::Misplaced(_, Placement::Outside))
    ));
}

#[test]
fn failures_of_clean_ups_are_combined() {
    let fail = |m: &str| -> Result<(), Fault> { Err(Fault::of(m)) };
    assert_eq!(
        cleanup_result("key release", &vec!["a".to_owned(), "b".to_owned()])
            .unwrap_err()
            .message,
        "key release cleanup failed: a; b"
    );
    assert!(cleanup_result("key release", &vec![]).is_ok());
    assert_eq!(
        combine_cleanups(fail("a"), fail("b")).unwrap_err().message,
        "a; additional cleanup failure: b"
    );
    assert_eq!(combine_cleanups(Ok(()), fail("b")).unwrap_err().message, "b");
    assert_eq!(
        combine_operation_cleanup(fail("a"), fail("b")).unwrap_err().message,
        "a; cleanup also failed: b"
    );
    assert_eq!(
        combine_string_operation_cleanup(Err(Fault::of("a")), fail("b"))
            .unwrap_err()
            .message,
        "a; session close also failed: b"
    );
    assert_eq!(
        combine_string_operation_cleanup(Ok("x".to_owned()), Ok(())).unwrap(),
        "x"
    );
}

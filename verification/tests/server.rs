use sky_wayland::arguments::{
    i64_arg, normalize_direction, normalize_mouse_button, number_arg, optional_coordinate_pair,
    optional_i64, optional_string, optional_u64, reject_coordinates_with_element, string_arg,
    validate_pages,
};
use sky_wayland::binary64::Real;
use sky_wayland::call::{begin_call, ok_result, resume_call, write_apps, Query, Reply, Turn};
use sky_wayland::engine::{AppInfo, AppState, ElementTarget, PreparedPoint};
use sky_wayland::fault::Fault;
use sky_wayland::json::{double, dup, integer, text, Items, Json, Members, Number};
use sky_wayland::kwin::WindowInfo;
use sky_wayland::rpc::{
    answer_call, helper_outcome, helper_timed_out, named_helper, receive, Incoming,
};
use sky_wayland::tools::tool_defs;
use sky_wayland::tree::FocusedElement;

fn number(x: f64) -> Real {
    Real { bits: x.to_bits() }
}

/// Writes a value as compact text.
fn show(value: &Json) -> String {
    match value {
        Json::Null => "null".to_owned(),
        Json::Bool(b) => format!("{b}"),
        Json::Number(Number::Natural(n)) => format!("{n}"),
        Json::Number(Number::Negative(n)) => format!("{n}"),
        Json::Number(Number::Double(x)) => format!("{:?}", f64::from_bits(x.bits)),
        Json::Text(s) => format!("{s:?}"),
        Json::Array(items) => {
            format!("[{}]", items.iter().map(show).collect::<Vec<_>>().join(","))
        }
        Json::Object(members) => format!(
            "{{{}}}",
            members
                .iter()
                .map(|(name, value)| format!("{name:?}:{}", show(value)))
                .collect::<Vec<_>>()
                .join(",")
        ),
    }
}

fn none() -> Json {
    Members::new().object()
}

fn one(name: &str, value: Json) -> Json {
    Members::new().with(name, value).object()
}

#[test]
fn app_argument_is_enforced() {
    assert!(string_arg(&none(), "app").is_err());
    assert!(string_arg(&one("app", text("  ")), "app").is_err());
}

#[test]
fn finite_bounded_pages_only() {
    assert_eq!(validate_pages(number(1.0)).unwrap(), number(1.0));
    assert!(validate_pages(number(0.0)).is_err());
    assert!(validate_pages(number(21.0)).is_err());
    assert!(validate_pages(number(f64::NAN)).is_err());
}

#[test]
fn coordinates_are_finite_and_paired() {
    assert_eq!(
        optional_coordinate_pair(
            &Members::new().with("x", integer(10)).with("y", integer(20)).object()
        )
        .unwrap(),
        Some((number(10.0), number(20.0)))
    );
    assert!(optional_coordinate_pair(&one("x", integer(10))).is_err());
    assert!(number_arg(&one("x", double(number(f64::INFINITY))), "x").is_err());
}

#[test]
fn exactly_ten_tools_are_exposed() {
    match tool_defs() {
        Json::Array(tools) => assert_eq!(tools.len(), 10),
        other => panic!("{other:?}"),
    }
}

#[test]
fn every_offered_tool_can_be_called() {
    let Json::Array(tools) = tool_defs() else {
        panic!("the tools are no list");
    };
    for tool in &tools {
        let name = tool.get("name").unwrap().as_str().unwrap();
        if let Turn::Done(Err(fault)) = begin_call(name, none()) {
            assert!(!fault.message.contains("unknown tool"));
        }
    }
    assert_eq!(
        show(&tools[7]),
        "{\"name\":\"set_value\",\"description\":\"Activate the exact app and set a current-session \
         EditableText element. Requires get_app_state.\",\"inputSchema\":{\"type\":\"object\",\
         \"properties\":{\"app\":{\"type\":\"string\"},\"element_index\":{\"type\":\"integer\"},\
         \"value\":{\"type\":\"string\"}},\"required\":[\"app\",\"element_index\",\"value\"],\
         \"additionalProperties\":false}}"
    );
}

#[test]
fn arguments_are_refused_by_name() {
    assert_eq!(
        string_arg(&one("text", integer(1)), "text").unwrap_err().message,
        "missing or invalid string argument \"text\""
    );
    assert_eq!(string_arg(&one("text", text(" ")), "text").unwrap(), " ");
    assert_eq!(
        string_arg(&one("app", text("")), "app").unwrap_err().message,
        "app must not be empty"
    );
    assert_eq!(
        i64_arg(&one("n", double(number(1.5))), "n").unwrap_err().message,
        "missing or invalid integer argument \"n\""
    );
    assert_eq!(i64_arg(&one("n", integer(-3)), "n").unwrap(), -3);
    assert_eq!(
        number_arg(&none(), "x").unwrap_err().message,
        "missing or invalid number argument \"x\""
    );
    assert_eq!(
        optional_string(&one("p", integer(1)), "p").unwrap_err().message,
        "invalid string argument \"p\""
    );
    assert_eq!(optional_string(&one("p", Json::Null), "p").unwrap(), None);
    assert_eq!(
        optional_i64(&one("p", text("1")), "p").unwrap_err().message,
        "invalid integer argument \"p\""
    );
    assert_eq!(
        optional_u64(&one("p", integer(-1)), "p").unwrap_err().message,
        "invalid non-negative integer argument \"p\""
    );
    assert_eq!(optional_u64(&one("p", integer(4)), "p").unwrap(), Some(4));
    assert_eq!(
        optional_coordinate_pair(&one("y", integer(1))).unwrap_err().message,
        "x and y must be provided together"
    );
    assert_eq!(
        reject_coordinates_with_element(&one("x", Json::Null)).unwrap_err().message,
        "element_index cannot be combined with x/y"
    );
    assert_eq!(
        normalize_mouse_button(Some("primary")).unwrap_err().message,
        "invalid mouse_button \"primary\""
    );
    assert_eq!(normalize_mouse_button(Some("m")).unwrap(), Some("m"));
    assert_eq!(normalize_direction("u").unwrap(), "up");
    assert_eq!(
        normalize_direction(" up").unwrap_err().message,
        "invalid scroll direction:  up"
    );
    assert_eq!(
        validate_pages(number(20.5)).unwrap_err().message,
        "pages must be finite, greater than 0, and at most 20"
    );
}

fn target(action: Option<&str>) -> ElementTarget {
    ElementTarget {
        center_x: number(1.5),
        center_y: number(2.5),
        click_action: action.map(str::to_owned),
        window_uuid: "{a}".to_owned(),
    }
}

fn point(uuid: &str) -> PreparedPoint {
    PreparedPoint { x: number(3.0), y: number(4.0), window_uuid: uuid.to_owned() }
}

fn ended(turn: sky_wayland::call::CallTurn) -> Result<String, String> {
    match turn {
        Turn::Done(Ok(value)) => Ok(show(&value)),
        Turn::Done(Err(fault)) => Err(fault.message),
        Turn::Ask(..) => panic!("the call goes on"),
    }
}

const OK: &str = "{\"content\":[{\"type\":\"text\",\"text\":\"ok\"}]}";

#[test]
fn a_plain_click_uses_the_action_of_the_element() {
    let args = Members::new().with("app", text("k")).with("element_index", integer(3)).object();
    let Turn::Ask(Query::Target { app, index }, pending) = begin_call("click", args) else {
        panic!("no target was asked for");
    };
    assert_eq!((app.as_str(), index), ("k", 3));
    let turn = resume_call(pending, Reply::Target(target(Some("press"))));
    let Turn::Ask(Query::Act { action, .. }, pending) = turn else {
        panic!("the action was not used");
    };
    assert_eq!(action, "press");
    assert_eq!(ended(resume_call(pending, Reply::Done)).unwrap(), OK);
    assert_eq!(show(&ok_result()), OK);
}

#[test]
fn a_double_click_is_sent_to_the_window() {
    let args = Members::new()
        .with("app", text("k"))
        .with("element_index", integer(3))
        .with("mouse_button", text("left"))
        .with("click_count", integer(2))
        .object();
    let Turn::Ask(_, pending) = begin_call("click", args) else {
        panic!("no target was asked for");
    };
    let turn = resume_call(pending, Reply::Target(target(Some("press"))));
    let Turn::Ask(Query::Send { command, payload }, pending) = turn else {
        panic!("nothing was sent");
    };
    assert_eq!(command, "click");
    let Json::Object(mut members) = payload else {
        panic!("the payload is no object");
    };
    members.sort_by(|a, b| a.0.cmp(&b.0));
    assert_eq!(
        show(&Json::Object(members)),
        "{\"click_count\":2,\"expected_window_uuid\":\"{a}\",\"mouse_button\":\"left\",\"x\":1.5,\
         \"y\":2.5}"
    );
    assert_eq!(
        ended(resume_call(pending, Reply::Failed(Fault::of("late")))).unwrap_err(),
        "late"
    );
}

#[test]
fn bad_clicks_are_refused() {
    let args = |count: i64| {
        Members::new().with("app", text("k")).with("click_count", integer(count)).object()
    };
    assert_eq!(
        ended(begin_call("click", args(4))).unwrap_err(),
        "click_count must be between 1 and 3"
    );
    assert_eq!(
        ended(begin_call("click", args(1))).unwrap_err(),
        "missing or invalid number argument \"x\""
    );
    assert_eq!(ended(begin_call("fly", none())).unwrap_err(), "unknown tool: fly");
    assert_eq!(
        ended(begin_call("get_app_state", Json::Null)).unwrap_err(),
        "missing or invalid string argument \"app\""
    );
}

#[test]
fn a_drag_stays_in_one_window() {
    let args = || {
        Members::new()
            .with("app", text("k"))
            .with("from_x", integer(1))
            .with("from_y", integer(2))
            .with("to_x", integer(3))
            .with("to_y", integer(4))
            .object()
    };
    for (uuid, outcome) in [("{a}", true), ("{b}", false)] {
        let Turn::Ask(Query::Engine, pending) = begin_call("drag", args()) else {
            panic!("the engine was not asked for");
        };
        let Turn::Ask(Query::Translate { x, y, .. }, pending) = resume_call(pending, Reply::Done)
        else {
            panic!("no point was asked for");
        };
        assert_eq!((x, y), (number(1.0), number(2.0)));
        let Turn::Ask(Query::Translate { x, y, .. }, pending) =
            resume_call(pending, Reply::Point(point("{a}")))
        else {
            panic!("no second point was asked for");
        };
        assert_eq!((x, y), (number(3.0), number(4.0)));
        match resume_call(pending, Reply::Point(point(uuid))) {
            Turn::Ask(Query::Send { command, payload }, _) => {
                assert!(outcome);
                assert_eq!(command, "drag");
                assert_eq!(payload.get("from_x").unwrap().as_real(), Some(number(3.0)));
                assert_eq!(payload.get("to_y").unwrap().as_real(), Some(number(4.0)));
                assert_eq!(payload.get("expected_window_uuid").unwrap().as_str(), Some("{a}"));
            }
            Turn::Done(Err(fault)) => {
                assert!(!outcome);
                assert_eq!(
                    fault.message,
                    "app window changed while preparing drag; call get_app_state again"
                );
            }
            _ => panic!("unexpected turn"),
        }
    }
}

#[test]
fn a_scroll_without_a_place_uses_the_center() {
    let args = Members::new().with("app", text("k")).with("direction", text("d")).object();
    let Turn::Ask(Query::Center { app }, pending) = begin_call("scroll", args) else {
        panic!("no center was asked for");
    };
    assert_eq!(app, "k");
    let Turn::Ask(Query::Pixels { pages }, pending) =
        resume_call(pending, Reply::Point(point("{a}")))
    else {
        panic!("no distance was asked for");
    };
    assert_eq!(pages, number(1.0));
    let Turn::Ask(Query::Send { command, payload }, _) =
        resume_call(pending, Reply::Number(number(600.0)))
    else {
        panic!("nothing was sent");
    };
    assert_eq!(command, "scroll");
    assert_eq!(payload.get("direction").unwrap().as_str(), Some("down"));
    assert_eq!(payload.get("pixels").unwrap().as_real(), Some(number(600.0)));
    assert_eq!(payload.get("expected_window_uuid").unwrap().as_str(), Some("{a}"));
}

#[test]
fn keys_go_to_the_prepared_window() {
    let args = Members::new().with("app", text("k")).with("key", text("ctrl+a")).object();
    let Turn::Ask(Query::Prepare { .. }, pending) = begin_call("press_key", args) else {
        panic!("no window was prepared");
    };
    let Turn::Ask(Query::Send { payload, .. }, _) =
        resume_call(pending, Reply::Window("{w}".to_owned()))
    else {
        panic!("nothing was sent");
    };
    assert_eq!(payload.get("key").unwrap().as_str(), Some("ctrl+a"));
    assert_eq!(payload.get("expected_window_uuid").unwrap().as_str(), Some("{w}"));
}

#[test]
fn apps_are_listed_as_text() {
    let Turn::Ask(Query::ListApps, pending) = begin_call("list_apps", Json::Null) else {
        panic!("no list was asked for");
    };
    let app = |id: &str, name: Option<&str>| AppInfo {
        id: id.to_owned(),
        display_name: name.map(str::to_owned),
        is_running: true,
    };
    let apps = vec![app("k@{a}", Some("K \"1\"\n")), app("l@{b}", None)];
    let listed = "[{\"id\":\"k@{a}\",\"displayName\":\"K \\\"1\\\"\\n\",\"isRunning\":true},\
                  {\"id\":\"l@{b}\",\"displayName\":null,\"isRunning\":true}]";
    assert_eq!(write_apps(&apps), listed);
    assert_eq!(write_apps(&vec![]), "[]");
    match resume_call(pending, Reply::Apps(apps)) {
        Turn::Done(Ok(value)) => match value.get("content") {
            Some(Json::Array(items)) => {
                assert_eq!(items[0].get("text").unwrap().as_str(), Some(listed));
            }
            other => panic!("{other:?}"),
        },
        _ => panic!("the call goes on"),
    }
}

#[test]
fn a_state_holds_the_picture_in_base64() {
    let args = Members::new().with("app", text("k")).with("settle_ms", integer(5)).object();
    let Turn::Ask(Query::Snapshot { settle_ms, .. }, pending) = begin_call("get_app_state", args)
    else {
        panic!("no snapshot was asked for");
    };
    assert_eq!(settle_ms, Some(5));
    let state = AppState {
        window: WindowInfo {
            uuid: "{a}".to_owned(),
            caption: "c".to_owned(),
            resource_class: "r".to_owned(),
            resource_name: "n".to_owned(),
            desktop_file: "d".to_owned(),
            pid: 9,
            x: number(0.5),
            y: number(1.0),
            width: number(2.0),
            height: number(3.0),
            minimized: false,
            fullscreen: true,
        },
        tree: "t".to_owned(),
        screenshot_png: vec![0xff, 0xee, 0x01, 0x02],
        screenshot_width: 4,
        screenshot_height: 5,
        screenshot_scale: number(1.25),
        focused_element: Some(FocusedElement {
            index: 1,
            role: "entry".to_owned(),
            name: "e".to_owned(),
        }),
        accessibility_warning: None,
    };
    assert_eq!(
        ended(resume_call(pending, Reply::State(state))).unwrap(),
        "{\"content\":[{\"type\":\"image\",\"data\":\"/+4BAg==\",\"mimeType\":\"image/png\"},\
         {\"type\":\"text\",\"text\":\"t\"}],\"window\":{\"uuid\":\"{a}\",\"caption\":\"c\",\
         \"resourceClass\":\"r\",\"resourceName\":\"n\",\"desktopFile\":\"d\",\"pid\":9,\"x\":0.5,\
         \"y\":1.0,\"width\":2.0,\"height\":3.0,\"minimized\":false,\"fullscreen\":true},\
         \"screenshotWidth\":4,\"screenshotHeight\":5,\"screenshotScale\":1.25,\
         \"coordinateSpace\":\"screenshot\",\"focusedElement\":{\"index\":1,\"role\":\"entry\",\
         \"name\":\"e\"},\"accessibilityWarning\":null}"
    );
}

fn asked(method: &str, params: Json) -> Json {
    Members::new()
        .with("id", integer(7))
        .with("method", text(method))
        .with("params", params)
        .object()
}

#[test]
fn requests_are_answered_with_their_identifier() {
    let answer = |request: &Json| match receive(request) {
        Incoming::Answered(value) => show(&value),
        _ => panic!("no answer"),
    };
    assert_eq!(
        answer(&asked("ping", Json::Null)),
        "{\"jsonrpc\":\"2.0\",\"id\":7,\"result\":{}}"
    );
    assert_eq!(
        answer(&asked("fly", Json::Null)),
        "{\"jsonrpc\":\"2.0\",\"id\":7,\"error\":{\"code\":-32601,\"message\":\"method not found: \
         fly\"}}"
    );
    assert_eq!(
        answer(&asked("initialize", one("protocolVersion", text("v")))),
        "{\"jsonrpc\":\"2.0\",\"id\":7,\"result\":{\"protocolVersion\":\"v\",\"capabilities\":\
         {\"tools\":{}},\"serverInfo\":{\"name\":\"codex-computer-use-linux\",\"version\":\
         \"0.1.0\"}}}"
    );
    assert!(answer(&asked("initialize", Json::Null)).contains("\"2025-06-18\""));
    assert!(answer(&asked("tools/list", Json::Null)).contains("\"perform_secondary_action\""));
    assert!(matches!(receive(&one("method", text("ping"))), Incoming::Ignored));
}

#[test]
fn calls_are_taken_apart_and_answered() {
    let params = Members::new().with("name", text("click")).with("arguments", none()).object();
    match receive(&asked("tools/call", dup(&params))) {
        Incoming::Call { id, name, arguments } => {
            assert_eq!(show(&id), "7");
            assert_eq!(name, "click");
            assert_eq!(show(&arguments), "{}");
            assert_eq!(
                show(&answer_call(id, Err(Fault::of("no")))),
                "{\"jsonrpc\":\"2.0\",\"id\":7,\"result\":{\"isError\":true,\"content\":[{\"type\":\
                 \"text\",\"text\":\"no\"}]}}"
            );
        }
        _ => panic!("no call"),
    }
    assert_eq!(
        show(&answer_call(Json::Null, Ok(Items::new().list()))),
        "{\"jsonrpc\":\"2.0\",\"id\":null,\"result\":[]}"
    );
}

#[test]
fn the_helper_reports_what_it_wrote() {
    assert_eq!(helper_outcome(true, b"out\xff", b"").unwrap(), "out\u{fffd}");
    assert_eq!(
        helper_outcome(false, b"out", b" why \n").unwrap_err().message,
        "why"
    );
    assert_eq!(
        helper_timed_out("click").message,
        "sky_wayland click exceeded its hard timeout"
    );
}

#[test]
fn a_blank_name_of_the_helper_counts_as_none() {
    assert_eq!(named_helper(None), None);
    assert_eq!(named_helper(Some("")), None);
    assert_eq!(named_helper(Some(" \t")), None);
    assert_eq!(named_helper(Some(" /opt/sky ")), Some(" /opt/sky "));
}
